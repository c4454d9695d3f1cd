//! Turn a static archive of relocatable objects into a freestanding shared
//! object: parse the archive container into its members, synthesize the
//! linker control script (prologue, symbol-version map, and the full output
//! section layout a `-nostdlib` link needs), and assemble the external
//! linker's argument vector and exit-code policy.

pub mod archive;
pub mod encode;
pub mod error;
pub mod linkcmd;
pub mod naming;
pub mod script;
pub mod soname;
