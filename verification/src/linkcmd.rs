use vstd::prelude::*;
use crate::error::ToolError;

verus! {

/// The flags of the freestanding link, in the order they are handed to the
/// linker after `-o <output>`: static libraries resolved in place, a shared
/// position-independent output, link-time optimization, no symbol left
/// undefined, and no standard library or startup code.
pub open spec fn spec_link_flags() -> Seq<Seq<char>> {
    seq!["-Bstatic"@, "-shared"@, "-fPIC"@, "-flto"@, "-no-undefined"@, "-nostdlib"@]
}

/// The full argument vector of the external linker: the extracted objects in
/// order, the optional static runtime archive, the output path, the
/// freestanding-link flags, and the generated control script.
pub open spec fn spec_linker_args(
    objects: Seq<Seq<char>>,
    runtime_archive: Option<Seq<char>>,
    output: Seq<char>,
    script_path: Seq<char>,
) -> Seq<Seq<char>> {
    let runtime: Seq<Seq<char>> = match runtime_archive {
        Some(r) => seq![r],
        None => Seq::empty(),
    };
    objects + runtime + seq!["-o"@, output] + spec_link_flags() + seq!["-T"@, script_path]
}

/// Assemble the external linker's argument vector from the extracted object
/// paths, an optional static runtime archive, the requested output path and
/// the path of the generated linker script.
pub fn build_linker_args(
    objects: &Vec<String>,
    runtime_archive: Option<&String>,
    output: &str,
    script_path: &str,
) -> (r: Vec<String>)
    ensures
        r.deep_view() == spec_linker_args(
            objects.deep_view(),
            (match runtime_archive {
                Some(a) => Some(a@),
                None => None,
            }),
            output@,
            script_path@,
        ),
{
    let mut args: Vec<String> = Vec::new();
    let object_slice = objects.as_slice();
    let mut i: usize = 0;
    while i < object_slice.len()
        invariant
            i <= objects@.len(),
            object_slice@ == objects@,
            args@ == objects@.take(i as int),
        decreases objects@.len() - i,
    {
        let item = vstd::slice::slice_index_get(object_slice, i);
        args.push(item.clone());
        proof {
            assert(args@ =~= objects@.take(i as int + 1));
        }
        i += 1;
    }
    proof {
        assert(objects@.take(objects@.len() as int) =~= objects@);
    }
    match runtime_archive {
        Some(a) => args.push(a.clone()),
        None => (),
    }
    args.push("-o".to_owned());
    args.push(output.to_owned());
    args.push("-Bstatic".to_owned());
    args.push("-shared".to_owned());
    args.push("-fPIC".to_owned());
    args.push("-flto".to_owned());
    args.push("-no-undefined".to_owned());
    args.push("-nostdlib".to_owned());
    args.push("-T".to_owned());
    args.push(script_path.to_owned());
    proof {
        assert(args.deep_view() =~= spec_linker_args(
            objects.deep_view(),
            (match runtime_archive {
                Some(a) => Some(a@),
                None => None,
            }),
            output@,
            script_path@,
        ));
    }
    args
}

/// The process exit status this tool propagates for a linker exit code: the
/// linker's own code when it reported one, and the fixed fallback success
/// code when the child terminated without a reportable code.
pub open spec fn spec_exit_code(code: Option<i32>) -> i32 {
    match code {
        Some(c) => c,
        None => 0,
    }
}

/// Map the linker's reported exit code to this tool's own exit code,
/// propagating it unchanged and substituting the fallback success code when
/// the child could not report one.
pub fn linker_exit_code(code: Option<i32>) -> (r: i32)
    ensures
        r == spec_exit_code(code),
{
    match code {
        Some(c) => c,
        None => 0,
    }
}

/// Classify the linker's reported exit code: success exactly when the code
/// is zero or absent (the absent case is the documented fallback policy),
/// and otherwise a `LinkFailure` carrying the linker's own code.
pub fn link_result(code: Option<i32>) -> (r: Result<(), ToolError>)
    ensures
        (match code {
            Some(c) => if c == 0 {
                r is Ok
            } else {
                r == Err::<(), ToolError>(ToolError::LinkFailure(c))
            },
            None => r is Ok,
        }),
{
    match code {
        Some(c) => if c == 0 {
            Ok(())
        } else {
            Err(ToolError::LinkFailure(c))
        },
        None => Ok(()),
    }
}

} // verus!
