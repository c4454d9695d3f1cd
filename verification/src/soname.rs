use vstd::prelude::*;
use vstd::string::StrSliceExecFns;
use vstd::string::StringExecFns;

verus! {

/// The name ends in `.a`, the conventional static-archive suffix.
pub open spec fn spec_has_archive_suffix(s: Seq<char>) -> bool {
    &&& s.len() >= 2
    &&& s[s.len() - 2] == '.'
    &&& s[s.len() - 1] == 'a'
}

/// The name carries the conventional `lib` prefix of a library file name.
pub open spec fn spec_has_lib_prefix(s: Seq<char>) -> bool {
    &&& s.len() >= 3
    &&& s[0] == 'l'
    &&& s[1] == 'i'
    &&& s[2] == 'b'
}

/// The name ends in `.so`, the shared-object suffix.
pub open spec fn spec_has_so_suffix(s: Seq<char>) -> bool {
    &&& s.len() >= 3
    &&& s[s.len() - 3] == '.'
    &&& s[s.len() - 2] == 's'
    &&& s[s.len() - 1] == 'o'
}

/// Soname derived from the input archive's file name: a trailing `.a` is
/// replaced by `.so`; any other name passes through unchanged.
pub open spec fn spec_derived_soname(file_name: Seq<char>) -> Seq<char> {
    if spec_has_archive_suffix(file_name) {
        file_name.take(file_name.len() - 2) + ".so"@
    } else {
        file_name
    }
}

/// Short form of a soname, used as the version-script tag: a leading `lib`
/// and a trailing `.so` are stripped; a name carrying neither is unchanged.
pub open spec fn spec_short_soname(s: Seq<char>) -> Seq<char> {
    let start: int = if spec_has_lib_prefix(s) {
        3
    } else {
        0
    };
    let end: int = if spec_has_so_suffix(s) {
        s.len() - 3
    } else {
        s.len() as int
    };
    s.subrange(start, end)
}

/// A name that carries both the `lib` prefix and the `.so` suffix holds at
/// least the six characters of the two affixes: they cannot overlap.
pub proof fn lemma_affixes_disjoint(s: Seq<char>)
    requires
        spec_has_lib_prefix(s),
        spec_has_so_suffix(s),
    ensures
        s.len() >= 6,
{
    if s.len() == 3 {
        assert(s[0] == 'l' && s[0] == '.');
    } else if s.len() == 4 {
        assert(s[1] == 'i' && s[1] == '.');
    } else if s.len() == 5 {
        assert(s[2] == 'b' && s[2] == '.');
    }
}

/// Does the file name end in `.a`?
fn has_archive_suffix(file_name: &str) -> (r: bool)
    ensures
        r == spec_has_archive_suffix(file_name@),
{
    let n = file_name.unicode_len();
    n >= 2 && file_name.get_char(n - 2) == '.' && file_name.get_char(n - 1) == 'a'
}

/// Derive the soname from the input archive's file name, replacing a
/// trailing `.a` by `.so` and leaving any other name unchanged.
pub fn derive_soname(file_name: &str) -> (r: String)
    ensures
        r@ == spec_derived_soname(file_name@),
{
    if has_archive_suffix(file_name) {
        let n = file_name.unicode_len();
        let stem = file_name.substring_char(0, n - 2);
        let mut out = stem.to_owned();
        out.append(".so");
        proof {
            assert(out@ =~= spec_derived_soname(file_name@));
        }
        out
    } else {
        file_name.to_owned()
    }
}

/// The soname the link uses: the explicit request when one was given, else
/// the soname derived from the archive's file name.
pub fn choose_soname(explicit: Option<String>, archive_file_name: &str) -> (r: String)
    ensures
        (match explicit {
            Some(s) => r@ == s@,
            None => r@ == spec_derived_soname(archive_file_name@),
        }),
{
    match explicit {
        Some(s) => s,
        None => derive_soname(archive_file_name),
    }
}

/// Strip the `lib` prefix and the `.so` suffix from a soname, giving the
/// short form that tags the version block. A soname carrying neither affix
/// comes back unchanged.
pub fn short_soname(soname: &str) -> (r: String)
    ensures
        r@ == spec_short_soname(soname@),
{
    let n = soname.unicode_len();
    let has_prefix = n >= 3 && soname.get_char(0) == 'l' && soname.get_char(1) == 'i'
        && soname.get_char(2) == 'b';
    let has_suffix = n >= 3 && soname.get_char(n - 3) == '.' && soname.get_char(n - 2) == 's'
        && soname.get_char(n - 1) == 'o';
    let start: usize = if has_prefix {
        3
    } else {
        0
    };
    let end: usize = if has_suffix {
        n - 3
    } else {
        n
    };
    proof {
        if has_prefix && has_suffix {
            lemma_affixes_disjoint(soname@);
        }
    }
    let out = soname.substring_char(start, end);
    out.to_owned()
}

} // verus!
