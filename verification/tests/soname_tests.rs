use staticlib_linker::soname::choose_soname;
use staticlib_linker::soname::derive_soname;
use staticlib_linker::soname::short_soname;

#[test]
fn derived_soname_replaces_archive_suffix() {
    assert_eq!(derive_soname("libfoo.a"), "libfoo.so");
}

#[test]
fn derived_soname_keeps_other_names() {
    assert_eq!(derive_soname("libfoo.txt"), "libfoo.txt");
    assert_eq!(derive_soname("foo"), "foo");
    assert_eq!(derive_soname("a"), "a");
}

#[test]
fn derived_soname_of_bare_suffix() {
    assert_eq!(derive_soname(".a"), ".so");
}

#[test]
fn short_form_strips_both_affixes() {
    assert_eq!(short_soname("libfoo.so"), "foo");
}

#[test]
fn short_form_of_explicit_soname() {
    assert_eq!(short_soname("custom.so"), "custom");
}

#[test]
fn short_form_without_affixes_is_unchanged() {
    assert_eq!(short_soname("bar"), "bar");
}

#[test]
fn short_form_strips_prefix_alone() {
    assert_eq!(short_soname("libbar"), "bar");
}

#[test]
fn short_form_of_bare_affixes() {
    assert_eq!(short_soname("lib.so"), "");
    assert_eq!(short_soname("lib"), "");
    assert_eq!(short_soname(".so"), "");
}

#[test]
fn explicit_soname_wins() {
    assert_eq!(choose_soname(Some("custom.so".to_string()), "libfoo.a"), "custom.so");
}

#[test]
fn absent_soname_is_derived() {
    assert_eq!(choose_soname(None, "libfoo.a"), "libfoo.so");
}

#[test]
fn scenario_derivation_chain() {
    let soname = choose_soname(None, "libfoo.a");
    assert_eq!(soname, "libfoo.so");
    assert_eq!(short_soname(&soname), "foo");
    let explicit = choose_soname(Some("custom.so".to_string()), "libfoo.a");
    assert_eq!(short_soname(&explicit), "custom");
}
