use staticlib_linker::script::generate_lds_prelude;
use staticlib_linker::script::generate_lds_section;
use staticlib_linker::script::generate_lds_version;

#[test]
fn prelude_exact_text() {
    assert_eq!(
        generate_lds_prelude(),
        "OUTPUT_FORMAT(elf64-x86-64)\nOUTPUT_ARCH(i386:x86-64)\n"
    );
}

#[test]
fn prelude_deterministic() {
    assert_eq!(generate_lds_prelude(), generate_lds_prelude());
}

#[test]
fn version_map_two_symbols() {
    let out = generate_lds_version(
        "math",
        vec!["math_add".to_string(), "math_sub".to_string()],
    );
    assert_eq!(
        out,
        "VERSION {\n  math {\n    global:\n      math_add;\n      math_sub;\n    local:\n      *;\n  };\n}\n"
    );
}

#[test]
fn version_map_no_symbols() {
    let out = generate_lds_version("foo", Vec::new());
    assert_eq!(
        out,
        "VERSION {\n  foo {\n    global:\n    local:\n      *;\n  };\n}\n"
    );
}

#[test]
fn version_map_keeps_input_order_and_duplicates() {
    let out = generate_lds_version(
        "t",
        vec!["b".to_string(), "a".to_string(), "b".to_string()],
    );
    assert_eq!(
        out,
        "VERSION {\n  t {\n    global:\n      b;\n      a;\n      b;\n    local:\n      *;\n  };\n}\n"
    );
}

#[test]
fn version_map_deterministic() {
    let a = generate_lds_version("tag", vec!["s1".to_string(), "s2".to_string()]);
    let b = generate_lds_version("tag", vec!["s1".to_string(), "s2".to_string()]);
    assert_eq!(a, b);
}

#[test]
fn version_map_segments_in_order() {
    let out = generate_lds_version("t", vec!["s1".to_string(), "s2".to_string()]);
    let tag = out.find("t {").unwrap();
    let global = out.find("global:").unwrap();
    let first = out.find("s1;").unwrap();
    let second = out.find("s2;").unwrap();
    let local = out.find("local:").unwrap();
    let wildcard = out.find("*;").unwrap();
    assert!(tag < global && global < first && first < second && second < local && local < wildcard);
    assert_eq!(out.matches("s1;").count(), 1);
    assert_eq!(out.matches("s2;").count(), 1);
    assert_eq!(out.matches("global:").count(), 1);
    assert_eq!(out.matches("local:").count(), 1);
}

#[test]
fn section_layout_frame() {
    let out = generate_lds_section();
    assert!(out.starts_with("SECTIONS\n{\n"));
    assert!(out.ends_with("  /DISCARD/ : { *(.note.GNU-stack) *(.gnu_debuglink) *(.gnu.lto_*) }\n}\n"));
}

#[test]
fn section_layout_deterministic() {
    assert_eq!(generate_lds_section(), generate_lds_section());
}

#[test]
fn section_layout_places_sections_in_order() {
    let out = generate_lds_section();
    let dynsym = out.find("  .dynsym         : { *(.dynsym) }").unwrap();
    let text = out.find("  .text           :").unwrap();
    let rodata = out.find("  .rodata         : { *(.rodata .rodata.* ) }").unwrap();
    let tdata = out.find("  .tdata\t  : { *(.tdata .tdata.*) }").unwrap();
    let dynamic = out.find("  .dynamic        : { *(.dynamic) }").unwrap();
    let got = out.find("  .got            : { *(.got) }").unwrap();
    let relro = out
        .find("  . = DATA_SEGMENT_RELRO_END (SIZEOF (.got.plt) >= 24 ? 24 : 0, .);")
        .unwrap();
    let got_plt = out.find("  .got.plt        : { *(.got.plt)  *(.igot.plt) }").unwrap();
    let bss = out.find("  .bss            :").unwrap();
    let end_symbol = out.find("  _end = .; PROVIDE (end = .);").unwrap();
    let debug_info = out.find("  .debug_info     0 : { *(.debug_info .gnu.linkonce.wi.*) }").unwrap();
    let discard = out.find("  /DISCARD/ :").unwrap();
    assert!(dynsym < text && text < rodata && rodata < tdata && tdata < dynamic);
    assert!(dynamic < got && got < relro && relro < got_plt && got_plt < bss);
    assert!(bss < end_symbol && end_symbol < debug_info && debug_info < discard);
}

#[test]
fn section_layout_bss_alignment_and_end() {
    let out = generate_lds_section();
    assert!(out.contains("   . = ALIGN(. != 0 ? 8 : 1);"));
    assert!(out.contains("  . = ALIGN(8);\n  _end = .; PROVIDE (end = .);"));
    assert!(out.contains("  . = DATA_SEGMENT_END (.);"));
}

#[test]
fn full_script_composes() {
    let script = vec![
        generate_lds_prelude(),
        generate_lds_version("math", vec!["math_add".to_string()]),
        generate_lds_section(),
    ]
    .join("\n");
    assert!(script.starts_with("OUTPUT_FORMAT(elf64-x86-64)\n"));
    assert!(script.contains("VERSION {\n  math {\n    global:\n      math_add;\n"));
    assert!(script.contains("SECTIONS\n{\n"));
}
