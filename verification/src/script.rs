use vstd::prelude::*;
use vstd::string::StringExecFns;

verus! {

/// Exact text of the two-line linker-script prologue: output object format
/// and target architecture for a 64-bit little-endian x86-64 target.
pub open spec fn spec_prologue() -> Seq<char> {
    "OUTPUT_FORMAT(elf64-x86-64)\nOUTPUT_ARCH(i386:x86-64)\n"@
}

/// Render the fixed prologue of the linker control script.
pub fn generate_lds_prelude() -> (r: String)
    ensures
        r@ == spec_prologue(),
{
    "OUTPUT_FORMAT(elf64-x86-64)\nOUTPUT_ARCH(i386:x86-64)\n".to_owned()
}

/// The one line a single export symbol contributes to the `global:` list.
pub open spec fn spec_symbol_line(symbol: Seq<char>) -> Seq<char> {
    "      "@ + symbol + ";\n"@
}

/// The `global:` list body: one line per export symbol, in input order.
/// Duplicates pass through verbatim.
pub open spec fn spec_symbol_lines(symbols: Seq<Seq<char>>) -> Seq<char>
    decreases symbols.len(),
{
    if symbols.len() == 0 {
        Seq::empty()
    } else {
        spec_symbol_lines(symbols.drop_last()) + spec_symbol_line(symbols.last())
    }
}

/// Exact text of the whole `VERSION` block for a version tag and an ordered
/// export-symbol list: every export is `global:`, everything else is caught
/// by the `local: *;` wildcard.
pub open spec fn spec_version_map(tag: Seq<char>, symbols: Seq<Seq<char>>) -> Seq<char> {
    "VERSION {\n  "@ + tag + " {\n    global:\n"@ + spec_symbol_lines(symbols)
        + "    local:\n      *;\n  };\n}\n"@
}

/// Render the `VERSION` block of the linker control script from a version
/// tag (the short soname) and the caller-ordered export-symbol list.
pub fn generate_lds_version(soname: &str, symbols: Vec<String>) -> (r: String)
    ensures
        r@ == spec_version_map(soname@, symbols.deep_view()),
{
    let mut out: String = "VERSION {\n  ".to_owned();
    out.append(soname);
    out.append(" {\n    global:\n");
    let ghost head: Seq<char> = out@;
    proof {
        assert(out@ =~= head + spec_symbol_lines(symbols.deep_view().take(0)));
    }
    let mut i: usize = 0;
    while i < symbols.len()
        invariant
            i <= symbols.len(),
            head == "VERSION {\n  "@ + soname@ + " {\n    global:\n"@,
            out@ == head + spec_symbol_lines(symbols.deep_view().take(i as int)),
        decreases symbols.len() - i,
    {
        out.append("      ");
        out.append(symbols[i].as_str());
        out.append(";\n");
        proof {
            let dv = symbols.deep_view();
            assert(dv.take(i as int + 1).drop_last() =~= dv.take(i as int));
            assert(dv.take(i as int + 1).last() == dv[i as int]);
            assert(out@ =~= head + spec_symbol_lines(dv.take(i as int + 1)));
        }
        i += 1;
    }
    proof {
        assert(symbols.deep_view().take(symbols.len() as int) =~= symbols.deep_view());
    }
    out.append("    local:\n      *;\n  };\n}\n");
    out
}

/// Rendering the version map is deterministic: identical tag and export
/// list give byte-identical output, however often it is rendered.
pub proof fn lemma_version_map_deterministic(
    tag1: Seq<char>,
    symbols1: Seq<Seq<char>>,
    tag2: Seq<char>,
    symbols2: Seq<Seq<char>>,
)
    requires
        tag1 == tag2,
        symbols1 == symbols2,
    ensures
        spec_version_map(tag1, symbols1) == spec_version_map(tag2, symbols2),
{
}

/// The version map is framed by its fixed header and footer: the text opens
/// with `VERSION {`, the tag and `global:`, and closes with the `local: *;`
/// wildcard, the tag block terminator and the closing brace.
pub proof fn lemma_version_map_frame(tag: Seq<char>, symbols: Seq<Seq<char>>)
    ensures
        ({
            let vm = spec_version_map(tag, symbols);
            let header = "VERSION {\n  "@ + tag + " {\n    global:\n"@;
            let footer = "    local:\n      *;\n  };\n}\n"@;
            &&& vm.len() == header.len() + spec_symbol_lines(symbols).len() + footer.len()
            &&& vm.subrange(0, header.len() as int) == header
            &&& vm.subrange(vm.len() - footer.len(), vm.len() as int) == footer
        }),
{
    let vm = spec_version_map(tag, symbols);
    let header = "VERSION {\n  "@ + tag + " {\n    global:\n"@;
    let footer = "    local:\n      *;\n  };\n}\n"@;
    assert(vm.subrange(0, header.len() as int) =~= header);
    assert(vm.subrange(vm.len() - footer.len(), vm.len() as int) =~= footer);
}

/// Within the `global:` list, the line of symbol `i` stands exactly where the
/// lines of the symbols before it end, and the line of symbol `i + 1` begins
/// exactly where it ends: the export lines appear in input order, adjacent.
pub proof fn lemma_symbol_line_position(symbols: Seq<Seq<char>>, i: int)
    requires
        0 <= i < symbols.len(),
    ensures
        ({
            let all = spec_symbol_lines(symbols);
            let before = spec_symbol_lines(symbols.take(i)).len();
            let line = spec_symbol_line(symbols[i]);
            &&& spec_symbol_lines(symbols.take(i + 1)).len() == before + line.len()
            &&& before + line.len() <= all.len()
            &&& all.subrange(before as int, (before + line.len()) as int) == line
        }),
    decreases symbols.len(),
{
    let all = spec_symbol_lines(symbols);
    let before = spec_symbol_lines(symbols.take(i)).len();
    let line = spec_symbol_line(symbols[i]);
    assert(symbols.take(i + 1).drop_last() =~= symbols.take(i));
    if i == symbols.len() - 1 {
        assert(symbols.take(i + 1) =~= symbols);
        assert(symbols.drop_last() =~= symbols.take(i));
        assert(all == spec_symbol_lines(symbols.take(i)) + line);
        assert(all.subrange(before as int, (before + line.len()) as int) =~= line);
    } else {
        let front = symbols.drop_last();
        assert(front.take(i) =~= symbols.take(i));
        assert(front.take(i + 1) =~= symbols.take(i + 1));
        assert(front[i] == symbols[i]);
        lemma_symbol_line_position(front, i);
        let fall = spec_symbol_lines(front);
        assert(all == fall + spec_symbol_line(symbols.last()));
        assert(all.subrange(before as int, (before + line.len()) as int) =~= fall.subrange(
            before as int,
            (before + line.len()) as int,
        ));
    }
}

/// In the rendered version map, the line of export symbol `i` stands at the
/// fixed offset given by the header and the lines of the earlier exports.
/// Together with `lemma_version_map_frame` this pins the whole layout: tag,
/// `global:`, each export line in input order, then `local: *;`.
pub proof fn lemma_version_map_symbol(tag: Seq<char>, symbols: Seq<Seq<char>>, i: int)
    requires
        0 <= i < symbols.len(),
    ensures
        ({
            let vm = spec_version_map(tag, symbols);
            let header = "VERSION {\n  "@ + tag + " {\n    global:\n"@;
            let offset = header.len() + spec_symbol_lines(symbols.take(i)).len();
            let line = spec_symbol_line(symbols[i]);
            &&& offset + line.len() <= vm.len()
            &&& vm.subrange(offset as int, (offset + line.len()) as int) == line
        }),
{
    let vm = spec_version_map(tag, symbols);
    let header = "VERSION {\n  "@ + tag + " {\n    global:\n"@;
    let offset = header.len() + spec_symbol_lines(symbols.take(i)).len();
    let line = spec_symbol_line(symbols[i]);
    lemma_symbol_line_position(symbols, i);
    let all = spec_symbol_lines(symbols);
    let before = spec_symbol_lines(symbols.take(i)).len();
    assert(vm.subrange(offset as int, (offset + line.len()) as int) =~= all.subrange(
        before as int,
        (before + line.len()) as int,
    ));
}

/// Exact text of the fixed output-section layout. Linking with `-nostdlib`
/// bypasses the linker's built-in default script, so every placement and
/// alignment rule normally supplied implicitly is written out here: read-only
/// metadata and relocation sections, code, read-only data, thread-local
/// storage, constructor and destructor arrays, the dynamic, GOT and PLT
/// sections with the RELRO boundary applied before `.got.plt`, writable data,
/// zero-initialized BSS with its trailing alignment and the `_end` symbol,
/// debug-info sections at offset zero, and a discard of non-essential notes.
pub open spec fn spec_section_layout() -> Seq<char> {
    "SECTIONS\n{\n  /* Read-only sections, merged into text segment: */\n  .interp         : { *(.interp) }\n  .hash           : { *(.hash) }\n  .gnu.hash       : { *(.gnu.hash) }\n  .dynsym         : { *(.dynsym) }\n  .dynstr         : { *(.dynstr) }\n  .gnu.version    : { *(.gnu.version) }\n  .rela.data.rel.ro   : { *(.rela.data.rel.ro .rela.data.rel.ro.* .rela.gnu.linkonce.d.rel.ro.*) }\n  .rela.data      : { *(.rela.data .rela.data.* .rela.gnu.linkonce.d.*) }\n  .rela.tdata\t  : { *(.rela.tdata .rela.tdata.* .rela.gnu.linkonce.td.*) }\n  .rela.tbss\t  : { *(.rela.tbss .rela.tbss.* .rela.gnu.linkonce.tb.*) }\n  .rela.got       : { *(.rela.got) }\n  .rela.bss       : { *(.rela.bss .rela.bss.* .rela.gnu.linkonce.b.*) }\n  .rela.ldata     : { *(.rela.ldata .rela.ldata.* .rela.gnu.linkonce.l.*) }\n  .rela.lbss      : { *(.rela.lbss .rela.lbss.* .rela.gnu.linkonce.lb.*) }\n  .rela.lrodata   : { *(.rela.lrodata .rela.lrodata.* .rela.gnu.linkonce.lr.*) }\n  .rela.ifunc     : { *(.rela.ifunc) }\n  .rela.plt       :\n    {\n      *(.rela.plt)\n    }\n  .plt            : { *(.plt) }\n  .plt.got        : { *(.plt.got) }\n"@ + "  .text           :\n  {\n    *(.text)\n    PROVIDE_HIDDEN (__tls_get_new = __tls_get_addr);\n    PROVIDE_HIDDEN (__tls_get_addr_start = .);\n    PROVIDE(__tls_get_addr = .);\n    *(.text.__tls_get_addr)\n    . += 0x80;\n    PROVIDE_HIDDEN (__tls_get_addr_end = .);\n    *(.text.*)\n  }\n  PROVIDE (__etext = .);\n  PROVIDE (_etext = .);\n  PROVIDE (etext = .);\n  .rodata         : { *(.rodata .rodata.* ) }\n  .eh_frame       : ONLY_IF_RO { KEEP (*(.eh_frame)) *(.eh_frame.*) }\n  .gcc_except_table   : ONLY_IF_RO { *(.gcc_except_table .gcc_except_table.*) }\n  /* Adjust the address for the data segment.  We want to adjust up to\n     the same address within the page on the next page up.  */\n  . = DATA_SEGMENT_ALIGN (CONSTANT (MAXPAGESIZE), CONSTANT (COMMONPAGESIZE));\n"@ + "  /* Thread Local Storage sections  */\n  .tdata\t  : { *(.tdata .tdata.*) }\n  .tbss\t\t  : { *(.tbss .tbss.*) }\n  .preinit_array     :\n  {\n    PROVIDE_HIDDEN (__preinit_array_start = .);\n    KEEP (*(.preinit_array))\n    PROVIDE_HIDDEN (__preinit_array_end = .);\n  }\n  .init_array     :\n  {\n    PROVIDE_HIDDEN (__init_array_start = .);\n    KEEP (*(SORT_BY_INIT_PRIORITY(.init_array.*) SORT_BY_INIT_PRIORITY(.ctors.*)))\n    KEEP (*(.init_array .ctors))\n    PROVIDE_HIDDEN (__init_array_end = .);\n  }\n  .fini_array     :\n  {\n    PROVIDE_HIDDEN (__fini_array_start = .);\n    KEEP (*(SORT_BY_INIT_PRIORITY(.fini_array.*) SORT_BY_INIT_PRIORITY(.dtors.*)))\n    KEEP (*(.fini_array .dtors))\n    PROVIDE_HIDDEN (__fini_array_end = .);\n  }\n  .data.rel.ro : { *(.data.rel.ro.local* ) *(.data.rel.ro .data.rel.ro.* ) }\n  .dynamic        : { *(.dynamic) }\n  .got            : { *(.got) }\n  . = DATA_SEGMENT_RELRO_END (SIZEOF (.got.plt) >= 24 ? 24 : 0, .);\n  .got.plt        : { *(.got.plt)  *(.igot.plt) }\n  .data           :\n  {\n    *(.data .data.* )\n    SORT(CONSTRUCTORS)\n  }\n"@ + "  _edata = .; PROVIDE (edata = .);\n  __bss_start = .;\n  .bss            :\n  {\n   *(.dynbss)\n   *(.bss .bss.* )\n   *(COMMON)\n   /* Align here to ensure that the .bss section occupies space up to\n      _end.  Align after .bss to ensure correct alignment even if the\n      .bss section disappears because there are no input sections.\n      FIXME: Why do we need it? When there is no .bss section, we don't\n      pad the .data section.  */\n   . = ALIGN(. != 0 ? 8 : 1);\n  }\n  . = ALIGN(8);\n  _end = .; PROVIDE (end = .);\n  . = DATA_SEGMENT_END (.);\n"@ + "  /* Stabs debugging sections.  */\n  .stab          0 : { *(.stab) }\n  .stabstr       0 : { *(.stabstr) }\n  .stab.excl     0 : { *(.stab.excl) }\n  .stab.exclstr  0 : { *(.stab.exclstr) }\n  .stab.index    0 : { *(.stab.index) }\n  .stab.indexstr 0 : { *(.stab.indexstr) }\n  .comment       0 : { *(.comment) }\n  /* DWARF debug sections.\n     Symbols in the DWARF debugging sections are relative to the beginning\n     of the section so we begin them at 0.  */\n  /* DWARF 1 */\n  .debug          0 : { *(.debug) }\n  .line           0 : { *(.line) }\n  /* GNU DWARF 1 extensions */\n  .debug_srcinfo  0 : { *(.debug_srcinfo) }\n  .debug_sfnames  0 : { *(.debug_sfnames) }\n  /* DWARF 1.1 and DWARF 2 */\n  .debug_aranges  0 : { *(.debug_aranges) }\n  .debug_pubnames 0 : { *(.debug_pubnames) }\n  /* DWARF 2 */\n  .debug_info     0 : { *(.debug_info .gnu.linkonce.wi.*) }\n  .debug_abbrev   0 : { *(.debug_abbrev) }\n  .debug_line     0 : { *(.debug_line .debug_line.* .debug_line_end ) }\n  .debug_frame    0 : { *(.debug_frame) }\n  .debug_str      0 : { *(.debug_str) }\n  .debug_loc      0 : { *(.debug_loc) }\n  .debug_macinfo  0 : { *(.debug_macinfo) }\n  /* DWARF 3 */\n  .debug_pubtypes 0 : { *(.debug_pubtypes) }\n  .debug_ranges   0 : { *(.debug_ranges) }\n  /* DWARF Extension.  */\n  .debug_macro    0 : { *(.debug_macro) }\n  .debug_addr     0 : { *(.debug_addr) }\n  .gnu.attributes 0 : { KEEP (*(.gnu.attributes)) }\n  /DISCARD/ : { *(.note.GNU-stack) *(.gnu_debuglink) *(.gnu.lto_*) }\n}\n"@
}

/// Render the fixed output-section layout of the linker control script.
pub fn generate_lds_section() -> (r: String)
    ensures
        r@ == spec_section_layout(),
{
    let mut out: String = "SECTIONS\n{\n  /* Read-only sections, merged into text segment: */\n  .interp         : { *(.interp) }\n  .hash           : { *(.hash) }\n  .gnu.hash       : { *(.gnu.hash) }\n  .dynsym         : { *(.dynsym) }\n  .dynstr         : { *(.dynstr) }\n  .gnu.version    : { *(.gnu.version) }\n  .rela.data.rel.ro   : { *(.rela.data.rel.ro .rela.data.rel.ro.* .rela.gnu.linkonce.d.rel.ro.*) }\n  .rela.data      : { *(.rela.data .rela.data.* .rela.gnu.linkonce.d.*) }\n  .rela.tdata\t  : { *(.rela.tdata .rela.tdata.* .rela.gnu.linkonce.td.*) }\n  .rela.tbss\t  : { *(.rela.tbss .rela.tbss.* .rela.gnu.linkonce.tb.*) }\n  .rela.got       : { *(.rela.got) }\n  .rela.bss       : { *(.rela.bss .rela.bss.* .rela.gnu.linkonce.b.*) }\n  .rela.ldata     : { *(.rela.ldata .rela.ldata.* .rela.gnu.linkonce.l.*) }\n  .rela.lbss      : { *(.rela.lbss .rela.lbss.* .rela.gnu.linkonce.lb.*) }\n  .rela.lrodata   : { *(.rela.lrodata .rela.lrodata.* .rela.gnu.linkonce.lr.*) }\n  .rela.ifunc     : { *(.rela.ifunc) }\n  .rela.plt       :\n    {\n      *(.rela.plt)\n    }\n  .plt            : { *(.plt) }\n  .plt.got        : { *(.plt.got) }\n".to_owned();
    out.append("  .text           :\n  {\n    *(.text)\n    PROVIDE_HIDDEN (__tls_get_new = __tls_get_addr);\n    PROVIDE_HIDDEN (__tls_get_addr_start = .);\n    PROVIDE(__tls_get_addr = .);\n    *(.text.__tls_get_addr)\n    . += 0x80;\n    PROVIDE_HIDDEN (__tls_get_addr_end = .);\n    *(.text.*)\n  }\n  PROVIDE (__etext = .);\n  PROVIDE (_etext = .);\n  PROVIDE (etext = .);\n  .rodata         : { *(.rodata .rodata.* ) }\n  .eh_frame       : ONLY_IF_RO { KEEP (*(.eh_frame)) *(.eh_frame.*) }\n  .gcc_except_table   : ONLY_IF_RO { *(.gcc_except_table .gcc_except_table.*) }\n  /* Adjust the address for the data segment.  We want to adjust up to\n     the same address within the page on the next page up.  */\n  . = DATA_SEGMENT_ALIGN (CONSTANT (MAXPAGESIZE), CONSTANT (COMMONPAGESIZE));\n");
    out.append("  /* Thread Local Storage sections  */\n  .tdata\t  : { *(.tdata .tdata.*) }\n  .tbss\t\t  : { *(.tbss .tbss.*) }\n  .preinit_array     :\n  {\n    PROVIDE_HIDDEN (__preinit_array_start = .);\n    KEEP (*(.preinit_array))\n    PROVIDE_HIDDEN (__preinit_array_end = .);\n  }\n  .init_array     :\n  {\n    PROVIDE_HIDDEN (__init_array_start = .);\n    KEEP (*(SORT_BY_INIT_PRIORITY(.init_array.*) SORT_BY_INIT_PRIORITY(.ctors.*)))\n    KEEP (*(.init_array .ctors))\n    PROVIDE_HIDDEN (__init_array_end = .);\n  }\n  .fini_array     :\n  {\n    PROVIDE_HIDDEN (__fini_array_start = .);\n    KEEP (*(SORT_BY_INIT_PRIORITY(.fini_array.*) SORT_BY_INIT_PRIORITY(.dtors.*)))\n    KEEP (*(.fini_array .dtors))\n    PROVIDE_HIDDEN (__fini_array_end = .);\n  }\n  .data.rel.ro : { *(.data.rel.ro.local* ) *(.data.rel.ro .data.rel.ro.* ) }\n  .dynamic        : { *(.dynamic) }\n  .got            : { *(.got) }\n  . = DATA_SEGMENT_RELRO_END (SIZEOF (.got.plt) >= 24 ? 24 : 0, .);\n  .got.plt        : { *(.got.plt)  *(.igot.plt) }\n  .data           :\n  {\n    *(.data .data.* )\n    SORT(CONSTRUCTORS)\n  }\n");
    out.append("  _edata = .; PROVIDE (edata = .);\n  __bss_start = .;\n  .bss            :\n  {\n   *(.dynbss)\n   *(.bss .bss.* )\n   *(COMMON)\n   /* Align here to ensure that the .bss section occupies space up to\n      _end.  Align after .bss to ensure correct alignment even if the\n      .bss section disappears because there are no input sections.\n      FIXME: Why do we need it? When there is no .bss section, we don't\n      pad the .data section.  */\n   . = ALIGN(. != 0 ? 8 : 1);\n  }\n  . = ALIGN(8);\n  _end = .; PROVIDE (end = .);\n  . = DATA_SEGMENT_END (.);\n");
    out.append("  /* Stabs debugging sections.  */\n  .stab          0 : { *(.stab) }\n  .stabstr       0 : { *(.stabstr) }\n  .stab.excl     0 : { *(.stab.excl) }\n  .stab.exclstr  0 : { *(.stab.exclstr) }\n  .stab.index    0 : { *(.stab.index) }\n  .stab.indexstr 0 : { *(.stab.indexstr) }\n  .comment       0 : { *(.comment) }\n  /* DWARF debug sections.\n     Symbols in the DWARF debugging sections are relative to the beginning\n     of the section so we begin them at 0.  */\n  /* DWARF 1 */\n  .debug          0 : { *(.debug) }\n  .line           0 : { *(.line) }\n  /* GNU DWARF 1 extensions */\n  .debug_srcinfo  0 : { *(.debug_srcinfo) }\n  .debug_sfnames  0 : { *(.debug_sfnames) }\n  /* DWARF 1.1 and DWARF 2 */\n  .debug_aranges  0 : { *(.debug_aranges) }\n  .debug_pubnames 0 : { *(.debug_pubnames) }\n  /* DWARF 2 */\n  .debug_info     0 : { *(.debug_info .gnu.linkonce.wi.*) }\n  .debug_abbrev   0 : { *(.debug_abbrev) }\n  .debug_line     0 : { *(.debug_line .debug_line.* .debug_line_end ) }\n  .debug_frame    0 : { *(.debug_frame) }\n  .debug_str      0 : { *(.debug_str) }\n  .debug_loc      0 : { *(.debug_loc) }\n  .debug_macinfo  0 : { *(.debug_macinfo) }\n  /* DWARF 3 */\n  .debug_pubtypes 0 : { *(.debug_pubtypes) }\n  .debug_ranges   0 : { *(.debug_ranges) }\n  /* DWARF Extension.  */\n  .debug_macro    0 : { *(.debug_macro) }\n  .debug_addr     0 : { *(.debug_addr) }\n  .gnu.attributes 0 : { KEEP (*(.gnu.attributes)) }\n  /DISCARD/ : { *(.note.GNU-stack) *(.gnu_debuglink) *(.gnu.lto_*) }\n}\n");
    out
}

} // verus!
