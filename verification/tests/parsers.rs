use linker_lens::mapfile::{extract_library_name, parse_map_contributions, parse_memory_regions, split_library_object};
use linker_lens::sections::parse_objdump_sections;
use linker_lens::symbols::{guess_section, parse_nm_symbols};

#[test]
fn section_parser_reads_qualifying_rows() {
    let out = "Sections:\n\
               Idx Name          Size      VMA       LMA       File off  Algn\n\
               \x20 0 .text         000000a4  08000000  08000000  00010000  2**2\n\
               \x20 1 .data         00000010  20000000  080000a4  00020000  2**2\n";
    let sections = parse_objdump_sections(out);
    assert_eq!(sections.len(), 2);
    assert_eq!(sections[0].name, ".text");
    assert_eq!(sections[0].size, 0xa4);
    assert_eq!(sections[0].vma.as_deref(), Some("08000000"));
    assert_eq!(sections[0].lma.as_deref(), Some("08000000"));
    assert_eq!(sections[1].name, ".data");
    assert_eq!(sections[1].size, 0x10);
}

#[test]
fn section_parser_skips_headers_and_bad_sizes() {
    let out = "no digits here\n 5 .odd zz vma lma\n\n 2 .bss 00000040 20000010 20000010 0 2**2\n";
    let sections = parse_objdump_sections(out);
    assert_eq!(sections.len(), 1);
    assert_eq!(sections[0].name, ".bss");
    assert_eq!(sections[0].size, 0x40);
}

#[test]
fn section_parser_line_without_lma() {
    let out = " 3 .noinit 00000008 20001000\n";
    let sections = parse_objdump_sections(out);
    assert_eq!(sections.len(), 1);
    assert_eq!(sections[0].vma.as_deref(), Some("20001000"));
    assert_eq!(sections[0].lma, None);
}

#[test]
fn symbol_parser_reads_sized_symbols() {
    let out = "08000100 000000a4 T main\n\
               20000000 00000010 B buffer with spaces\n\
               08000000 00000000 T reset_vector\n";
    let symbols = parse_nm_symbols(out);
    assert_eq!(symbols.len(), 2);
    assert_eq!(symbols[0].name, "main");
    assert_eq!(symbols[0].size, 0xa4);
    assert_eq!(symbols[0].addr.as_deref(), Some("08000100"));
    assert_eq!(symbols[0].kind, "T");
    assert_eq!(symbols[0].section_guess, "text");
    assert_eq!(symbols[1].name, "buffer with spaces");
    assert_eq!(symbols[1].kind, "B");
    assert_eq!(symbols[1].section_guess, "bss");
}

#[test]
fn symbol_parser_drops_unparsable_sizes() {
    let out = "08000100 zzzz T broken\n08000200 00000004 t helper\n";
    let symbols = parse_nm_symbols(out);
    assert_eq!(symbols.len(), 1);
    assert_eq!(symbols[0].name, "helper");
}

#[test]
fn kind_to_section_mapping() {
    assert_eq!(guess_section("T"), "text");
    assert_eq!(guess_section("t"), "text");
    assert_eq!(guess_section("R"), "rodata");
    assert_eq!(guess_section("r"), "rodata");
    assert_eq!(guess_section("D"), "data");
    assert_eq!(guess_section("g"), "data");
    assert_eq!(guess_section("S"), "data");
    assert_eq!(guess_section("B"), "bss");
    assert_eq!(guess_section("b"), "bss");
    assert_eq!(guess_section("W"), "other");
}

#[test]
fn map_line_attributes_bytes_to_object_and_section() {
    let map = ".text          0x00001000     0x1a4 main.o\n";
    let parsed = parse_map_contributions(map);
    assert_eq!(parsed.top_objects.len(), 1);
    assert_eq!(parsed.top_objects[0].name, "main.o");
    assert_eq!(parsed.top_objects[0].size, 0x1a4);
    assert_eq!(parsed.top_sections.len(), 1);
    assert_eq!(parsed.top_sections[0].name, ".text");
    assert_eq!(parsed.top_sections[0].size, 0x1a4);
    assert_eq!(parsed.top_libraries.len(), 0);
}

#[test]
fn map_line_fill_contributes_nothing() {
    let map = ".text          0x00001000     0x1a4 main.o\n\
               .text          0x000011a4      0x5c *fill*\n\
               .bss           0x20000000     0x100 *(COMMON)\n";
    let parsed = parse_map_contributions(map);
    assert_eq!(parsed.top_objects.len(), 1);
    assert_eq!(parsed.top_objects[0].size, 0x1a4);
    assert_eq!(parsed.top_sections.len(), 1);
    assert_eq!(parsed.top_sections[0].size, 0x1a4);
}

#[test]
fn map_lines_accumulate_per_key() {
    let map = ".text  0x1000  0x100 a.o\n\
               .text  0x1100  0x200 b.o\n\
               .data  0x2000   0x80 a.o\n";
    let parsed = parse_map_contributions(map);
    assert_eq!(parsed.top_objects.len(), 2);
    assert_eq!(parsed.top_objects[0].name, "b.o");
    assert_eq!(parsed.top_objects[0].size, 0x200);
    assert_eq!(parsed.top_objects[1].name, "a.o");
    assert_eq!(parsed.top_objects[1].size, 0x180);
    assert_eq!(parsed.top_sections[0].name, ".text");
    assert_eq!(parsed.top_sections[0].size, 0x300);
}

#[test]
fn map_library_members_build_the_tree() {
    let map = ".text  0x1000  0x100 /lib/libc.a(memcpy.o)\n\
               .text  0x1100  0x300 /lib/libc.a(printf.o)\n\
               .text  0x1400   0x40 main.o\n";
    let parsed = parse_map_contributions(map);
    assert_eq!(parsed.top_libraries.len(), 1);
    assert_eq!(parsed.top_libraries[0].name, "libc.a");
    assert_eq!(parsed.top_libraries[0].size, 0x400);
    assert_eq!(parsed.map_tree.len(), 2);
    assert_eq!(parsed.map_tree[0].name, "libc.a");
    assert_eq!(parsed.map_tree[0].size, 0x400);
    assert_eq!(parsed.map_tree[0].children.len(), 2);
    assert_eq!(parsed.map_tree[0].children[0].name, "printf.o");
    assert_eq!(parsed.map_tree[0].children[0].size, 0x300);
    assert_eq!(parsed.map_tree[1].name, "Objects");
    assert_eq!(parsed.map_tree[1].size, 0x40);
    assert_eq!(parsed.map_tree[1].children[0].name, "main.o");
}

#[test]
fn library_name_extraction_rules() {
    assert_eq!(
        extract_library_name("/lib/arm/libc.a(memcpy.o)").as_deref(),
        Some("libc.a")
    );
    assert_eq!(extract_library_name("foo(bar.a)").as_deref(), Some("bar.a"));
    assert_eq!(extract_library_name("/opt/libm.a").as_deref(), Some("libm.a"));
    assert_eq!(extract_library_name("main.o"), None);
    assert_eq!(extract_library_name("libjusta.a"), None);
}

#[test]
fn library_object_split_rules() {
    let (lib, obj) = split_library_object("/lib/libc.a(memcpy.o)");
    assert_eq!(lib.as_deref(), Some("libc.a"));
    assert_eq!(obj, "memcpy.o");
    let (lib, obj) = split_library_object("build/out/main.o");
    assert_eq!(lib, None);
    assert_eq!(obj, "main.o");
}

#[test]
fn memory_regions_with_used_column() {
    let map = "Memory Configuration\n\
               \n\
               Name             Origin             Length             Used\n\
               FLASH            0x08000000         0x00100000         0x000a0000\n\
               RAM              0x20000000         0x00020000         0x00008000\n\
               \n\
               Linker script and memory map\n";
    let regions = parse_memory_regions(map);
    assert_eq!(regions.len(), 2);
    assert_eq!(regions[0].name, "FLASH");
    assert_eq!(regions[0].origin, "0x08000000");
    assert_eq!(regions[0].length, 0x100000);
    assert_eq!(regions[0].used, Some(0xa0000));
    assert_eq!(regions[1].name, "RAM");
    assert_eq!(regions[1].used, Some(0x8000));
}

#[test]
fn memory_regions_without_used_column() {
    let map = "Memory Configuration\n\
               Name             Origin             Length             Attributes\n\
               FLASH            0x08000000         0x00100000         xr\n\
               \n";
    let regions = parse_memory_regions(map);
    assert_eq!(regions.len(), 1);
    assert_eq!(regions[0].used, None);
    assert_eq!(regions[0].length, 0x100000);
}

#[test]
fn memory_regions_drop_idle_default() {
    let map = "Memory Configuration\n\
               Name   Origin   Length   Used\n\
               *default*  0x0  0xffffffff  0\n\
               FLASH  0x08000000  0x100000  0x10\n\
               \n";
    let regions = parse_memory_regions(map);
    // the noise row is named exactly "default" only after case folding
    assert_eq!(regions.len(), 2);
    let map2 = "Memory Configuration\n\
               Name   Origin   Length   Used\n\
               default  0x0  0xffffffff  0\n\
               FLASH  0x08000000  0x100000  0x10\n\
               \n";
    let regions2 = parse_memory_regions(map2);
    assert_eq!(regions2.len(), 1);
    assert_eq!(regions2[0].name, "FLASH");
}
