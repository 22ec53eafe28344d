use linker_lens::mapfile::{apply_region_totals, parse_hex_or_dec, parse_map_contributions, parse_optional_number};
use linker_lens::model::{MemoryRegion, ObjectContribution, SectionInfo};
use linker_lens::rank::{add_contribution, top_contributions};
use linker_lens::sections::compute_section_totals;

fn section(name: &str, size: u64) -> SectionInfo {
    SectionInfo { name: name.to_string(), size, vma: None, lma: None }
}

#[test]
fn totals_are_exact_linear_combinations() {
    let sections = vec![
        section(".text", 1000),
        section(".rodata", 200),
        section(".data", 50),
        section(".bss", 300),
        section(".debug_info", 999999),
    ];
    let totals = compute_section_totals(&sections);
    assert_eq!(totals.text_bytes, 1000);
    assert_eq!(totals.rodata_bytes, 200);
    assert_eq!(totals.data_bytes, 50);
    assert_eq!(totals.bss_bytes, 300);
    assert_eq!(totals.flash_bytes, 1000 + 200 + 50);
    assert_eq!(totals.ram_bytes, 50 + 300);
    assert_eq!(totals.flash_region_bytes, None);
    assert_eq!(totals.ram_region_bytes, None);
}

#[test]
fn totals_sum_repeated_sections() {
    let sections = vec![section(".text", 10), section(".text", 15)];
    let totals = compute_section_totals(&sections);
    assert_eq!(totals.text_bytes, 25);
    assert_eq!(totals.flash_bytes, 25);
    assert_eq!(totals.ram_bytes, 0);
}

#[test]
fn top_lists_sort_descending_and_cap() {
    let mut entries: Vec<ObjectContribution> = Vec::new();
    add_contribution(&mut entries, "a.o", 10);
    add_contribution(&mut entries, "b.o", 50);
    add_contribution(&mut entries, "c.o", 30);
    add_contribution(&mut entries, "a.o", 5);
    let top = top_contributions(&entries, 2);
    assert_eq!(top.len(), 2);
    assert_eq!(top[0].name, "b.o");
    assert_eq!(top[0].size, 50);
    assert_eq!(top[1].name, "c.o");
    assert_eq!(top[1].size, 30);
    let full = top_contributions(&entries, 10);
    assert_eq!(full.len(), 3);
    for w in full.windows(2) {
        assert!(w[0].size >= w[1].size);
    }
    assert_eq!(full[2].name, "a.o");
    assert_eq!(full[2].size, 15);
}

#[test]
fn tree_nodes_report_the_sum_of_their_children() {
    let map = ".text  0x1000  0x100 /lib/libc.a(memcpy.o)\n\
               .text  0x1100  0x300 /lib/libc.a(printf.o)\n\
               .data  0x2000   0x20 /lib/libc.a(env.o)\n\
               .text  0x1400   0x40 main.o\n\
               .text  0x1440   0x60 util.o\n";
    let parsed = parse_map_contributions(map);
    for node in &parsed.map_tree {
        let child_sum: u64 = node.children.iter().map(|c| c.size).sum();
        assert_eq!(node.size, child_sum);
        for w in node.children.windows(2) {
            assert!(w[0].size >= w[1].size);
        }
    }
    for w in parsed.map_tree.windows(2) {
        assert!(w[0].size >= w[1].size);
    }
    assert_eq!(parsed.map_tree[0].name, "libc.a");
    assert_eq!(parsed.map_tree[0].size, 0x420);
    assert_eq!(parsed.map_tree[1].name, "Objects");
    assert_eq!(parsed.map_tree[1].size, 0xa0);
}

#[test]
fn section_list_respects_its_cap() {
    let mut map = String::new();
    for i in 0..10 {
        map.push_str(&format!(".sec{}  0x1000  0x{:x} obj{}.o\n", i, 0x10 + i, i));
    }
    let parsed = parse_map_contributions(&map);
    assert_eq!(parsed.top_sections.len(), 8);
    assert_eq!(parsed.top_objects.len(), 10);
    for w in parsed.top_sections.windows(2) {
        assert!(w[0].size >= w[1].size);
    }
    assert_eq!(parsed.top_sections[0].name, ".sec9");
}

#[test]
fn region_totals_fill_the_optional_fields() {
    let sections = vec![section(".text", 100)];
    let totals = compute_section_totals(&sections);
    let regions = vec![
        MemoryRegion {
            name: "FLASH".to_string(),
            origin: "0x08000000".to_string(),
            length: 0x100000,
            used: Some(0x3000),
        },
        MemoryRegion {
            name: "SRAM1".to_string(),
            origin: "0x20000000".to_string(),
            length: 0x20000,
            used: Some(0x800),
        },
        MemoryRegion {
            name: "SRAM2".to_string(),
            origin: "0x20020000".to_string(),
            length: 0x20000,
            used: Some(0x200),
        },
    ];
    let with_regions = apply_region_totals(totals, &regions);
    assert_eq!(with_regions.flash_region_bytes, Some(0x3000));
    assert_eq!(with_regions.ram_region_bytes, Some(0xa00));
    assert_eq!(with_regions.flash_bytes, totals.flash_bytes);
}

#[test]
fn region_totals_stay_absent_without_regions() {
    let totals = compute_section_totals(&vec![section(".text", 7)]);
    let unchanged = apply_region_totals(totals, &Vec::new());
    assert_eq!(unchanged.flash_region_bytes, None);
    assert_eq!(unchanged.ram_region_bytes, None);
}

#[test]
fn region_totals_ignore_rows_without_usage() {
    let totals = compute_section_totals(&Vec::new());
    let regions = vec![MemoryRegion {
        name: "ROM".to_string(),
        origin: "0x0".to_string(),
        length: 0x1000,
        used: None,
    }];
    let applied = apply_region_totals(totals, &regions);
    assert_eq!(applied.flash_region_bytes, None);
    assert_eq!(applied.ram_region_bytes, None);
}

#[test]
fn numbers_parse_with_and_without_prefix() {
    assert_eq!(parse_hex_or_dec("0x10"), 16);
    assert_eq!(parse_hex_or_dec("10"), 10);
    assert_eq!(parse_hex_or_dec("junk"), 0);
    assert_eq!(parse_optional_number("0x1f"), Some(31));
    assert_eq!(parse_optional_number("12"), Some(12));
    assert_eq!(parse_optional_number("xy"), None);
    assert_eq!(parse_optional_number(""), None);
}

#[test]
fn numbers_reject_values_past_the_limit() {
    assert_eq!(parse_optional_number("0xffffffffffffffff"), Some(u64::MAX));
    assert_eq!(parse_optional_number("0x10000000000000000"), None);
    assert_eq!(parse_optional_number("18446744073709551615"), Some(u64::MAX));
    assert_eq!(parse_optional_number("18446744073709551616"), None);
}
