use linker_lens::filenames::sanitize_filename;
use linker_lens::findings::{compute_findings, count_strings_lines};
use linker_lens::model::{SectionInfo, SymbolInfo};

fn sym(name: &str, size: u64, kind: &str) -> SymbolInfo {
    SymbolInfo {
        name: name.to_string(),
        size,
        addr: None,
        kind: kind.to_string(),
        section_guess: "other".to_string(),
    }
}

fn section(name: &str, size: u64) -> SectionInfo {
    SectionInfo { name: name.to_string(), size, vma: None, lma: None }
}

#[test]
fn no_ram_symbols_means_no_ram_pressure_finding() {
    let symbols = vec![sym("main", 100, "T"), sym("table", 40, "R")];
    let findings = compute_findings(&symbols, &Vec::new(), None);
    assert!(findings.iter().all(|f| f.id != "RAM_PRESSURE"));
}

#[test]
fn ram_symbols_yield_one_ram_pressure_finding() {
    let symbols = vec![
        sym("buffer", 100, "B"),
        sym("state", 50, "D"),
        sym("main", 400, "T"),
        sym("small", 10, "b"),
    ];
    let findings = compute_findings(&symbols, &Vec::new(), None);
    let ram: Vec<_> = findings.iter().filter(|f| f.id == "RAM_PRESSURE").collect();
    assert_eq!(ram.len(), 1);
    assert_eq!(ram[0].severity, "warn");
    assert_eq!(ram[0].value, 160);
    assert_eq!(ram[0].items, ["buffer", "state", "small"]);
}

#[test]
fn float_symbols_yield_exactly_one_float_finding_with_the_sum() {
    let symbols = vec![
        sym("__aeabi_fadd", 120, "T"),
        sym("_dtoa_r", 300, "T"),
        sym("FloatToStr", 80, "T"),
        sym("main", 500, "T"),
    ];
    let findings = compute_findings(&symbols, &Vec::new(), None);
    let float: Vec<_> = findings.iter().filter(|f| f.id == "FLOAT_BLOAT").collect();
    assert_eq!(float.len(), 1);
    assert_eq!(float[0].value, 500);
    assert_eq!(float[0].items, ["_dtoa_r", "__aeabi_fadd", "FloatToStr"]);
}

#[test]
fn ram_evidence_keeps_only_the_five_largest() {
    let symbols: Vec<SymbolInfo> = (0..8).map(|i| sym(&format!("s{}", i), 10 + i, "B")).collect();
    let findings = compute_findings(&symbols, &Vec::new(), None);
    let ram = findings.iter().find(|f| f.id == "RAM_PRESSURE").unwrap();
    assert_eq!(ram.items.len(), 5);
    assert_eq!(ram.items[0], "s7");
}

#[test]
fn unwind_sections_yield_an_exidx_finding() {
    let sections = vec![
        section(".text", 100),
        section(".ARM.exidx", 24),
        section(".ARM.extab", 16),
    ];
    let findings = compute_findings(&Vec::new(), &sections, None);
    let ex = findings.iter().find(|f| f.id == "EXIDX").expect("exidx finding");
    assert_eq!(ex.severity, "info");
    assert_eq!(ex.value, 40);
    assert_eq!(ex.items, [".ARM.exidx", ".ARM.extab"]);
}

#[test]
fn string_count_is_emitted_only_when_present_and_nonzero() {
    let none = compute_findings(&Vec::new(), &Vec::new(), None);
    assert!(none.is_empty());
    let zero = compute_findings(&Vec::new(), &Vec::new(), Some(0));
    assert!(zero.is_empty());
    let some = compute_findings(&Vec::new(), &Vec::new(), Some(7));
    assert_eq!(some.len(), 1);
    assert_eq!(some[0].id, "STRING_COUNT");
    assert_eq!(some[0].value, 7);
    assert!(some[0].items.is_empty());
}

#[test]
fn stream_line_counting_matches_delimiters() {
    assert_eq!(count_strings_lines(&Vec::new()), 0);
    assert_eq!(count_strings_lines(&b"one\ntwo\n".to_vec()), 2);
    assert_eq!(count_strings_lines(&b"one\ntwo".to_vec()), 2);
    assert_eq!(count_strings_lines(&b"\n".to_vec()), 1);
}

#[test]
fn filename_hygiene() {
    assert_eq!(sanitize_filename("  font.c  ").unwrap(), "font.c");
    assert_eq!(sanitize_filename("").unwrap(), "settings.json");
    assert_eq!(sanitize_filename("   ").unwrap(), "settings.json");
    assert_eq!(sanitize_filename("a/b").unwrap_err(), "Invalid filename");
    assert_eq!(sanitize_filename("a\\b").unwrap_err(), "Invalid filename");
}
