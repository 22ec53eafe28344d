use sha2::{Digest, Sha256};

use linker_lens::analysis::{analyze_outputs, apply_cache_hit};
use linker_lens::cache::{build_cache_key, cache_file_name, hash_bytes, hash_string};
use linker_lens::model::{AppState, ToolchainPaths};

fn toolchain() -> ToolchainPaths {
    ToolchainPaths {
        nm_path: "/opt/tc/bin/nm".to_string(),
        objdump_path: "/opt/tc/bin/objdump".to_string(),
        strings_path: "/opt/tc/bin/strings".to_string(),
    }
}

fn hex(bytes: &[u8]) -> String {
    bytes.iter().map(|b| format!("{:02x}", b)).collect()
}

#[test]
fn byte_hashing_matches_the_reference_digest() {
    let digest = hash_bytes(&b"abc".to_vec());
    assert_eq!(
        digest,
        "ba7816bf8f01cfea414140de5dae2223b00361a396177a9cb410ff61f20015ad"
    );
    assert_eq!(hash_string("abc"), digest);
    assert_eq!(hash_bytes(&Vec::new()).len(), 64);
}

#[test]
fn key_is_deterministic_for_identical_inputs() {
    let elf = vec![0u8, 1, 2, 3, 255];
    let map = vec![b'm', b'a', b'p'];
    let k1 = build_cache_key(&toolchain(), &elf, Some(&map));
    let k2 = build_cache_key(&toolchain(), &elf, Some(&map));
    assert_eq!(k1, k2);
}

#[test]
fn key_changes_when_any_input_changes() {
    let elf = vec![0u8, 1, 2, 3];
    let map = vec![9u8, 9, 9];
    let base = build_cache_key(&toolchain(), &elf, Some(&map));

    let mut elf2 = elf.clone();
    elf2[1] ^= 1;
    assert_ne!(base, build_cache_key(&toolchain(), &elf2, Some(&map)));

    let mut map2 = map.clone();
    map2[0] ^= 1;
    assert_ne!(base, build_cache_key(&toolchain(), &elf, Some(&map2)));

    assert_ne!(base, build_cache_key(&toolchain(), &elf, None));

    let mut other_tools = toolchain();
    other_tools.nm_path.push('2');
    assert_ne!(base, build_cache_key(&other_tools, &elf, Some(&map)));
}

#[test]
fn key_follows_the_documented_derivation() {
    let elf = vec![1u8, 2, 3];
    let tc = toolchain();
    let elf_hash = hex(&Sha256::digest(&elf));
    let raw = format!(
        "ver:v3|elf:{}|map:none|tool:{}|{}|{}",
        elf_hash, tc.nm_path, tc.objdump_path, tc.strings_path
    );
    let expected = hex(&Sha256::digest(raw.as_bytes()));
    assert_eq!(build_cache_key(&tc, &elf, None), expected);
}

#[test]
fn cache_artifacts_are_named_by_kind_and_key() {
    assert_eq!(cache_file_name("analysis", "deadbeef"), "analysis-deadbeef.json");
    assert_eq!(cache_file_name("symbols", "deadbeef"), "symbols-deadbeef.json");
}

#[test]
fn second_run_serves_the_same_summary_as_a_hit() {
    let objdump_out = " 0 .text 100 08000000 08000000 0 2**2\n 1 .bss 40 20000000 20000000 0 2**2\n";
    let nm_out = "08000000 80 T main\n20000000 40 B buffer\n";
    let elf = vec![7u8; 32];

    let mut state1 = AppState::default();
    let key1 = build_cache_key(&toolchain(), &elf, None);
    let first = analyze_outputs(
        "fw.elf",
        None,
        toolchain(),
        &key1,
        objdump_out,
        nm_out,
        None,
        None,
        &mut state1,
    );
    assert!(!first.meta.cache.hit);
    assert_eq!(first.meta.cache.key, key1);

    // the unchanged inputs resolve to the same key, so the stored result
    // is served back, marked as a hit
    let key2 = build_cache_key(&toolchain(), &elf, None);
    assert_eq!(key1, key2);
    let totals_before = first.summary.sections_totals;
    let top_before: Vec<(String, u64)> = first
        .summary
        .top_symbols
        .iter()
        .map(|s| (s.name.clone(), s.size))
        .collect();
    let served = apply_cache_hit(first, &key2);
    assert!(served.meta.cache.hit);
    assert_eq!(served.meta.cache.key, key2);
    assert_eq!(served.summary.sections_totals.flash_bytes, totals_before.flash_bytes);
    assert_eq!(served.summary.sections_totals.ram_bytes, totals_before.ram_bytes);
    let top_after: Vec<(String, u64)> = served
        .summary
        .top_symbols
        .iter()
        .map(|s| (s.name.clone(), s.size))
        .collect();
    assert_eq!(top_before, top_after);

    // a fresh computation over the same inputs reproduces the summary
    let mut state2 = AppState::default();
    let again = analyze_outputs(
        "fw.elf",
        None,
        toolchain(),
        &key2,
        objdump_out,
        nm_out,
        None,
        None,
        &mut state2,
    );
    assert_eq!(again.summary.sections_totals.flash_bytes, totals_before.flash_bytes);
    assert_eq!(again.summary.sections_totals.bss_bytes, totals_before.bss_bytes);
    let top_again: Vec<(String, u64)> = again
        .summary
        .top_symbols
        .iter()
        .map(|s| (s.name.clone(), s.size))
        .collect();
    assert_eq!(top_before, top_again);
    assert_eq!(state1.symbols.len(), state2.symbols.len());
}

#[test]
fn analysis_fills_the_store_and_the_summary() {
    let objdump_out = " 0 .text 200 08000000 08000000 0 2**2\n";
    let nm_out = "08000000 100 T main\n08000100 80 T helper\n08000180 20 t tiny\n";
    let mut state = AppState::default();
    let result = analyze_outputs(
        "fw.elf",
        Some("fw.map"),
        toolchain(),
        "k",
        objdump_out,
        nm_out,
        Some(".text 0x8000000 0x200 main.o\n"),
        Some(12),
        &mut state,
    );
    assert_eq!(state.symbols.len(), 3);
    assert_eq!(result.sections.len(), 1);
    assert_eq!(result.summary.sections_totals.text_bytes, 0x200);
    assert_eq!(result.summary.top_symbols.len(), 3);
    assert_eq!(result.summary.top_symbols[0].name, "main");
    assert_eq!(result.summary.top_objects.len(), 1);
    assert_eq!(result.summary.top_objects[0].name, "main.o");
    assert_eq!(result.meta.map_path.as_deref(), Some("fw.map"));
    let strings_finding = result
        .summary
        .findings
        .iter()
        .find(|f| f.id == "STRING_COUNT")
        .expect("string count finding");
    assert_eq!(strings_finding.value, 12);
}
