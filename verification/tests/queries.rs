use linker_lens::model::{AppState, SymbolInfo, SymbolQuery};
use linker_lens::store::{list_symbols, lookup_pc, parse_hex_str, parse_pc_address, replace_symbols};

fn sym(name: &str, size: u64, addr: Option<&str>, kind: &str) -> SymbolInfo {
    SymbolInfo {
        name: name.to_string(),
        size,
        addr: addr.map(|a| a.to_string()),
        kind: kind.to_string(),
        section_guess: "text".to_string(),
    }
}

fn query(
    q: Option<&str>,
    page: usize,
    page_size: usize,
    sort: Option<&str>,
    order: Option<&str>,
) -> SymbolQuery {
    SymbolQuery {
        query: q.map(|s| s.to_string()),
        page,
        page_size,
        sort: sort.map(|s| s.to_string()),
        order: order.map(|s| s.to_string()),
    }
}

#[test]
fn listing_empty_store_is_empty_not_an_error() {
    let state = AppState::default();
    let paged = list_symbols(&state, &query(None, 1, 10, None, None));
    assert_eq!(paged.total, 0);
    assert!(paged.items.is_empty());
}

#[test]
fn listing_pages_past_the_end_are_empty_with_full_total() {
    let mut state = AppState::default();
    replace_symbols(
        &mut state,
        vec![sym("alpha", 10, None, "T"), sym("beta", 30, None, "T"), sym("gamma", 20, None, "T")],
    );
    let paged = list_symbols(&state, &query(None, 9, 10, None, None));
    assert_eq!(paged.total, 3);
    assert!(paged.items.is_empty());
}

#[test]
fn listing_defaults_to_size_descending() {
    let mut state = AppState::default();
    replace_symbols(
        &mut state,
        vec![sym("alpha", 10, None, "T"), sym("beta", 30, None, "T"), sym("gamma", 20, None, "T")],
    );
    let paged = list_symbols(&state, &query(None, 1, 10, None, None));
    assert_eq!(paged.total, 3);
    let names: Vec<&str> = paged.items.iter().map(|s| s.name.as_str()).collect();
    assert_eq!(names, ["beta", "gamma", "alpha"]);
}

#[test]
fn listing_by_name_ascending() {
    let mut state = AppState::default();
    replace_symbols(
        &mut state,
        vec![sym("gamma", 1, None, "T"), sym("alpha", 2, None, "T"), sym("beta", 3, None, "T")],
    );
    let paged = list_symbols(&state, &query(None, 1, 10, Some("name"), Some("asc")));
    let names: Vec<&str> = paged.items.iter().map(|s| s.name.as_str()).collect();
    assert_eq!(names, ["alpha", "beta", "gamma"]);
}

#[test]
fn listing_filter_is_case_insensitive() {
    let mut state = AppState::default();
    replace_symbols(
        &mut state,
        vec![
            sym("UART_Handler", 10, None, "T"),
            sym("main", 20, None, "T"),
            sym("uart_init", 5, None, "T"),
        ],
    );
    let paged = list_symbols(&state, &query(Some("  UART "), 1, 10, None, None));
    assert_eq!(paged.total, 2);
    let names: Vec<&str> = paged.items.iter().map(|s| s.name.as_str()).collect();
    assert_eq!(names, ["UART_Handler", "uart_init"]);
}

#[test]
fn listing_slices_the_requested_page() {
    let mut state = AppState::default();
    replace_symbols(
        &mut state,
        vec![
            sym("a", 40, None, "T"),
            sym("b", 30, None, "T"),
            sym("c", 20, None, "T"),
            sym("d", 10, None, "T"),
        ],
    );
    let paged = list_symbols(&state, &query(None, 2, 2, None, None));
    assert_eq!(paged.total, 4);
    let names: Vec<&str> = paged.items.iter().map(|s| s.name.as_str()).collect();
    assert_eq!(names, ["c", "d"]);
}

#[test]
fn listing_clamps_page_and_page_size() {
    let mut state = AppState::default();
    replace_symbols(&mut state, vec![sym("a", 2, None, "T"), sym("b", 1, None, "T")]);
    let paged = list_symbols(&state, &query(None, 0, 0, None, None));
    assert_eq!(paged.total, 2);
    assert_eq!(paged.items.len(), 1);
    assert_eq!(paged.items[0].name, "a");
}

#[test]
fn lookup_overlap_resolves_to_highest_start() {
    let mut state = AppState::default();
    replace_symbols(
        &mut state,
        vec![
            sym("A", 0x10, Some("1000"), "T"),
            sym("B", 0x8, Some("1004"), "T"),
        ],
    );
    let res = lookup_pc(&state, "0x1005").expect("lookup succeeds");
    assert_eq!(res.address, "0x1005");
    let hit = res.symbol.expect("a symbol matches");
    assert_eq!(hit.name, "B");
    assert_eq!(hit.offset, 1);
    assert_eq!(hit.size, 0x8);
    assert_eq!(hit.addr, "1004");
}

#[test]
fn lookup_without_match_is_not_an_error() {
    let mut state = AppState::default();
    replace_symbols(&mut state, vec![sym("A", 0x10, Some("1000"), "T")]);
    let res = lookup_pc(&state, "0x2000").expect("lookup succeeds");
    assert!(res.symbol.is_none());
    assert_eq!(res.address, "0x2000");
}

#[test]
fn lookup_on_empty_store_is_an_error() {
    let state = AppState::default();
    let err = lookup_pc(&state, "0x1000").unwrap_err();
    assert_eq!(err, "Symbol cache is empty. Run analysis first.");
}

#[test]
fn lookup_rejects_bad_addresses() {
    let state = AppState::default();
    assert_eq!(lookup_pc(&state, "   ").unwrap_err(), "Address is required.");
    assert_eq!(lookup_pc(&state, "zz").unwrap_err(), "Invalid address.");
}

#[test]
fn lookup_skips_zero_size_and_unparsable_symbols() {
    let mut state = AppState::default();
    replace_symbols(
        &mut state,
        vec![
            sym("zero", 0, Some("1000"), "T"),
            sym("bad", 0x100, Some("not-hex"), "T"),
            sym("good", 0x10, Some("1000"), "T"),
        ],
    );
    let res = lookup_pc(&state, "0x1008").expect("lookup succeeds");
    assert_eq!(res.symbol.expect("match").name, "good");
}

#[test]
fn pc_addresses_parse_in_three_shapes() {
    assert_eq!(parse_pc_address("0x1a").unwrap(), 0x1a);
    assert_eq!(parse_pc_address("0X1A").unwrap(), 0x1a);
    assert_eq!(parse_pc_address("1a").unwrap(), 0x1a);
    assert_eq!(parse_pc_address("1A").unwrap(), 0x1a);
    assert_eq!(parse_pc_address("100").unwrap(), 100);
    assert_eq!(parse_pc_address(" 42 ").unwrap(), 42);
    assert_eq!(parse_pc_address("").unwrap_err(), "Address is required.");
    assert_eq!(parse_pc_address("0x").unwrap_err(), "Invalid address.");
    assert_eq!(parse_pc_address("wxyz").unwrap_err(), "Invalid address.");
}

#[test]
fn listing_by_name_descending_reverses() {
    let mut state = AppState::default();
    replace_symbols(
        &mut state,
        vec![sym("gamma", 1, None, "T"), sym("alpha", 2, None, "T"), sym("beta", 3, None, "T")],
    );
    let paged = list_symbols(&state, &query(None, 1, 10, Some("name"), Some("desc")));
    let names: Vec<&str> = paged.items.iter().map(|s| s.name.as_str()).collect();
    assert_eq!(names, ["gamma", "beta", "alpha"]);
}

#[test]
fn listing_size_ascending_reverses() {
    let mut state = AppState::default();
    replace_symbols(
        &mut state,
        vec![sym("a", 30, None, "T"), sym("b", 10, None, "T"), sym("c", 20, None, "T")],
    );
    let paged = list_symbols(&state, &query(None, 1, 10, None, Some("asc")));
    let names: Vec<&str> = paged.items.iter().map(|s| s.name.as_str()).collect();
    assert_eq!(names, ["b", "c", "a"]);
}

#[test]
fn symbol_address_strings_parse_as_hex() {
    assert_eq!(parse_hex_str("0x1000"), Some(0x1000));
    assert_eq!(parse_hex_str("1000"), Some(0x1000));
    assert_eq!(parse_hex_str(" 0a "), Some(10));
    assert_eq!(parse_hex_str(""), None);
    assert_eq!(parse_hex_str("xyz"), None);
}
