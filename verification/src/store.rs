//! The symbol store and its queries: a table of all symbols from the
//! latest analysis, with filtered, sorted, paged listing and
//! nearest-enclosing-symbol resolution for an address.
use vstd::prelude::*;

use crate::model::{AppState, PagedSymbols, PcLookupResult, PcLookupSymbol, SymbolInfo, SymbolModel, SymbolQuery};
use crate::model::copy_symbol;
use crate::numbers::{parse_dec_spec, parse_hex_spec};
use crate::numbers::{parse_dec_from, parse_hex_from};
use crate::rank::{sort_sym_desc, sort_sym_name_asc};
use crate::rank::{reverse_symbols, sort_symbols_desc, sort_symbols_name_asc};
use crate::sat_add;
use crate::text::{contains_ci_spec, lower_u32, trim_spec};
use crate::text::{contains_ci_str, str_eq, trim_str};

verus! {

/// What a symbol's address string denotes: hexadecimal, an optional
/// single "0x" prefix, surrounding whitespace ignored.
pub open spec fn hex_str_spec(s: Seq<char>) -> Option<u64> {
    let t = trim_spec(s);
    if t.len() >= 2 && t[0] == '0' && t[1] == 'x' {
        parse_hex_spec(t.skip(2))
    } else {
        parse_hex_spec(t)
    }
}

/// Parse a symbol's address string.
pub fn parse_hex_str(value: &str) -> (r: Option<u64>)
    ensures
        r == hex_str_spec(value@),
{
    let t = trim_str(value);
    let n = t.unicode_len();
    if n >= 2 && t.get_char(0) == '0' && t.get_char(1) == 'x' {
        parse_hex_from(t, 2)
    } else {
        let r = parse_hex_from(t, 0);
        proof {
            assert(t@.skip(0) =~= t@);
        }
        r
    }
}

pub open spec fn has_hex_letter(t: Seq<char>) -> bool {
    exists|i: int| 0 <= i < t.len() && 97 <= lower_u32(t[i]) && lower_u32(t[i]) <= 102
}

/// What a query address denotes: empty input denotes nothing;
/// hexadecimal with a "0x"/"0X" prefix or when a hex letter occurs
/// anywhere (case-insensitive); decimal otherwise.
pub open spec fn pc_addr_spec(s: Seq<char>) -> Option<u64> {
    let t = trim_spec(s);
    if t.len() == 0 {
        None
    } else if t.len() >= 2 && t[0] == '0' && (t[1] == 'x' || t[1] == 'X') {
        parse_hex_spec(t.skip(2))
    } else if has_hex_letter(t) {
        parse_hex_spec(t)
    } else {
        parse_dec_spec(t)
    }
}

/// Parse a query address; the error says whether the input was missing
/// or malformed.
pub fn parse_pc_address(value: &str) -> (r: Result<u64, String>)
    ensures
        match r {
            Ok(v) => pc_addr_spec(value@) == Some(v),
            Err(e) => {
                &&& pc_addr_spec(value@) is None
                &&& trim_spec(value@).len() == 0 ==> e@ == "Address is required."@
                &&& trim_spec(value@).len() != 0 ==> e@ == "Invalid address."@
            },
        },
{
    let t = trim_str(value);
    let n = t.unicode_len();
    if n == 0 {
        return Err("Address is required.".to_owned());
    }
    if n >= 2 && t.get_char(0) == '0' && (t.get_char(1) == 'x' || t.get_char(1) == 'X') {
        return match parse_hex_from(t, 2) {
            Some(v) => Ok(v),
            None => Err("Invalid address.".to_owned()),
        };
    }
    let mut has_letter = false;
    let mut i: usize = 0;
    while i < n
        invariant
            0 <= i <= n,
            n == t@.len(),
            has_letter == exists|k: int|
                0 <= k < i && 97 <= lower_u32(t@[k]) && lower_u32(t@[k]) <= 102,
        decreases n - i,
    {
        let u = crate::text::lower_char_u32(t.get_char(i));
        if 97 <= u && u <= 102 {
            has_letter = true;
        }
        i = i + 1;
    }
    proof {
        assert(has_letter == has_hex_letter(t@));
    }
    let parsed = if has_letter {
        let r = parse_hex_from(t, 0);
        proof {
            assert(t@.skip(0) =~= t@);
        }
        r
    } else {
        let r = parse_dec_from(t, 0);
        proof {
            assert(t@.skip(0) =~= t@);
        }
        r
    };
    match parsed {
        Some(v) => Ok(v),
        None => Err("Invalid address.".to_owned()),
    }
}

/// Where a symbol's range starts, when its address string parses.
pub open spec fn sym_start(m: SymbolModel) -> Option<u64> {
    match m.addr {
        None => None,
        Some(a) => hex_str_spec(a),
    }
}

/// The symbol's half-open range `[start, start+size)` contains `addr`:
/// only symbols with a parsable address and a nonzero size resolve.
pub open spec fn sym_matches(m: SymbolModel, addr: u64) -> bool {
    &&& m.size != 0
    &&& sym_start(m) is Some
    &&& addr >= sym_start(m)->0
    &&& addr < sat_add(sym_start(m)->0, m.size)
}

/// The index the lookup resolves to: among the symbols whose range
/// contains the address, the first one with the highest start.
pub open spec fn best_index(syms: Seq<SymbolModel>, addr: u64) -> int
    decreases syms.len(),
{
    if syms.len() == 0 {
        -1
    } else {
        let prev = best_index(syms.drop_last(), addr);
        let i = syms.len() - 1;
        if !sym_matches(syms[i], addr) {
            prev
        } else if prev < 0 {
            i as int
        } else if sym_start(syms[i])->0 > sym_start(syms[prev])->0 {
            i as int
        } else {
            prev
        }
    }
}

pub proof fn lemma_best_index_bounds(syms: Seq<SymbolModel>, addr: u64)
    ensures
        -1 <= best_index(syms, addr) < syms.len(),
        best_index(syms, addr) >= 0 ==> sym_matches(syms[best_index(syms, addr)], addr),
    decreases syms.len(),
{
    if syms.len() > 0 {
        lemma_best_index_bounds(syms.drop_last(), addr);
        let prev = best_index(syms.drop_last(), addr);
        if prev >= 0 {
            assert(syms.drop_last()[prev] == syms[prev]);
        }
    }
}

/// When nothing resolves, no symbol's range contains the address.
pub proof fn lemma_best_index_none(syms: Seq<SymbolModel>, addr: u64, j: int)
    requires
        best_index(syms, addr) == -1,
        0 <= j < syms.len(),
    ensures
        !sym_matches(syms[j], addr),
    decreases syms.len(),
{
    lemma_best_index_bounds(syms.drop_last(), addr);
    if j < syms.len() - 1 {
        lemma_best_index_none(syms.drop_last(), addr, j);
        assert(syms.drop_last()[j] == syms[j]);
    }
}

/// The highest start wins: every symbol whose range contains the
/// address starts at or below the resolved one.
pub proof fn lemma_best_index_max(syms: Seq<SymbolModel>, addr: u64, j: int)
    requires
        0 <= j < syms.len(),
        sym_matches(syms[j], addr),
    ensures
        best_index(syms, addr) >= 0,
        sym_start(syms[j])->0 <= sym_start(syms[best_index(syms, addr)])->0,
    decreases syms.len(),
{
    lemma_best_index_bounds(syms, addr);
    lemma_best_index_bounds(syms.drop_last(), addr);
    let prev = best_index(syms.drop_last(), addr);
    let i = syms.len() - 1;
    if prev >= 0 {
        assert(syms.drop_last()[prev] == syms[prev]);
    }
    if j < i {
        lemma_best_index_max(syms.drop_last(), addr, j);
        assert(syms.drop_last()[j] == syms[j]);
    }
}

/// Replace the store's contents wholesale with a new analysis's
/// symbols: one swap, never an incremental merge.
pub fn replace_symbols(state: &mut AppState, symbols: Vec<SymbolInfo>)
    ensures
        final (state).symbols == symbols,
{
    state.symbols = symbols;
}

/// Resolve an address to the enclosing symbol with the highest start.
/// An unparsable address or an empty store is an error; an address no
/// symbol contains is a result without a symbol.
pub fn lookup_pc(state: &AppState, address: &str) -> (r: Result<PcLookupResult, String>)
    ensures
        match pc_addr_spec(address@) {
            None => match r {
                Ok(_) => false,
                Err(e) => {
                    &&& trim_spec(address@).len() == 0 ==> e@ == "Address is required."@
                    &&& trim_spec(address@).len() != 0 ==> e@ == "Invalid address."@
                },
            },
            Some(a) => {
                if state.symbols@.len() == 0 {
                    match r {
                        Ok(_) => false,
                        Err(e) => e@ == "Symbol cache is empty. Run analysis first."@,
                    }
                } else {
                    match r {
                        Err(_) => false,
                        Ok(res) => {
                            let dv = state.symbols.deep_view();
                            let b = best_index(dv, a);
                            &&& res.address@ == address@
                            &&& b == -1 ==> res.symbol is None
                            &&& b >= 0 ==> match res.symbol {
                                None => false,
                                Some(sym) => {
                                    &&& sym.name@ == dv[b].name
                                    &&& dv[b].addr == Some(sym.addr@)
                                    &&& sym.size == dv[b].size
                                    &&& sym.kind@ == dv[b].kind
                                    &&& sym.section_guess@ == dv[b].section_guess
                                    &&& sym.offset == a - sym_start(dv[b])->0
                                },
                            }
                        },
                    }
                }
            },
        },
{
    let ghost dv = state.symbols.deep_view();
    let addr_value = match parse_pc_address(address) {
        Ok(v) => v,
        Err(e) => {
            return Err(e);
        },
    };
    let n = state.symbols.len();
    if n == 0 {
        return Err("Symbol cache is empty. Run analysis first.".to_owned());
    }
    let mut has_best = false;
    let mut best_idx: usize = 0;
    let mut best_start: u64 = 0;
    proof {
        assert(dv.take(0) =~= Seq::<SymbolModel>::empty());
    }
    let mut i: usize = 0;
    while i < n
        invariant
            0 <= i <= n,
            n == state.symbols@.len(),
            dv == state.symbols.deep_view(),
            dv.len() == n,
            !has_best ==> best_index(dv.take(i as int), addr_value) == -1,
            has_best ==> {
                &&& 0 <= best_idx < i
                &&& best_index(dv.take(i as int), addr_value) == best_idx
                &&& sym_start(dv[best_idx as int]) == Some(best_start)
            },
        decreases n - i,
    {
        proof {
            assert(dv.take(i + 1).drop_last() =~= dv.take(i as int));
            assert(dv.take(i + 1).last() == dv[i as int]);
            assert(dv.take(i + 1)[i as int] == dv[i as int]);
            assert(state.symbols@[i as int]@ == dv[i as int]);
            if has_best {
                assert(dv.take(i as int)[best_idx as int] == dv[best_idx as int]);
            }
        }
        let sym = &state.symbols[i];
        match &sym.addr {
            None => {
                proof {
                    assert(!sym_matches(dv[i as int], addr_value));
                }
            },
            Some(a) => {
                match parse_hex_str(a.as_str()) {
                    None => {
                        proof {
                            assert(!sym_matches(dv[i as int], addr_value));
                        }
                    },
                    Some(start) => {
                        if sym.size == 0 {
                            proof {
                                assert(!sym_matches(dv[i as int], addr_value));
                            }
                        } else {
                            let end = start.saturating_add(sym.size);
                            if addr_value >= start && addr_value < end {
                                proof {
                                    assert(sym_matches(dv[i as int], addr_value));
                                }
                                if !has_best || start > best_start {
                                    has_best = true;
                                    best_idx = i;
                                    best_start = start;
                                }
                            } else {
                                proof {
                                    assert(!sym_matches(dv[i as int], addr_value));
                                }
                            }
                        }
                    },
                }
            },
        }
        i = i + 1;
    }
    proof {
        assert(dv.take(n as int) =~= dv);
    }
    let symbol = if has_best {
        let sym = &state.symbols[best_idx];
        let addr_str = match &sym.addr {
            Some(a) => a.as_str().to_owned(),
            None => {
                proof {
                    assert(sym_start(dv[best_idx as int]) is Some);
                    assert(false);
                }
                String::new()
            },
        };
        proof {
            lemma_best_index_bounds(dv, addr_value);
            assert(sym_matches(dv[best_idx as int], addr_value));
            assert(addr_value >= sym_start(dv[best_idx as int])->0);
        }
        Some(
            PcLookupSymbol {
                name: sym.name.as_str().to_owned(),
                addr: addr_str,
                size: sym.size,
                kind: sym.kind.as_str().to_owned(),
                section_guess: sym.section_guess.as_str().to_owned(),
                offset: addr_value - best_start,
            },
        )
    } else {
        None
    };
    Ok(PcLookupResult { address: address.to_owned(), symbol })
}

/// The symbols whose names hold `needle`, case-insensitively, in
/// store order.
pub open spec fn filter_syms(syms: Seq<SymbolModel>, needle: Seq<char>) -> Seq<SymbolModel>
    decreases syms.len(),
{
    if syms.len() == 0 {
        Seq::empty()
    } else {
        filter_syms(syms.drop_last(), needle) + if contains_ci_spec(syms.last().name, needle) {
            seq![syms.last()]
        } else {
            Seq::empty()
        }
    }
}

/// The store entries a query's filter keeps: all of them when the
/// filter is absent or blank.
pub open spec fn query_filtered(syms: Seq<SymbolModel>, q: SymbolQuery) -> Seq<SymbolModel> {
    match q.query {
        Some(qs) => if trim_spec(qs@).len() > 0 {
            filter_syms(syms, trim_spec(qs@))
        } else {
            syms
        },
        None => syms,
    }
}

pub open spec fn sort_by_name(q: SymbolQuery) -> bool {
    match q.sort {
        Some(s) => s@ == "name"@,
        None => false,
    }
}

pub open spec fn order_desc(q: SymbolQuery) -> bool {
    match q.order {
        Some(o) => o@ == "desc"@,
        None => true,
    }
}

/// The filtered store in the query's order: by name or by size,
/// ascending or descending (descending is the default).
pub open spec fn listed_spec(syms: Seq<SymbolModel>, q: SymbolQuery) -> Seq<SymbolModel> {
    let f = query_filtered(syms, q);
    if sort_by_name(q) {
        if order_desc(q) {
            sort_sym_name_asc(f).reverse()
        } else {
            sort_sym_name_asc(f)
        }
    } else {
        if order_desc(q) {
            sort_sym_desc(f)
        } else {
            sort_sym_desc(f).reverse()
        }
    }
}

/// The requested page: page number and size clamp to at least 1, and a
/// page past the end is empty, not an error.
pub open spec fn page_slice(s: Seq<SymbolModel>, q: SymbolQuery) -> Seq<SymbolModel> {
    let page = if q.page < 1 {
        1
    } else {
        q.page as int
    };
    let psz = if q.page_size < 1 {
        1
    } else {
        q.page_size as int
    };
    let start = (page - 1) * psz;
    if start >= s.len() {
        Seq::empty()
    } else {
        s.subrange(
            start,
            if start + psz <= s.len() {
                start + psz
            } else {
                s.len() as int
            },
        )
    }
}

fn copy_all_symbols(v: &Vec<SymbolInfo>) -> (r: Vec<SymbolInfo>)
    ensures
        r.deep_view() == v.deep_view(),
{
    let ghost dv = v.deep_view();
    let mut out: Vec<SymbolInfo> = Vec::new();
    let mut i: usize = 0;
    while i < v.len()
        invariant
            0 <= i <= v@.len(),
            dv == v.deep_view(),
            dv.len() == v@.len(),
            out.deep_view() == dv.take(i as int),
        decreases v@.len() - i,
    {
        let ghost prev = out.deep_view();
        proof {
            assert(v@[i as int]@ == dv[i as int]);
            assert(dv.take(i + 1) =~= dv.take(i as int).push(dv[i as int]));
        }
        out.push(copy_symbol(&v[i]));
        proof {
            assert(out.deep_view() =~= prev.push(dv[i as int]));
        }
        i = i + 1;
    }
    proof {
        assert(dv.take(dv.len() as int) =~= dv);
    }
    out
}

fn filter_symbols_ci(v: &Vec<SymbolInfo>, needle: &str) -> (r: Vec<SymbolInfo>)
    ensures
        r.deep_view() == filter_syms(v.deep_view(), needle@),
{
    let ghost dv = v.deep_view();
    let mut out: Vec<SymbolInfo> = Vec::new();
    proof {
        assert(dv.take(0) =~= Seq::<SymbolModel>::empty());
        assert(out.deep_view() =~= Seq::<SymbolModel>::empty());
    }
    let mut i: usize = 0;
    while i < v.len()
        invariant
            0 <= i <= v@.len(),
            dv == v.deep_view(),
            dv.len() == v@.len(),
            out.deep_view() == filter_syms(dv.take(i as int), needle@),
        decreases v@.len() - i,
    {
        let ghost prev = out.deep_view();
        proof {
            assert(dv.take(i + 1).drop_last() =~= dv.take(i as int));
            assert(dv.take(i + 1).last() == dv[i as int]);
            assert(v@[i as int]@ == dv[i as int]);
        }
        if contains_ci_str(v[i].name.as_str(), needle) {
            out.push(copy_symbol(&v[i]));
            proof {
                assert(out.deep_view() =~= prev + seq![dv[i as int]]);
            }
        } else {
            proof {
                assert(out.deep_view() =~= prev + Seq::<SymbolModel>::empty());
            }
        }
        i = i + 1;
    }
    proof {
        assert(dv.take(dv.len() as int) =~= dv);
    }
    out
}

/// List the store's symbols: filter, order, and return one page along
/// with the total match count.
pub fn list_symbols(state: &AppState, query: &SymbolQuery) -> (r: PagedSymbols)
    ensures
        r.total == query_filtered(state.symbols.deep_view(), *query).len(),
        r.items.deep_view() == page_slice(
            listed_spec(state.symbols.deep_view(), *query),
            *query,
        ),
{
    let ghost dv = state.symbols.deep_view();
    let filtered = match &query.query {
        Some(qs) => {
            let t = trim_str(qs.as_str());
            if t.unicode_len() > 0 {
                filter_symbols_ci(&state.symbols, t)
            } else {
                copy_all_symbols(&state.symbols)
            }
        },
        None => copy_all_symbols(&state.symbols),
    };
    let total = filtered.len();
    let by_name = match &query.sort {
        Some(s) => str_eq(s.as_str(), "name"),
        None => false,
    };
    let desc = match &query.order {
        Some(o) => str_eq(o.as_str(), "desc"),
        None => true,
    };
    let ordered = if by_name {
        let base = sort_symbols_name_asc(&filtered);
        if desc {
            reverse_symbols(&base)
        } else {
            base
        }
    } else {
        let base = sort_symbols_desc(&filtered);
        if desc {
            base
        } else {
            reverse_symbols(&base)
        }
    };
    let ghost listed = listed_spec(dv, *query);
    proof {
        assert(ordered.deep_view() == listed);
        assert(listed.len() == total) by {
            if sort_by_name(*query) {
                crate::rank::lemma_sort_name_len(query_filtered(dv, *query));
            } else {
                crate::rank::lemma_sort_sym_desc_sorted(query_filtered(dv, *query));
            }
        }
    }
    let page = if query.page < 1 {
        1
    } else {
        query.page
    };
    let psz = if query.page_size < 1 {
        1
    } else {
        query.page_size
    };
    let start = (page - 1).checked_mul(psz);
    let items = match start {
        None => {
            proof {
                assert(page_slice(listed, *query) =~= Seq::<SymbolModel>::empty());
            }
            Vec::new()
        },
        Some(start) => {
            if start >= total {
                proof {
                    assert(page_slice(listed, *query) =~= Seq::<SymbolModel>::empty());
                }
                Vec::new()
            } else {
                let end = match start.checked_add(psz) {
                    Some(e) => if e <= total {
                        e
                    } else {
                        total
                    },
                    None => total,
                };
                let ghost sv = ordered.deep_view();
                let mut out: Vec<SymbolInfo> = Vec::new();
                let mut k: usize = start;
                while k < end
                    invariant
                        start <= k <= end,
                        end <= total,
                        total == ordered@.len(),
                        sv == ordered.deep_view(),
                        sv.len() == total,
                        out.deep_view() == sv.subrange(start as int, k as int),
                    decreases end - k,
                {
                    let ghost prev = out.deep_view();
                    proof {
                        assert(ordered@[k as int]@ == sv[k as int]);
                        assert(sv.subrange(start as int, k + 1) =~= sv.subrange(
                            start as int,
                            k as int,
                        ).push(sv[k as int]));
                    }
                    out.push(copy_symbol(&ordered[k]));
                    proof {
                        assert(out.deep_view() =~= prev.push(sv[k as int]));
                    }
                    k = k + 1;
                }
                proof {
                    assert(out.deep_view() =~= page_slice(listed, *query));
                }
                out
            }
        },
    };
    PagedSymbols { total, items }
}

} // verus!
