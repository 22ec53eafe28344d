//! Parsing of the symbol-table dump: one symbol per line holding an
//! address, a hexadecimal size, a one-letter kind and a name (which may
//! itself contain spaces). Zero-size symbols carry no attribution value
//! and are dropped.
use vstd::prelude::*;

use crate::model::{SymbolInfo, SymbolModel};
use crate::numbers::parse_hex_spec;
use crate::numbers::parse_hex_u64;
use crate::sections::opt_record;
use crate::text::{fields_spec, join_sp, lines_spec, trim_spec};
use crate::text::{join_fields_from, split_fields, split_lines, str_eq, trim_str};

verus! {

/// The section a one-letter symbol kind suggests.
pub open spec fn guess_section_spec(kind: Seq<char>) -> Seq<char> {
    if kind == "T"@ || kind == "t"@ {
        "text"@
    } else if kind == "R"@ || kind == "r"@ {
        "rodata"@
    } else if kind == "D"@ || kind == "d"@ || kind == "G"@ || kind == "g"@ || kind == "S"@ || kind
        == "s"@ {
        "data"@
    } else if kind == "B"@ || kind == "b"@ {
        "bss"@
    } else {
        "other"@
    }
}

/// Map a symbol kind letter to its section guess.
pub fn guess_section(kind: &str) -> (r: String)
    ensures
        r@ == guess_section_spec(kind@),
{
    if str_eq(kind, "T") || str_eq(kind, "t") {
        "text".to_owned()
    } else if str_eq(kind, "R") || str_eq(kind, "r") {
        "rodata".to_owned()
    } else if str_eq(kind, "D") || str_eq(kind, "d") || str_eq(kind, "G") || str_eq(kind, "g")
        || str_eq(kind, "S") || str_eq(kind, "s") {
        "data".to_owned()
    } else if str_eq(kind, "B") || str_eq(kind, "b") {
        "bss".to_owned()
    } else {
        "other".to_owned()
    }
}

/// The symbol a single dump line denotes, if any: at least four fields;
/// a size that fails hexadecimal parsing counts as zero, and zero-size
/// symbols are dropped; the name is every field from the fourth on,
/// joined by single spaces.
pub open spec fn symbol_of_line(line: Seq<char>) -> Option<SymbolModel> {
    let t = trim_spec(line);
    if t.len() == 0 {
        None
    } else {
        let fs = fields_spec(t);
        if fs.len() < 4 {
            None
        } else {
            let size = match parse_hex_spec(fs[1]) {
                None => 0u64,
                Some(v) => v,
            };
            if size == 0 {
                None
            } else {
                Some(
                    SymbolModel {
                        name: join_sp(fs.skip(3)),
                        size,
                        addr: Some(fs[0]),
                        kind: fs[2],
                        section_guess: guess_section_spec(fs[2]),
                    },
                )
            }
        }
    }
}

pub open spec fn symbols_of_lines(ls: Seq<Seq<char>>) -> Seq<SymbolModel>
    decreases ls.len(),
{
    if ls.len() == 0 {
        Seq::empty()
    } else {
        symbols_of_lines(ls.drop_last()) + opt_record(symbol_of_line(ls.last()))
    }
}

/// The symbol list the whole dump denotes.
pub open spec fn parse_symbols_spec(out: Seq<char>) -> Seq<SymbolModel> {
    symbols_of_lines(lines_spec(out))
}

fn parse_symbol_line(line: &str) -> (r: Option<SymbolInfo>)
    ensures
        match r {
            None => symbol_of_line(line@) is None,
            Some(s) => symbol_of_line(line@) == Some(s@),
        },
{
    let t = trim_str(line);
    let n = t.unicode_len();
    if n == 0 {
        return None;
    }
    let fs = split_fields(t);
    if fs.len() < 4 {
        return None;
    }
    proof {
        assert(fs.deep_view()[0] == fs@[0]@);
        assert(fs.deep_view()[1] == fs@[1]@);
        assert(fs.deep_view()[2] == fs@[2]@);
    }
    let size = match parse_hex_u64(fs[1].as_str()) {
        None => 0u64,
        Some(v) => v,
    };
    if size == 0 {
        return None;
    }
    let name = join_fields_from(&fs, 3);
    proof {
        assert(fs.deep_view().skip(3) == fields_spec(t@).skip(3));
    }
    let kind = fs[2].as_str().to_owned();
    let section_guess = guess_section(kind.as_str());
    Some(
        SymbolInfo {
            name,
            size,
            addr: Some(fs[0].as_str().to_owned()),
            kind,
            section_guess,
        },
    )
}

/// Parse the symbol dump; one record per qualifying line, in order.
pub fn parse_nm_symbols(output: &str) -> (r: Vec<SymbolInfo>)
    ensures
        r.deep_view() == parse_symbols_spec(output@),
{
    let lines = split_lines(output);
    let ghost lv = lines.deep_view();
    let mut out: Vec<SymbolInfo> = Vec::new();
    let mut i: usize = 0;
    while i < lines.len()
        invariant
            0 <= i <= lines@.len(),
            lv == lines.deep_view(),
            lv.len() == lines@.len(),
            lv == lines_spec(output@),
            out.deep_view() == symbols_of_lines(lv.take(i as int)),
        decreases lines@.len() - i,
    {
        let ghost prev = out.deep_view();
        proof {
            assert(lv.take(i + 1).drop_last() =~= lv.take(i as int));
            assert(lv.take(i + 1).last() == lv[i as int]);
            assert(lines@[i as int]@ == lv[i as int]);
        }
        match parse_symbol_line(&lines[i]) {
            None => {
                proof {
                    assert(out.deep_view() =~= prev + opt_record(symbol_of_line(lv[i as int])));
                }
            },
            Some(rec) => {
                out.push(rec);
                proof {
                    assert(out.deep_view() =~= prev + opt_record(symbol_of_line(lv[i as int])));
                }
            },
        }
        i = i + 1;
    }
    proof {
        assert(lv.take(lv.len() as int) =~= lv);
    }
    out
}

} // verus!
