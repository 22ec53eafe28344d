//! The findings engine: four independent, order-insensitive heuristics
//! over the parsed symbols and sections, each emitted only when its
//! aggregate is nonzero.
use vstd::prelude::*;

use crate::model::{Finding, FindingModel, SectionInfo, SectionModel, SymbolInfo, SymbolModel};
use crate::model::copy_symbol;
use crate::rank::{sort_sym_desc, sort_symbols_desc};
use crate::sat_add;
use crate::text::{contains_ci_spec, contains_spec};
use crate::text::{contains_ci_str, contains_str, str_eq};

verus! {

/// Kinds that place a symbol in RAM: bss or data.
pub open spec fn is_ram_kind(kind: Seq<char>) -> bool {
    kind == "B"@ || kind == "b"@ || kind == "D"@ || kind == "d"@
}

/// Names that suggest software floating-point or float formatting
/// support linked into the binary.
pub open spec fn is_float_name(name: Seq<char>) -> bool {
    contains_ci_spec(name, "float"@) || contains_ci_spec(name, "dtoa"@) || contains_ci_spec(
        name,
        "aeabi_f"@,
    ) || contains_ci_spec(name, "aeabi_d"@)
}

/// Sections holding C++ unwind tables.
pub open spec fn is_exidx_section(name: Seq<char>) -> bool {
    contains_spec(name, ".ARM.exidx"@) || contains_spec(name, ".ARM.extab"@)
}

/// The symbols of RAM-resident kind, in input order.
pub open spec fn ram_syms(s: Seq<SymbolModel>) -> Seq<SymbolModel>
    decreases s.len(),
{
    if s.len() == 0 {
        Seq::empty()
    } else {
        ram_syms(s.drop_last()) + if is_ram_kind(s.last().kind) {
            seq![s.last()]
        } else {
            Seq::empty()
        }
    }
}

/// The symbols with float-suggestive names, in input order.
pub open spec fn float_syms(s: Seq<SymbolModel>) -> Seq<SymbolModel>
    decreases s.len(),
{
    if s.len() == 0 {
        Seq::empty()
    } else {
        float_syms(s.drop_last()) + if is_float_name(s.last().name) {
            seq![s.last()]
        } else {
            Seq::empty()
        }
    }
}

/// Saturating sum of symbol sizes.
pub open spec fn sym_sum(s: Seq<SymbolModel>) -> u64
    decreases s.len(),
{
    if s.len() == 0 {
        0u64
    } else {
        sat_add(sym_sum(s.drop_last()), s.last().size)
    }
}

/// The unwind-table sections, in input order.
pub open spec fn exidx_secs(s: Seq<SectionModel>) -> Seq<SectionModel>
    decreases s.len(),
{
    if s.len() == 0 {
        Seq::empty()
    } else {
        exidx_secs(s.drop_last()) + if is_exidx_section(s.last().name) {
            seq![s.last()]
        } else {
            Seq::empty()
        }
    }
}

/// Saturating sum of section sizes.
pub open spec fn sec_sum(s: Seq<SectionModel>) -> u64
    decreases s.len(),
{
    if s.len() == 0 {
        0u64
    } else {
        sat_add(sec_sum(s.drop_last()), s.last().size)
    }
}

/// The five largest contributors' names: evidence for a finding.
pub open spec fn top5_names(s: Seq<SymbolModel>) -> Seq<Seq<char>> {
    let sorted = sort_sym_desc(s);
    let kept = if sorted.len() <= 5 {
        sorted
    } else {
        sorted.take(5)
    };
    Seq::new(kept.len(), |i: int| kept[i].name)
}

pub open spec fn sec_names(s: Seq<SectionModel>) -> Seq<Seq<char>> {
    Seq::new(s.len(), |i: int| s[i].name)
}

/// What the findings engine emits, in fixed order: RAM pressure, float
/// bloat, unwind-table overhead, and the extracted-string count, each
/// only when nonzero (the last also only when extraction succeeded).
pub open spec fn findings_spec(
    syms: Seq<SymbolModel>,
    secs: Seq<SectionModel>,
    strings_count: Option<u64>,
) -> Seq<FindingModel> {
    let ram = ram_syms(syms);
    let fl = float_syms(syms);
    let ex = exidx_secs(secs);
    (if sym_sum(ram) > 0 {
        seq![
            FindingModel {
                id: "RAM_PRESSURE"@,
                severity: "warn"@,
                value: sym_sum(ram),
                items: top5_names(ram),
            },
        ]
    } else {
        Seq::empty()
    }) + (if sym_sum(fl) > 0 {
        seq![
            FindingModel {
                id: "FLOAT_BLOAT"@,
                severity: "warn"@,
                value: sym_sum(fl),
                items: top5_names(fl),
            },
        ]
    } else {
        Seq::empty()
    }) + (if sec_sum(ex) > 0 {
        seq![
            FindingModel {
                id: "EXIDX"@,
                severity: "info"@,
                value: sec_sum(ex),
                items: sec_names(ex),
            },
        ]
    } else {
        Seq::empty()
    }) + (match strings_count {
        Some(c) => if c > 0 {
            seq![
                FindingModel {
                    id: "STRING_COUNT"@,
                    severity: "info"@,
                    value: c,
                    items: Seq::empty(),
                },
            ]
        } else {
            Seq::empty()
        },
        None => Seq::empty(),
    })
}

/// With no RAM-resident bytes there is no RAM-pressure finding, and a
/// nonzero float-suggestive total yields exactly one float-bloat
/// finding carrying that total.
pub proof fn lemma_findings_heuristics(
    syms: Seq<SymbolModel>,
    secs: Seq<SectionModel>,
    strings_count: Option<u64>,
)
    ensures
        sym_sum(ram_syms(syms)) == 0 ==> forall|i: int|
            0 <= i < findings_spec(syms, secs, strings_count).len() ==> findings_spec(
                syms,
                secs,
                strings_count,
            )[i].id != "RAM_PRESSURE"@,
        sym_sum(float_syms(syms)) > 0 ==> exists|i: int|
            {
                &&& 0 <= i < findings_spec(syms, secs, strings_count).len()
                &&& findings_spec(syms, secs, strings_count)[i].id == "FLOAT_BLOAT"@
                &&& findings_spec(syms, secs, strings_count)[i].value == sym_sum(float_syms(syms))
                &&& forall|j: int|
                    0 <= j < findings_spec(syms, secs, strings_count).len() && j != i
                        ==> findings_spec(syms, secs, strings_count)[j].id != "FLOAT_BLOAT"@
            },
{
    reveal_strlit("RAM_PRESSURE");
    reveal_strlit("FLOAT_BLOAT");
    reveal_strlit("EXIDX");
    reveal_strlit("STRING_COUNT");
    assert("RAM_PRESSURE"@.len() == 12);
    assert("FLOAT_BLOAT"@.len() == 11);
    assert("EXIDX"@.len() == 5);
    assert("STRING_COUNT"@.len() == 12);
    assert("RAM_PRESSURE"@[0] == 'R');
    assert("STRING_COUNT"@[0] == 'S');
    assert("RAM_PRESSURE"@ != "FLOAT_BLOAT"@);
    assert("RAM_PRESSURE"@ != "EXIDX"@);
    assert("RAM_PRESSURE"@ != "STRING_COUNT"@);
    assert("FLOAT_BLOAT"@ != "EXIDX"@);
    assert("FLOAT_BLOAT"@ != "STRING_COUNT"@);
    let fs = findings_spec(syms, secs, strings_count);
    let s1 = if sym_sum(ram_syms(syms)) > 0 {
        seq![
            FindingModel {
                id: "RAM_PRESSURE"@,
                severity: "warn"@,
                value: sym_sum(ram_syms(syms)),
                items: top5_names(ram_syms(syms)),
            },
        ]
    } else {
        Seq::<FindingModel>::empty()
    };
    let s2 = if sym_sum(float_syms(syms)) > 0 {
        seq![
            FindingModel {
                id: "FLOAT_BLOAT"@,
                severity: "warn"@,
                value: sym_sum(float_syms(syms)),
                items: top5_names(float_syms(syms)),
            },
        ]
    } else {
        Seq::<FindingModel>::empty()
    };
    let s3 = if sec_sum(exidx_secs(secs)) > 0 {
        seq![
            FindingModel {
                id: "EXIDX"@,
                severity: "info"@,
                value: sec_sum(exidx_secs(secs)),
                items: sec_names(exidx_secs(secs)),
            },
        ]
    } else {
        Seq::<FindingModel>::empty()
    };
    let s4 = match strings_count {
        Some(c) => if c > 0 {
            seq![
                FindingModel {
                    id: "STRING_COUNT"@,
                    severity: "info"@,
                    value: c,
                    items: Seq::<Seq<char>>::empty(),
                },
            ]
        } else {
            Seq::<FindingModel>::empty()
        },
        None => Seq::<FindingModel>::empty(),
    };
    assert(fs == s1 + s2 + s3 + s4);
    assert(forall|j: int| 0 <= j < s1.len() ==> (#[trigger] s1[j]).id == "RAM_PRESSURE"@);
    assert(forall|j: int| 0 <= j < s2.len() ==> (#[trigger] s2[j]).id == "FLOAT_BLOAT"@);
    assert(forall|j: int| 0 <= j < s3.len() ==> (#[trigger] s3[j]).id == "EXIDX"@);
    assert(forall|j: int| 0 <= j < s4.len() ==> (#[trigger] s4[j]).id == "STRING_COUNT"@);
    if sym_sum(ram_syms(syms)) == 0 {
        assert forall|i: int| 0 <= i < fs.len() implies fs[i].id != "RAM_PRESSURE"@ by {
            assert(s1.len() == 0);
            if i < s2.len() {
                assert(fs[i] == s2[i]);
            } else if i < s2.len() + s3.len() {
                assert(fs[i] == s3[i - s2.len()]);
            } else {
                assert(fs[i] == s4[i - s2.len() - s3.len()]);
            }
        }
    }
    if sym_sum(float_syms(syms)) > 0 {
        let w = s1.len() as int;
        assert(fs[w] == s2[0]);
        assert(fs[w].id == "FLOAT_BLOAT"@ && fs[w].value == sym_sum(float_syms(syms)));
        assert forall|j: int| 0 <= j < fs.len() && j != w implies fs[j].id != "FLOAT_BLOAT"@ by {
            if j < s1.len() {
                assert(fs[j] == s1[j]);
            } else if j < s1.len() + s2.len() {
                assert(fs[j] == s2[j - s1.len()]);
                assert(j == w);
            } else if j < s1.len() + s2.len() + s3.len() {
                assert(fs[j] == s3[j - s1.len() - s2.len()]);
            } else {
                assert(fs[j] == s4[j - s1.len() - s2.len() - s3.len()]);
            }
        }
        assert(0 <= w < fs.len() && fs[w].id == "FLOAT_BLOAT"@ && fs[w].value == sym_sum(
            float_syms(syms),
        ) && forall|j: int| 0 <= j < fs.len() && j != w ==> fs[j].id != "FLOAT_BLOAT"@);
    }
}

fn filter_ram_syms(symbols: &Vec<SymbolInfo>) -> (r: Vec<SymbolInfo>)
    ensures
        r.deep_view() == ram_syms(symbols.deep_view()),
{
    let ghost dv = symbols.deep_view();
    let mut out: Vec<SymbolInfo> = Vec::new();
    proof {
        assert(dv.take(0) =~= Seq::<SymbolModel>::empty());
        assert(out.deep_view() =~= Seq::<SymbolModel>::empty());
    }
    let mut i: usize = 0;
    while i < symbols.len()
        invariant
            0 <= i <= symbols@.len(),
            dv == symbols.deep_view(),
            dv.len() == symbols@.len(),
            out.deep_view() == ram_syms(dv.take(i as int)),
        decreases symbols@.len() - i,
    {
        let ghost prev = out.deep_view();
        proof {
            assert(dv.take(i + 1).drop_last() =~= dv.take(i as int));
            assert(dv.take(i + 1).last() == dv[i as int]);
            assert(symbols@[i as int]@ == dv[i as int]);
        }
        let k = symbols[i].kind.as_str();
        if str_eq(k, "B") || str_eq(k, "b") || str_eq(k, "D") || str_eq(k, "d") {
            out.push(copy_symbol(&symbols[i]));
            proof {
                assert(out.deep_view() =~= prev + seq![dv[i as int]]);
            }
        } else {
            proof {
                assert(out.deep_view() =~= prev + Seq::<SymbolModel>::empty());
            }
        }
        i = i + 1;
    }
    proof {
        assert(dv.take(dv.len() as int) =~= dv);
    }
    out
}

fn filter_float_syms(symbols: &Vec<SymbolInfo>) -> (r: Vec<SymbolInfo>)
    ensures
        r.deep_view() == float_syms(symbols.deep_view()),
{
    let ghost dv = symbols.deep_view();
    let mut out: Vec<SymbolInfo> = Vec::new();
    proof {
        assert(dv.take(0) =~= Seq::<SymbolModel>::empty());
        assert(out.deep_view() =~= Seq::<SymbolModel>::empty());
    }
    let mut i: usize = 0;
    while i < symbols.len()
        invariant
            0 <= i <= symbols@.len(),
            dv == symbols.deep_view(),
            dv.len() == symbols@.len(),
            out.deep_view() == float_syms(dv.take(i as int)),
        decreases symbols@.len() - i,
    {
        let ghost prev = out.deep_view();
        proof {
            assert(dv.take(i + 1).drop_last() =~= dv.take(i as int));
            assert(dv.take(i + 1).last() == dv[i as int]);
            assert(symbols@[i as int]@ == dv[i as int]);
        }
        let nm = symbols[i].name.as_str();
        if contains_ci_str(nm, "float") || contains_ci_str(nm, "dtoa") || contains_ci_str(
            nm,
            "aeabi_f",
        ) || contains_ci_str(nm, "aeabi_d") {
            out.push(copy_symbol(&symbols[i]));
            proof {
                assert(out.deep_view() =~= prev + seq![dv[i as int]]);
            }
        } else {
            proof {
                assert(out.deep_view() =~= prev + Seq::<SymbolModel>::empty());
            }
        }
        i = i + 1;
    }
    proof {
        assert(dv.take(dv.len() as int) =~= dv);
    }
    out
}

fn sum_symbol_sizes(symbols: &Vec<SymbolInfo>) -> (r: u64)
    ensures
        r == sym_sum(symbols.deep_view()),
{
    let ghost dv = symbols.deep_view();
    let mut total: u64 = 0;
    let mut i: usize = 0;
    while i < symbols.len()
        invariant
            0 <= i <= symbols@.len(),
            dv == symbols.deep_view(),
            dv.len() == symbols@.len(),
            total == sym_sum(dv.take(i as int)),
        decreases symbols@.len() - i,
    {
        proof {
            assert(dv.take(i + 1).drop_last() =~= dv.take(i as int));
            assert(dv.take(i + 1).last() == dv[i as int]);
            assert(symbols@[i as int]@ == dv[i as int]);
        }
        total = total.saturating_add(symbols[i].size);
        i = i + 1;
    }
    proof {
        assert(dv.take(dv.len() as int) =~= dv);
    }
    total
}

fn top5_symbol_names(filtered: &Vec<SymbolInfo>) -> (r: Vec<String>)
    ensures
        r.deep_view() == top5_names(filtered.deep_view()),
{
    let sorted = sort_symbols_desc(filtered);
    let ghost sv = sorted.deep_view();
    let n = sorted.len();
    let keep = if n <= 5 {
        n
    } else {
        5
    };
    let ghost kept = if sv.len() <= 5 {
        sv
    } else {
        sv.take(5)
    };
    let mut out: Vec<String> = Vec::new();
    let mut i: usize = 0;
    while i < keep
        invariant
            0 <= i <= keep,
            keep <= n,
            n == sorted@.len(),
            sv == sorted.deep_view(),
            sv.len() == n,
            kept == (if sv.len() <= 5 {
                sv
            } else {
                sv.take(5)
            }),
            keep == kept.len(),
            out.deep_view().len() == i,
            forall|k: int| 0 <= k < i ==> out.deep_view()[k] == kept[k].name,
        decreases keep - i,
    {
        let ghost prev = out.deep_view();
        proof {
            assert(sorted@[i as int]@ == sv[i as int]);
            assert(kept[i as int] == sv[i as int]);
        }
        out.push(sorted[i].name.as_str().to_owned());
        proof {
            assert(out.deep_view() =~= prev.push(sv[i as int].name));
        }
        i = i + 1;
    }
    proof {
        assert(out.deep_view() =~= Seq::new(kept.len(), |i: int| kept[i].name));
    }
    out
}

fn filter_exidx_sections(sections: &Vec<SectionInfo>) -> (r: Vec<SectionInfo>)
    ensures
        r.deep_view() == exidx_secs(sections.deep_view()),
{
    let ghost dv = sections.deep_view();
    let mut out: Vec<SectionInfo> = Vec::new();
    proof {
        assert(dv.take(0) =~= Seq::<SectionModel>::empty());
        assert(out.deep_view() =~= Seq::<SectionModel>::empty());
    }
    let mut i: usize = 0;
    while i < sections.len()
        invariant
            0 <= i <= sections@.len(),
            dv == sections.deep_view(),
            dv.len() == sections@.len(),
            out.deep_view() == exidx_secs(dv.take(i as int)),
        decreases sections@.len() - i,
    {
        let ghost prev = out.deep_view();
        proof {
            assert(dv.take(i + 1).drop_last() =~= dv.take(i as int));
            assert(dv.take(i + 1).last() == dv[i as int]);
            assert(sections@[i as int]@ == dv[i as int]);
        }
        let nm = sections[i].name.as_str();
        if contains_str(nm, ".ARM.exidx") || contains_str(nm, ".ARM.extab") {
            let s = &sections[i];
            let copy = SectionInfo {
                name: s.name.as_str().to_owned(),
                size: s.size,
                vma: match &s.vma {
                    Some(v) => Some(v.as_str().to_owned()),
                    None => None,
                },
                lma: match &s.lma {
                    Some(v) => Some(v.as_str().to_owned()),
                    None => None,
                },
            };
            proof {
                assert(copy@ == dv[i as int]);
            }
            out.push(copy);
            proof {
                assert(out.deep_view() =~= prev + seq![dv[i as int]]);
            }
        } else {
            proof {
                assert(out.deep_view() =~= prev + Seq::<SectionModel>::empty());
            }
        }
        i = i + 1;
    }
    proof {
        assert(dv.take(dv.len() as int) =~= dv);
    }
    out
}

fn section_name_list(sections: &Vec<SectionInfo>) -> (r: Vec<String>)
    ensures
        r.deep_view() == sec_names(sections.deep_view()),
{
    let ghost dv = sections.deep_view();
    let mut out: Vec<String> = Vec::new();
    let mut i: usize = 0;
    while i < sections.len()
        invariant
            0 <= i <= sections@.len(),
            dv == sections.deep_view(),
            dv.len() == sections@.len(),
            out.deep_view().len() == i,
            forall|k: int| 0 <= k < i ==> out.deep_view()[k] == dv[k].name,
        decreases sections@.len() - i,
    {
        let ghost prev = out.deep_view();
        proof {
            assert(sections@[i as int]@ == dv[i as int]);
        }
        out.push(sections[i].name.as_str().to_owned());
        proof {
            assert(out.deep_view() =~= prev.push(dv[i as int].name));
        }
        i = i + 1;
    }
    proof {
        assert(out.deep_view() =~= Seq::new(dv.len(), |i: int| dv[i].name));
    }
    out
}

fn sum_section_sizes(sections: &Vec<SectionInfo>) -> (r: u64)
    ensures
        r == sec_sum(sections.deep_view()),
{
    let ghost dv = sections.deep_view();
    let mut total: u64 = 0;
    let mut i: usize = 0;
    while i < sections.len()
        invariant
            0 <= i <= sections@.len(),
            dv == sections.deep_view(),
            dv.len() == sections@.len(),
            total == sec_sum(dv.take(i as int)),
        decreases sections@.len() - i,
    {
        proof {
            assert(dv.take(i + 1).drop_last() =~= dv.take(i as int));
            assert(dv.take(i + 1).last() == dv[i as int]);
            assert(sections@[i as int]@ == dv[i as int]);
        }
        total = total.saturating_add(sections[i].size);
        i = i + 1;
    }
    proof {
        assert(dv.take(dv.len() as int) =~= dv);
    }
    total
}

/// Run the four heuristics and collect their findings.
pub fn compute_findings(
    symbols: &Vec<SymbolInfo>,
    sections: &Vec<SectionInfo>,
    strings_count: Option<u64>,
) -> (r: Vec<Finding>)
    ensures
        r.deep_view() == findings_spec(symbols.deep_view(), sections.deep_view(), strings_count),
{
    let ghost syms = symbols.deep_view();
    let ghost secs = sections.deep_view();
    let mut out: Vec<Finding> = Vec::new();

    let ram = filter_ram_syms(symbols);
    let ram_total = sum_symbol_sizes(&ram);
    if ram_total > 0 {
        let items = top5_symbol_names(&ram);
        let f = Finding {
            id: "RAM_PRESSURE".to_owned(),
            severity: "warn".to_owned(),
            value: ram_total,
            items,
        };
        out.push(f);
    }
    let ghost part1 = out.deep_view();
    proof {
        assert(part1 =~= (if sym_sum(ram_syms(syms)) > 0 {
            seq![
                FindingModel {
                    id: "RAM_PRESSURE"@,
                    severity: "warn"@,
                    value: sym_sum(ram_syms(syms)),
                    items: top5_names(ram_syms(syms)),
                },
            ]
        } else {
            Seq::empty()
        }));
    }

    let fl = filter_float_syms(symbols);
    let fl_total = sum_symbol_sizes(&fl);
    if fl_total > 0 {
        let items = top5_symbol_names(&fl);
        let f = Finding {
            id: "FLOAT_BLOAT".to_owned(),
            severity: "warn".to_owned(),
            value: fl_total,
            items,
        };
        out.push(f);
    }
    let ghost part2 = out.deep_view();
    proof {
        assert(part2 =~= part1 + (if sym_sum(float_syms(syms)) > 0 {
            seq![
                FindingModel {
                    id: "FLOAT_BLOAT"@,
                    severity: "warn"@,
                    value: sym_sum(float_syms(syms)),
                    items: top5_names(float_syms(syms)),
                },
            ]
        } else {
            Seq::empty()
        }));
    }

    let ex = filter_exidx_sections(sections);
    let ex_total = sum_section_sizes(&ex);
    if ex_total > 0 {
        let items = section_name_list(&ex);
        let f = Finding {
            id: "EXIDX".to_owned(),
            severity: "info".to_owned(),
            value: ex_total,
            items,
        };
        out.push(f);
    }
    let ghost part3 = out.deep_view();
    proof {
        assert(part3 =~= part2 + (if sec_sum(exidx_secs(secs)) > 0 {
            seq![
                FindingModel {
                    id: "EXIDX"@,
                    severity: "info"@,
                    value: sec_sum(exidx_secs(secs)),
                    items: sec_names(exidx_secs(secs)),
                },
            ]
        } else {
            Seq::empty()
        }));
    }

    match strings_count {
        Some(c) => {
            if c > 0 {
                let f = Finding {
                    id: "STRING_COUNT".to_owned(),
                    severity: "info".to_owned(),
                    value: c,
                    items: Vec::new(),
                };
                proof {
                    assert(f@.items =~= Seq::<Seq<char>>::empty());
                }
                out.push(f);
            }
        },
        None => {},
    }
    proof {
        assert(out.deep_view() =~= findings_spec(syms, secs, strings_count));
    }
    out
}

/// How many newline-delimited entries a tool's raw output holds: one
/// per newline, plus a final unterminated entry if any.
pub open spec fn newline_count(b: Seq<u8>) -> nat
    decreases b.len(),
{
    if b.len() == 0 {
        0nat
    } else {
        newline_count(b.drop_last()) + if b.last() == 10 {
            1nat
        } else {
            0nat
        }
    }
}

pub open spec fn stream_line_count(b: Seq<u8>) -> nat {
    newline_count(b) + if b.len() > 0 && b.last() != 10 {
        1nat
    } else {
        0nat
    }
}

/// Count the entries of a line-delimited byte stream, as the string
/// extractor's output is counted.
pub fn count_strings_lines(output: &Vec<u8>) -> (r: u64)
    ensures
        r == stream_line_count(output@),
{
    let n = output.len();
    let mut count: u64 = 0;
    let mut i: usize = 0;
    while i < n
        invariant
            0 <= i <= n,
            n == output@.len(),
            count == newline_count(output@.take(i as int)),
            count <= i,
        decreases n - i,
    {
        proof {
            assert(output@.take(i + 1).drop_last() =~= output@.take(i as int));
            assert(output@.take(i + 1).last() == output@[i as int]);
        }
        if output[i] == 10 {
            count = count + 1;
        }
        i = i + 1;
    }
    proof {
        assert(output@.take(n as int) =~= output@);
    }
    if n > 0 && output[n - 1] != 10 {
        proof {
            lemma_newline_count_le(output@.drop_last());
            assert(output@.last() == output@[n - 1]);
        }
        count + 1
    } else {
        count
    }
}

proof fn lemma_newline_count_le(b: Seq<u8>)
    ensures
        newline_count(b) <= b.len(),
    decreases b.len(),
{
    if b.len() > 0 {
        lemma_newline_count_le(b.drop_last());
    }
}

} // verus!
