//! Ranking: the aggregation lists and trees are ordered by descending
//! size. The sort is specified definitionally (stable insertion into a
//! sorted prefix), so every contract that mentions it pins its output
//! exactly; sortedness itself is proved as a law.
use vstd::prelude::*;

use crate::model::{ContribModel, ObjectContribution, SymbolInfo, SymbolModel, TreeNode};
use crate::model::copy_symbol;
use crate::sat_add;
use crate::text::{lex_lt, str_eq, str_lt};

verus! {

/// Descending insertion: `x` goes in front of the first strictly
/// smaller entry, after any entry of equal size (stable).
pub open spec fn insert_desc(s: Seq<ContribModel>, x: ContribModel) -> Seq<ContribModel>
    decreases s.len(),
{
    if s.len() == 0 {
        seq![x]
    } else if x.size > s[0].size {
        seq![x] + s
    } else {
        seq![s[0]] + insert_desc(s.drop_first(), x)
    }
}

/// Stable descending sort by size.
pub open spec fn sort_desc(s: Seq<ContribModel>) -> Seq<ContribModel>
    decreases s.len(),
{
    if s.len() == 0 {
        Seq::empty()
    } else {
        insert_desc(sort_desc(s.drop_last()), s.last())
    }
}

pub open spec fn sorted_by_size_desc(s: Seq<ContribModel>) -> bool {
    forall|i: int, j: int| 0 <= i < j < s.len() ==> s[i].size >= s[j].size
}

pub proof fn lemma_insert_desc_len(s: Seq<ContribModel>, x: ContribModel)
    ensures
        insert_desc(s, x).len() == s.len() + 1,
    decreases s.len(),
{
    if s.len() > 0 && !(x.size > s[0].size) {
        lemma_insert_desc_len(s.drop_first(), x);
    }
}

proof fn lemma_insert_desc_elem(s: Seq<ContribModel>, x: ContribModel, i: int)
    requires
        0 <= i < insert_desc(s, x).len(),
    ensures
        insert_desc(s, x)[i] == x || exists|k: int|
            0 <= k < s.len() && insert_desc(s, x)[i] == s[k],
    decreases s.len(),
{
    lemma_insert_desc_len(s, x);
    if s.len() == 0 {
    } else if x.size > s[0].size {
        if i > 0 {
            assert(insert_desc(s, x)[i] == s[i - 1]);
        }
    } else {
        if i > 0 {
            lemma_insert_desc_elem(s.drop_first(), x, i - 1);
            let t = insert_desc(s.drop_first(), x);
            if t[i - 1] == x {
            } else {
                let k = choose|k: int| 0 <= k < s.drop_first().len() && t[i - 1]
                    == s.drop_first()[k];
                assert(insert_desc(s, x)[i] == s[k + 1]);
            }
        }
    }
}

pub proof fn lemma_insert_desc_sorted(s: Seq<ContribModel>, x: ContribModel)
    requires
        sorted_by_size_desc(s),
    ensures
        sorted_by_size_desc(insert_desc(s, x)),
    decreases s.len(),
{
    lemma_insert_desc_len(s, x);
    let r = insert_desc(s, x);
    if s.len() == 0 {
    } else if x.size > s[0].size {
        assert forall|i: int, j: int| 0 <= i < j < r.len() implies r[i].size >= r[j].size by {
            if i == 0 {
                assert(r[j] == s[j - 1]);
            } else {
                assert(r[i] == s[i - 1]);
                assert(r[j] == s[j - 1]);
            }
        }
    } else {
        let t = insert_desc(s.drop_first(), x);
        assert(sorted_by_size_desc(s.drop_first())) by {
            assert(forall|i: int, j: int|
                0 <= i < j < s.drop_first().len() ==> s.drop_first()[i].size
                    >= s.drop_first()[j].size);
        }
        lemma_insert_desc_sorted(s.drop_first(), x);
        assert forall|i: int, j: int| 0 <= i < j < r.len() implies r[i].size >= r[j].size by {
            if i == 0 {
                assert(r[j] == t[j - 1]);
                lemma_insert_desc_elem(s.drop_first(), x, j - 1);
                if t[j - 1] == x {
                } else {
                    let k = choose|k: int| 0 <= k < s.drop_first().len() && t[j - 1]
                        == s.drop_first()[k];
                    assert(s.drop_first()[k] == s[k + 1]);
                }
            } else {
                assert(r[i] == t[i - 1]);
                assert(r[j] == t[j - 1]);
            }
        }
    }
}

/// The sorted output of `sort_desc`: as long as its input, and ordered
/// by descending size.
pub proof fn lemma_sort_desc_sorted(s: Seq<ContribModel>)
    ensures
        sort_desc(s).len() == s.len(),
        sorted_by_size_desc(sort_desc(s)),
    decreases s.len(),
{
    if s.len() > 0 {
        lemma_sort_desc_sorted(s.drop_last());
        lemma_insert_desc_len(sort_desc(s.drop_last()), s.last());
        lemma_insert_desc_sorted(sort_desc(s.drop_last()), s.last());
    }
}

/// Where descending insertion puts `x`: before the first strictly
/// smaller entry.
proof fn lemma_insert_desc_at(s: Seq<ContribModel>, x: ContribModel, j: int)
    requires
        0 <= j <= s.len(),
        forall|k: int| 0 <= k < j ==> !(x.size > s[k].size),
        j < s.len() ==> x.size > s[j].size,
    ensures
        insert_desc(s, x) == s.take(j) + seq![x] + s.skip(j),
    decreases s.len(),
{
    if s.len() == 0 {
        assert(s.take(0) + seq![x] + s.skip(0) =~= seq![x]);
    } else if x.size > s[0].size {
        assert(j == 0);
        assert(s.take(0) + seq![x] + s.skip(0) =~= seq![x] + s);
    } else {
        assert(j >= 1);
        let s2 = s.drop_first();
        assert(forall|k: int| 0 <= k < j - 1 ==> !(x.size > s2[k].size)) by {
            assert(forall|k: int| 0 <= k < j - 1 ==> s2[k] == s[k + 1]);
        }
        lemma_insert_desc_at(s2, x, j - 1);
        assert(insert_desc(s, x) == seq![s[0]] + (s2.take(j - 1) + seq![x] + s2.skip(j - 1)));
        assert(seq![s[0]] + (s2.take(j - 1) + seq![x] + s2.skip(j - 1)) =~= s.take(j) + seq![x]
            + s.skip(j));
    }
}

/// Copy a contribution record; the copy has the same model.
pub fn copy_contribution(c: &ObjectContribution) -> (r: ObjectContribution)
    ensures
        r@ == c@,
{
    ObjectContribution { name: c.name.as_str().to_owned(), size: c.size }
}

/// Insert `x` into a list kept in descending size order.
fn insert_ranked(out: &mut Vec<ObjectContribution>, x: ObjectContribution)
    ensures
        final (out).deep_view() == insert_desc(old(out).deep_view(), x@),
{
    let ghost dv = out.deep_view();
    let n = out.len();
    let mut j: usize = 0;
    while j < n && out[j].size >= x.size
        invariant
            0 <= j <= n,
            n == out@.len(),
            dv == out.deep_view(),
            dv.len() == n,
            forall|k: int| 0 <= k < j ==> !(x.size > dv[k].size),
        decreases n - j,
    {
        proof {
            assert(dv[j as int].size == out@[j as int].size);
        }
        j = j + 1;
    }
    proof {
        assert(j < n ==> x.size > dv[j as int].size) by {
            if j < n {
                assert(dv[j as int].size == out@[j as int].size);
            }
        }
        lemma_insert_desc_at(dv, x@, j as int);
    }
    out.insert(j, x);
    proof {
        assert(out.deep_view() =~= dv.take(j as int) + seq![x@] + dv.skip(j as int));
    }
}

/// Sort contributions by descending size; the result is exactly the
/// stable descending sort of the input.
pub fn sort_contributions(v: &Vec<ObjectContribution>) -> (r: Vec<ObjectContribution>)
    ensures
        r.deep_view() == sort_desc(v.deep_view()),
{
    let ghost dv = v.deep_view();
    let mut out: Vec<ObjectContribution> = Vec::new();
    let mut i: usize = 0;
    while i < v.len()
        invariant
            0 <= i <= v@.len(),
            dv == v.deep_view(),
            dv.len() == v@.len(),
            out.deep_view() == sort_desc(dv.take(i as int)),
        decreases v@.len() - i,
    {
        proof {
            assert(dv.take(i + 1).drop_last() =~= dv.take(i as int));
            assert(dv.take(i + 1).last() == dv[i as int]);
            assert(v@[i as int]@ == dv[i as int]);
        }
        let x = copy_contribution(&v[i]);
        insert_ranked(&mut out, x);
        i = i + 1;
    }
    proof {
        assert(dv.take(dv.len() as int) =~= dv);
    }
    out
}

/// The ranked top of an aggregation: sorted by descending size and cut
/// to at most `limit` entries.
pub open spec fn top_spec(s: Seq<ContribModel>, limit: int) -> Seq<ContribModel> {
    if sort_desc(s).len() <= limit {
        sort_desc(s)
    } else {
        sort_desc(s).take(limit)
    }
}

/// Rank an aggregation map and keep the `limit` largest entries.
pub fn top_contributions(v: &Vec<ObjectContribution>, limit: usize) -> (r: Vec<ObjectContribution>)
    ensures
        r.deep_view() == top_spec(v.deep_view(), limit as int),
        r.deep_view().len() <= limit,
{
    let sorted = sort_contributions(v);
    let ghost sv = sorted.deep_view();
    let n = sorted.len();
    let keep = if n <= limit {
        n
    } else {
        limit
    };
    let mut out: Vec<ObjectContribution> = Vec::new();
    let mut i: usize = 0;
    while i < keep
        invariant
            0 <= i <= keep,
            keep <= n,
            n == sorted@.len(),
            sv == sorted.deep_view(),
            sv.len() == n,
            out.deep_view() == sv.take(i as int),
        decreases keep - i,
    {
        let ghost prev = out.deep_view();
        proof {
            assert(sorted@[i as int]@ == sv[i as int]);
            assert(sv.take(i + 1) =~= sv.take(i as int).push(sv[i as int]));
        }
        out.push(copy_contribution(&sorted[i]));
        proof {
            assert(out.deep_view() =~= prev.push(sv[i as int]));
        }
        i = i + 1;
    }
    proof {
        if n <= limit {
            assert(sv.take(n as int) =~= sv);
        }
    }
    out
}

/// Descending insertion of a symbol by size (stable).
pub open spec fn insert_sym_desc(s: Seq<SymbolModel>, x: SymbolModel) -> Seq<SymbolModel>
    decreases s.len(),
{
    if s.len() == 0 {
        seq![x]
    } else if x.size > s[0].size {
        seq![x] + s
    } else {
        seq![s[0]] + insert_sym_desc(s.drop_first(), x)
    }
}

/// Stable descending sort of symbols by size.
pub open spec fn sort_sym_desc(s: Seq<SymbolModel>) -> Seq<SymbolModel>
    decreases s.len(),
{
    if s.len() == 0 {
        Seq::empty()
    } else {
        insert_sym_desc(sort_sym_desc(s.drop_last()), s.last())
    }
}

pub open spec fn syms_sorted_desc(s: Seq<SymbolModel>) -> bool {
    forall|i: int, j: int| 0 <= i < j < s.len() ==> s[i].size >= s[j].size
}

pub proof fn lemma_insert_sym_desc_len(s: Seq<SymbolModel>, x: SymbolModel)
    ensures
        insert_sym_desc(s, x).len() == s.len() + 1,
    decreases s.len(),
{
    if s.len() > 0 && !(x.size > s[0].size) {
        lemma_insert_sym_desc_len(s.drop_first(), x);
    }
}

proof fn lemma_insert_sym_desc_elem(s: Seq<SymbolModel>, x: SymbolModel, i: int)
    requires
        0 <= i < insert_sym_desc(s, x).len(),
    ensures
        insert_sym_desc(s, x)[i] == x || exists|k: int|
            0 <= k < s.len() && insert_sym_desc(s, x)[i] == s[k],
    decreases s.len(),
{
    lemma_insert_sym_desc_len(s, x);
    if s.len() == 0 {
    } else if x.size > s[0].size {
        if i > 0 {
            assert(insert_sym_desc(s, x)[i] == s[i - 1]);
        }
    } else {
        if i > 0 {
            lemma_insert_sym_desc_elem(s.drop_first(), x, i - 1);
            let t = insert_sym_desc(s.drop_first(), x);
            if t[i - 1] == x {
            } else {
                let k = choose|k: int| 0 <= k < s.drop_first().len() && t[i - 1]
                    == s.drop_first()[k];
                assert(insert_sym_desc(s, x)[i] == s[k + 1]);
            }
        }
    }
}

pub proof fn lemma_insert_sym_desc_sorted(s: Seq<SymbolModel>, x: SymbolModel)
    requires
        syms_sorted_desc(s),
    ensures
        syms_sorted_desc(insert_sym_desc(s, x)),
    decreases s.len(),
{
    lemma_insert_sym_desc_len(s, x);
    let r = insert_sym_desc(s, x);
    if s.len() == 0 {
    } else if x.size > s[0].size {
        assert forall|i: int, j: int| 0 <= i < j < r.len() implies r[i].size >= r[j].size by {
            if i == 0 {
                assert(r[j] == s[j - 1]);
            } else {
                assert(r[i] == s[i - 1]);
                assert(r[j] == s[j - 1]);
            }
        }
    } else {
        let t = insert_sym_desc(s.drop_first(), x);
        assert(syms_sorted_desc(s.drop_first())) by {
            assert(forall|i: int, j: int|
                0 <= i < j < s.drop_first().len() ==> s.drop_first()[i].size
                    >= s.drop_first()[j].size);
        }
        lemma_insert_sym_desc_sorted(s.drop_first(), x);
        assert forall|i: int, j: int| 0 <= i < j < r.len() implies r[i].size >= r[j].size by {
            if i == 0 {
                assert(r[j] == t[j - 1]);
                lemma_insert_sym_desc_elem(s.drop_first(), x, j - 1);
                if t[j - 1] == x {
                } else {
                    let k = choose|k: int| 0 <= k < s.drop_first().len() && t[j - 1]
                        == s.drop_first()[k];
                    assert(s.drop_first()[k] == s[k + 1]);
                }
            } else {
                assert(r[i] == t[i - 1]);
                assert(r[j] == t[j - 1]);
            }
        }
    }
}

/// The size-ranked symbol list: as long as its input and ordered by
/// descending size.
pub proof fn lemma_sort_sym_desc_sorted(s: Seq<SymbolModel>)
    ensures
        sort_sym_desc(s).len() == s.len(),
        syms_sorted_desc(sort_sym_desc(s)),
    decreases s.len(),
{
    if s.len() > 0 {
        lemma_sort_sym_desc_sorted(s.drop_last());
        lemma_insert_sym_desc_len(sort_sym_desc(s.drop_last()), s.last());
        lemma_insert_sym_desc_sorted(sort_sym_desc(s.drop_last()), s.last());
    }
}

proof fn lemma_insert_sym_desc_at(s: Seq<SymbolModel>, x: SymbolModel, j: int)
    requires
        0 <= j <= s.len(),
        forall|k: int| 0 <= k < j ==> !(x.size > s[k].size),
        j < s.len() ==> x.size > s[j].size,
    ensures
        insert_sym_desc(s, x) == s.take(j) + seq![x] + s.skip(j),
    decreases s.len(),
{
    if s.len() == 0 {
        assert(s.take(0) + seq![x] + s.skip(0) =~= seq![x]);
    } else if x.size > s[0].size {
        assert(j == 0);
        assert(s.take(0) + seq![x] + s.skip(0) =~= seq![x] + s);
    } else {
        assert(j >= 1);
        let s2 = s.drop_first();
        assert(forall|k: int| 0 <= k < j - 1 ==> !(x.size > s2[k].size)) by {
            assert(forall|k: int| 0 <= k < j - 1 ==> s2[k] == s[k + 1]);
        }
        lemma_insert_sym_desc_at(s2, x, j - 1);
        assert(insert_sym_desc(s, x) == seq![s[0]] + (s2.take(j - 1) + seq![x] + s2.skip(j - 1)));
        assert(seq![s[0]] + (s2.take(j - 1) + seq![x] + s2.skip(j - 1)) =~= s.take(j) + seq![x]
            + s.skip(j));
    }
}

fn insert_symbol_desc(out: &mut Vec<SymbolInfo>, x: SymbolInfo)
    ensures
        final (out).deep_view() == insert_sym_desc(old(out).deep_view(), x@),
{
    let ghost dv = out.deep_view();
    let n = out.len();
    let mut j: usize = 0;
    while j < n && out[j].size >= x.size
        invariant
            0 <= j <= n,
            n == out@.len(),
            dv == out.deep_view(),
            dv.len() == n,
            forall|k: int| 0 <= k < j ==> !(x.size > dv[k].size),
        decreases n - j,
    {
        proof {
            assert(dv[j as int].size == out@[j as int].size);
        }
        j = j + 1;
    }
    proof {
        assert(j < n ==> x.size > dv[j as int].size) by {
            if j < n {
                assert(dv[j as int].size == out@[j as int].size);
            }
        }
        lemma_insert_sym_desc_at(dv, x@, j as int);
    }
    out.insert(j, x);
    proof {
        assert(out.deep_view() =~= dv.take(j as int) + seq![x@] + dv.skip(j as int));
    }
}

/// Sort symbols by descending size (stable).
pub fn sort_symbols_desc(v: &Vec<SymbolInfo>) -> (r: Vec<SymbolInfo>)
    ensures
        r.deep_view() == sort_sym_desc(v.deep_view()),
{
    let ghost dv = v.deep_view();
    let mut out: Vec<SymbolInfo> = Vec::new();
    let mut i: usize = 0;
    while i < v.len()
        invariant
            0 <= i <= v@.len(),
            dv == v.deep_view(),
            dv.len() == v@.len(),
            out.deep_view() == sort_sym_desc(dv.take(i as int)),
        decreases v@.len() - i,
    {
        proof {
            assert(dv.take(i + 1).drop_last() =~= dv.take(i as int));
            assert(dv.take(i + 1).last() == dv[i as int]);
            assert(v@[i as int]@ == dv[i as int]);
        }
        let x = copy_symbol(&v[i]);
        insert_symbol_desc(&mut out, x);
        i = i + 1;
    }
    proof {
        assert(dv.take(dv.len() as int) =~= dv);
    }
    out
}

/// Ascending insertion of a symbol by name (stable): `x` goes in front
/// of the first strictly greater name.
pub open spec fn insert_sym_name_asc(s: Seq<SymbolModel>, x: SymbolModel) -> Seq<SymbolModel>
    decreases s.len(),
{
    if s.len() == 0 {
        seq![x]
    } else if lex_lt(x.name, s[0].name) {
        seq![x] + s
    } else {
        seq![s[0]] + insert_sym_name_asc(s.drop_first(), x)
    }
}

/// Stable ascending sort of symbols by name.
pub open spec fn sort_sym_name_asc(s: Seq<SymbolModel>) -> Seq<SymbolModel>
    decreases s.len(),
{
    if s.len() == 0 {
        Seq::empty()
    } else {
        insert_sym_name_asc(sort_sym_name_asc(s.drop_last()), s.last())
    }
}

proof fn lemma_insert_sym_name_at(s: Seq<SymbolModel>, x: SymbolModel, j: int)
    requires
        0 <= j <= s.len(),
        forall|k: int| 0 <= k < j ==> !lex_lt(x.name, s[k].name),
        j < s.len() ==> lex_lt(x.name, s[j].name),
    ensures
        insert_sym_name_asc(s, x) == s.take(j) + seq![x] + s.skip(j),
    decreases s.len(),
{
    if s.len() == 0 {
        assert(s.take(0) + seq![x] + s.skip(0) =~= seq![x]);
    } else if lex_lt(x.name, s[0].name) {
        assert(j == 0);
        assert(s.take(0) + seq![x] + s.skip(0) =~= seq![x] + s);
    } else {
        assert(j >= 1);
        let s2 = s.drop_first();
        assert(forall|k: int| 0 <= k < j - 1 ==> !lex_lt(x.name, s2[k].name)) by {
            assert(forall|k: int| 0 <= k < j - 1 ==> s2[k] == s[k + 1]);
        }
        lemma_insert_sym_name_at(s2, x, j - 1);
        assert(insert_sym_name_asc(s, x) == seq![s[0]] + (s2.take(j - 1) + seq![x] + s2.skip(
            j - 1,
        )));
        assert(seq![s[0]] + (s2.take(j - 1) + seq![x] + s2.skip(j - 1)) =~= s.take(j) + seq![x]
            + s.skip(j));
    }
}

pub proof fn lemma_insert_sym_name_len(s: Seq<SymbolModel>, x: SymbolModel)
    ensures
        insert_sym_name_asc(s, x).len() == s.len() + 1,
    decreases s.len(),
{
    if s.len() > 0 && !lex_lt(x.name, s[0].name) {
        lemma_insert_sym_name_len(s.drop_first(), x);
    }
}

/// The name-sorted list is as long as its input.
pub proof fn lemma_sort_name_len(s: Seq<SymbolModel>)
    ensures
        sort_sym_name_asc(s).len() == s.len(),
    decreases s.len(),
{
    if s.len() > 0 {
        lemma_sort_name_len(s.drop_last());
        lemma_insert_sym_name_len(sort_sym_name_asc(s.drop_last()), s.last());
    }
}

fn insert_symbol_name_asc(out: &mut Vec<SymbolInfo>, x: SymbolInfo)
    ensures
        final (out).deep_view() == insert_sym_name_asc(old(out).deep_view(), x@),
{
    let ghost dv = out.deep_view();
    let n = out.len();
    let mut j: usize = 0;
    while j < n && !str_lt(x.name.as_str(), out[j].name.as_str())
        invariant
            0 <= j <= n,
            n == out@.len(),
            dv == out.deep_view(),
            dv.len() == n,
            forall|k: int| 0 <= k < j ==> !lex_lt(x@.name, dv[k].name),
        decreases n - j,
    {
        proof {
            assert(dv[j as int].name == out@[j as int].name@);
        }
        j = j + 1;
    }
    proof {
        assert(j < n ==> lex_lt(x@.name, dv[j as int].name)) by {
            if j < n {
                assert(dv[j as int].name == out@[j as int].name@);
            }
        }
        lemma_insert_sym_name_at(dv, x@, j as int);
    }
    out.insert(j, x);
    proof {
        assert(out.deep_view() =~= dv.take(j as int) + seq![x@] + dv.skip(j as int));
    }
}

/// Sort symbols by ascending name (stable, code-point order).
pub fn sort_symbols_name_asc(v: &Vec<SymbolInfo>) -> (r: Vec<SymbolInfo>)
    ensures
        r.deep_view() == sort_sym_name_asc(v.deep_view()),
{
    let ghost dv = v.deep_view();
    let mut out: Vec<SymbolInfo> = Vec::new();
    let mut i: usize = 0;
    while i < v.len()
        invariant
            0 <= i <= v@.len(),
            dv == v.deep_view(),
            dv.len() == v@.len(),
            out.deep_view() == sort_sym_name_asc(dv.take(i as int)),
        decreases v@.len() - i,
    {
        proof {
            assert(dv.take(i + 1).drop_last() =~= dv.take(i as int));
            assert(dv.take(i + 1).last() == dv[i as int]);
            assert(v@[i as int]@ == dv[i as int]);
        }
        let x = copy_symbol(&v[i]);
        insert_symbol_name_asc(&mut out, x);
        i = i + 1;
    }
    proof {
        assert(dv.take(dv.len() as int) =~= dv);
    }
    out
}

/// Reverse a symbol list.
pub fn reverse_symbols(v: &Vec<SymbolInfo>) -> (r: Vec<SymbolInfo>)
    ensures
        r.deep_view() == v.deep_view().reverse(),
{
    let ghost dv = v.deep_view();
    let n = v.len();
    let mut out: Vec<SymbolInfo> = Vec::new();
    let mut i: usize = 0;
    while i < n
        invariant
            0 <= i <= n,
            n == v@.len(),
            dv == v.deep_view(),
            dv.len() == n,
            out.deep_view().len() == i,
            forall|k: int| 0 <= k < i ==> out.deep_view()[k] == dv[n - 1 - k],
        decreases n - i,
    {
        let ghost prev = out.deep_view();
        proof {
            assert(v@[n - 1 - i as int]@ == dv[n - 1 - i as int]);
        }
        out.push(copy_symbol(&v[n - 1 - i]));
        proof {
            assert(out.deep_view() =~= prev.push(dv[n - 1 - i as int]));
        }
        i = i + 1;
    }
    proof {
        assert(out.deep_view() =~= dv.reverse());
    }
    out
}

/// The `limit` largest symbols, in descending size order.
pub open spec fn top_syms_spec(s: Seq<SymbolModel>, limit: int) -> Seq<SymbolModel> {
    if sort_sym_desc(s).len() <= limit {
        sort_sym_desc(s)
    } else {
        sort_sym_desc(s).take(limit)
    }
}

/// Rank symbols by size and keep the `limit` largest.
pub fn top_symbols(v: &Vec<SymbolInfo>, limit: usize) -> (r: Vec<SymbolInfo>)
    ensures
        r.deep_view() == top_syms_spec(v.deep_view(), limit as int),
        r.deep_view().len() <= limit,
{
    let sorted = sort_symbols_desc(v);
    let ghost sv = sorted.deep_view();
    let n = sorted.len();
    let keep = if n <= limit {
        n
    } else {
        limit
    };
    let mut out: Vec<SymbolInfo> = Vec::new();
    let mut i: usize = 0;
    while i < keep
        invariant
            0 <= i <= keep,
            keep <= n,
            n == sorted@.len(),
            sv == sorted.deep_view(),
            sv.len() == n,
            out.deep_view() == sv.take(i as int),
        decreases keep - i,
    {
        let ghost prev = out.deep_view();
        proof {
            assert(sorted@[i as int]@ == sv[i as int]);
            assert(sv.take(i + 1) =~= sv.take(i as int).push(sv[i as int]));
        }
        out.push(copy_symbol(&sorted[i]));
        proof {
            assert(out.deep_view() =~= prev.push(sv[i as int]));
        }
        i = i + 1;
    }
    proof {
        if n <= limit {
            assert(sv.take(n as int) =~= sv);
        }
    }
    out
}

/// A ranked top list is sorted by descending size and respects its
/// cap.
pub proof fn lemma_top_spec_sorted(s: Seq<ContribModel>, limit: int)
    requires
        limit >= 0,
    ensures
        sorted_by_size_desc(top_spec(s, limit)),
        top_spec(s, limit).len() <= limit,
        top_spec(s, limit).len() <= s.len(),
{
    lemma_sort_desc_sorted(s);
    let t = top_spec(s, limit);
    assert forall|i: int, j: int| 0 <= i < j < t.len() implies t[i].size >= t[j].size by {
        assert(t[i] == sort_desc(s)[i]);
        assert(t[j] == sort_desc(s)[j]);
    }
}

/// A ranked top symbol list is sorted by descending size and respects
/// its cap.
pub proof fn lemma_top_syms_sorted(s: Seq<SymbolModel>, limit: int)
    requires
        limit >= 0,
    ensures
        syms_sorted_desc(top_syms_spec(s, limit)),
        top_syms_spec(s, limit).len() <= limit,
        top_syms_spec(s, limit).len() <= s.len(),
{
    lemma_sort_sym_desc_sorted(s);
    let t = top_syms_spec(s, limit);
    assert forall|i: int, j: int| 0 <= i < j < t.len() implies t[i].size >= t[j].size by {
        assert(t[i] == sort_sym_desc(s)[i]);
        assert(t[j] == sort_sym_desc(s)[j]);
    }
}

/// Index of the first entry named `name`, or -1 if none.
pub open spec fn find_name(entries: Seq<ContribModel>, name: Seq<char>) -> int
    decreases entries.len(),
{
    if entries.len() == 0 {
        -1
    } else if entries[0].name == name {
        0
    } else {
        let r = find_name(entries.drop_first(), name);
        if r < 0 {
            -1
        } else {
            r + 1
        }
    }
}

proof fn lemma_find_name_bounds(entries: Seq<ContribModel>, name: Seq<char>)
    ensures
        -1 <= find_name(entries, name) < entries.len(),
        find_name(entries, name) >= 0 ==> entries[find_name(entries, name)].name == name,
    decreases entries.len(),
{
    if entries.len() > 0 && entries[0].name != name {
        lemma_find_name_bounds(entries.drop_first(), name);
        let r = find_name(entries.drop_first(), name);
        if r >= 0 {
            assert(entries.drop_first()[r] == entries[r + 1]);
        }
    }
}

/// Entries before the first occurrence of `name` bear other names.
proof fn lemma_find_name_before(entries: Seq<ContribModel>, name: Seq<char>, k: int)
    requires
        0 <= k < entries.len(),
        find_name(entries, name) == -1 || k < find_name(entries, name),
    ensures
        entries[k].name != name,
    decreases entries.len(),
{
    if entries[0].name == name {
        assert(find_name(entries, name) == 0);
    } else {
        if k > 0 {
            lemma_find_name_bounds(entries.drop_first(), name);
            lemma_find_name_before(entries.drop_first(), name, k - 1);
            assert(entries.drop_first()[k - 1] == entries[k]);
        }
    }
}

/// One aggregation step: add `size` to the entry named `name`, or
/// append a fresh entry if the name is new (insertion order kept).
pub open spec fn bump(entries: Seq<ContribModel>, name: Seq<char>, size: u64) -> Seq<
    ContribModel,
> {
    let j = find_name(entries, name);
    if j < 0 {
        entries.push(ContribModel { name, size })
    } else {
        entries.update(j, ContribModel { name, size: sat_add(entries[j].size, size) })
    }
}

/// Add one contribution to an insertion-ordered aggregation list.
pub fn add_contribution(out: &mut Vec<ObjectContribution>, name: &str, size: u64)
    ensures
        final (out).deep_view() == bump(old(out).deep_view(), name@, size),
{
    let ghost dv = out.deep_view();
    let n = out.len();
    let mut j: usize = 0;
    while j < n
        invariant
            0 <= j <= n,
            n == out@.len(),
            dv == out.deep_view(),
            dv == old(out).deep_view(),
            dv.len() == n,
            forall|k: int| 0 <= k < j ==> dv[k].name != name@,
        decreases n - j,
    {
        proof {
            assert(dv[j as int].name == out@[j as int].name@);
        }
        if str_eq(out[j].name.as_str(), name) {
            proof {
                lemma_find_name_bounds(dv, name@);
                let f = find_name(dv, name@);
                if f == -1 {
                    lemma_find_name_before(dv, name@, j as int);
                } else if f < j {
                    assert(dv[f].name == name@);
                } else if f > j {
                    lemma_find_name_before(dv, name@, j as int);
                }
                assert(find_name(dv, name@) == j);
            }
            let updated = ObjectContribution {
                name: out[j].name.as_str().to_owned(),
                size: out[j].size.saturating_add(size),
            };
            proof {
                assert(dv[j as int].size == out@[j as int].size);
                assert(updated@ == ContribModel {
                    name: name@,
                    size: sat_add(dv[j as int].size, size),
                });
            }
            out[j] = updated;
            proof {
                assert(out.deep_view() =~= dv.update(j as int, updated@));
            }
            return ;
        }
        j = j + 1;
    }
    proof {
        lemma_find_name_bounds(dv, name@);
        let f = find_name(dv, name@);
        if f >= 0 {
            assert(dv[f].name == name@);
        }
        assert(find_name(dv, name@) == -1);
    }
    let ghost prev = out.deep_view();
    out.push(ObjectContribution { name: name.to_owned(), size });
    proof {
        assert(out.deep_view() =~= prev.push(ContribModel { name: name@, size }));
    }
}

} // verus!
