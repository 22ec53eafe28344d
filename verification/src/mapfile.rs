//! Parsing of linker map files: size attribution per object file,
//! library and output section, the two-level size tree, and the
//! memory-configuration table.
use vstd::prelude::*;

use crate::model::{ContribModel, MemoryRegion, ObjectContribution, RegionModel, SectionTotals};
use crate::model::TreeNode;
use crate::numbers::{parse_dec_spec, parse_hex_spec};
use crate::numbers::{parse_dec_from, parse_hex_from};
use crate::rank::{bump, top_spec};
use crate::rank::{add_contribution, top_contributions};
use crate::sat_add;
use crate::text::{contains_spec, find_chr, prefix_of, trim_spec, trim_start_spec};
use crate::text::{
    contains_ci_str, contains_str, find_char_at, split_fields, starts_with_str, str_eq_ci,
    trim_start_str, trim_str,
};

verus! {

pub open spec fn is_path_sep(c: char) -> bool {
    c == '/' || c == '\\'
}

/// Last path-separator index strictly below `upto`, or -1 if none.
pub open spec fn rfind_sep(s: Seq<char>, upto: int) -> int
    decreases upto when 0 <= upto <= s.len()
{
    if upto <= 0 {
        -1
    } else if is_path_sep(s[upto - 1]) {
        upto - 1
    } else {
        rfind_sep(s, upto - 1)
    }
}

proof fn lemma_rfind_sep(s: Seq<char>, upto: int)
    requires
        0 <= upto <= s.len(),
    ensures
        -1 <= rfind_sep(s, upto) < upto,
        forall|k: int| rfind_sep(s, upto) < k < upto ==> !is_path_sep(s[k]),
        rfind_sep(s, upto) >= 0 ==> is_path_sep(s[rfind_sep(s, upto)]),
    decreases upto,
{
    if upto > 0 && !is_path_sep(s[upto - 1]) {
        lemma_rfind_sep(s, upto - 1);
    }
}

/// The path's last component: everything after the final separator.
pub open spec fn basename(s: Seq<char>) -> Seq<char> {
    s.skip(rfind_sep(s, s.len() as int) + 1)
}

fn is_sep_char(c: char) -> (r: bool)
    ensures
        r == is_path_sep(c),
{
    c == '/' || c == '\\'
}

/// The basename of the first `upto` characters of `s`, as an owned
/// string.
fn basename_of_prefix(s: &str, upto: usize) -> (r: String)
    requires
        upto <= s@.len(),
    ensures
        r@ == basename(s@.take(upto as int)),
{
    let ghost p = s@.take(upto as int);
    proof {
        lemma_rfind_sep(p, upto as int);
    }
    let mut j: usize = upto;
    while j > 0
        invariant
            0 <= j <= upto,
            upto <= s@.len(),
            p == s@.take(upto as int),
            rfind_sep(p, upto as int) == rfind_sep(p, j as int),
        decreases j,
    {
        proof {
            assert(p[j - 1] == s@[j - 1]);
        }
        if is_sep_char(s.get_char(j - 1)) {
            let r = s.substring_char(j, upto).to_owned();
            proof {
                assert(rfind_sep(p, j as int) == j - 1);
                assert(r@ =~= p.skip(j as int));
            }
            return r;
        }
        j = j - 1;
    }
    let r = s.substring_char(0, upto).to_owned();
    proof {
        assert(rfind_sep(p, 0) == -1);
        assert(r@ =~= p.skip(0));
    }
    r
}

/// The library-archive name a source-file token attributes its bytes
/// to, if any: for `path(member)` syntax the basename of `path` when it
/// holds ".a", else the member when it holds ".a"; otherwise the
/// basename of the whole token when it holds ".a" and a forward slash.
pub open spec fn extract_library_spec(p: Seq<char>) -> Option<Seq<char>> {
    let op = find_chr(p, 0, '(');
    if op < p.len() && find_chr(p, op + 1, ')') < p.len() {
        let cp = find_chr(p, op + 1, ')');
        let libp = p.take(op);
        let inner = p.subrange(op + 1, cp);
        if contains_spec(libp, ".a"@) {
            Some(basename(libp))
        } else if contains_spec(inner, ".a"@) {
            Some(inner)
        } else {
            extract_library_fallback(p)
        }
    } else {
        extract_library_fallback(p)
    }
}

pub open spec fn extract_library_fallback(p: Seq<char>) -> Option<Seq<char>> {
    if contains_spec(p, ".a"@) && contains_spec(p, "/"@) {
        Some(basename(p))
    } else {
        None
    }
}

fn extract_library_tail(path: &str) -> (r: Option<String>)
    ensures
        match r {
            None => extract_library_fallback(path@) is None,
            Some(s) => extract_library_fallback(path@) == Some(s@),
        },
{
    if contains_str(path, ".a") && contains_str(path, "/") {
        let n = path.unicode_len();
        let b = basename_of_prefix(path, n);
        proof {
            assert(path@.take(n as int) =~= path@);
        }
        Some(b)
    } else {
        None
    }
}

/// Extract the owning library-archive name from a source-file token.
pub fn extract_library_name(path: &str) -> (r: Option<String>)
    ensures
        match r {
            None => extract_library_spec(path@) is None,
            Some(s) => extract_library_spec(path@) == Some(s@),
        },
{
    let n = path.unicode_len();
    let op = find_char_at(path, 0, '(');
    if op < n {
        let cp = find_char_at(path, op + 1, ')');
        if cp < n {
            let ghost libp = path@.take(op as int);
            let lib_part = path.substring_char(0, op);
            proof {
                assert(lib_part@ =~= libp);
            }
            if contains_str(lib_part, ".a") {
                return Some(basename_of_prefix(path, op));
            }
            let inner = path.substring_char(op + 1, cp);
            if contains_str(inner, ".a") {
                return Some(inner.to_owned());
            }
            return extract_library_tail(path);
        }
        return extract_library_tail(path);
    }
    extract_library_tail(path)
}

/// How a source-file token splits into the tree's two levels: with
/// `path(member)` syntax, the library is the basename of `path` and the
/// object is the member; otherwise no library, and the object is the
/// token's basename.
pub open spec fn split_library_spec(p: Seq<char>) -> (Option<Seq<char>>, Seq<char>) {
    let op = find_chr(p, 0, '(');
    if op < p.len() && find_chr(p, op + 1, ')') < p.len() {
        let cp = find_chr(p, op + 1, ')');
        (Some(basename(p.take(op))), p.subrange(op + 1, cp))
    } else {
        (None, basename(p))
    }
}

/// Split a source-file token into its library and object-name parts.
pub fn split_library_object(path: &str) -> (r: (Option<String>, String))
    ensures
        ({
            let (lib, obj) = split_library_spec(path@);
            &&& match r.0 {
                None => lib is None,
                Some(ref s) => lib == Some(s@),
            }
            &&& r.1@ == obj
        }),
{
    let n = path.unicode_len();
    let op = find_char_at(path, 0, '(');
    if op < n {
        let cp = find_char_at(path, op + 1, ')');
        if cp < n {
            let lib = basename_of_prefix(path, op);
            let obj = path.substring_char(op + 1, cp).to_owned();
            return (Some(lib), obj);
        }
    }
    let b = basename_of_prefix(path, n);
    proof {
        assert(path@.take(n as int) =~= path@);
    }
    (None, b)
}

/// Index after every leading "0x" pair has been stripped.
pub open spec fn strip_0x_start(s: Seq<char>, from: int) -> int
    decreases s.len() - from when 0 <= from <= s.len()
{
    if from + 2 <= s.len() && s[from] == '0' && s[from + 1] == 'x' {
        strip_0x_start(s, from + 2)
    } else {
        from
    }
}

/// The size a map-line size field denotes: hexadecimal after any "0x"
/// prefixes, zero when unparsable.
pub open spec fn map_size_spec(s: Seq<char>) -> u64 {
    match parse_hex_spec(s.skip(strip_0x_start(s, 0))) {
        Some(v) => v,
        None => 0u64,
    }
}

fn parse_hex_stripped(s: &str) -> (r: u64)
    ensures
        r == map_size_spec(s@),
{
    let n = s.unicode_len();
    let mut k: usize = 0;
    while k < n && k + 1 < n && s.get_char(k) == '0' && s.get_char(k + 1) == 'x'
        invariant
            0 <= k <= n,
            n == s@.len(),
            strip_0x_start(s@, 0) == strip_0x_start(s@, k as int),
        decreases n - k,
    {
        k = k + 2;
    }
    match parse_hex_from(s, k) {
        Some(v) => v,
        None => 0,
    }
}

/// One size-attribution record of a map file.
pub ghost struct MapRec {
    pub section: Seq<char>,
    pub size: u64,
    pub file: Seq<char>,
}

pub struct MapLine {
    pub section: String,
    pub size: u64,
    pub file: String,
}

impl View for MapLine {
    type V = MapRec;

    open spec fn view(&self) -> MapRec {
        MapRec { section: self.section@, size: self.size, file: self.file@ }
    }
}

/// The attribution record a map line denotes, if any: the line must
/// begin (after left-trimming) with '.', split into at least four
/// fields, and carry a nonzero size; the source-file token (the last
/// field) must not be linker-synthesized (those start with '*', such
/// as the fill and common pseudo-tokens) and must name an object or
/// archive member (".o" or ".a").
pub open spec fn map_line_rec(line: Seq<char>) -> Option<MapRec> {
    let t = trim_start_spec(line);
    if t.len() == 0 || t[0] != '.' {
        None
    } else {
        let fs = fields_spec_of(t);
        if fs.len() < 4 {
            None
        } else {
            let size = map_size_spec(fs[2]);
            if size == 0 {
                None
            } else {
                let file = fs[fs.len() - 1];
                if file.len() > 0 && file[0] == '*' {
                    None
                } else if !contains_spec(file, ".o"@) && !contains_spec(file, ".a"@) {
                    None
                } else {
                    Some(MapRec { section: fs[0], size, file })
                }
            }
        }
    }
}

pub open spec fn fields_spec_of(t: Seq<char>) -> Seq<Seq<char>> {
    crate::text::fields_spec(t)
}

pub fn parse_map_line(line: &str) -> (r: Option<MapLine>)
    ensures
        match r {
            None => map_line_rec(line@) is None,
            Some(m) => map_line_rec(line@) == Some(m@),
        },
{
    let t = trim_start_str(line);
    let n = t.unicode_len();
    if n == 0 {
        return None;
    }
    if t.get_char(0) != '.' {
        return None;
    }
    let fs = split_fields(t);
    if fs.len() < 4 {
        return None;
    }
    proof {
        assert(fs.deep_view()[0] == fs@[0]@);
        assert(fs.deep_view()[2] == fs@[2]@);
        assert(fs.deep_view()[fs@.len() - 1] == fs@[fs@.len() - 1]@);
    }
    let size = parse_hex_stripped(fs[2].as_str());
    if size == 0 {
        return None;
    }
    let last = fs.len() - 1;
    let file = fs[last].as_str();
    let fl = file.unicode_len();
    if fl > 0 && file.get_char(0) == '*' {
        return None;
    }
    if !contains_str(file, ".o") && !contains_str(file, ".a") {
        return None;
    }
    Some(MapLine { section: fs[0].as_str().to_owned(), size, file: file.to_owned() })
}

/// The two-level aggregation under construction: one bucket per
/// library label, its children keyed by object name.
pub ghost struct TreeAccModel {
    pub name: Seq<char>,
    pub children: Seq<ContribModel>,
}

pub struct TreeAcc {
    pub name: String,
    pub children: Vec<ObjectContribution>,
}

impl View for TreeAcc {
    type V = TreeAccModel;

    open spec fn view(&self) -> TreeAccModel {
        TreeAccModel { name: self.name@, children: self.children.deep_view() }
    }
}

impl DeepView for TreeAcc {
    type V = TreeAccModel;

    open spec fn deep_view(&self) -> TreeAccModel {
        self@
    }
}

/// Index of the first bucket labelled `name`, or -1 if none.
pub open spec fn find_bucket(accs: Seq<TreeAccModel>, name: Seq<char>) -> int
    decreases accs.len(),
{
    if accs.len() == 0 {
        -1
    } else if accs[0].name == name {
        0
    } else {
        let r = find_bucket(accs.drop_first(), name);
        if r < 0 {
            -1
        } else {
            r + 1
        }
    }
}

proof fn lemma_find_bucket_bounds(accs: Seq<TreeAccModel>, name: Seq<char>)
    ensures
        -1 <= find_bucket(accs, name) < accs.len(),
        find_bucket(accs, name) >= 0 ==> accs[find_bucket(accs, name)].name == name,
    decreases accs.len(),
{
    if accs.len() > 0 && accs[0].name != name {
        lemma_find_bucket_bounds(accs.drop_first(), name);
        let r = find_bucket(accs.drop_first(), name);
        if r >= 0 {
            assert(accs.drop_first()[r] == accs[r + 1]);
        }
    }
}

/// One tree-aggregation step: add `size` under (`lib`, `obj`), opening
/// a fresh bucket when the label is new (insertion order kept).
pub open spec fn tree_bump(accs: Seq<TreeAccModel>, lib: Seq<char>, obj: Seq<char>, size: u64) -> Seq<TreeAccModel> {
    let j = find_bucket(accs, lib);
    if j < 0 {
        accs.push(
            TreeAccModel { name: lib, children: seq![ContribModel { name: obj, size }] },
        )
    } else {
        accs.update(j, TreeAccModel { name: lib, children: bump(accs[j].children, obj, size) })
    }
}

fn add_tree_contribution(accs: &mut Vec<TreeAcc>, lib: &str, obj: &str, size: u64)
    ensures
        final (accs).deep_view() == tree_bump(old(accs).deep_view(), lib@, obj@, size),
{
    let ghost dv = accs.deep_view();
    let n = accs.len();
    let mut j: usize = 0;
    while j < n
        invariant
            0 <= j <= n,
            n == accs@.len(),
            dv == accs.deep_view(),
            dv == old(accs).deep_view(),
            dv.len() == n,
            forall|k: int| 0 <= k < j ==> dv[k].name != lib@,
        decreases n - j,
    {
        proof {
            assert(dv[j as int].name == accs@[j as int].name@);
        }
        if crate::text::str_eq(accs[j].name.as_str(), lib) {
            proof {
                lemma_find_bucket_bounds(dv, lib@);
                let f = find_bucket(dv, lib@);
                if f == -1 {
                    lemma_find_bucket_before(dv, lib@, j as int);
                } else if f < j {
                    assert(dv[f].name == lib@);
                } else if f > j {
                    lemma_find_bucket_before(dv, lib@, j as int);
                }
                assert(find_bucket(dv, lib@) == j);
            }
            let mut bucket = accs.remove(j);
            let ghost bm = bucket@;
            add_contribution(&mut bucket.children, obj, size);
            proof {
                assert(bucket@ == TreeAccModel {
                    name: lib@,
                    children: bump(dv[j as int].children, obj@, size),
                }) by {
                    assert(bm.name == lib@);
                    assert(bm.children == dv[j as int].children);
                }
            }
            accs.insert(j, bucket);
            proof {
                assert(accs.deep_view() =~= dv.update(j as int, TreeAccModel {
                    name: lib@,
                    children: bump(dv[j as int].children, obj@, size),
                }));
            }
            return ;
        }
        j = j + 1;
    }
    proof {
        lemma_find_bucket_bounds(dv, lib@);
        let f = find_bucket(dv, lib@);
        if f >= 0 {
            assert(dv[f].name == lib@);
        }
        assert(find_bucket(dv, lib@) == -1);
    }
    let ghost prev = accs.deep_view();
    let mut children: Vec<ObjectContribution> = Vec::new();
    children.push(ObjectContribution { name: obj.to_owned(), size });
    proof {
        assert(children.deep_view() =~= seq![ContribModel { name: obj@, size }]);
    }
    accs.push(TreeAcc { name: lib.to_owned(), children });
    proof {
        assert(accs.deep_view() =~= prev.push(TreeAccModel {
            name: lib@,
            children: seq![ContribModel { name: obj@, size }],
        }));
    }
}

/// Entries before the first occurrence of `name` bear other labels.
proof fn lemma_find_bucket_before(accs: Seq<TreeAccModel>, name: Seq<char>, k: int)
    requires
        0 <= k < accs.len(),
        find_bucket(accs, name) == -1 || k < find_bucket(accs, name),
    ensures
        accs[k].name != name,
    decreases accs.len(),
{
    if accs[0].name == name {
        assert(find_bucket(accs, name) == 0);
    } else {
        if k > 0 {
            lemma_find_bucket_bounds(accs.drop_first(), name);
            lemma_find_bucket_before(accs.drop_first(), name, k - 1);
            assert(accs.drop_first()[k - 1] == accs[k]);
        }
    }
}

/// Saturating sum of a contribution list's sizes.
pub open spec fn contrib_sum(s: Seq<ContribModel>) -> u64
    decreases s.len(),
{
    if s.len() == 0 {
        0u64
    } else {
        sat_add(contrib_sum(s.drop_last()), s.last().size)
    }
}

/// The exact (unbounded) sum of a contribution list's sizes.
pub open spec fn contrib_sum_int(s: Seq<ContribModel>) -> int
    decreases s.len(),
{
    if s.len() == 0 {
        0
    } else {
        contrib_sum_int(s.drop_last()) + s.last().size
    }
}

/// The saturating sum equals the exact sum whenever the latter fits.
pub proof fn lemma_contrib_sum_exact(s: Seq<ContribModel>)
    requires
        contrib_sum_int(s) <= u64::MAX,
    ensures
        contrib_sum(s) == contrib_sum_int(s),
    decreases s.len(),
{
    if s.len() > 0 {
        lemma_contrib_sum_int_nonneg(s.drop_last());
        lemma_contrib_sum_exact(s.drop_last());
    }
}

pub proof fn lemma_contrib_sum_int_nonneg(s: Seq<ContribModel>)
    ensures
        contrib_sum_int(s) >= 0,
    decreases s.len(),
{
    if s.len() > 0 {
        lemma_contrib_sum_int_nonneg(s.drop_last());
    }
}

fn sum_contributions(v: &Vec<ObjectContribution>) -> (r: u64)
    ensures
        r == contrib_sum(v.deep_view()),
{
    let ghost dv = v.deep_view();
    let mut total: u64 = 0;
    let mut i: usize = 0;
    while i < v.len()
        invariant
            0 <= i <= v@.len(),
            dv == v.deep_view(),
            dv.len() == v@.len(),
            total == contrib_sum(dv.take(i as int)),
        decreases v@.len() - i,
    {
        proof {
            assert(dv.take(i + 1).drop_last() =~= dv.take(i as int));
            assert(dv.take(i + 1).last() == dv[i as int]);
            assert(v@[i as int]@ == dv[i as int]);
        }
        total = total.saturating_add(v[i].size);
        i = i + 1;
    }
    proof {
        assert(dv.take(dv.len() as int) =~= dv);
    }
    total
}

/// The tree node one bucket yields: its children ranked and cut to
/// `obj_limit`, its size the (saturating) sum of the children kept, so
/// a truncated bucket reports only what its retained children hold.
pub open spec fn node_of(a: TreeAccModel, obj_limit: int) -> crate::model::TreeModel {
    crate::model::TreeModel {
        name: a.name,
        size: contrib_sum(top_spec(a.children, obj_limit)),
        children: top_spec(a.children, obj_limit),
    }
}

/// The node each bucket yields, in bucket order.
pub open spec fn tree_nodes_of(accs: Seq<TreeAccModel>, obj_limit: int) -> Seq<
    crate::model::TreeModel,
> {
    Seq::new(accs.len(), |i: int| node_of(accs[i], obj_limit))
}

/// Descending insertion of a tree node by size (stable).
pub open spec fn insert_tree_desc(
    s: Seq<crate::model::TreeModel>,
    x: crate::model::TreeModel,
) -> Seq<crate::model::TreeModel>
    decreases s.len(),
{
    if s.len() == 0 {
        seq![x]
    } else if x.size > s[0].size {
        seq![x] + s
    } else {
        seq![s[0]] + insert_tree_desc(s.drop_first(), x)
    }
}

/// Stable descending sort of tree nodes by size.
pub open spec fn sort_tree_desc(s: Seq<crate::model::TreeModel>) -> Seq<crate::model::TreeModel>
    decreases s.len(),
{
    if s.len() == 0 {
        Seq::empty()
    } else {
        insert_tree_desc(sort_tree_desc(s.drop_last()), s.last())
    }
}

pub open spec fn trees_sorted_desc(s: Seq<crate::model::TreeModel>) -> bool {
    forall|i: int, j: int| 0 <= i < j < s.len() ==> s[i].size >= s[j].size
}

pub proof fn lemma_insert_tree_desc_len(s: Seq<crate::model::TreeModel>, x: crate::model::TreeModel)
    ensures
        insert_tree_desc(s, x).len() == s.len() + 1,
    decreases s.len(),
{
    if s.len() > 0 && !(x.size > s[0].size) {
        lemma_insert_tree_desc_len(s.drop_first(), x);
    }
}

pub proof fn lemma_insert_tree_desc_elem(
    s: Seq<crate::model::TreeModel>,
    x: crate::model::TreeModel,
    i: int,
)
    requires
        0 <= i < insert_tree_desc(s, x).len(),
    ensures
        insert_tree_desc(s, x)[i] == x || exists|k: int|
            0 <= k < s.len() && insert_tree_desc(s, x)[i] == s[k],
    decreases s.len(),
{
    lemma_insert_tree_desc_len(s, x);
    if s.len() == 0 {
    } else if x.size > s[0].size {
        if i > 0 {
            assert(insert_tree_desc(s, x)[i] == s[i - 1]);
        }
    } else {
        if i > 0 {
            lemma_insert_tree_desc_elem(s.drop_first(), x, i - 1);
            let t = insert_tree_desc(s.drop_first(), x);
            if t[i - 1] == x {
            } else {
                let k = choose|k: int| 0 <= k < s.drop_first().len() && t[i - 1]
                    == s.drop_first()[k];
                assert(insert_tree_desc(s, x)[i] == s[k + 1]);
            }
        }
    }
}

pub proof fn lemma_insert_tree_desc_sorted(
    s: Seq<crate::model::TreeModel>,
    x: crate::model::TreeModel,
)
    requires
        trees_sorted_desc(s),
    ensures
        trees_sorted_desc(insert_tree_desc(s, x)),
    decreases s.len(),
{
    lemma_insert_tree_desc_len(s, x);
    let r = insert_tree_desc(s, x);
    if s.len() == 0 {
    } else if x.size > s[0].size {
        assert forall|i: int, j: int| 0 <= i < j < r.len() implies r[i].size >= r[j].size by {
            if i == 0 {
                assert(r[j] == s[j - 1]);
            } else {
                assert(r[i] == s[i - 1]);
                assert(r[j] == s[j - 1]);
            }
        }
    } else {
        let t = insert_tree_desc(s.drop_first(), x);
        assert(trees_sorted_desc(s.drop_first())) by {
            assert(forall|i: int, j: int|
                0 <= i < j < s.drop_first().len() ==> s.drop_first()[i].size
                    >= s.drop_first()[j].size);
        }
        lemma_insert_tree_desc_sorted(s.drop_first(), x);
        assert forall|i: int, j: int| 0 <= i < j < r.len() implies r[i].size >= r[j].size by {
            if i == 0 {
                assert(r[j] == t[j - 1]);
                lemma_insert_tree_desc_elem(s.drop_first(), x, j - 1);
                if t[j - 1] == x {
                } else {
                    let k = choose|k: int| 0 <= k < s.drop_first().len() && t[j - 1]
                        == s.drop_first()[k];
                    assert(s.drop_first()[k] == s[k + 1]);
                }
            } else {
                assert(r[i] == t[i - 1]);
                assert(r[j] == t[j - 1]);
            }
        }
    }
}

/// The sorted bucket list: as long as its input, ordered by descending
/// size.
pub proof fn lemma_sort_tree_desc_sorted(s: Seq<crate::model::TreeModel>)
    ensures
        sort_tree_desc(s).len() == s.len(),
        trees_sorted_desc(sort_tree_desc(s)),
    decreases s.len(),
{
    if s.len() > 0 {
        lemma_sort_tree_desc_sorted(s.drop_last());
        lemma_insert_tree_desc_len(sort_tree_desc(s.drop_last()), s.last());
        lemma_insert_tree_desc_sorted(sort_tree_desc(s.drop_last()), s.last());
    }
}

/// Every node of the sorted list is a node of the input.
pub proof fn lemma_sort_tree_desc_elem(s: Seq<crate::model::TreeModel>, i: int)
    requires
        0 <= i < sort_tree_desc(s).len(),
    ensures
        exists|k: int| 0 <= k < s.len() && sort_tree_desc(s)[i] == s[k],
    decreases s.len(),
{
    lemma_sort_tree_desc_sorted(s);
    let prev = sort_tree_desc(s.drop_last());
    lemma_insert_tree_desc_elem(prev, s.last(), i);
    if insert_tree_desc(prev, s.last())[i] == s.last() {
        assert(sort_tree_desc(s)[i] == s[s.len() - 1]);
    } else {
        let k = choose|k: int| 0 <= k < prev.len() && insert_tree_desc(prev, s.last())[i]
            == prev[k];
        lemma_sort_tree_desc_elem(s.drop_last(), k);
        let m = choose|m: int| 0 <= m < s.drop_last().len() && sort_tree_desc(s.drop_last())[k]
            == s.drop_last()[m];
        assert(sort_tree_desc(s)[i] == s[m]);
    }
}

proof fn lemma_insert_tree_desc_at(
    s: Seq<crate::model::TreeModel>,
    x: crate::model::TreeModel,
    j: int,
)
    requires
        0 <= j <= s.len(),
        forall|k: int| 0 <= k < j ==> !(x.size > s[k].size),
        j < s.len() ==> x.size > s[j].size,
    ensures
        insert_tree_desc(s, x) == s.take(j) + seq![x] + s.skip(j),
    decreases s.len(),
{
    if s.len() == 0 {
        assert(s.take(0) + seq![x] + s.skip(0) =~= seq![x]);
    } else if x.size > s[0].size {
        assert(j == 0);
        assert(s.take(0) + seq![x] + s.skip(0) =~= seq![x] + s);
    } else {
        assert(j >= 1);
        let s2 = s.drop_first();
        assert(forall|k: int| 0 <= k < j - 1 ==> !(x.size > s2[k].size)) by {
            assert(forall|k: int| 0 <= k < j - 1 ==> s2[k] == s[k + 1]);
        }
        lemma_insert_tree_desc_at(s2, x, j - 1);
        assert(insert_tree_desc(s, x) == seq![s[0]] + (s2.take(j - 1) + seq![x] + s2.skip(j - 1)));
        assert(seq![s[0]] + (s2.take(j - 1) + seq![x] + s2.skip(j - 1)) =~= s.take(j) + seq![x]
            + s.skip(j));
    }
}

fn insert_tree_node(out: &mut Vec<TreeNode>, x: TreeNode)
    ensures
        final (out).deep_view() == insert_tree_desc(old(out).deep_view(), x@),
{
    let ghost dv = out.deep_view();
    let n = out.len();
    let mut j: usize = 0;
    while j < n && out[j].size >= x.size
        invariant
            0 <= j <= n,
            n == out@.len(),
            dv == out.deep_view(),
            dv.len() == n,
            forall|k: int| 0 <= k < j ==> !(x@.size > dv[k].size),
        decreases n - j,
    {
        proof {
            assert(dv[j as int].size == out@[j as int].size);
        }
        j = j + 1;
    }
    proof {
        assert(j < n ==> x@.size > dv[j as int].size) by {
            if j < n {
                assert(dv[j as int].size == out@[j as int].size);
            }
        }
        lemma_insert_tree_desc_at(dv, x@, j as int);
    }
    out.insert(j, x);
    proof {
        assert(out.deep_view() =~= dv.take(j as int) + seq![x@] + dv.skip(j as int));
    }
}

/// The finished tree: one node per bucket (children ranked and cut to
/// `obj_limit`, size the sum of those kept), nodes sorted by
/// descending size and cut to `lib_limit`.
pub open spec fn build_tree_spec(accs: Seq<TreeAccModel>, lib_limit: int, obj_limit: int) -> Seq<
    crate::model::TreeModel,
> {
    let sorted = sort_tree_desc(tree_nodes_of(accs, obj_limit));
    if sorted.len() <= lib_limit {
        sorted
    } else {
        sorted.take(lib_limit)
    }
}

/// Assemble the two-level tree from the aggregation buckets.
pub fn build_tree(accs: Vec<TreeAcc>, lib_limit: usize, obj_limit: usize) -> (r: Vec<TreeNode>)
    ensures
        r.deep_view() == build_tree_spec(accs.deep_view(), lib_limit as int, obj_limit as int),
        r.deep_view().len() <= lib_limit,
{
    let ghost av = accs.deep_view();
    let ghost nodes = tree_nodes_of(av, obj_limit as int);
    let mut sorted: Vec<TreeNode> = Vec::new();
    let mut i: usize = 0;
    while i < accs.len()
        invariant
            0 <= i <= accs@.len(),
            av == accs.deep_view(),
            av.len() == accs@.len(),
            nodes == tree_nodes_of(av, obj_limit as int),
            sorted.deep_view() == sort_tree_desc(nodes.take(i as int)),
        decreases accs@.len() - i,
    {
        proof {
            assert(nodes.take(i + 1).drop_last() =~= nodes.take(i as int));
            assert(nodes.take(i + 1).last() == nodes[i as int]);
            assert(accs@[i as int]@ == av[i as int]);
        }
        let acc = &accs[i];
        let ranked = top_contributions(&acc.children, obj_limit);
        let size = sum_contributions(&ranked);
        let mut children: Vec<TreeNode> = Vec::new();
        let mut c: usize = 0;
        let ghost rv = ranked.deep_view();
        while c < ranked.len()
            invariant
                0 <= c <= ranked@.len(),
                rv == ranked.deep_view(),
                rv.len() == ranked@.len(),
                children@.len() == c,
                forall|k: int|
                    0 <= k < c ==> children@[k].name@ == rv[k].name && children@[k].size
                        == rv[k].size,
            decreases ranked@.len() - c,
        {
            proof {
                assert(ranked@[c as int]@ == rv[c as int]);
            }
            let leaf = TreeNode {
                name: ranked[c].name.as_str().to_owned(),
                size: ranked[c].size,
                children: Vec::new(),
            };
            children.push(leaf);
            c = c + 1;
        }
        let node = TreeNode { name: acc.name.as_str().to_owned(), size, children };
        proof {
            assert(node@.children =~= rv);
            assert(node@ == nodes[i as int]);
        }
        insert_tree_node(&mut sorted, node);
        i = i + 1;
    }
    proof {
        assert(nodes.take(nodes.len() as int) =~= nodes);
    }
    let ghost sv = sorted.deep_view();
    let n = sorted.len();
    let keep = if n <= lib_limit {
        n
    } else {
        lib_limit
    };
    let mut out: Vec<TreeNode> = Vec::new();
    let mut i2: usize = 0;
    while i2 < keep
        invariant
            0 <= i2 <= keep,
            keep <= n,
            n == sorted@.len(),
            sv == sorted.deep_view(),
            sv.len() == n,
            keep <= lib_limit,
            out.deep_view() == sv.take(i2 as int),
        decreases keep - i2,
    {
        let ghost prev = out.deep_view();
        proof {
            assert(sorted@[i2 as int]@ == sv[i2 as int]);
            assert(sv.take(i2 + 1) =~= sv.take(i2 as int).push(sv[i2 as int]));
        }
        let src = &sorted[i2];
        let mut children: Vec<TreeNode> = Vec::new();
        let mut c: usize = 0;
        while c < src.children.len()
            invariant
                0 <= c <= src.children@.len(),
                children@.len() == c,
                forall|k: int|
                    0 <= k < c ==> children@[k].name@ == src.children@[k].name@
                        && children@[k].size == src.children@[k].size,
            decreases src.children@.len() - c,
        {
            let leaf = TreeNode {
                name: src.children[c].name.as_str().to_owned(),
                size: src.children[c].size,
                children: Vec::new(),
            };
            children.push(leaf);
            c = c + 1;
        }
        let copy = TreeNode { name: src.name.as_str().to_owned(), size: src.size, children };
        proof {
            assert(copy@.children =~= src@.children);
            assert(copy@ == sv[i2 as int]);
        }
        out.push(copy);
        proof {
            assert(out.deep_view() =~= prev.push(sv[i2 as int]));
        }
        i2 = i2 + 1;
    }
    proof {
        if n <= lib_limit {
            assert(sv.take(n as int) =~= sv);
        }
    }
    out
}

/// The running aggregation over the map's attribution records.
pub ghost struct MapAgg {
    pub objects: Seq<ContribModel>,
    pub libraries: Seq<ContribModel>,
    pub sections: Seq<ContribModel>,
    pub buckets: Seq<TreeAccModel>,
}

pub open spec fn empty_agg() -> MapAgg {
    MapAgg {
        objects: Seq::empty(),
        libraries: Seq::empty(),
        sections: Seq::empty(),
        buckets: Seq::empty(),
    }
}

/// Fold one attribution record into the aggregation: the raw file
/// token keys the object totals, the extracted archive name (if any)
/// the library totals, the section name the section totals, and the
/// (library-or-"Objects", object) split the tree buckets.
pub open spec fn apply_rec(agg: MapAgg, rec: MapRec) -> MapAgg {
    MapAgg {
        objects: bump(agg.objects, rec.file, rec.size),
        libraries: match extract_library_spec(rec.file) {
            Some(lib) => bump(agg.libraries, lib, rec.size),
            None => agg.libraries,
        },
        sections: bump(agg.sections, rec.section, rec.size),
        buckets: {
            let (libopt, obj) = split_library_spec(rec.file);
            let label = match libopt {
                Some(l) => l,
                None => "Objects"@,
            };
            tree_bump(agg.buckets, label, obj, rec.size)
        },
    }
}

pub open spec fn agg_step(agg: MapAgg, line: Seq<char>) -> MapAgg {
    match map_line_rec(line) {
        None => agg,
        Some(rec) => apply_rec(agg, rec),
    }
}

pub open spec fn map_agg_of(ls: Seq<Seq<char>>) -> MapAgg
    decreases ls.len(),
{
    if ls.len() == 0 {
        empty_agg()
    } else {
        agg_step(map_agg_of(ls.drop_last()), ls.last())
    }
}

/// What parsing `s` as a hex-or-decimal number yields: hexadecimal
/// after a single "0x" prefix, decimal otherwise; `None` when the
/// digits do not parse.
pub open spec fn parse_opt_num_spec(s: Seq<char>) -> Option<u64> {
    if s.len() >= 2 && s[0] == '0' && s[1] == 'x' {
        parse_hex_spec(s.skip(2))
    } else {
        parse_dec_spec(s)
    }
}

/// The same, with zero standing in for an unparsable value.
pub open spec fn parse_hex_or_dec_spec(s: Seq<char>) -> u64 {
    match parse_opt_num_spec(s) {
        Some(v) => v,
        None => 0u64,
    }
}

/// Parse a number that may carry a single "0x" prefix.
pub fn parse_optional_number(s: &str) -> (r: Option<u64>)
    ensures
        r == parse_opt_num_spec(s@),
{
    let n = s.unicode_len();
    if n >= 2 && s.get_char(0) == '0' && s.get_char(1) == 'x' {
        parse_hex_from(s, 2)
    } else {
        let r = parse_dec_from(s, 0);
        proof {
            assert(s@.skip(0) =~= s@);
        }
        r
    }
}

/// Parse a number, yielding zero when it does not parse.
pub fn parse_hex_or_dec(s: &str) -> (r: u64)
    ensures
        r == parse_hex_or_dec_spec(s@),
{
    match parse_optional_number(s) {
        Some(v) => v,
        None => 0,
    }
}

/// The rightmost field that parses as a number, if any: the used-bytes
/// column sits at the row's end when present.
pub open spec fn find_used_spec(fs: Seq<Seq<char>>) -> Option<u64>
    decreases fs.len(),
{
    if fs.len() == 0 {
        None
    } else {
        match parse_opt_num_spec(fs.last()) {
            Some(v) => Some(v),
            None => find_used_spec(fs.drop_last()),
        }
    }
}

/// Scan the fields from the right for the first parsable number.
pub fn find_used_value(fs: &Vec<String>) -> (r: Option<u64>)
    ensures
        r == find_used_spec(fs.deep_view()),
{
    let ghost dv = fs.deep_view();
    let n = fs.len();
    proof {
        assert(dv.take(n as int) =~= dv);
    }
    let mut i: usize = n;
    while i > 0
        invariant
            0 <= i <= n,
            n == fs@.len(),
            dv == fs.deep_view(),
            dv.len() == n,
            find_used_spec(dv) == find_used_spec(dv.take(i as int)),
        decreases i,
    {
        proof {
            assert(dv.take(i as int).last() == dv[i - 1]);
            assert(dv.take(i as int).drop_last() =~= dv.take(i - 1));
            assert(fs@[i - 1]@ == dv[i - 1]);
        }
        match parse_optional_number(fs[i - 1].as_str()) {
            Some(v) => {
                return Some(v);
            },
            None => {},
        }
        i = i - 1;
    }
    proof {
        assert(dv.take(0) =~= Seq::<Seq<char>>::empty());
    }
    None
}

/// The memory-configuration scanner's state: the table starts after a
/// "Memory Configuration" marker and a "Name" header line (whose text
/// decides whether a used-bytes column exists), and ends at the first
/// blank line after the header.
pub ghost struct RegScan {
    pub in_section: bool,
    pub header_seen: bool,
    pub has_used: bool,
    pub done: bool,
    pub regions: Seq<RegionModel>,
}

pub open spec fn reg_scan_init() -> RegScan {
    RegScan {
        in_section: false,
        header_seen: false,
        has_used: false,
        done: false,
        regions: Seq::empty(),
    }
}

/// One line of the region scan. A "default" region with zero usage is
/// dropped as linker noise.
pub open spec fn reg_step(st: RegScan, line: Seq<char>) -> RegScan {
    if st.done {
        st
    } else {
        let t = trim_spec(line);
        if prefix_of(t, "Memory Configuration"@) {
            RegScan { in_section: true, ..st }
        } else if st.in_section && prefix_of(t, "Name"@) {
            RegScan { header_seen: true, has_used: crate::text::contains_ci_spec(t, "used"@), ..st }
        } else if st.in_section && st.header_seen {
            if t.len() == 0 {
                RegScan { done: true, ..st }
            } else {
                let fs = fields_spec_of(t);
                if fs.len() < 3 {
                    st
                } else {
                    let used = if st.has_used {
                        find_used_spec(fs)
                    } else {
                        None
                    };
                    let used0 = match used {
                        Some(v) => v,
                        None => 0u64,
                    };
                    if crate::text::eq_ci_spec(fs[0], "default"@) && used0 == 0 {
                        st
                    } else {
                        RegScan {
                            regions: st.regions.push(
                                RegionModel {
                                    name: fs[0],
                                    origin: fs[1],
                                    length: parse_hex_or_dec_spec(fs[2]),
                                    used,
                                },
                            ),
                            ..st
                        }
                    }
                }
            }
        } else {
            st
        }
    }
}

pub open spec fn reg_scan_of(ls: Seq<Seq<char>>) -> RegScan
    decreases ls.len(),
{
    if ls.len() == 0 {
        reg_scan_init()
    } else {
        reg_step(reg_scan_of(ls.drop_last()), ls.last())
    }
}

/// The memory-region rows the whole map file denotes.
pub open spec fn regions_spec(out: Seq<char>) -> Seq<RegionModel> {
    reg_scan_of(crate::text::lines_spec(out)).regions
}

/// Parse the linker map's memory-configuration table.
pub fn parse_memory_regions(contents: &str) -> (r: Vec<MemoryRegion>)
    ensures
        r.deep_view() == regions_spec(contents@),
{
    let lines = crate::text::split_lines(contents);
    let ghost lv = lines.deep_view();
    let mut in_section = false;
    let mut header_seen = false;
    let mut has_used = false;
    let mut done = false;
    let mut regions: Vec<MemoryRegion> = Vec::new();
    proof {
        assert(lv.take(0) =~= Seq::<Seq<char>>::empty());
        assert(regions.deep_view() =~= Seq::<RegionModel>::empty());
    }
    let mut i: usize = 0;
    while i < lines.len()
        invariant
            0 <= i <= lines@.len(),
            lv == lines.deep_view(),
            lv.len() == lines@.len(),
            lv == crate::text::lines_spec(contents@),
            reg_scan_of(lv.take(i as int)) == (RegScan {
                in_section,
                header_seen,
                has_used,
                done,
                regions: regions.deep_view(),
            }),
        decreases lines@.len() - i,
    {
        let ghost st = reg_scan_of(lv.take(i as int));
        proof {
            assert(lv.take(i + 1).drop_last() =~= lv.take(i as int));
            assert(lv.take(i + 1).last() == lv[i as int]);
            assert(lines@[i as int]@ == lv[i as int]);
        }
        if !done {
            let t = trim_str(&lines[i]);
            if starts_with_str(t, "Memory Configuration") {
                in_section = true;
            } else if in_section && starts_with_str(t, "Name") {
                header_seen = true;
                has_used = contains_ci_str(t, "used");
            } else if in_section && header_seen {
                if t.unicode_len() == 0 {
                    done = true;
                } else {
                    let fs = split_fields(t);
                    if fs.len() >= 3 {
                        proof {
                            assert(fs.deep_view()[0] == fs@[0]@);
                            assert(fs.deep_view()[1] == fs@[1]@);
                            assert(fs.deep_view()[2] == fs@[2]@);
                        }
                        let used = if has_used {
                            find_used_value(&fs)
                        } else {
                            None
                        };
                        let used0 = match used {
                            Some(v) => v,
                            None => 0u64,
                        };
                        if str_eq_ci(fs[0].as_str(), "default") && used0 == 0 {
                        } else {
                            let ghost prev = regions.deep_view();
                            let length = parse_hex_or_dec(fs[2].as_str());
                            let row = MemoryRegion {
                                name: fs[0].as_str().to_owned(),
                                origin: fs[1].as_str().to_owned(),
                                length,
                                used,
                            };
                            regions.push(row);
                            proof {
                                assert(regions.deep_view() =~= prev.push(row@));
                            }
                        }
                    }
                }
            }
        }
        proof {
            assert(reg_scan_of(lv.take(i + 1)) == (RegScan {
                in_section,
                header_seen,
                has_used,
                done,
                regions: regions.deep_view(),
            }));
        }
        i = i + 1;
    }
    proof {
        assert(lv.take(lv.len() as int) =~= lv);
    }
    regions
}

/// The finished tree is sorted by descending size and respects the
/// library cap.
pub proof fn lemma_tree_top_sorted(accs: Seq<TreeAccModel>, lib_limit: int, obj_limit: int)
    requires
        lib_limit >= 0,
    ensures
        trees_sorted_desc(build_tree_spec(accs, lib_limit, obj_limit)),
        build_tree_spec(accs, lib_limit, obj_limit).len() <= lib_limit,
{
    let nodes = tree_nodes_of(accs, obj_limit);
    lemma_sort_tree_desc_sorted(nodes);
    let t = build_tree_spec(accs, lib_limit, obj_limit);
    assert forall|i: int, j: int| 0 <= i < j < t.len() implies t[i].size >= t[j].size by {
        assert(t[i] == sort_tree_desc(nodes)[i]);
        assert(t[j] == sort_tree_desc(nodes)[j]);
    }
}

/// Every node of the finished tree reports the sum of its retained
/// children's sizes, and its children are sorted and capped too.
pub proof fn lemma_tree_node_size(accs: Seq<TreeAccModel>, lib_limit: int, obj_limit: int, idx: int)
    requires
        lib_limit >= 0,
        obj_limit >= 0,
        0 <= idx < build_tree_spec(accs, lib_limit, obj_limit).len(),
    ensures
        ({
            let node = build_tree_spec(accs, lib_limit, obj_limit)[idx];
            &&& node.size == contrib_sum(node.children)
            &&& crate::rank::sorted_by_size_desc(node.children)
            &&& node.children.len() <= obj_limit
        }),
{
    let nodes = tree_nodes_of(accs, obj_limit);
    let t = build_tree_spec(accs, lib_limit, obj_limit);
    lemma_sort_tree_desc_sorted(nodes);
    assert(t[idx] == sort_tree_desc(nodes)[idx]);
    lemma_sort_tree_desc_elem(nodes, idx);
    let k = choose|k: int| 0 <= k < nodes.len() && sort_tree_desc(nodes)[idx] == nodes[k];
    assert(nodes[k] == node_of(accs[k], obj_limit));
    crate::rank::lemma_top_spec_sorted(accs[k].children, obj_limit);
}

pub open spec fn region_is_flash(name: Seq<char>) -> bool {
    crate::text::contains_ci_spec(name, "flash"@) || crate::text::contains_ci_spec(name, "rom"@)
}

pub open spec fn region_is_ram(name: Seq<char>) -> bool {
    crate::text::contains_ci_spec(name, "ram"@) || crate::text::contains_ci_spec(name, "sram"@)
}

/// Total used bytes over the flash-like regions, `None` when no such
/// region reports usage.
pub open spec fn flash_used_spec(rs: Seq<RegionModel>) -> Option<u64>
    decreases rs.len(),
{
    if rs.len() == 0 {
        None
    } else {
        let prev = flash_used_spec(rs.drop_last());
        match rs.last().used {
            None => prev,
            Some(u) => if region_is_flash(rs.last().name) {
                Some(
                    sat_add(
                        match prev {
                            Some(p) => p,
                            None => 0u64,
                        },
                        u,
                    ),
                )
            } else {
                prev
            },
        }
    }
}

/// Total used bytes over the RAM-like regions.
pub open spec fn ram_used_spec(rs: Seq<RegionModel>) -> Option<u64>
    decreases rs.len(),
{
    if rs.len() == 0 {
        None
    } else {
        let prev = ram_used_spec(rs.drop_last());
        match rs.last().used {
            None => prev,
            Some(u) => if region_is_ram(rs.last().name) {
                Some(
                    sat_add(
                        match prev {
                            Some(p) => p,
                            None => 0u64,
                        },
                        u,
                    ),
                )
            } else {
                prev
            },
        }
    }
}

/// Fill the optional region-derived totals from the parsed regions;
/// the section-derived totals are reported alongside, never replaced.
pub fn apply_region_totals(totals: SectionTotals, regions: &Vec<MemoryRegion>) -> (r:
    SectionTotals)
    ensures
        r.text_bytes == totals.text_bytes,
        r.rodata_bytes == totals.rodata_bytes,
        r.data_bytes == totals.data_bytes,
        r.bss_bytes == totals.bss_bytes,
        r.flash_bytes == totals.flash_bytes,
        r.ram_bytes == totals.ram_bytes,
        regions.deep_view().len() == 0 ==> r == totals,
        regions.deep_view().len() > 0 ==> r.flash_region_bytes == flash_used_spec(
            regions.deep_view(),
        ) && r.ram_region_bytes == ram_used_spec(regions.deep_view()),
{
    let ghost dv = regions.deep_view();
    if regions.len() == 0 {
        return totals;
    }
    let mut flash_used: Option<u64> = None;
    let mut ram_used: Option<u64> = None;
    let mut i: usize = 0;
    proof {
        assert(dv.take(0) =~= Seq::<RegionModel>::empty());
    }
    while i < regions.len()
        invariant
            0 <= i <= regions@.len(),
            dv == regions.deep_view(),
            dv.len() == regions@.len(),
            flash_used == flash_used_spec(dv.take(i as int)),
            ram_used == ram_used_spec(dv.take(i as int)),
        decreases regions@.len() - i,
    {
        proof {
            assert(dv.take(i + 1).drop_last() =~= dv.take(i as int));
            assert(dv.take(i + 1).last() == dv[i as int]);
            assert(regions@[i as int]@ == dv[i as int]);
        }
        let region = &regions[i];
        match region.used {
            None => {},
            Some(u) => {
                let name = region.name.as_str();
                if contains_ci_str(name, "flash") || contains_ci_str(name, "rom") {
                    let base = match flash_used {
                        Some(p) => p,
                        None => 0,
                    };
                    flash_used = Some(base.saturating_add(u));
                }
                if contains_ci_str(name, "ram") || contains_ci_str(name, "sram") {
                    let base = match ram_used {
                        Some(p) => p,
                        None => 0,
                    };
                    ram_used = Some(base.saturating_add(u));
                }
            },
        }
        i = i + 1;
    }
    proof {
        assert(dv.take(dv.len() as int) =~= dv);
    }
    SectionTotals {
        flash_bytes: totals.flash_bytes,
        ram_bytes: totals.ram_bytes,
        text_bytes: totals.text_bytes,
        rodata_bytes: totals.rodata_bytes,
        data_bytes: totals.data_bytes,
        bss_bytes: totals.bss_bytes,
        flash_region_bytes: flash_used,
        ram_region_bytes: ram_used,
    }
}

/// Everything one linker map yields: the three ranked contribution
/// lists, the size tree, and the memory-region table.
pub struct MapContributions {
    pub top_objects: Vec<ObjectContribution>,
    pub top_libraries: Vec<ObjectContribution>,
    pub top_sections: Vec<ObjectContribution>,
    pub map_tree: Vec<TreeNode>,
    pub memory_regions: Vec<MemoryRegion>,
}

/// Parse a whole linker map: aggregate every attribution line, rank
/// the aggregates (objects capped at 20, libraries at 12, sections at
/// 8, the tree at 20 libraries of 40 objects each), and scan the
/// memory-configuration table.
pub fn parse_map_contributions(contents: &str) -> (r: MapContributions)
    ensures
        ({
            let agg = map_agg_of(crate::text::lines_spec(contents@));
            &&& r.top_objects.deep_view() == top_spec(agg.objects, 20)
            &&& r.top_libraries.deep_view() == top_spec(agg.libraries, 12)
            &&& r.top_sections.deep_view() == top_spec(agg.sections, 8)
            &&& r.map_tree.deep_view() == build_tree_spec(agg.buckets, 20, 40)
            &&& r.memory_regions.deep_view() == regions_spec(contents@)
            &&& r.top_objects.deep_view().len() <= 20
            &&& r.top_libraries.deep_view().len() <= 12
            &&& r.top_sections.deep_view().len() <= 8
            &&& r.map_tree.deep_view().len() <= 20
        }),
{
    let lines = crate::text::split_lines(contents);
    let ghost lv = lines.deep_view();
    let mut objects: Vec<ObjectContribution> = Vec::new();
    let mut libraries: Vec<ObjectContribution> = Vec::new();
    let mut sections: Vec<ObjectContribution> = Vec::new();
    let mut buckets: Vec<TreeAcc> = Vec::new();
    proof {
        assert(lv.take(0) =~= Seq::<Seq<char>>::empty());
        assert(objects.deep_view() =~= Seq::<ContribModel>::empty());
        assert(libraries.deep_view() =~= Seq::<ContribModel>::empty());
        assert(sections.deep_view() =~= Seq::<ContribModel>::empty());
        assert(buckets.deep_view() =~= Seq::<TreeAccModel>::empty());
    }
    let mut i: usize = 0;
    while i < lines.len()
        invariant
            0 <= i <= lines@.len(),
            lv == lines.deep_view(),
            lv.len() == lines@.len(),
            lv == crate::text::lines_spec(contents@),
            map_agg_of(lv.take(i as int)) == (MapAgg {
                objects: objects.deep_view(),
                libraries: libraries.deep_view(),
                sections: sections.deep_view(),
                buckets: buckets.deep_view(),
            }),
        decreases lines@.len() - i,
    {
        proof {
            assert(lv.take(i + 1).drop_last() =~= lv.take(i as int));
            assert(lv.take(i + 1).last() == lv[i as int]);
            assert(lines@[i as int]@ == lv[i as int]);
        }
        match parse_map_line(&lines[i]) {
            None => {},
            Some(rec) => {
                add_contribution(&mut objects, rec.file.as_str(), rec.size);
                match extract_library_name(rec.file.as_str()) {
                    Some(lib) => {
                        add_contribution(&mut libraries, lib.as_str(), rec.size);
                    },
                    None => {},
                }
                add_contribution(&mut sections, rec.section.as_str(), rec.size);
                let (libopt, obj) = split_library_object(rec.file.as_str());
                match libopt {
                    Some(lib) => {
                        add_tree_contribution(&mut buckets, lib.as_str(), obj.as_str(), rec.size);
                    },
                    None => {
                        add_tree_contribution(&mut buckets, "Objects", obj.as_str(), rec.size);
                    },
                }
            },
        }
        proof {
            assert(map_agg_of(lv.take(i + 1)) == (MapAgg {
                objects: objects.deep_view(),
                libraries: libraries.deep_view(),
                sections: sections.deep_view(),
                buckets: buckets.deep_view(),
            }));
        }
        i = i + 1;
    }
    proof {
        assert(lv.take(lv.len() as int) =~= lv);
    }
    let top_objects = top_contributions(&objects, 20);
    let top_libraries = top_contributions(&libraries, 12);
    let top_sections = top_contributions(&sections, 8);
    let map_tree = build_tree(buckets, 20, 40);
    let memory_regions = parse_memory_regions(contents);
    MapContributions { top_objects, top_libraries, top_sections, map_tree, memory_regions }
}

} // verus!
