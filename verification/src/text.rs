//! Verified text utilities: the tool outputs this library analyzes are
//! line-oriented text, so everything here is specified over `Seq<char>`
//! views and proved against those specifications.
use vstd::prelude::*;

verus! {

/// ASCII whitespace, the separator class used by all parsers here.
pub open spec fn is_space(c: char) -> bool {
    c == ' ' || c == '\t' || c == '\r' || c == '\n'
}

/// First index at or after `from` holding `c`, or the length if none.
pub open spec fn find_chr(s: Seq<char>, from: int, c: char) -> int
    decreases s.len() - from when 0 <= from <= s.len()
{
    if from >= s.len() {
        s.len() as int
    } else if s[from] == c {
        from
    } else {
        find_chr(s, from + 1, c)
    }
}

pub proof fn lemma_find_chr(s: Seq<char>, from: int, c: char)
    requires
        0 <= from <= s.len(),
    ensures
        from <= find_chr(s, from, c) <= s.len(),
        forall|k: int| from <= k < find_chr(s, from, c) ==> s[k] != c,
        find_chr(s, from, c) < s.len() ==> s[find_chr(s, from, c)] == c,
    decreases s.len() - from,
{
    if from < s.len() && s[from] != c {
        lemma_find_chr(s, from + 1, c);
    }
}

/// First whitespace index at or after `from`, or the length if none.
pub open spec fn find_space(s: Seq<char>, from: int) -> int
    decreases s.len() - from when 0 <= from <= s.len()
{
    if from >= s.len() {
        s.len() as int
    } else if is_space(s[from]) {
        from
    } else {
        find_space(s, from + 1)
    }
}

pub proof fn lemma_find_space(s: Seq<char>, from: int)
    requires
        0 <= from <= s.len(),
    ensures
        from <= find_space(s, from) <= s.len(),
        forall|k: int| from <= k < find_space(s, from) ==> !is_space(s[k]),
        find_space(s, from) < s.len() ==> is_space(s[find_space(s, from)]),
    decreases s.len() - from,
{
    if from < s.len() && !is_space(s[from]) {
        lemma_find_space(s, from + 1);
    }
}

/// First non-whitespace index at or after `from`, or the length if none.
pub open spec fn find_nonspace(s: Seq<char>, from: int) -> int
    decreases s.len() - from when 0 <= from <= s.len()
{
    if from >= s.len() {
        s.len() as int
    } else if !is_space(s[from]) {
        from
    } else {
        find_nonspace(s, from + 1)
    }
}

pub proof fn lemma_find_nonspace(s: Seq<char>, from: int)
    requires
        0 <= from <= s.len(),
    ensures
        from <= find_nonspace(s, from) <= s.len(),
        forall|k: int| from <= k < find_nonspace(s, from) ==> is_space(s[k]),
        find_nonspace(s, from) < s.len() ==> !is_space(s[find_nonspace(s, from)]),
    decreases s.len() - from,
{
    if from < s.len() && is_space(s[from]) {
        lemma_find_nonspace(s, from + 1);
    }
}

fn is_space_char(c: char) -> (r: bool)
    ensures
        r == is_space(c),
{
    c == ' ' || c == '\t' || c == '\r' || c == '\n'
}

pub fn find_char_at(s: &str, from: usize, c: char) -> (r: usize)
    requires
        from <= s@.len(),
    ensures
        r == find_chr(s@, from as int, c),
        from <= r <= s@.len(),
{
    proof {
        lemma_find_chr(s@, from as int, c);
    }
    let n = s.unicode_len();
    let mut i = from;
    while i < n
        invariant
            from <= i <= n,
            n == s@.len(),
            find_chr(s@, from as int, c) == find_chr(s@, i as int, c),
        decreases n - i,
    {
        if s.get_char(i) == c {
            return i;
        }
        i = i + 1;
    }
    i
}

pub fn find_space_at(s: &str, from: usize) -> (r: usize)
    requires
        from <= s@.len(),
    ensures
        r == find_space(s@, from as int),
        from <= r <= s@.len(),
{
    proof {
        lemma_find_space(s@, from as int);
    }
    let n = s.unicode_len();
    let mut i = from;
    while i < n
        invariant
            from <= i <= n,
            n == s@.len(),
            find_space(s@, from as int) == find_space(s@, i as int),
        decreases n - i,
    {
        if is_space_char(s.get_char(i)) {
            return i;
        }
        i = i + 1;
    }
    i
}

pub fn find_nonspace_at(s: &str, from: usize) -> (r: usize)
    requires
        from <= s@.len(),
    ensures
        r == find_nonspace(s@, from as int),
        from <= r <= s@.len(),
{
    proof {
        lemma_find_nonspace(s@, from as int);
    }
    let n = s.unicode_len();
    let mut i = from;
    while i < n
        invariant
            from <= i <= n,
            n == s@.len(),
            find_nonspace(s@, from as int) == find_nonspace(s@, i as int),
        decreases n - i,
    {
        if !is_space_char(s.get_char(i)) {
            return i;
        }
        i = i + 1;
    }
    i
}

/// Whitespace trimmed from the start only.
pub open spec fn trim_start_spec(s: Seq<char>) -> Seq<char> {
    s.subrange(find_nonspace(s, 0), s.len() as int)
}

pub fn trim_start_str<'a>(s: &'a str) -> (r: &'a str)
    ensures
        r@ == trim_start_spec(s@),
{
    let n = s.unicode_len();
    let a = find_nonspace_at(s, 0);
    s.substring_char(a, n)
}

/// Last non-whitespace index strictly below `upto`, or -1 if none.
pub open spec fn rfind_nonspace(s: Seq<char>, upto: int) -> int
    decreases upto when 0 <= upto <= s.len()
{
    if upto <= 0 {
        -1
    } else if !is_space(s[upto - 1]) {
        upto - 1
    } else {
        rfind_nonspace(s, upto - 1)
    }
}

pub proof fn lemma_rfind_nonspace(s: Seq<char>, upto: int)
    requires
        0 <= upto <= s.len(),
    ensures
        -1 <= rfind_nonspace(s, upto) < upto,
        forall|k: int| rfind_nonspace(s, upto) < k < upto ==> is_space(s[k]),
        rfind_nonspace(s, upto) >= 0 ==> !is_space(s[rfind_nonspace(s, upto)]),
    decreases upto,
{
    if upto > 0 && is_space(s[upto - 1]) {
        lemma_rfind_nonspace(s, upto - 1);
    }
}

/// Whitespace trimmed from both ends.
pub open spec fn trim_spec(s: Seq<char>) -> Seq<char> {
    if find_nonspace(s, 0) >= s.len() {
        Seq::empty()
    } else {
        s.subrange(find_nonspace(s, 0), rfind_nonspace(s, s.len() as int) + 1)
    }
}

pub fn trim_str<'a>(s: &'a str) -> (r: &'a str)
    ensures
        r@ == trim_spec(s@),
{
    let n = s.unicode_len();
    let a = find_nonspace_at(s, 0);
    if a >= n {
        let empty = s.substring_char(0, 0);
        proof {
            assert(empty@ =~= Seq::<char>::empty());
        }
        return empty;
    }
    proof {
        lemma_find_nonspace(s@, 0);
        lemma_rfind_nonspace(s@, s@.len() as int);
        // the non-space character at `a` bounds the last non-space from below
        if rfind_nonspace(s@, s@.len() as int) < a {
            assert(is_space(s@[a as int]));
        }
    }
    let mut j = n;
    while j > a
        invariant
            a <= j <= n,
            n == s@.len(),
            a < n,
            a == find_nonspace(s@, 0),
            rfind_nonspace(s@, s@.len() as int) >= a,
            rfind_nonspace(s@, s@.len() as int) == rfind_nonspace(s@, j as int),
        decreases j,
    {
        if !is_space_char(s.get_char(j - 1)) {
            return s.substring_char(a, j);
        }
        j = j - 1;
    }
    proof {
        // unreachable: the last non-space index is at least a, yet the scan
        // passed it without finding one
        lemma_rfind_nonspace(s@, a as int);
        assert(false);
    }
    s.substring_char(a, j)
}

/// A line with one trailing carriage return removed, as line-oriented
/// tool output on Windows ends lines in "\r\n".
pub open spec fn strip_cr(s: Seq<char>) -> Seq<char> {
    if s.len() > 0 && s[s.len() - 1] == '\r' {
        s.drop_last()
    } else {
        s
    }
}

/// The lines of `s` from index `from` on: split at '\n', one trailing
/// '\r' stripped per line, no entry for a trailing empty piece.
pub open spec fn lines_from(s: Seq<char>, from: int) -> Seq<Seq<char>>
    decreases s.len() - from when 0 <= from <= s.len() via check_lines_from
{
    if from >= s.len() {
        Seq::empty()
    } else {
        let j = find_chr(s, from, '\n');
        seq![strip_cr(s.subrange(from, j))] + if j < s.len() {
            lines_from(s, j + 1)
        } else {
            Seq::empty()
        }
    }
}

#[via_fn]
proof fn check_lines_from(s: Seq<char>, from: int) {
    if 0 <= from < s.len() {
        lemma_find_chr(s, from, '\n');
    }
}

pub open spec fn lines_spec(s: Seq<char>) -> Seq<Seq<char>> {
    lines_from(s, 0)
}

pub fn split_lines(s: &str) -> (r: Vec<String>)
    ensures
        r.deep_view() == lines_spec(s@),
{
    let n = s.unicode_len();
    let mut out: Vec<String> = Vec::new();
    let mut i: usize = 0;
    while i < n
        invariant
            0 <= i <= n,
            n == s@.len(),
            lines_spec(s@) == out.deep_view() + lines_from(s@, i as int),
        decreases n - i,
    {
        let j = find_char_at(s, i, '\n');
        proof {
            lemma_find_chr(s@, i as int, '\n');
        }
        let end = if j > i && s.get_char(j - 1) == '\r' {
            j - 1
        } else {
            j
        };
        let ghost old_out = out.deep_view();
        let line = s.substring_char(i, end).to_owned();
        proof {
            assert(line@ =~= strip_cr(s@.subrange(i as int, j as int)));
        }
        out.push(line);
        proof {
            assert(out.deep_view() =~= old_out + seq![line@]);
        }
        if j < n {
            i = j + 1;
        } else {
            i = n;
            proof {
                assert(out.deep_view() + lines_from(s@, n as int) =~= out.deep_view());
                assert(lines_spec(s@) =~= out.deep_view());
            }
        }
    }
    proof {
        assert(out.deep_view() + lines_from(s@, n as int) =~= out.deep_view());
    }
    out
}

/// The whitespace-separated fields of `s` from index `from` on.
pub open spec fn fields_from(s: Seq<char>, from: int) -> Seq<Seq<char>>
    decreases s.len() - from when 0 <= from <= s.len() via check_fields_from
{
    if from > s.len() {
        Seq::empty()
    } else {
        let a = find_nonspace(s, from);
        if a >= s.len() {
            Seq::empty()
        } else {
            let b = find_space(s, a);
            seq![s.subrange(a, b)] + fields_from(s, b)
        }
    }
}

#[via_fn]
proof fn check_fields_from(s: Seq<char>, from: int) {
    if 0 <= from <= s.len() {
        let a = find_nonspace(s, from);
        lemma_find_nonspace(s, from);
        if a < s.len() {
            let b = find_space(s, a);
            lemma_find_space(s, a);
            if b == a {
                assert(is_space(s[a]));
            }
        }
    }
}

pub open spec fn fields_spec(s: Seq<char>) -> Seq<Seq<char>> {
    fields_from(s, 0)
}

pub fn split_fields(s: &str) -> (r: Vec<String>)
    ensures
        r.deep_view() == fields_spec(s@),
{
    let n = s.unicode_len();
    let mut out: Vec<String> = Vec::new();
    let mut i: usize = 0;
    while i < n
        invariant
            0 <= i <= n,
            n == s@.len(),
            fields_spec(s@) == out.deep_view() + fields_from(s@, i as int),
        decreases n - i,
    {
        let a = find_nonspace_at(s, i);
        if a >= n {
            proof {
                assert(out.deep_view() + fields_from(s@, i as int) =~= out.deep_view());
            }
            i = n;
        } else {
            proof {
                lemma_find_nonspace(s@, i as int);
                lemma_find_space(s@, a as int);
                if find_space(s@, a as int) == a {
                    assert(is_space(s@[a as int]));
                }
            }
            let b = find_space_at(s, a);
            let ghost old_out = out.deep_view();
            let field = s.substring_char(a, b).to_owned();
            out.push(field);
            proof {
                assert(out.deep_view() =~= old_out + seq![field@]);
            }
            i = b;
        }
    }
    proof {
        assert(out.deep_view() + fields_from(s@, i as int) =~= out.deep_view());
    }
    out
}

pub fn str_eq(a: &str, b: &str) -> (r: bool)
    ensures
        r == (a@ == b@),
{
    let na = a.unicode_len();
    let nb = b.unicode_len();
    if na != nb {
        return false;
    }
    let mut i: usize = 0;
    while i < na
        invariant
            0 <= i <= na,
            na == a@.len(),
            na == b@.len(),
            forall|k: int| 0 <= k < i ==> a@[k] == b@[k],
        decreases na - i,
    {
        if a.get_char(i) != b.get_char(i) {
            return false;
        }
        i = i + 1;
    }
    proof {
        assert(a@ =~= b@);
    }
    true
}

/// `p` is a prefix of `s`.
pub open spec fn prefix_of(s: Seq<char>, p: Seq<char>) -> bool {
    p.len() <= s.len() && s.subrange(0, p.len() as int) == p
}

pub fn starts_with_str(s: &str, p: &str) -> (r: bool)
    ensures
        r == prefix_of(s@, p@),
{
    let n = s.unicode_len();
    let m = p.unicode_len();
    if m > n {
        return false;
    }
    let mut i: usize = 0;
    while i < m
        invariant
            0 <= i <= m,
            m <= n,
            n == s@.len(),
            m == p@.len(),
            forall|k: int| 0 <= k < i ==> s@[k] == p@[k],
        decreases m - i,
    {
        if s.get_char(i) != p.get_char(i) {
            proof {
                assert(s@.subrange(0, m as int)[i as int] != p@[i as int]);
            }
            return false;
        }
        i = i + 1;
    }
    proof {
        assert(s@.subrange(0, m as int) =~= p@);
    }
    true
}

pub open spec fn is_ascii_digit(c: char) -> bool {
    48 <= c as u32 && c as u32 <= 57
}

pub fn is_digit_char(c: char) -> (r: bool)
    ensures
        r == is_ascii_digit(c),
{
    let u = c as u32;
    48 <= u && u <= 57
}

/// The fields joined back together with single spaces.
pub open spec fn join_sp(fs: Seq<Seq<char>>) -> Seq<char>
    decreases fs.len(),
{
    if fs.len() == 0 {
        Seq::empty()
    } else if fs.len() == 1 {
        fs[0]
    } else {
        fs[0] + seq![' '] + join_sp(fs.drop_first())
    }
}

proof fn lemma_join_push(fs: Seq<Seq<char>>, x: Seq<char>)
    ensures
        fs.len() == 0 ==> join_sp(fs.push(x)) == x,
        fs.len() > 0 ==> join_sp(fs.push(x)) == join_sp(fs) + seq![' '] + x,
    decreases fs.len(),
{
    let p = fs.push(x);
    if fs.len() == 0 {
        assert(p[0] == x);
    } else if fs.len() == 1 {
        assert(p[0] == fs[0]);
        assert(p.drop_first() =~= seq![x]);
        assert(join_sp(p.drop_first()) == x);
    } else {
        lemma_join_push(fs.drop_first(), x);
        assert(p.drop_first() =~= fs.drop_first().push(x));
        assert(join_sp(fs.drop_first().push(x)) == join_sp(fs.drop_first()) + seq![' '] + x);
        assert(join_sp(p) == p[0] + seq![' '] + join_sp(p.drop_first()));
        assert(p[0] == fs[0]);
        assert(fs[0] + seq![' '] + (join_sp(fs.drop_first()) + seq![' '] + x) =~= (fs[0] + seq![' ']
            + join_sp(fs.drop_first())) + seq![' '] + x);
    }
}

/// Join the fields of `v` from index `from` on with single spaces.
pub fn join_fields_from(v: &Vec<String>, from: usize) -> (r: String)
    requires
        from < v@.len(),
    ensures
        r@ == join_sp(v.deep_view().skip(from as int)),
{
    let ghost dv = v.deep_view();
    let n = v.len();
    let mut acc: String = v[from].as_str().to_owned();
    let mut i: usize = from + 1;
    proof {
        assert(dv.subrange(from as int, from + 1) =~= seq![dv[from as int]]);
        assert(join_sp(seq![dv[from as int]]) == dv[from as int]);
    }
    while i < v.len()
        invariant
            from < i <= v@.len(),
            dv == v.deep_view(),
            dv.len() == v@.len(),
            acc@ == join_sp(dv.subrange(from as int, i as int)),
        decreases v@.len() - i,
    {
        proof {
            reveal_strlit(" ");
            assert(" "@ =~= seq![' ']);
            lemma_join_push(dv.subrange(from as int, i as int), dv[i as int]);
            assert(dv.subrange(from as int, i + 1) =~= dv.subrange(from as int, i as int).push(
                dv[i as int],
            ));
        }
        acc.append(" ");
        acc.append(v[i].as_str());
        i = i + 1;
    }
    proof {
        assert(dv.subrange(from as int, dv.len() as int) =~= dv.skip(from as int));
    }
    acc
}

/// `n` occurs in `h` starting at index `i`.
pub open spec fn match_at(h: Seq<char>, n: Seq<char>, i: int) -> bool {
    0 <= i && i + n.len() <= h.len() && h.subrange(i, i + n.len() as int) == n
}

/// `n` occurs somewhere in `h`.
pub open spec fn contains_spec(h: Seq<char>, n: Seq<char>) -> bool {
    exists|i: int| match_at(h, n, i)
}

fn match_chars_at(h: &str, n: &str, i: usize) -> (r: bool)
    requires
        i + n@.len() <= h@.len(),
    ensures
        r == match_at(h@, n@, i as int),
{
    let m = n.unicode_len();
    let hl = h.unicode_len();
    let mut k: usize = 0;
    while k < m
        invariant
            0 <= k <= m,
            m == n@.len(),
            hl == h@.len(),
            i + m <= hl,
            forall|t: int| 0 <= t < k ==> h@[i + t] == n@[t],
        decreases m - k,
    {
        if h.get_char(i + k) != n.get_char(k) {
            proof {
                assert(h@.subrange(i as int, i + m as int)[k as int] != n@[k as int]);
            }
            return false;
        }
        k = k + 1;
    }
    proof {
        assert(h@.subrange(i as int, i + m as int) =~= n@);
    }
    true
}

pub fn contains_str(h: &str, n: &str) -> (r: bool)
    ensures
        r == contains_spec(h@, n@),
{
    let hl = h.unicode_len();
    let nl = n.unicode_len();
    if nl > hl {
        proof {
            assert(forall|i: int| !match_at(h@, n@, i));
        }
        return false;
    }
    if nl == 0 {
        proof {
            assert(h@.subrange(0, 0) =~= n@);
            assert(match_at(h@, n@, 0));
        }
        return true;
    }
    let mut i: usize = 0;
    while i <= hl - nl
        invariant
            0 <= i <= hl - nl + 1,
            1 <= nl <= hl,
            hl == h@.len(),
            nl == n@.len(),
            forall|k: int| 0 <= k < i ==> !match_at(h@, n@, k),
        decreases hl - nl + 1 - i,
    {
        if match_chars_at(h, n, i) {
            return true;
        }
        i = i + 1;
    }
    proof {
        assert(forall|k: int| match_at(h@, n@, k) ==> 0 <= k <= hl - nl);
    }
    false
}

/// ASCII lowercase folding, as a code point.
pub open spec fn lower_u32(c: char) -> u32 {
    if 65 <= c as u32 && c as u32 <= 90 {
        (c as u32 + 32) as u32
    } else {
        c as u32
    }
}

/// The code points of `s` with ASCII uppercase folded to lowercase.
pub open spec fn lower_seq(s: Seq<char>) -> Seq<u32> {
    Seq::new(s.len(), |i: int| lower_u32(s[i]))
}

pub fn lower_char_u32(c: char) -> (r: u32)
    ensures
        r == lower_u32(c),
{
    let u = c as u32;
    if 65 <= u && u <= 90 {
        u + 32
    } else {
        u
    }
}

/// `n` occurs in `h` starting at `i`, compared case-insensitively (ASCII).
pub open spec fn match_ci_at(h: Seq<char>, n: Seq<char>, i: int) -> bool {
    0 <= i && i + n.len() <= h.len() && lower_seq(h).subrange(i, i + n.len() as int) == lower_seq(
        n,
    )
}

pub open spec fn contains_ci_spec(h: Seq<char>, n: Seq<char>) -> bool {
    exists|i: int| match_ci_at(h, n, i)
}

fn match_ci_chars_at(h: &str, n: &str, i: usize) -> (r: bool)
    requires
        i + n@.len() <= h@.len(),
    ensures
        r == match_ci_at(h@, n@, i as int),
{
    let m = n.unicode_len();
    let hl = h.unicode_len();
    let mut k: usize = 0;
    while k < m
        invariant
            0 <= k <= m,
            m == n@.len(),
            hl == h@.len(),
            i + m <= hl,
            forall|t: int| 0 <= t < k ==> lower_u32(h@[i + t]) == lower_u32(n@[t]),
        decreases m - k,
    {
        let hc = lower_char_u32(h.get_char(i + k));
        let nc = lower_char_u32(n.get_char(k));
        if hc != nc {
            proof {
                assert(lower_seq(h@).subrange(i as int, i + m as int)[k as int] != lower_seq(
                    n@,
                )[k as int]);
            }
            return false;
        }
        k = k + 1;
    }
    proof {
        assert(lower_seq(h@).subrange(i as int, i + m as int) =~= lower_seq(n@));
    }
    true
}

pub fn contains_ci_str(h: &str, n: &str) -> (r: bool)
    ensures
        r == contains_ci_spec(h@, n@),
{
    let hl = h.unicode_len();
    let nl = n.unicode_len();
    if nl > hl {
        proof {
            assert(forall|i: int| !match_ci_at(h@, n@, i));
        }
        return false;
    }
    if nl == 0 {
        proof {
            assert(lower_seq(h@).subrange(0, 0) =~= lower_seq(n@));
            assert(match_ci_at(h@, n@, 0));
        }
        return true;
    }
    let mut i: usize = 0;
    while i <= hl - nl
        invariant
            0 <= i <= hl - nl + 1,
            1 <= nl <= hl,
            hl == h@.len(),
            nl == n@.len(),
            forall|k: int| 0 <= k < i ==> !match_ci_at(h@, n@, k),
        decreases hl - nl + 1 - i,
    {
        if match_ci_chars_at(h, n, i) {
            return true;
        }
        i = i + 1;
    }
    proof {
        assert(forall|k: int| match_ci_at(h@, n@, k) ==> 0 <= k <= hl - nl);
    }
    false
}

/// Case-insensitive (ASCII) equality of two strings.
pub open spec fn eq_ci_spec(a: Seq<char>, b: Seq<char>) -> bool {
    lower_seq(a) == lower_seq(b)
}

pub fn str_eq_ci(a: &str, b: &str) -> (r: bool)
    ensures
        r == eq_ci_spec(a@, b@),
{
    let na = a.unicode_len();
    let nb = b.unicode_len();
    if na != nb {
        proof {
            assert(lower_seq(a@).len() != lower_seq(b@).len());
        }
        return false;
    }
    let mut i: usize = 0;
    while i < na
        invariant
            0 <= i <= na,
            na == a@.len(),
            na == b@.len(),
            forall|k: int| 0 <= k < i ==> lower_u32(a@[k]) == lower_u32(b@[k]),
        decreases na - i,
    {
        let ca = lower_char_u32(a.get_char(i));
        let cb = lower_char_u32(b.get_char(i));
        if ca != cb {
            proof {
                assert(lower_seq(a@)[i as int] != lower_seq(b@)[i as int]);
            }
            return false;
        }
        i = i + 1;
    }
    proof {
        assert(lower_seq(a@) =~= lower_seq(b@));
    }
    true
}

/// First index at which the two sequences differ, up to the shorter length.
pub open spec fn diff_idx(a: Seq<char>, b: Seq<char>, from: int) -> int
    decreases a.len() - from when 0 <= from
{
    if from >= a.len() || from >= b.len() {
        from
    } else if a[from] != b[from] {
        from
    } else {
        diff_idx(a, b, from + 1)
    }
}

/// Strict lexicographic order on code points, the order `str` comparison
/// gives on UTF-8 text.
pub open spec fn lex_lt(a: Seq<char>, b: Seq<char>) -> bool {
    let d = diff_idx(a, b, 0);
    if d >= a.len() {
        a.len() < b.len()
    } else if d >= b.len() {
        false
    } else {
        (a[d] as u32) < (b[d] as u32)
    }
}

proof fn lemma_diff_idx(a: Seq<char>, b: Seq<char>, from: int)
    requires
        0 <= from,
        from <= a.len() || from <= b.len(),
    ensures
        from <= diff_idx(a, b, from),
        diff_idx(a, b, from) <= a.len() || diff_idx(a, b, from) <= b.len(),
        diff_idx(a, b, from) < a.len() && diff_idx(a, b, from) < b.len() ==> a[diff_idx(
            a,
            b,
            from,
        )] != b[diff_idx(a, b, from)],
    decreases a.len() + b.len() - from,
{
    if from < a.len() && from < b.len() && a[from] == b[from] {
        lemma_diff_idx(a, b, from + 1);
    }
}

pub fn str_lt(a: &str, b: &str) -> (r: bool)
    ensures
        r == lex_lt(a@, b@),
{
    let na = a.unicode_len();
    let nb = b.unicode_len();
    let mut i: usize = 0;
    proof {
        lemma_diff_idx(a@, b@, 0);
    }
    while i < na && i < nb
        invariant
            0 <= i,
            i <= na,
            i <= nb,
            na == a@.len(),
            nb == b@.len(),
            diff_idx(a@, b@, 0) == diff_idx(a@, b@, i as int),
        decreases na - i,
    {
        let ca = a.get_char(i);
        let cb = b.get_char(i);
        if ca != cb {
            return (ca as u32) < (cb as u32);
        }
        i = i + 1;
    }
    na < nb
}

} // verus!
