//! Verified parsing of hexadecimal and decimal integers from text, with
//! the same acceptance rules as the standard library's radix parsing:
//! an empty string, a non-digit character, or a value past `u64::MAX`
//! all reject the input.
use vstd::prelude::*;

verus! {

/// Value of a hexadecimal digit, or -1 for a non-digit.
pub open spec fn hex_digit_val(c: char) -> int {
    let u = c as u32;
    if 48 <= u && u <= 57 {
        u - 48
    } else if 97 <= u && u <= 102 {
        u - 87
    } else if 65 <= u && u <= 70 {
        u - 55
    } else {
        -1
    }
}

/// Value of a decimal digit, or -1 for a non-digit.
pub open spec fn dec_digit_val(c: char) -> int {
    let u = c as u32;
    if 48 <= u && u <= 57 {
        u - 48
    } else {
        -1
    }
}

pub open spec fn all_hex(s: Seq<char>) -> bool {
    forall|i: int| 0 <= i < s.len() ==> hex_digit_val(#[trigger] s[i]) >= 0
}

pub open spec fn all_dec(s: Seq<char>) -> bool {
    forall|i: int| 0 <= i < s.len() ==> dec_digit_val(#[trigger] s[i]) >= 0
}

/// The unbounded integer a hexadecimal digit string denotes.
pub open spec fn hex_value(s: Seq<char>) -> int
    decreases s.len(),
{
    if s.len() == 0 {
        0
    } else {
        hex_value(s.drop_last()) * 16 + hex_digit_val(s.last())
    }
}

/// The unbounded integer a decimal digit string denotes.
pub open spec fn dec_value(s: Seq<char>) -> int
    decreases s.len(),
{
    if s.len() == 0 {
        0
    } else {
        dec_value(s.drop_last()) * 10 + dec_digit_val(s.last())
    }
}

/// What parsing `s` as hexadecimal yields: `None` for an empty string,
/// a non-digit, or a value that does not fit in a `u64`.
pub open spec fn parse_hex_spec(s: Seq<char>) -> Option<u64> {
    if s.len() == 0 || !all_hex(s) || hex_value(s) > u64::MAX {
        None
    } else {
        Some(hex_value(s) as u64)
    }
}

/// What parsing `s` as decimal yields, on the same terms.
pub open spec fn parse_dec_spec(s: Seq<char>) -> Option<u64> {
    if s.len() == 0 || !all_dec(s) || dec_value(s) > u64::MAX {
        None
    } else {
        Some(dec_value(s) as u64)
    }
}

proof fn lemma_hex_value_nonneg(s: Seq<char>)
    requires
        all_hex(s),
    ensures
        hex_value(s) >= 0,
    decreases s.len(),
{
    if s.len() > 0 {
        assert(all_hex(s.drop_last())) by {
            assert(forall|i: int| 0 <= i < s.len() - 1 ==> s.drop_last()[i] == #[trigger] s[i]);
        }
        lemma_hex_value_nonneg(s.drop_last());
    }
}

proof fn lemma_dec_value_nonneg(s: Seq<char>)
    requires
        all_dec(s),
    ensures
        dec_value(s) >= 0,
    decreases s.len(),
{
    if s.len() > 0 {
        assert(all_dec(s.drop_last())) by {
            assert(forall|i: int| 0 <= i < s.len() - 1 ==> s.drop_last()[i] == #[trigger] s[i]);
        }
        lemma_dec_value_nonneg(s.drop_last());
    }
}

/// A longer all-digit prefix never denotes a smaller value.
proof fn lemma_hex_prefix_le(s: Seq<char>, j: int)
    requires
        all_hex(s),
        0 <= j <= s.len(),
    ensures
        hex_value(s.take(j)) <= hex_value(s),
    decreases s.len() - j,
{
    if j < s.len() {
        lemma_hex_prefix_le(s, j + 1);
        let p = s.take(j);
        let q = s.take(j + 1);
        assert(q.drop_last() =~= p);
        assert(q.last() == s[j]);
        assert(all_hex(p)) by {
            assert(forall|i: int| 0 <= i < j ==> p[i] == #[trigger] s[i]);
        }
        lemma_hex_value_nonneg(p);
        assert(hex_value(q) == hex_value(p) * 16 + hex_digit_val(s[j]));
    } else {
        assert(s.take(j) =~= s);
    }
}

proof fn lemma_dec_prefix_le(s: Seq<char>, j: int)
    requires
        all_dec(s),
        0 <= j <= s.len(),
    ensures
        dec_value(s.take(j)) <= dec_value(s),
    decreases s.len() - j,
{
    if j < s.len() {
        lemma_dec_prefix_le(s, j + 1);
        let p = s.take(j);
        let q = s.take(j + 1);
        assert(q.drop_last() =~= p);
        assert(q.last() == s[j]);
        assert(all_dec(p)) by {
            assert(forall|i: int| 0 <= i < j ==> p[i] == #[trigger] s[i]);
        }
        lemma_dec_value_nonneg(p);
        assert(dec_value(q) == dec_value(p) * 10 + dec_digit_val(s[j]));
    } else {
        assert(s.take(j) =~= s);
    }
}

fn hex_digit(c: char) -> (r: Option<u8>)
    ensures
        r is Some <==> hex_digit_val(c) >= 0,
        r is Some ==> r->0 == hex_digit_val(c),
{
    let u = c as u32;
    if 48 <= u && u <= 57 {
        Some((u - 48) as u8)
    } else if 97 <= u && u <= 102 {
        Some((u - 87) as u8)
    } else if 65 <= u && u <= 70 {
        Some((u - 55) as u8)
    } else {
        None
    }
}

fn dec_digit(c: char) -> (r: Option<u8>)
    ensures
        r is Some <==> dec_digit_val(c) >= 0,
        r is Some ==> r->0 == dec_digit_val(c),
{
    let u = c as u32;
    if 48 <= u && u <= 57 {
        Some((u - 48) as u8)
    } else {
        None
    }
}

/// Parse the suffix of `s` starting at `from` as hexadecimal.
pub fn parse_hex_from(s: &str, from: usize) -> (r: Option<u64>)
    requires
        from <= s@.len(),
    ensures
        r == parse_hex_spec(s@.skip(from as int)),
{
    let ghost t = s@.skip(from as int);
    let n = s.unicode_len();
    if from == n {
        return None;
    }
    let mut acc: u64 = 0;
    let mut i: usize = from;
    while i < n
        invariant
            from <= i <= n,
            from < n,
            n == s@.len(),
            t == s@.skip(from as int),
            all_hex(t.take(i - from)),
            acc == hex_value(t.take(i - from)),
        decreases n - i,
    {
        let c = s.get_char(i);
        proof {
            assert(t[i - from] == s@[i as int]);
        }
        match hex_digit(c) {
            None => {
                proof {
                    assert(!all_hex(t));
                }
                return None;
            },
            Some(d) => {
                let ghost p = t.take(i - from);
                let ghost q = t.take(i - from + 1);
                proof {
                    assert(q.drop_last() =~= p);
                    assert(q.last() == t[i - from]);
                    assert(all_hex(q)) by {
                        assert(forall|k: int| 0 <= k < q.len() ==> q[k] == #[trigger] t[k]);
                    }
                }
                let m = match acc.checked_mul(16) {
                    Some(m) => m,
                    None => {
                        proof {
                            lemma_overflow_hex(t, i - from);
                        }
                        return None;
                    },
                };
                let v = match m.checked_add(d as u64) {
                    Some(v) => v,
                    None => {
                        proof {
                            lemma_overflow_hex(t, i - from);
                        }
                        return None;
                    },
                };
                acc = v;
            },
        }
        i = i + 1;
    }
    proof {
        assert(t.take(n - from) =~= t);
    }
    Some(acc)
}

/// If extending a valid prefix by one digit passes `u64::MAX`, the whole
/// string cannot parse.
proof fn lemma_overflow_hex(t: Seq<char>, j: int)
    requires
        0 <= j < t.len(),
        all_hex(t.take(j)),
        hex_digit_val(t[j]) >= 0,
        hex_value(t.take(j)) * 16 + hex_digit_val(t[j]) > u64::MAX,
    ensures
        parse_hex_spec(t) is None,
{
    if all_hex(t) {
        let q = t.take(j + 1);
        assert(q.drop_last() =~= t.take(j));
        assert(q.last() == t[j]);
        assert(hex_value(q) > u64::MAX);
        lemma_hex_prefix_le(t, j + 1);
    }
}

pub fn parse_hex_u64(s: &str) -> (r: Option<u64>)
    ensures
        r == parse_hex_spec(s@),
{
    let r = parse_hex_from(s, 0);
    proof {
        assert(s@.skip(0) =~= s@);
    }
    r
}

/// Parse the suffix of `s` starting at `from` as decimal.
pub fn parse_dec_from(s: &str, from: usize) -> (r: Option<u64>)
    requires
        from <= s@.len(),
    ensures
        r == parse_dec_spec(s@.skip(from as int)),
{
    let ghost t = s@.skip(from as int);
    let n = s.unicode_len();
    if from == n {
        return None;
    }
    let mut acc: u64 = 0;
    let mut i: usize = from;
    while i < n
        invariant
            from <= i <= n,
            from < n,
            n == s@.len(),
            t == s@.skip(from as int),
            all_dec(t.take(i - from)),
            acc == dec_value(t.take(i - from)),
        decreases n - i,
    {
        let c = s.get_char(i);
        proof {
            assert(t[i - from] == s@[i as int]);
        }
        match dec_digit(c) {
            None => {
                proof {
                    assert(!all_dec(t));
                }
                return None;
            },
            Some(d) => {
                let ghost p = t.take(i - from);
                let ghost q = t.take(i - from + 1);
                proof {
                    assert(q.drop_last() =~= p);
                    assert(q.last() == t[i - from]);
                    assert(all_dec(q)) by {
                        assert(forall|k: int| 0 <= k < q.len() ==> q[k] == #[trigger] t[k]);
                    }
                }
                let m = match acc.checked_mul(10) {
                    Some(m) => m,
                    None => {
                        proof {
                            lemma_overflow_dec(t, i - from);
                        }
                        return None;
                    },
                };
                let v = match m.checked_add(d as u64) {
                    Some(v) => v,
                    None => {
                        proof {
                            lemma_overflow_dec(t, i - from);
                        }
                        return None;
                    },
                };
                acc = v;
            },
        }
        i = i + 1;
    }
    proof {
        assert(t.take(n - from) =~= t);
    }
    Some(acc)
}

proof fn lemma_overflow_dec(t: Seq<char>, j: int)
    requires
        0 <= j < t.len(),
        all_dec(t.take(j)),
        dec_digit_val(t[j]) >= 0,
        dec_value(t.take(j)) * 10 + dec_digit_val(t[j]) > u64::MAX,
    ensures
        parse_dec_spec(t) is None,
{
    if all_dec(t) {
        let q = t.take(j + 1);
        assert(q.drop_last() =~= t.take(j));
        assert(q.last() == t[j]);
        assert(dec_value(q) > u64::MAX);
        lemma_dec_prefix_le(t, j + 1);
    }
}

pub fn parse_dec_u64(s: &str) -> (r: Option<u64>)
    ensures
        r == parse_dec_spec(s@),
{
    let r = parse_dec_from(s, 0);
    proof {
        assert(s@.skip(0) =~= s@);
    }
    r
}

} // verus!
