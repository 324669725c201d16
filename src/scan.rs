use vstd::prelude::*;

verus! {

/// A horizontal whitespace byte: space or tab.
pub open spec fn is_space(b: u8) -> bool {
    b == (' ' as u8) || b == ('\t' as u8)
}

/// A byte that ends a line: line feed or carriage return.
pub open spec fn is_line_end(b: u8) -> bool {
    b == ('\n' as u8) || b == ('\r' as u8)
}

pub open spec fn is_digit(b: u8) -> bool {
    ('0' as u8) <= b && b <= ('9' as u8)
}

/// An ASCII letter.
pub open spec fn is_alpha(b: u8) -> bool {
    (('A' as u8) <= b && b <= ('Z' as u8)) || (('a' as u8) <= b && b <= ('z' as u8))
}

/// The upper-case form of an ASCII letter; other bytes are unchanged.
pub open spec fn to_upper(b: u8) -> u8 {
    if ('a' as u8) <= b && b <= ('z' as u8) {
        (b - 32) as u8
    } else {
        b
    }
}

pub open spec fn space_pred() -> spec_fn(u8) -> bool {
    |b: u8| is_space(b)
}

pub open spec fn digit_pred() -> spec_fn(u8) -> bool {
    |b: u8| is_digit(b)
}

/// Bytes that belong to the rest of a line.
pub open spec fn in_line_pred() -> spec_fn(u8) -> bool {
    |b: u8| !is_line_end(b)
}

/// The first position at or after `i` whose byte does not satisfy `p`
/// (the length of `s` when there is none).
pub open spec fn scan(s: Seq<u8>, i: int, p: spec_fn(u8) -> bool) -> int
    decreases s.len() - i,
{
    if 0 <= i < s.len() && p(s[i]) {
        scan(s, i + 1, p)
    } else {
        i
    }
}

pub proof fn lemma_scan(s: Seq<u8>, i: int, p: spec_fn(u8) -> bool)
    requires
        0 <= i <= s.len(),
    ensures
        i <= scan(s, i, p) <= s.len(),
        forall|k: int| i <= k < scan(s, i, p) ==> #[trigger] p(s[k]),
        scan(s, i, p) < s.len() ==> !p(s[scan(s, i, p)]),
    decreases s.len() - i,
{
    if i < s.len() && p(s[i]) {
        lemma_scan(s, i + 1, p);
    }
}

/// Scanning stops no later than a position whose byte fails `p`.
pub proof fn lemma_scan_le(s: Seq<u8>, i: int, p: spec_fn(u8) -> bool, k: int)
    requires
        0 <= i <= k <= s.len(),
        k == s.len() || !p(s[k]),
    ensures
        scan(s, i, p) <= k,
    decreases k - i,
{
    if i < k {
        if p(s[i]) {
            lemma_scan_le(s, i + 1, p, k);
        }
    }
}

/// Scanning stops exactly at `j` when every byte before it satisfies `p` and
/// the byte at `j` does not.
pub proof fn lemma_scan_exact(s: Seq<u8>, i: int, j: int, p: spec_fn(u8) -> bool)
    requires
        0 <= i <= j <= s.len(),
        forall|k: int| i <= k < j ==> #[trigger] p(s[k]),
        j == s.len() || !p(s[j]),
    ensures
        scan(s, i, p) == j,
    decreases j - i,
{
    if i < j {
        lemma_scan_exact(s, i + 1, j, p);
    }
}

/// Position of the first byte at or after `i` that is not a space or tab.
pub fn skip_spaces(s: &[u8], i: usize) -> (r: usize)
    requires
        i <= s@.len(),
    ensures
        r == scan(s@, i as int, space_pred()),
{
    let mut j: usize = i;
    while j < s.len() && (s[j] == (' ' as u8) || s[j] == ('\t' as u8))
        invariant
            i <= j <= s@.len(),
            scan(s@, j as int, space_pred()) == scan(s@, i as int, space_pred()),
        decreases s@.len() - j,
    {
        j = j + 1;
    }
    j
}

/// Position of the first line ending at or after `i`, or the length.
pub fn line_end(s: &[u8], i: usize) -> (r: usize)
    requires
        i <= s@.len(),
    ensures
        r == scan(s@, i as int, in_line_pred()),
{
    let mut j: usize = i;
    while j < s.len() && !(s[j] == ('\n' as u8) || s[j] == ('\r' as u8))
        invariant
            i <= j <= s@.len(),
            scan(s@, j as int, in_line_pred()) == scan(s@, i as int, in_line_pred()),
        decreases s@.len() - j,
    {
        j = j + 1;
    }
    j
}

/// Position of the first non-digit at or after `i`, or the length.
pub fn digits_end(s: &[u8], i: usize) -> (r: usize)
    requires
        i <= s@.len(),
    ensures
        r == scan(s@, i as int, digit_pred()),
{
    let mut j: usize = i;
    while j < s.len() && ('0' as u8) <= s[j] && s[j] <= ('9' as u8)
        invariant
            i <= j <= s@.len(),
            scan(s@, j as int, digit_pred()) == scan(s@, i as int, digit_pred()),
        decreases s@.len() - j,
    {
        j = j + 1;
    }
    j
}

/// The value of a string of decimal digits.
pub open spec fn digits_value(t: Seq<u8>) -> nat
    decreases t.len(),
{
    if t.len() == 0 {
        0
    } else {
        digits_value(t.drop_last()) * 10 + (t.last() - ('0' as u8)) as nat
    }
}

/// A prefix of a digit string is worth no more than the whole.
pub proof fn lemma_digits_value_prefix(t: Seq<u8>, k: int)
    requires
        0 <= k <= t.len(),
        forall|j: int| 0 <= j < t.len() ==> is_digit(#[trigger] t[j]),
    ensures
        digits_value(t.subrange(0, k)) <= digits_value(t),
    decreases t.len(),
{
    if k < t.len() {
        assert(t.drop_last().subrange(0, k) =~= t.subrange(0, k));
        lemma_digits_value_prefix(t.drop_last(), k);
    } else {
        assert(t.subrange(0, k) =~= t);
    }
}

/// An unsigned integer written at `i` as a maximal run of digits, when there is
/// at least one digit and its value is at most `max`; with the position after it.
pub open spec fn uint_at(s: Seq<u8>, i: int, max: nat) -> Option<(nat, int)> {
    let d = scan(s, i, digit_pred());
    if d > i && digits_value(s.subrange(i, d)) <= max {
        Some((digits_value(s.subrange(i, d)), d))
    } else {
        None
    }
}

/// Reads the maximal run of digits at `i` as an integer no larger than `max`.
pub fn parse_uint(s: &[u8], i: usize, max: u64) -> (r: Option<(u64, usize)>)
    requires
        i <= s@.len(),
    ensures
        match r {
            Some((v, e)) => uint_at(s@, i as int, max as nat) == Some((v as nat, e as int)),
            None => uint_at(s@, i as int, max as nat) is None,
        },
{
    let d = digits_end(s, i);
    proof {
        lemma_scan(s@, i as int, digit_pred());
    }
    if d == i {
        return None;
    }
    let ghost t = s@.subrange(i as int, d as int);
    assert forall|j: int| 0 <= j < t.len() implies is_digit(#[trigger] t[j]) by {
        assert(digit_pred()(s@[i + j]));
    }
    let mut v: u128 = 0;
    let mut k: usize = i;
    while k < d
        invariant
            i < d,
            i <= k <= d,
            d <= s@.len(),
            d == scan(s@, i as int, digit_pred()),
            t == s@.subrange(i as int, d as int),
            forall|j: int| 0 <= j < t.len() ==> is_digit(#[trigger] t[j]),
            v == digits_value(s@.subrange(i as int, k as int)),
            v <= max,
        decreases d - k,
    {
        assert(is_digit(t[k - i]));
        let dig = (s[k] - ('0' as u8)) as u128;
        let nv = v * 10 + dig;
        proof {
            assert(s@.subrange(i as int, k + 1).drop_last() =~= s@.subrange(i as int, k as int));
            assert(t.subrange(0, k + 1 - i) =~= s@.subrange(i as int, k + 1));
            assert(s@.subrange(i as int, k + 1).last() == s@[k as int]);
            assert(nv == digits_value(s@.subrange(i as int, k + 1)));
        }
        if nv > max as u128 {
            proof {
                lemma_digits_value_prefix(t, k + 1 - i);
                assert(digits_value(t) > max);
            }
            return None;
        }
        v = nv;
        k = k + 1;
    }
    Some((v as u64, d))
}

/// A signed decimal number: an optional sign, then digits with at most one
/// decimal point among them, and at least one digit.
pub open spec fn is_decimal(t: Seq<u8>) -> bool {
    let u: int = if t.len() > 0 && (t[0] == ('+' as u8) || t[0] == ('-' as u8)) { 1 } else { 0 };
    let d = scan(t, u, digit_pred());
    if d == t.len() {
        d > u
    } else {
        t[d] == ('.' as u8) && scan(t, d + 1, digit_pred()) == t.len() && (d > u || t.len() > d + 1)
    }
}

/// Whether the bytes form a signed decimal number.
pub fn is_decimal_text(t: &[u8]) -> (r: bool)
    ensures
        r == is_decimal(t@),
{
    let u: usize = if t.len() > 0 && (t[0] == ('+' as u8) || t[0] == ('-' as u8)) { 1 } else { 0 };
    let d = digits_end(t, u);
    proof {
        lemma_scan(t@, u as int, digit_pred());
    }
    if d == t.len() {
        d > u
    } else if t[d] == ('.' as u8) {
        let d2 = digits_end(t, d + 1);
        d2 == t.len() && (d > u || t.len() > d + 1)
    } else {
        false
    }
}

/// Text that std's unsigned parser accepts: an optional `+`, then only digits,
/// at least one, with a value that fits in a `u64`.
pub open spec fn is_u64_text(t: Seq<u8>) -> bool {
    let u: int = if t.len() > 0 && t[0] == ('+' as u8) { 1 } else { 0 };
    uint_at(t, u, u64::MAX as nat) matches Some((_, e)) && e == t.len()
}

pub open spec fn u64_text_value(t: Seq<u8>) -> nat {
    let u: int = if t.len() > 0 && t[0] == ('+' as u8) { 1 } else { 0 };
    digits_value(t.subrange(u, t.len() as int))
}

/// Reads the whole of `t` as an unsigned 64-bit integer.
pub fn parse_u64_text(t: &[u8]) -> (r: Option<u64>)
    ensures
        r is Some <==> is_u64_text(t@),
        r matches Some(v) ==> v as nat == u64_text_value(t@),
{
    let u: usize = if t.len() > 0 && t[0] == ('+' as u8) { 1 } else { 0 };
    match parse_uint(t, u, u64::MAX) {
        Some((v, e)) => {
            if e == t.len() {
                Some(v)
            } else {
                None
            }
        },
        None => None,
    }
}

} // verus!
