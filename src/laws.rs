use vstd::prelude::*;

use crate::gcode::{
    command_text, first_text, gcode_items, gcode_text, key_values, kv_word, kv_words, nat_digits, opt_bytes,
};
use crate::mnemonic::{spec_letter, spec_mnemonic_of, Mnemonic};
use crate::parse_args::{args_at, key_value_at, kv_items, kv_step, paren_items, text_at, text_end, value_pred};
use crate::parse_command::{command_at, lemma_uint_at, line_number_at};
use crate::parse_comments::paren_at;
use crate::parse_gcode::{is_string_arg_command, line_at};
use crate::scan::{
    digit_pred, digits_value, in_line_pred, is_alpha, is_decimal, is_digit, is_space, lemma_scan,
    lemma_scan_exact, scan, space_pred, to_upper, uint_at,
};
use crate::{ArgV, GCodeV, ItemV, LineV};

verus! {

/// A line of spaces and tabs, optionally ended by a single newline, is no
/// line at all, and parsing it consumes all of it.
pub proof fn lemma_blank_line(w: Seq<u8>, tail: Seq<u8>)
    requires
        forall|k: int| 0 <= k < w.len() ==> is_space(#[trigger] w[k]),
        tail.len() == 0 || tail == seq!['\n' as u8],
    ensures
        line_at(w + tail) == Ok::<_, crate::ErrorKind>(((w + tail).len() as int, None::<LineV>)),
{
    let s = w + tail;
    assert forall|k: int| 0 <= k < w.len() implies #[trigger] space_pred()(s[k]) by {
        assert(s[k] == w[k]);
    }
    if tail.len() > 0 {
        assert(s[w.len() as int] == '\n' as u8);
    }
    lemma_scan_exact(s, 0, w.len() as int, space_pred());
}

/// A line whose first byte after spaces and tabs is `%` is a file demarcator,
/// whatever follows on the line; parsing stops at the line's end.
pub proof fn lemma_demarcator(w: Seq<u8>, t: Seq<u8>)
    requires
        forall|k: int| 0 <= k < w.len() ==> is_space(#[trigger] w[k]),
    ensures
        line_at(w + seq!['%' as u8] + t) == Ok::<_, crate::ErrorKind>((
            scan(w + seq!['%' as u8] + t, w.len() as int + 1, in_line_pred()),
            Some(LineV::FileDemarcator),
        )),
{
    let s = w + seq!['%' as u8] + t;
    assert forall|k: int| 0 <= k < w.len() implies #[trigger] space_pred()(s[k]) by {
        assert(s[k] == w[k]);
    }
    assert(s[w.len() as int] == '%' as u8);
    lemma_scan_exact(s, 0, w.len() as int, space_pred());
}

proof fn lemma_kv_items_bounds(s: Seq<u8>, i: int)
    requires
        0 <= i <= s.len(),
    ensures
        kv_items(s, i) matches Ok((_, f)) ==> i <= f <= s.len(),
    decreases s.len() - i,
{
    if let Ok(Some((_, e))) = kv_step(s, i) {
        if 0 <= i < e <= s.len() {
            lemma_kv_items_bounds(s, e);
        }
    }
}

proof fn lemma_paren_items_bounds(s: Seq<u8>, i: int)
    requires
        0 <= i <= s.len(),
    ensures
        paren_items(s, i) matches Ok((_, f)) ==> i <= f <= s.len(),
    decreases s.len() - i,
{
    let j = scan(s, i, space_pred());
    if 0 <= i <= j < s.len() && s[j] == ('(' as u8) {
        if let Some((_, e)) = paren_at(s, j) {
            if i < e <= s.len() {
                lemma_paren_items_bounds(s, e);
            }
        }
    }
}

proof fn lemma_text_end_bounds(s: Seq<u8>, k: int)
    requires
        0 <= k <= s.len(),
    ensures
        text_end(s, k) matches Some(t) ==> k <= t <= s.len(),
    decreases s.len() - k,
{
    if k < s.len() {
        lemma_text_end_bounds(s, k + 1);
        if k + 1 < s.len() {
            lemma_text_end_bounds(s, k + 2);
        }
    }
}

/// Where an argument list stops lies between its start and the line's end.
pub proof fn lemma_args_bounds(s: Seq<u8>, i: int, string_mode: bool)
    requires
        0 <= i <= s.len(),
    ensures
        args_at(s, i, string_mode) matches Ok((_, e)) ==> i <= e <= s.len(),
{
    if string_mode {
        lemma_paren_items_bounds(s, i);
        if let Ok((_, i1)) = paren_items(s, i) {
            lemma_scan(s, i1, space_pred());
            lemma_text_end_bounds(s, scan(s, i1, space_pred()));
            if let Ok(t) = text_at(s, i1) {
                let i2 = match t {
                    Some((_, e)) => e,
                    None => i1,
                };
                lemma_paren_items_bounds(s, i2);
                if let Ok((_, i3)) = paren_items(s, i2) {
                    lemma_scan(s, i3, space_pred());
                    let j = scan(s, i3, space_pred());
                    if j < s.len() {
                        lemma_scan(s, j + 1, in_line_pred());
                    }
                }
            }
        }
    } else {
        lemma_kv_items_bounds(s, i);
    }
}

/// A command header that parses ends after its start and within the line.
pub proof fn lemma_command_bounds(s: Seq<u8>, i: int)
    requires
        0 <= i <= s.len(),
    ensures
        command_at(s, i) matches Some((_, f)) ==> i < f <= s.len(),
{
    if i < s.len() {
        lemma_uint_at(s, i + 1, u32::MAX as nat);
        if let Some((_, d)) = crate::scan::uint_at(s, i + 1, u32::MAX as nat) {
            lemma_scan(s, d, space_pred());
        }
    }
    let j = match line_number_at(s, i) {
        Some((_, w)) => w,
        None => i,
    };
    if 0 <= j < s.len() {
        lemma_uint_at(s, j + 1, u32::MAX as nat);
        if let Some((_, d)) = crate::scan::uint_at(s, j + 1, u32::MAX as nat) {
            if d < s.len() {
                lemma_uint_at(s, d + 1, u32::MAX as nat);
            }
        }
    }
}

/// Parsing never reads past the line, and on a non-empty line every success
/// consumes at least one byte; so parsing a line, then what is left of it,
/// and so on, comes to an end.
pub proof fn lemma_line_progress(s: Seq<u8>)
    ensures
        line_at(s) matches Ok((e, _)) ==> 0 <= e <= s.len() && (s.len() > 0 ==> e > 0),
{
    lemma_scan(s, 0, space_pred());
    let i = scan(s, 0, space_pred());
    if i < s.len() {
        lemma_scan(s, i + 1, in_line_pred());
        lemma_command_bounds(s, i);
        if let Some((h, j)) = command_at(s, i) {
            lemma_args_bounds(s, j, crate::parse_gcode::is_string_arg_command(h.mnemonic, h.major, h.minor));
        }
    }
}

proof fn lemma_nat_digits(n: nat)
    ensures
        nat_digits(n).len() >= 1,
        forall|k: int| 0 <= k < nat_digits(n).len() ==> is_digit(#[trigger] nat_digits(n)[k]),
        digits_value(nat_digits(n)) == n,
    decreases n,
{
    if n < 10 {
        assert(nat_digits(n).drop_last() =~= Seq::<u8>::empty());
        assert(nat_digits(n).last() == (('0' as u8) + n) as u8);
        assert(digits_value(Seq::<u8>::empty()) == 0);
        assert(digits_value(nat_digits(n)) == digits_value(nat_digits(n).drop_last()) * 10
            + (nat_digits(n).last() - ('0' as u8)) as nat);
    } else {
        lemma_nat_digits(n / 10);
        assert(nat_digits(n).drop_last() =~= nat_digits(n / 10));
        assert(nat_digits(n).last() == (('0' as u8) + n % 10) as u8);
        vstd::arithmetic::div_mod::lemma_fundamental_div_mod(n as int, 10);
        assert(digits_value(nat_digits(n)) == digits_value(nat_digits(n).drop_last()) * 10
            + (nat_digits(n).last() - ('0' as u8)) as nat);
    }
}

/// The digits of `n` written at `i`, followed by a non-digit or the end,
/// read back as `n`.
proof fn lemma_uint_at_digits(s: Seq<u8>, i: int, n: nat, max: nat)
    requires
        0 <= i,
        i + nat_digits(n).len() <= s.len(),
        s.subrange(i, i + nat_digits(n).len()) == nat_digits(n),
        i + nat_digits(n).len() == s.len() || !is_digit(s[i + nat_digits(n).len()]),
        n <= max,
    ensures
        uint_at(s, i, max) == Some((n, i + nat_digits(n).len())),
{
    let d = nat_digits(n);
    lemma_nat_digits(n);
    assert forall|k: int| i <= k < i + d.len() implies #[trigger] digit_pred()(s[k]) by {
        assert(s[k] == s.subrange(i, i + d.len())[k - i]);
    }
    lemma_scan_exact(s, i, i + d.len(), digit_pred());
}

/// The bytes a decimal number is made of.
pub open spec fn is_decimal_byte(b: u8) -> bool {
    is_digit(b) || b == ('+' as u8) || b == ('-' as u8) || b == ('.' as u8)
}

proof fn lemma_decimal_bytes(t: Seq<u8>)
    requires
        is_decimal(t),
    ensures
        t.len() > 0,
        forall|k: int| 0 <= k < t.len() ==> is_decimal_byte(#[trigger] t[k]),
{
    let u: int = if t.len() > 0 && (t[0] == ('+' as u8) || t[0] == ('-' as u8)) { 1 } else { 0 };
    lemma_scan(t, u, digit_pred());
    let d = scan(t, u, digit_pred());
    if d < t.len() {
        lemma_scan(t, d + 1, digit_pred());
    }
    assert forall|k: int| 0 <= k < t.len() implies is_decimal_byte(#[trigger] t[k]) by {
        if k >= u && k < d {
            assert(digit_pred()(t[k]));
        } else if k > d {
            assert(digit_pred()(t[k]));
        }
    }
}

proof fn lemma_char_of_byte(l: u8, c: char)
    requires
        l as u32 == c as u32,
    ensures
        (l as char) == c,
{
}

/// A key/value argument that writes out and reads back unchanged: an
/// upper-case letter and, if it has one, a decimal value.
pub open spec fn is_plain_kv(kv: (char, Option<Seq<u8>>)) -> bool {
    ('A' as u32) <= (kv.0 as u32) <= ('Z' as u32) && (kv.1 matches Some(v) ==> is_decimal(v))
}

pub open spec fn kv_item(kv: (char, Option<Seq<u8>>)) -> Seq<ItemV> {
    seq![ItemV::Arg(ArgV::KeyValue(kv))]
}

/// Key/value arguments as the items of a command.
pub open spec fn kv_items_of(kvs: Seq<(char, Option<Seq<u8>>)>) -> Seq<ItemV>
    decreases kvs.len(),
{
    if kvs.len() == 0 {
        Seq::empty()
    } else {
        kv_item(kvs[0]) + kv_items_of(kvs.drop_first())
    }
}

proof fn lemma_kv_items_words(s: Seq<u8>, p: int, kvs: Seq<(char, Option<Seq<u8>>)>)
    requires
        0 <= p <= s.len(),
        s.subrange(p, s.len() as int) == kv_words(kvs),
        forall|k: int| 0 <= k < kvs.len() ==> is_plain_kv(#[trigger] kvs[k]),
    ensures
        kv_items(s, p) == Ok::<_, crate::ErrorKind>((kv_items_of(kvs), s.len() as int)),
    decreases kvs.len(),
{
    if kvs.len() == 0 {
        assert(kv_words(kvs) == Seq::<u8>::empty());
        assert(s.subrange(p, s.len() as int).len() == 0);
        lemma_scan_exact(s, p, p, space_pred());
    } else {
        let kv = kvs[0];
        assert(is_plain_kv(kv));
        let v = opt_bytes(kv.1);
        let q = p + 2 + v.len();
        let rest = kvs.drop_first();
        let w = s.subrange(p, s.len() as int);
        assert(w == kv_word(kv) + kv_words(rest));
        assert(s[p] == w[0]);
        assert(s[p + 1] == w[1]);
        let l = (kv.0 as u32) as u8;
        assert(s[p + 1] == l);
        assert(s.subrange(q, s.len() as int) =~= kv_words(rest)) by {
            assert forall|k: int| 0 <= k < s.len() - q implies s.subrange(q, s.len() as int)[k] == kv_words(rest)[k] by {
                assert(s[q + k] == w[q + k - p]);
            }
        }
        assert(s.subrange(p + 2, q) =~= v) by {
            assert forall|k: int| 0 <= k < v.len() implies s.subrange(p + 2, q)[k] == v[k] by {
                assert(s[p + 2 + k] == w[2 + k]);
            }
        }
        // the space before the letter, then the letter
        lemma_scan_exact(s, p, p + 1, space_pred());
        // the value runs up to the next word's space or the end
        if kv.1 is Some {
            lemma_decimal_bytes(v);
        }
        assert forall|k: int| p + 2 <= k < q implies #[trigger] value_pred()(s[k]) by {
            assert(s[k] == v[k - (p + 2)]);
            assert(is_decimal_byte(v[k - (p + 2)]));
        }
        if q < s.len() {
            assert(rest.len() > 0);
            assert(s[q] == kv_words(rest)[0]);
            assert(kv_words(rest) == kv_word(rest[0]) + kv_words(rest.drop_first()));
        }
        lemma_scan_exact(s, p + 2, q, value_pred());
        assert(to_upper(l) == l);
        lemma_char_of_byte(l, kv.0);
        assert(key_value_at(s, p + 1) == Some((ArgV::KeyValue(kv), q)));
        assert(kv_step(s, p) == Ok::<_, crate::ErrorKind>(Some((ItemV::Arg(ArgV::KeyValue(kv)), q))));
        assert forall|k: int| 0 <= k < rest.len() implies is_plain_kv(#[trigger] rest[k]) by {
            assert(rest[k] == kvs[k + 1]);
        }
        lemma_kv_items_words(s, q, rest);
    }
}

proof fn lemma_key_values_of(kvs: Seq<(char, Option<Seq<u8>>)>)
    ensures
        key_values(kv_items_of(kvs)) == kvs,
        first_text(kv_items_of(kvs)) is None,
        kv_items_of(kvs).len() == kvs.len(),
    decreases kvs.len(),
{
    if kvs.len() > 0 {
        let kv = kvs[0];
        assert((kv_item(kv) + kv_items_of(kvs.drop_first())).drop_first() =~= kv_items_of(kvs.drop_first()));
        assert((kv_item(kv) + kv_items_of(kvs.drop_first()))[0] == ItemV::Arg(ArgV::KeyValue(kv)));
        lemma_key_values_of(kvs.drop_first());
        assert(kvs =~= seq![kvs[0]] + kvs.drop_first());
    } else {
        assert(kvs =~= Seq::<(char, Option<Seq<u8>>)>::empty());
    }
}

/// Writing out a command with plain key/value arguments, then parsing it,
/// gives back the same command: mnemonic, major, minor and arguments in order.
pub proof fn lemma_round_trip(m: Mnemonic, major: u32, minor: u32, kvs: Seq<(char, Option<Seq<u8>>)>)
    requires
        !is_string_arg_command(m, major, minor),
        forall|k: int| 0 <= k < kvs.len() ==> is_plain_kv(#[trigger] kvs[k]),
    ensures
        line_at(command_text(m, major, minor, kvs)) == Ok::<_, crate::ErrorKind>((
            command_text(m, major, minor, kvs).len() as int,
            Some(LineV::GCode(GCodeV {
                line_number: None,
                mnemonic: m,
                major,
                minor,
                items: if kvs.len() == 0 { None } else { Some(kv_items_of(kvs)) },
            })),
        )),
        key_values(kv_items_of(kvs)) == kvs,
{
    let s = command_text(m, major, minor, kvs);
    let d1 = nat_digits(major as nat);
    let d2 = nat_digits(minor as nat);
    let w = kv_words(kvs);
    lemma_nat_digits(major as nat);
    lemma_nat_digits(minor as nat);
    let b: int = 1 + d1.len() as int;
    let c: int = b + 1;
    let h: int = c + d2.len() as int;
    assert(s.len() == h + w.len());
    assert(s[0] == spec_letter(m));
    assert(s[b] == ('.' as u8));
    assert(s.subrange(1, b) =~= d1);
    assert(s.subrange(c, h) =~= d2);
    assert(s.subrange(h, s.len() as int) =~= w);
    if h < s.len() {
        assert(kvs.len() > 0);
        assert(w == kv_word(kvs[0]) + kv_words(kvs.drop_first()));
        assert(s[h] == w[0]);
    }
    lemma_scan_exact(s, 0, 0, space_pred());
    assert(line_number_at(s, 0) is None);
    assert(spec_mnemonic_of(s[0]) == Some(m));
    lemma_uint_at_digits(s, 1, major as nat, u32::MAX as nat);
    lemma_uint_at_digits(s, c, minor as nat, u32::MAX as nat);
    lemma_kv_items_words(s, h, kvs);
    lemma_key_values_of(kvs);
}

/// An item that a key/value argument list can hold: a comment, or a plain
/// key/value argument.
pub open spec fn is_plain_item(it: ItemV) -> bool {
    match it {
        ItemV::Comment(_) => true,
        ItemV::Arg(ArgV::KeyValue(kv)) => is_plain_kv(kv),
        ItemV::Arg(ArgV::Text(_)) => false,
    }
}

proof fn lemma_kv_items_plain(s: Seq<u8>, i: int)
    requires
        0 <= i <= s.len(),
    ensures
        kv_items(s, i) matches Ok((items, _)) ==> forall|k: int| 0 <= k < items.len() ==> is_plain_item(#[trigger] items[k]),
    decreases s.len() - i,
{
    if let Ok(Some((it, e))) = kv_step(s, i) {
        if 0 <= i < e <= s.len() {
            lemma_kv_items_plain(s, e);
            let j = scan(s, i, space_pred());
            lemma_scan(s, i, space_pred());
            if j > i && key_value_at(s, j) is Some {
                let r = scan(s, j + 1, value_pred());
                let b = to_upper(s[j]);
                assert((b as char) as u32 == b as u32);
            }
            assert(is_plain_item(it));
            if let Ok((rest, _)) = kv_items(s, e) {
                let items = seq![it] + rest;
                assert forall|k: int| 0 <= k < items.len() implies is_plain_item(#[trigger] items[k]) by {
                    if k > 0 {
                        assert(items[k] == rest[k - 1]);
                    }
                }
            }
        }
    }
}

proof fn lemma_plain_items(items: Seq<ItemV>)
    requires
        forall|k: int| 0 <= k < items.len() ==> is_plain_item(#[trigger] items[k]),
    ensures
        first_text(items) is None,
        forall|k: int| 0 <= k < key_values(items).len() ==> is_plain_kv(#[trigger] key_values(items)[k]),
    decreases items.len(),
{
    if items.len() > 0 {
        let rest = items.drop_first();
        assert forall|k: int| 0 <= k < rest.len() implies is_plain_item(#[trigger] rest[k]) by {
            assert(rest[k] == items[k + 1]);
        }
        lemma_plain_items(rest);
        assert(is_plain_item(items[0]));
        let kvs = key_values(items);
        assert forall|k: int| 0 <= k < kvs.len() implies is_plain_kv(#[trigger] kvs[k]) by {
            if let ItemV::Arg(ArgV::KeyValue(kv)) = items[0] {
                if k > 0 {
                    assert(kvs[k] == key_values(rest)[k - 1]);
                }
            } else {
                assert(kvs[k] == key_values(rest)[k]);
            }
        }
    }
}

/// Parsing a command line, writing the command out and parsing that again
/// gives the same mnemonic, major, minor and key/value arguments, for every
/// command that takes key/value arguments.
pub proof fn lemma_parse_print_parse(s: Seq<u8>)
    requires
        line_at(s) matches Ok((_, Some(LineV::GCode(g))))
            && !is_string_arg_command(g.mnemonic, g.major, g.minor),
    ensures
        line_at(s) matches Ok((_, Some(LineV::GCode(g)))) && line_at(gcode_text(g)) matches Ok((e, Some(LineV::GCode(g2))))
            && e == gcode_text(g).len()
            && g2.line_number is None
            && g2.mnemonic == g.mnemonic
            && g2.major == g.major
            && g2.minor == g.minor
            && key_values(gcode_items(g2)) == key_values(gcode_items(g)),
{
    let g = line_at(s).unwrap().1.unwrap()->GCode_0;
    lemma_scan(s, 0, space_pred());
    let i = scan(s, 0, space_pred());
    lemma_command_bounds(s, i);
    let (h, j) = command_at(s, i).unwrap();
    lemma_kv_items_plain(s, j);
    let items = gcode_items(g);
    assert(forall|k: int| 0 <= k < items.len() ==> is_plain_item(#[trigger] items[k]));
    lemma_plain_items(items);
    let kvs = key_values(items);
    lemma_round_trip(g.mnemonic, g.major, g.minor, kvs);
    assert(gcode_text(g) =~= command_text(g.mnemonic, g.major, g.minor, kvs));
    if kvs.len() == 0 {
        assert(key_values(Seq::<ItemV>::empty()) == kvs);
    }
}

/// Two bytes that are equal, or letters that differ only in case (and are
/// not the line-number letter `N`).
pub open spec fn case_eq(a: u8, b: u8) -> bool {
    a == b || (is_alpha(a) && is_alpha(b) && to_upper(a) == to_upper(b) && to_upper(a) != ('N' as u8))
}

/// Two lines that differ only in the case of letters other than `N`.
pub open spec fn same_but_case(s: Seq<u8>, t: Seq<u8>) -> bool {
    s.len() == t.len() && forall|k: int| 0 <= k < s.len() ==> #[trigger] case_eq(s[k], t[k])
}

proof fn lemma_case_eq(a: u8, b: u8)
    requires
        case_eq(a, b),
    ensures
        !is_alpha(a) ==> a == b,
        !is_alpha(b) ==> a == b,
        space_pred()(a) == space_pred()(b),
        digit_pred()(a) == digit_pred()(b),
        in_line_pred()(a) == in_line_pred()(b),
        value_pred()(a) == value_pred()(b),
        is_alpha(a) == is_alpha(b),
        to_upper(a) == to_upper(b),
        spec_mnemonic_of(a) == spec_mnemonic_of(b),
        (a == ('N' as u8)) == (b == ('N' as u8)),
{
}

proof fn lemma_scan_same(s: Seq<u8>, t: Seq<u8>, i: int, p: spec_fn(u8) -> bool)
    requires
        0 <= i <= s.len(),
        s.len() == t.len(),
        forall|k: int| i <= k < s.len() ==> p(s[k]) == p(t[k]),
    ensures
        scan(s, i, p) == scan(t, i, p),
    decreases s.len() - i,
{
    if i < s.len() {
        lemma_scan_same(s, t, i + 1, p);
    }
}

proof fn lemma_scan_same_case(s: Seq<u8>, t: Seq<u8>, i: int)
    requires
        0 <= i <= s.len(),
        same_but_case(s, t),
    ensures
        scan(s, i, space_pred()) == scan(t, i, space_pred()),
        scan(s, i, digit_pred()) == scan(t, i, digit_pred()),
        scan(s, i, in_line_pred()) == scan(t, i, in_line_pred()),
        scan(s, i, value_pred()) == scan(t, i, value_pred()),
{
    assert forall|k: int| i <= k < s.len() implies space_pred()(s[k]) == space_pred()(t[k])
        && digit_pred()(s[k]) == digit_pred()(t[k]) && in_line_pred()(s[k]) == in_line_pred()(t[k])
        && value_pred()(s[k]) == value_pred()(t[k]) by {
        assert(case_eq(s[k], t[k]));
        lemma_case_eq(s[k], t[k]);
    }
    lemma_scan_same(s, t, i, space_pred());
    lemma_scan_same(s, t, i, digit_pred());
    lemma_scan_same(s, t, i, in_line_pred());
    lemma_scan_same(s, t, i, value_pred());
}

proof fn lemma_uint_same_case(s: Seq<u8>, t: Seq<u8>, i: int, max: nat)
    requires
        0 <= i <= s.len(),
        same_but_case(s, t),
    ensures
        uint_at(s, i, max) == uint_at(t, i, max),
{
    lemma_scan_same_case(s, t, i);
    lemma_scan(s, i, digit_pred());
    let d = scan(s, i, digit_pred());
    assert forall|k: int| i <= k < d implies s[k] == t[k] by {
        assert(digit_pred()(s[k]));
        assert(case_eq(s[k], t[k]));
        lemma_case_eq(s[k], t[k]);
    }
    assert(s.subrange(i, d) =~= t.subrange(i, d));
}

proof fn lemma_command_same_case(s: Seq<u8>, t: Seq<u8>, i: int)
    requires
        0 <= i <= s.len(),
        same_but_case(s, t),
    ensures
        command_at(s, i) == command_at(t, i),
{
    if i < s.len() {
        assert(case_eq(s[i], t[i]));
        lemma_case_eq(s[i], t[i]);
        lemma_uint_same_case(s, t, i + 1, u32::MAX as nat);
        lemma_uint_at(s, i + 1, u32::MAX as nat);
        if let Some((_, d)) = uint_at(s, i + 1, u32::MAX as nat) {
            lemma_scan_same_case(s, t, d);
        }
    }
    assert(line_number_at(s, i) == line_number_at(t, i));
    let j = match line_number_at(s, i) {
        Some((_, w)) => w,
        None => i,
    };
    if 0 <= j < s.len() {
        assert(case_eq(s[j], t[j]));
        lemma_case_eq(s[j], t[j]);
        lemma_uint_same_case(s, t, j + 1, u32::MAX as nat);
        lemma_uint_at(s, j + 1, u32::MAX as nat);
        if let Some((_, d)) = uint_at(s, j + 1, u32::MAX as nat) {
            if d < s.len() {
                assert(case_eq(s[d], t[d]));
                lemma_case_eq(s[d], t[d]);
                lemma_uint_same_case(s, t, d + 1, u32::MAX as nat);
            }
        }
    }
}

proof fn lemma_key_value_same_case(s: Seq<u8>, t: Seq<u8>, j: int)
    requires
        0 <= j < s.len(),
        same_but_case(s, t),
    ensures
        key_value_at(s, j) == key_value_at(t, j),
{
    assert(case_eq(s[j], t[j]));
    lemma_case_eq(s[j], t[j]);
    lemma_scan_same_case(s, t, j + 1);
    lemma_scan(s, j + 1, value_pred());
    let r = scan(s, j + 1, value_pred());
    let a = s.subrange(j + 1, r);
    let b = t.subrange(j + 1, r);
    if is_decimal(a) {
        lemma_decimal_bytes(a);
        assert forall|k: int| 0 <= k < a.len() implies a[k] == b[k] by {
            assert(is_decimal_byte(a[k]));
            assert(case_eq(s[j + 1 + k], t[j + 1 + k]));
            lemma_case_eq(s[j + 1 + k], t[j + 1 + k]);
        }
        assert(a =~= b);
    }
    if is_decimal(b) {
        lemma_decimal_bytes(b);
        assert forall|k: int| 0 <= k < a.len() implies a[k] == b[k] by {
            assert(is_decimal_byte(b[k]));
            assert(case_eq(s[j + 1 + k], t[j + 1 + k]));
            lemma_case_eq(s[j + 1 + k], t[j + 1 + k]);
        }
        assert(a =~= b);
    }
}

/// No byte of `s` from `i` on opens a comment.
pub open spec fn no_comment_from(s: Seq<u8>, i: int) -> bool {
    forall|k: int| i <= k < s.len() ==> #[trigger] s[k] != (';' as u8) && s[k] != ('(' as u8)
}

proof fn lemma_kv_items_same_case(s: Seq<u8>, t: Seq<u8>, i: int)
    requires
        0 <= i <= s.len(),
        same_but_case(s, t),
        no_comment_from(s, i),
    ensures
        kv_items(s, i) == kv_items(t, i),
    decreases s.len() - i,
{
    lemma_scan_same_case(s, t, i);
    lemma_scan(s, i, space_pred());
    let j = scan(s, i, space_pred());
    if j < s.len() {
        lemma_key_value_same_case(s, t, j);
        assert(case_eq(s[j], t[j]));
        lemma_case_eq(s[j], t[j]);
        assert(s[j] != (';' as u8) && s[j] != ('(' as u8));
    }
    assert(kv_step(s, i) == kv_step(t, i));
    if let Ok(Some((_, e))) = kv_step(s, i) {
        if 0 <= i < e <= s.len() {
            lemma_kv_items_same_case(s, t, e);
        }
    }
}

/// Argument letters and mnemonics may be written in either case: two command
/// lines without comments that differ only in the case of their letters
/// (other than a line number's `N`) parse to the same result.
pub proof fn lemma_case_insensitive(s: Seq<u8>, t: Seq<u8>)
    requires
        same_but_case(s, t),
        no_comment_from(s, 0),
        !(command_at(s, scan(s, 0, space_pred())) matches Some((h, _))
            && is_string_arg_command(h.mnemonic, h.major, h.minor)),
    ensures
        line_at(s) == line_at(t),
{
    lemma_scan_same_case(s, t, 0);
    lemma_scan(s, 0, space_pred());
    let i = scan(s, 0, space_pred());
    if i < s.len() {
        assert(case_eq(s[i], t[i]));
        lemma_case_eq(s[i], t[i]);
        lemma_scan_same_case(s, t, i + 1);
        lemma_command_same_case(s, t, i);
        lemma_command_bounds(s, i);
        if let Some((h, j)) = command_at(s, i) {
            lemma_kv_items_same_case(s, t, j);
        }
    }
}

/// A command line whose argument list opens a parenthesis comment that is
/// not closed on the line fails with the comment error, in either grammar.
pub proof fn lemma_unclosed_paren(s: Seq<u8>)
    requires
        scan(s, 0, space_pred()) < s.len(),
        command_at(s, scan(s, 0, space_pred())) matches Some((_, j)) && ({
            let k = scan(s, j, space_pred());
            k < s.len() && s[k] == ('(' as u8) && paren_at(s, k) is None
        }),
    ensures
        line_at(s) == Err::<(int, Option<LineV>), crate::ErrorKind>(crate::ErrorKind::Comment),
{
    lemma_scan(s, 0, space_pred());
    let i = scan(s, 0, space_pred());
    lemma_command_bounds(s, i);
    let (h, j) = command_at(s, i).unwrap();
    lemma_scan(s, j, space_pred());
    let k = scan(s, j, space_pred());
    assert(key_value_at(s, k) is None);
    assert(kv_step(s, j) == Err::<Option<(ItemV, int)>, crate::ErrorKind>(crate::ErrorKind::Comment));
    assert(paren_items(s, j) == Err::<(Seq<ItemV>, int), crate::ErrorKind>(crate::ErrorKind::Comment));
}

} // verus!
