use vstd::prelude::*;
use vstd::slice::slice_subrange;

use crate::scan::{
    is_decimal, is_decimal_text, is_line_end, is_u64_text, lemma_scan, lemma_scan_le, line_end,
    parse_u64_text, scan, skip_spaces, space_pred, in_line_pred, u64_text_value,
};
use crate::{Comment, Decimal, DocComment, DocV};

verus! {

/// Bytes that may stand inside a parenthesis comment.
pub open spec fn paren_body_pred() -> spec_fn(u8) -> bool {
    |b: u8| !is_line_end(b) && b != (')' as u8)
}

/// Bytes of a doc comment's key.
pub open spec fn key_pred() -> spec_fn(u8) -> bool {
    |b: u8| !is_line_end(b) && b != (':' as u8)
}

pub open spec fn not_m_pred() -> spec_fn(u8) -> bool {
    |b: u8| b != ('m' as u8)
}

/// A `;` comment at `i`: its body runs to the end of the line.
pub open spec fn semicolon_at(s: Seq<u8>, i: int) -> Option<(Seq<u8>, int)> {
    if 0 <= i < s.len() && s[i] == (';' as u8) {
        let e = scan(s, i + 1, in_line_pred());
        Some((s.subrange(i + 1, e), e))
    } else {
        None
    }
}

/// A `(...)` comment at `i`: a non-empty body on one line, closed by `)`.
pub open spec fn paren_at(s: Seq<u8>, i: int) -> Option<(Seq<u8>, int)> {
    if 0 <= i < s.len() && s[i] == ('(' as u8) {
        let e = scan(s, i + 1, paren_body_pred());
        if e > i + 1 && e < s.len() && s[e] == (')' as u8) {
            Some((s.subrange(i + 1, e), e + 1))
        } else {
            None
        }
    } else {
        None
    }
}

/// A comment of either syntax at `i`, `;` tried first.
pub open spec fn comment_at(s: Seq<u8>, i: int) -> Option<(Seq<u8>, int)> {
    match semicolon_at(s, i) {
        Some(r) => Some(r),
        None => paren_at(s, i),
    }
}

/// The decimal that precedes the first `m` of a filament length, and the
/// position after that `m`.
pub open spec fn filament_at(t: Seq<u8>) -> Option<(Seq<u8>, int)> {
    let m = scan(t, 0, not_m_pred());
    if m < t.len() && is_decimal(t.subrange(0, m)) {
        Some((t.subrange(0, m), m + 1))
    } else {
        None
    }
}

pub open spec fn flavor_key() -> Seq<u8> {
    seq!['F' as u8, 'L' as u8, 'A' as u8, 'V' as u8, 'O' as u8, 'R' as u8]
}

pub open spec fn time_key() -> Seq<u8> {
    seq!['T' as u8, 'I' as u8, 'M' as u8, 'E' as u8]
}

pub open spec fn filament_key() -> Seq<u8> {
    seq!['F' as u8, 'i' as u8, 'l' as u8, 'a' as u8, 'm' as u8, 'e' as u8, 'n' as u8, 't' as u8, ' ' as u8, 'u' as u8, 's' as u8, 'e' as u8, 'd' as u8]
}

pub open spec fn layer_key() -> Seq<u8> {
    seq!['L' as u8, 'a' as u8, 'y' as u8, 'e' as u8, 'r' as u8, ' ' as u8, 'h' as u8, 'e' as u8, 'i' as u8, 'g' as u8, 'h' as u8, 't' as u8]
}

fn is_flavor_key(k: &[u8]) -> (r: bool)
    ensures
        r == (k@ == flavor_key()),
{
    let r = k.len() == 6 && k[0] == ('F' as u8) && k[1] == ('L' as u8) && k[2] == ('A' as u8) && k[3] == ('V' as u8) && k[4] == ('O' as u8) && k[5] == ('R' as u8);
    proof {
        if r {
            assert(k@ =~= flavor_key());
        }
    }
    r
}

fn is_time_key(k: &[u8]) -> (r: bool)
    ensures
        r == (k@ == time_key()),
{
    let r = k.len() == 4 && k[0] == ('T' as u8) && k[1] == ('I' as u8) && k[2] == ('M' as u8) && k[3] == ('E' as u8);
    proof {
        if r {
            assert(k@ =~= time_key());
        }
    }
    r
}

fn is_filament_key(k: &[u8]) -> (r: bool)
    ensures
        r == (k@ == filament_key()),
{
    let r = k.len() == 13 && k[0] == ('F' as u8) && k[1] == ('i' as u8) && k[2] == ('l' as u8) && k[3] == ('a' as u8) && k[4] == ('m' as u8) && k[5] == ('e' as u8) && k[6] == ('n' as u8) && k[7] == ('t' as u8) && k[8] == (' ' as u8) && k[9] == ('u' as u8) && k[10] == ('s' as u8) && k[11] == ('e' as u8) && k[12] == ('d' as u8);
    proof {
        if r {
            assert(k@ =~= filament_key());
        }
    }
    r
}

fn is_layer_key(k: &[u8]) -> (r: bool)
    ensures
        r == (k@ == layer_key()),
{
    let r = k.len() == 12 && k[0] == ('L' as u8) && k[1] == ('a' as u8) && k[2] == ('y' as u8) && k[3] == ('e' as u8) && k[4] == ('r' as u8) && k[5] == (' ' as u8) && k[6] == ('h' as u8) && k[7] == ('e' as u8) && k[8] == ('i' as u8) && k[9] == ('g' as u8) && k[10] == ('h' as u8) && k[11] == ('t' as u8);
    proof {
        if r {
            assert(k@ =~= layer_key());
        }
    }
    r
}

/// The doc comment that a key and its value stand for, if the key is known and
/// the value well formed.
pub open spec fn doc_value(key: Seq<u8>, value: Seq<u8>) -> Option<DocV> {
    if key == flavor_key() {
        Some(DocV::GCodeFlavor(value))
    } else if key == time_key() {
        if is_u64_text(value) {
            Some(DocV::PrintTime(u64_text_value(value)))
        } else {
            None
        }
    } else if key == filament_key() {
        match filament_at(value) {
            Some((t, _)) => Some(DocV::FilamentUsed(t)),
            None => None,
        }
    } else if key == layer_key() {
        if is_decimal(value) {
            Some(DocV::LayerHeight(value))
        } else {
            None
        }
    } else {
        None
    }
}

/// A `;KEY: VALUE` comment at `i` with a recognised key; it ends with the line.
pub open spec fn doc_at(s: Seq<u8>, i: int) -> Option<(DocV, int)> {
    if 0 <= i < s.len() && s[i] == (';' as u8) {
        let e = scan(s, i + 1, in_line_pred());
        let c = scan(s, i + 1, key_pred());
        if c < e {
            let v = scan(s, c + 1, space_pred());
            match doc_value(s.subrange(i + 1, c), s.subrange(v, e)) {
                Some(d) => Some((d, e)),
                None => None,
            }
        } else {
            None
        }
    } else {
        None
    }
}

pub fn semicolon_comment_at<'r>(s: &'r [u8], i: usize) -> (r: Option<(&'r [u8], usize)>)
    requires
        i <= s@.len(),
    ensures
        match r {
            Some((body, e)) => semicolon_at(s@, i as int) == Some((body@, e as int)) && i < e <= s@.len(),
            None => semicolon_at(s@, i as int) is None,
        },
{
    if i < s.len() && s[i] == (';' as u8) {
        let e = line_end(s, i + 1);
        proof {
            lemma_scan(s@, i + 1, in_line_pred());
        }
        Some((slice_subrange(s, i + 1, e), e))
    } else {
        None
    }
}

pub fn paren_comment_at<'r>(s: &'r [u8], i: usize) -> (r: Option<(&'r [u8], usize)>)
    requires
        i <= s@.len(),
    ensures
        match r {
            Some((body, e)) => paren_at(s@, i as int) == Some((body@, e as int)) && i < e <= s@.len(),
            None => paren_at(s@, i as int) is None,
        },
{
    if i < s.len() && s[i] == ('(' as u8) {
        let mut e: usize = i + 1;
        while e < s.len() && !(s[e] == ('\n' as u8) || s[e] == ('\r' as u8) || s[e] == (')' as u8))
            invariant
                i < e <= s@.len(),
                scan(s@, e as int, paren_body_pred()) == scan(s@, i + 1, paren_body_pred()),
            decreases s@.len() - e,
        {
            e = e + 1;
        }
        if e > i + 1 && e < s.len() && s[e] == (')' as u8) {
            Some((slice_subrange(s, i + 1, e), e + 1))
        } else {
            None
        }
    } else {
        None
    }
}

pub fn comment_at_pos<'r>(s: &'r [u8], i: usize) -> (r: Option<(&'r [u8], usize)>)
    requires
        i <= s@.len(),
    ensures
        match r {
            Some((body, e)) => comment_at(s@, i as int) == Some((body@, e as int)) && i < e <= s@.len(),
            None => comment_at(s@, i as int) is None,
        },
{
    match semicolon_comment_at(s, i) {
        Some(r) => Some(r),
        None => paren_comment_at(s, i),
    }
}

/// Parses a `(...)` comment at the start of `input`: its body and what follows.
pub fn parentheses_comment<'r>(input: &'r [u8]) -> (r: Option<(&'r [u8], &'r [u8])>)
    ensures
        match r {
            Some((rest, body)) => paren_at(input@, 0) matches Some((b, e))
                && body@ == b && rest@ == input@.subrange(e, input@.len() as int),
            None => paren_at(input@, 0) is None,
        },
{
    match paren_comment_at(input, 0) {
        Some((body, e)) => Some((slice_subrange(input, e, input.len()), body)),
        None => None,
    }
}

/// Parses a `;` comment at the start of `input`: its body and what follows.
pub fn seimcolon_comment<'r>(input: &'r [u8]) -> (r: Option<(&'r [u8], &'r [u8])>)
    ensures
        match r {
            Some((rest, body)) => semicolon_at(input@, 0) matches Some((b, e))
                && body@ == b && rest@ == input@.subrange(e, input@.len() as int),
            None => semicolon_at(input@, 0) is None,
        },
{
    match semicolon_comment_at(input, 0) {
        Some((body, e)) => Some((slice_subrange(input, e, input.len()), body)),
        None => None,
    }
}

/// Parses a comment of either syntax at the start of `input`.
pub fn comment<'r>(input: &'r [u8]) -> (r: Option<(&'r [u8], Comment<'r>)>)
    ensures
        match r {
            Some((rest, c)) => comment_at(input@, 0) matches Some((b, e))
                && c.0@ == b && rest@ == input@.subrange(e, input@.len() as int),
            None => comment_at(input@, 0) is None,
        },
{
    match comment_at_pos(input, 0) {
        Some((body, e)) => Some((slice_subrange(input, e, input.len()), Comment(body))),
        None => None,
    }
}

/// Parses the decimal before the first `m` of a filament length.
pub fn filament_used<'r>(input: &'r [u8]) -> (r: Option<(&'r [u8], DocComment<'r>)>)
    ensures
        match r {
            Some((rest, d)) => filament_at(input@) matches Some((t, e))
                && d@ == DocV::FilamentUsed(t) && rest@ == input@.subrange(e, input@.len() as int),
            None => filament_at(input@) is None,
        },
{
    let mut m: usize = 0;
    while m < input.len() && input[m] != ('m' as u8)
        invariant
            m <= input@.len(),
            scan(input@, m as int, not_m_pred()) == scan(input@, 0, not_m_pred()),
        decreases input@.len() - m,
    {
        m = m + 1;
    }
    if m < input.len() {
        let t = slice_subrange(input, 0, m);
        if is_decimal_text(t) {
            return Some((slice_subrange(input, m + 1, input.len()), DocComment::FilamentUsed { meters: Decimal(t) }));
        }
    }
    None
}

fn doc_value_of<'r>(key: &'r [u8], value: &'r [u8]) -> (r: Option<DocComment<'r>>)
    ensures
        match r {
            Some(d) => doc_value(key@, value@) == Some(d@),
            None => doc_value(key@, value@) is None,
        },
{
    if is_flavor_key(key) {
        Some(DocComment::GCodeFlavor(value))
    } else if is_time_key(key) {
        match parse_u64_text(value) {
            Some(secs) => Some(DocComment::PrintTime(secs)),
            None => None,
        }
    } else if is_filament_key(key) {
        match filament_used(value) {
            Some((_, d)) => Some(d),
            None => None,
        }
    } else if is_layer_key(key) {
        if is_decimal_text(value) {
            Some(DocComment::LayerHeight { millis: Decimal(value) })
        } else {
            None
        }
    } else {
        None
    }
}

pub fn doc_comment_at<'r>(s: &'r [u8], i: usize) -> (r: Option<(DocComment<'r>, usize)>)
    requires
        i <= s@.len(),
    ensures
        match r {
            Some((d, e)) => doc_at(s@, i as int) == Some((d@, e as int)) && i < e <= s@.len(),
            None => doc_at(s@, i as int) is None,
        },
{
    if i < s.len() && s[i] == (';' as u8) {
        let e = line_end(s, i + 1);
        let mut c: usize = i + 1;
        while c < s.len() && !(s[c] == ('\n' as u8) || s[c] == ('\r' as u8) || s[c] == (':' as u8))
            invariant
                i < c <= s@.len(),
                scan(s@, c as int, key_pred()) == scan(s@, i + 1, key_pred()),
            decreases s@.len() - c,
        {
            c = c + 1;
        }
        proof {
            lemma_scan(s@, i + 1, in_line_pred());
            lemma_scan(s@, i + 1, key_pred());
        }
        if c < e {
            let v = skip_spaces(s, c + 1);
            proof {
                lemma_scan(s@, c + 1, space_pred());
                lemma_scan_le(s@, c + 1, space_pred(), e as int);
            }
            match doc_value_of(slice_subrange(s, i + 1, c), slice_subrange(s, v, e)) {
                Some(d) => Some((d, e)),
                None => None,
            }
        } else {
            None
        }
    } else {
        None
    }
}

/// Parses a recognised `;KEY: VALUE` doc comment at the start of `input`.
pub fn doc_comment<'r>(input: &'r [u8]) -> (r: Option<(&'r [u8], DocComment<'r>)>)
    ensures
        match r {
            Some((rest, d)) => doc_at(input@, 0) matches Some((dv, e))
                && d@ == dv && rest@ == input@.subrange(e, input@.len() as int),
            None => doc_at(input@, 0) is None,
        },
{
    match doc_comment_at(input, 0) {
        Some((d, e)) => Some((slice_subrange(input, e, input.len()), d)),
        None => None,
    }
}

/// Parenthesis comments standing one after another at `i`, with no space
/// between them, and the position after the last.
pub open spec fn paren_run(s: Seq<u8>, i: int) -> (Seq<Seq<u8>>, int)
    decreases s.len() - i,
{
    match paren_at(s, i) {
        Some((c, e)) => if 0 <= i < e <= s.len() {
            (seq![c] + paren_run(s, e).0, paren_run(s, e).1)
        } else {
            (Seq::empty(), i)
        },
        None => (Seq::empty(), i),
    }
}

pub open spec fn bodies_view(v: Seq<&[u8]>) -> Seq<Seq<u8>> {
    v.map_values(|c: &[u8]| c@)
}

/// The comments around a value, in source order; `None` when there are none.
pub struct WithComments<'r, O> {
    pub comments: Option<Vec<&'r [u8]>>,
    pub value: O,
}

pub open spec fn comments_view(c: Option<Vec<&[u8]>>) -> Option<Seq<Seq<u8>>> {
    match c {
        Some(v) => Some(bodies_view(v@)),
        None => None,
    }
}

fn paren_run_at<'r>(s: &'r [u8], i: usize) -> (r: (Vec<&'r [u8]>, usize))
    requires
        i <= s@.len(),
    ensures
        paren_run(s@, i as int) == (bodies_view(r.0@), r.1 as int),
        i <= r.1 <= s@.len(),
{
    let mut v: Vec<&'r [u8]> = Vec::new();
    let mut k: usize = i;
    assert(bodies_view(v@) + paren_run(s@, i as int).0 =~= paren_run(s@, i as int).0);
    loop
        invariant
            i <= k <= s@.len(),
            paren_run(s@, i as int) == (bodies_view(v@) + paren_run(s@, k as int).0, paren_run(s@, k as int).1),
        decreases s@.len() - k,
    {
        match paren_comment_at(s, k) {
            Some((c, e)) => {
                let ghost before = v@;
                v.push(c);
                assert(bodies_view(v@) =~= bodies_view(before).push(c@));
                assert(bodies_view(v@) + paren_run(s@, e as int).0 =~= bodies_view(before) + paren_run(s@, k as int).0);
                k = e;
            },
            None => {
                assert(bodies_view(v@) + paren_run(s@, k as int).0 =~= bodies_view(v@));
                return (v, k);
            },
        }
    }
}

/// Runs `parser` between two runs of parenthesis comments that stand right
/// before and right after the value, and gathers the comments.
pub fn with_parentheses_comments<'r, O, F>(parser: F, input: &'r [u8]) -> (r: Option<(&'r [u8], WithComments<'r, O>)>)
    where
        F: Fn(&'r [u8]) -> Option<(&'r [u8], O)>,
    requires
        forall|x: &'r [u8]| parser.requires((x,)),
    ensures
        match r {
            Some((rest, wc)) => exists|x: &'r [u8], mid: &'r [u8]|
                x@ == input@.subrange(paren_run(input@, 0).1, input@.len() as int)
                && #[trigger] parser.ensures((x,), Some((mid, wc.value)))
                && comments_view(wc.comments) == (if paren_run(input@, 0).0.len() + paren_run(mid@, 0).0.len() == 0 {
                    None
                } else {
                    Some(paren_run(input@, 0).0 + paren_run(mid@, 0).0)
                })
                && rest@ == mid@.subrange(paren_run(mid@, 0).1, mid@.len() as int),
            None => exists|x: &'r [u8]|
                x@ == input@.subrange(paren_run(input@, 0).1, input@.len() as int)
                && #[trigger] parser.ensures((x,), None::<(&'r [u8], O)>),
        },
{
    let (mut comments, p) = paren_run_at(input, 0);
    let x = slice_subrange(input, p, input.len());
    let res = parser(x);
    match res {
        Some((mid, value)) => {
            let (mut more, f) = paren_run_at(mid, 0);
            let ghost c1 = comments@;
            let ghost c2 = more@;
            comments.append(&mut more);
            assert(bodies_view(comments@) =~= bodies_view(c1) + bodies_view(c2));
            let comments = if comments.len() == 0 {
                None
            } else {
                Some(comments)
            };
            let rest = slice_subrange(mid, f, mid.len());
            let wc = WithComments { comments, value };
            assert(parser.ensures((x,), Some((mid, wc.value))));
            Some((rest, wc))
        },
        None => None,
    }
}

} // verus!
