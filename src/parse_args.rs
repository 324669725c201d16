use vstd::prelude::*;
use vstd::slice::slice_subrange;

use crate::parse_comments::{comment_at, comment_at_pos, paren_at, paren_comment_at, semicolon_at, semicolon_comment_at};
use crate::scan::{
    is_alpha, is_decimal, is_decimal_text, is_line_end, is_space, lemma_scan, scan, skip_spaces,
    space_pred, to_upper,
};
use crate::{items_view, Arg, ArgOrComment, ArgV, Comment, Decimal, ErrorKind, ItemV, KeyValue};

verus! {

/// Bytes that may stand in the value of a key/value argument.
pub open spec fn value_pred() -> spec_fn(u8) -> bool {
    |b: u8| !(is_space(b) || is_line_end(b) || b == (';' as u8) || b == ('(' as u8))
}

/// Bytes that stand for themselves in a text payload.
pub open spec fn is_text_plain(b: u8) -> bool {
    !(is_line_end(b) || b == (';' as u8) || b == ('(' as u8) || b == ('\\' as u8))
}

/// Bytes that a backslash may escape in a text payload.
pub open spec fn is_escapable(b: u8) -> bool {
    b == ('(' as u8) || b == (')' as u8) || b == (';' as u8) || b == (' ' as u8)
        || b == ('\t' as u8) || b == ('\n' as u8) || b == ('\\' as u8)
}

/// A key/value argument whose letter is at `j`: the letter in upper case, and
/// the maximal run of value bytes after it when that run is a decimal number.
pub open spec fn key_value_at(s: Seq<u8>, j: int) -> Option<(ArgV, int)> {
    if 0 <= j < s.len() && is_alpha(s[j]) {
        let r = scan(s, j + 1, value_pred());
        if r > j + 1 && is_decimal(s.subrange(j + 1, r)) {
            Some((ArgV::KeyValue((to_upper(s[j]) as char, Some(s.subrange(j + 1, r)))), r))
        } else {
            Some((ArgV::KeyValue((to_upper(s[j]) as char, None)), j + 1))
        }
    } else {
        None
    }
}

/// One element of a key/value argument list at `i`: whitespace then an
/// argument, or optional whitespace then a comment. `Ok(None)` when neither
/// starts there; an error when a comment starts there and is malformed.
pub open spec fn kv_step(s: Seq<u8>, i: int) -> Result<Option<(ItemV, int)>, ErrorKind> {
    let j = scan(s, i, space_pred());
    if j > i && key_value_at(s, j) is Some {
        let (a, e) = key_value_at(s, j).unwrap();
        Ok(Some((ItemV::Arg(a), e)))
    } else if 0 <= j < s.len() && (s[j] == ('(' as u8) || s[j] == (';' as u8)) {
        match comment_at(s, j) {
            Some((c, e)) => Ok(Some((ItemV::Comment(c), e))),
            None => Err(ErrorKind::Comment),
        }
    } else {
        Ok(None)
    }
}

/// The key/value argument list at `i`, and where it stops.
pub open spec fn kv_items(s: Seq<u8>, i: int) -> Result<(Seq<ItemV>, int), ErrorKind>
    decreases s.len() - i,
{
    match kv_step(s, i) {
        Ok(Some((it, e))) => {
            if 0 <= i < e <= s.len() {
                match kv_items(s, e) {
                    Ok((rest, f)) => Ok((seq![it] + rest, f)),
                    Err(k) => Err(k),
                }
            } else {
                Ok((seq![], i))
            }
        },
        Ok(None) => Ok((seq![], i)),
        Err(k) => Err(k),
    }
}

/// Parenthesis comments at `i`, each after optional whitespace.
pub open spec fn paren_items(s: Seq<u8>, i: int) -> Result<(Seq<ItemV>, int), ErrorKind>
    decreases s.len() - i,
{
    let j = scan(s, i, space_pred());
    if 0 <= i <= j < s.len() && s[j] == ('(' as u8) {
        match paren_at(s, j) {
            Some((c, e)) => {
                if i < e <= s.len() {
                    match paren_items(s, e) {
                        Ok((rest, f)) => Ok((seq![ItemV::Comment(c)] + rest, f)),
                        Err(k) => Err(k),
                    }
                } else {
                    Ok((seq![], i))
                }
            },
            None => Err(ErrorKind::Comment),
        }
    } else {
        Ok((seq![], i))
    }
}

/// Where a text payload starting at `k` ends; `None` at a backslash that does
/// not escape one of the escapable bytes.
pub open spec fn text_end(s: Seq<u8>, k: int) -> Option<int>
    decreases s.len() - k,
{
    if 0 <= k < s.len() && is_text_plain(s[k]) {
        text_end(s, k + 1)
    } else if 0 <= k < s.len() && s[k] == ('\\' as u8) {
        if k + 1 < s.len() && is_escapable(s[k + 1]) {
            text_end(s, k + 2)
        } else {
            None
        }
    } else {
        Some(k)
    }
}

/// A non-empty text payload after at least one space or tab at `i`.
pub open spec fn text_at(s: Seq<u8>, i: int) -> Result<Option<(Seq<u8>, int)>, ErrorKind> {
    let j = scan(s, i, space_pred());
    if j > i {
        match text_end(s, j) {
            Some(t) => if t > j {
                Ok(Some((s.subrange(j, t), t)))
            } else {
                Ok(None)
            },
            None => Err(ErrorKind::Arguments),
        }
    } else {
        Ok(None)
    }
}

/// The argument list of a command that takes a text payload: parenthesis
/// comments, an optional payload, parenthesis comments, an optional `;` comment.
pub open spec fn string_items(s: Seq<u8>, i: int) -> Result<(Seq<ItemV>, int), ErrorKind> {
    match paren_items(s, i) {
        Err(k) => Err(k),
        Ok((c1, i1)) => match text_at(s, i1) {
            Err(k) => Err(k),
            Ok(t) => {
                let (tv, i2) = match t {
                    Some((x, e)) => (seq![ItemV::Arg(ArgV::Text(x))], e),
                    None => (Seq::<ItemV>::empty(), i1),
                };
                match paren_items(s, i2) {
                    Err(k) => Err(k),
                    Ok((c2, i3)) => match semicolon_at(s, scan(s, i3, space_pred())) {
                        Some((c, e)) => Ok((c1 + tv + c2 + seq![ItemV::Comment(c)], e)),
                        None => Ok((c1 + tv + c2, i3)),
                    },
                }
            },
        },
    }
}

/// The arguments and comments after a command header at `i`, in the grammar
/// that `string_mode` selects; `None` when there are none.
pub open spec fn args_at(s: Seq<u8>, i: int, string_mode: bool) -> Result<(Option<Seq<ItemV>>, int), ErrorKind> {
    let r = if string_mode {
        string_items(s, i)
    } else {
        kv_items(s, i)
    };
    match r {
        Ok((items, e)) => Ok((if items.len() == 0 { None } else { Some(items) }, e)),
        Err(k) => Err(k),
    }
}

fn key_value_at_pos<'r>(s: &'r [u8], j: usize) -> (r: Option<(KeyValue<'r>, usize)>)
    requires
        j <= s@.len(),
    ensures
        match r {
            Some((kv, e)) => key_value_at(s@, j as int) == Some((Arg::KeyValue(kv)@, e as int))
                && j < e <= s@.len(),
            None => key_value_at(s@, j as int) is None,
        },
{
    if j < s.len() && ((('A' as u8) <= s[j] && s[j] <= ('Z' as u8)) || (('a' as u8) <= s[j] && s[j] <= ('z' as u8))) {
        let b = s[j];
        let up: u8 = if ('a' as u8) <= b && b <= ('z' as u8) { b - 32 } else { b };
        let mut r: usize = j + 1;
        while r < s.len() && !(s[r] == (' ' as u8) || s[r] == ('\t' as u8) || s[r] == ('\n' as u8)
            || s[r] == ('\r' as u8) || s[r] == (';' as u8) || s[r] == ('(' as u8))
            invariant
                j < r <= s@.len(),
                scan(s@, r as int, value_pred()) == scan(s@, j + 1, value_pred()),
            decreases s@.len() - r,
        {
            r = r + 1;
        }
        if r > j + 1 {
            let t = slice_subrange(s, j + 1, r);
            if is_decimal_text(t) {
                return Some(((up as char, Some(Decimal(t))), r));
            }
        }
        Some(((up as char, None), j + 1))
    } else {
        None
    }
}

fn kv_step_at<'r>(s: &'r [u8], i: usize) -> (r: Result<Option<(ArgOrComment<'r>, usize)>, ErrorKind>)
    requires
        i <= s@.len(),
    ensures
        match r {
            Ok(Some((it, e))) => kv_step(s@, i as int) == Ok::<_, ErrorKind>(Some((it@, e as int)))
                && i < e <= s@.len(),
            Ok(None) => kv_step(s@, i as int) == Ok::<Option<(ItemV, int)>, ErrorKind>(None),
            Err(k) => kv_step(s@, i as int) == Err::<Option<(ItemV, int)>, ErrorKind>(k),
        },
{
    let j = skip_spaces(s, i);
    proof {
        lemma_scan(s@, i as int, space_pred());
    }
    if j > i {
        match key_value_at_pos(s, j) {
            Some((kv, e)) => {
                return Ok(Some((ArgOrComment::Arg(Arg::KeyValue(kv)), e)));
            },
            None => {},
        }
    }
    if j < s.len() && (s[j] == ('(' as u8) || s[j] == (';' as u8)) {
        match comment_at_pos(s, j) {
            Some((c, e)) => Ok(Some((ArgOrComment::Comment(Comment(c)), e))),
            None => Err(ErrorKind::Comment),
        }
    } else {
        Ok(None)
    }
}

/// Parses one element of a key/value argument list at the start of `input`:
/// whitespace then an argument, or optional whitespace then a comment.
pub fn parse_kv_arg<'r>(input: &'r [u8]) -> (r: Result<Option<(&'r [u8], ArgOrComment<'r>)>, ErrorKind>)
    ensures
        match r {
            Ok(Some((rest, it))) => kv_step(input@, 0) matches Ok(Some((iv, e)))
                && it@ == iv && rest@ == input@.subrange(e, input@.len() as int),
            Ok(None) => kv_step(input@, 0) == Ok::<Option<(ItemV, int)>, ErrorKind>(None),
            Err(k) => kv_step(input@, 0) == Err::<Option<(ItemV, int)>, ErrorKind>(k),
        },
{
    match kv_step_at(input, 0) {
        Ok(Some((it, e))) => Ok(Some((slice_subrange(input, e, input.len()), it))),
        Ok(None) => Ok(None),
        Err(k) => Err(k),
    }
}

proof fn lemma_push_view<'r>(v: Seq<ArgOrComment<'r>>, x: ArgOrComment<'r>, rest: Seq<ItemV>)
    ensures
        items_view(v.push(x)) + rest == items_view(v) + (seq![x@] + rest),
{
    assert(items_view(v.push(x)) =~= items_view(v).push(x@));
    assert(items_view(v.push(x)) + rest =~= items_view(v) + (seq![x@] + rest));
}

fn kv_items_at<'r>(s: &'r [u8], i: usize) -> (r: Result<(Vec<ArgOrComment<'r>>, usize), ErrorKind>)
    requires
        i <= s@.len(),
    ensures
        match r {
            Ok((v, e)) => kv_items(s@, i as int) == Ok::<_, ErrorKind>((items_view(v@), e as int))
                && i <= e <= s@.len(),
            Err(k) => kv_items(s@, i as int) == Err::<(Seq<ItemV>, int), ErrorKind>(k),
        },
{
    let mut items: Vec<ArgOrComment<'r>> = Vec::new();
    let mut k: usize = i;
    proof {
        if let Ok((rest, f)) = kv_items(s@, i as int) {
            assert(items_view(items@) + rest =~= rest);
        }
    }
    loop
        invariant
            i <= k <= s@.len(),
            match kv_items(s@, k as int) {
                Ok((rest, f)) => kv_items(s@, i as int) == Ok::<_, ErrorKind>((items_view(items@) + rest, f)),
                Err(x) => kv_items(s@, i as int) == Err::<(Seq<ItemV>, int), ErrorKind>(x),
            },
        decreases s@.len() - k,
    {
        match kv_step_at(s, k) {
            Ok(Some((it, e))) => {
                proof {
                    if let Ok((rest, f)) = kv_items(s@, e as int) {
                        lemma_push_view(items@, it, rest);
                    }
                }
                items.push(it);
                k = e;
            },
            Ok(None) => {
                proof {
                    assert(items_view(items@) + Seq::<ItemV>::empty() =~= items_view(items@));
                }
                return Ok((items, k));
            },
            Err(x) => {
                return Err(x);
            },
        }
    }
}

fn paren_items_at<'r>(s: &'r [u8], i: usize) -> (r: Result<(Vec<ArgOrComment<'r>>, usize), ErrorKind>)
    requires
        i <= s@.len(),
    ensures
        match r {
            Ok((v, e)) => paren_items(s@, i as int) == Ok::<_, ErrorKind>((items_view(v@), e as int))
                && i <= e <= s@.len(),
            Err(k) => paren_items(s@, i as int) == Err::<(Seq<ItemV>, int), ErrorKind>(k),
        },
{
    let mut items: Vec<ArgOrComment<'r>> = Vec::new();
    let mut k: usize = i;
    proof {
        if let Ok((rest, f)) = paren_items(s@, i as int) {
            assert(items_view(items@) + rest =~= rest);
        }
    }
    loop
        invariant
            i <= k <= s@.len(),
            match paren_items(s@, k as int) {
                Ok((rest, f)) => paren_items(s@, i as int) == Ok::<_, ErrorKind>((items_view(items@) + rest, f)),
                Err(x) => paren_items(s@, i as int) == Err::<(Seq<ItemV>, int), ErrorKind>(x),
            },
        decreases s@.len() - k,
    {
        let j = skip_spaces(s, k);
        proof {
            lemma_scan(s@, k as int, space_pred());
        }
        if j < s.len() && s[j] == ('(' as u8) {
            match paren_comment_at(s, j) {
                Some((c, e)) => {
                    let it = ArgOrComment::Comment(Comment(c));
                    proof {
                        if let Ok((rest, f)) = paren_items(s@, e as int) {
                            lemma_push_view(items@, it, rest);
                        }
                    }
                    items.push(it);
                    k = e;
                },
                None => {
                    return Err(ErrorKind::Comment);
                },
            }
        } else {
            proof {
                assert(items_view(items@) + Seq::<ItemV>::empty() =~= items_view(items@));
            }
            return Ok((items, k));
        }
    }
}

fn text_end_at(s: &[u8], j: usize) -> (r: Option<usize>)
    requires
        j <= s@.len(),
    ensures
        match r {
            Some(t) => text_end(s@, j as int) == Some(t as int) && j <= t <= s@.len(),
            None => text_end(s@, j as int) is None,
        },
{
    let mut k: usize = j;
    loop
        invariant
            j <= k <= s@.len(),
            text_end(s@, k as int) == text_end(s@, j as int),
        decreases s@.len() - k,
    {
        if k < s.len() && !(s[k] == ('\n' as u8) || s[k] == ('\r' as u8) || s[k] == (';' as u8)
            || s[k] == ('(' as u8) || s[k] == ('\\' as u8)) {
            k = k + 1;
        } else if k < s.len() && s[k] == ('\\' as u8) {
            if k + 1 < s.len() {
                let b = s[k + 1];
                if b == ('(' as u8) || b == (')' as u8) || b == (';' as u8) || b == (' ' as u8)
                    || b == ('\t' as u8) || b == ('\n' as u8) || b == ('\\' as u8) {
                    k = k + 2;
                } else {
                    return None;
                }
            } else {
                return None;
            }
        } else {
            return Some(k);
        }
    }
}

fn text_at_pos<'r>(s: &'r [u8], i: usize) -> (r: Result<Option<(&'r [u8], usize)>, ErrorKind>)
    requires
        i <= s@.len(),
    ensures
        match r {
            Ok(Some((t, e))) => text_at(s@, i as int) == Ok::<_, ErrorKind>(Some((t@, e as int)))
                && i < e <= s@.len(),
            Ok(None) => text_at(s@, i as int) == Ok::<Option<(Seq<u8>, int)>, ErrorKind>(None),
            Err(k) => text_at(s@, i as int) == Err::<Option<(Seq<u8>, int)>, ErrorKind>(k),
        },
{
    let j = skip_spaces(s, i);
    proof {
        lemma_scan(s@, i as int, space_pred());
    }
    if j > i {
        match text_end_at(s, j) {
            Some(t) => {
                if t > j {
                    Ok(Some((slice_subrange(s, j, t), t)))
                } else {
                    Ok(None)
                }
            },
            None => Err(ErrorKind::Arguments),
        }
    } else {
        Ok(None)
    }
}

fn string_items_at<'r>(s: &'r [u8], i: usize) -> (r: Result<(Vec<ArgOrComment<'r>>, usize), ErrorKind>)
    requires
        i <= s@.len(),
    ensures
        match r {
            Ok((v, e)) => string_items(s@, i as int) == Ok::<_, ErrorKind>((items_view(v@), e as int))
                && i <= e <= s@.len(),
            Err(k) => string_items(s@, i as int) == Err::<(Seq<ItemV>, int), ErrorKind>(k),
        },
{
    let (mut items, i1) = match paren_items_at(s, i) {
        Ok(p) => p,
        Err(k) => {
            return Err(k);
        },
    };
    let ghost c1 = items_view(items@);
    let ghost mut tvs: Seq<ItemV> = Seq::empty();
    let mut i2: usize = i1;
    match text_at_pos(s, i1) {
        Ok(Some((t, e))) => {
            let it = ArgOrComment::Arg(Arg::Text(t));
            proof {
                tvs = seq![it@];
                assert(items_view(items@.push(it)) =~= c1 + tvs);
            }
            items.push(it);
            i2 = e;
        },
        Ok(None) => {
            assert(items_view(items@) =~= c1 + tvs);
        },
        Err(k) => {
            return Err(k);
        },
    }
    let (mut more, i3) = match paren_items_at(s, i2) {
        Ok(p) => p,
        Err(k) => {
            return Err(k);
        },
    };
    let ghost c2 = items_view(more@);
    let ghost before = items@;
    let ghost added = more@;
    items.append(&mut more);
    proof {
        assert(items@ =~= before + added);
        assert(items_view(items@) =~= c1 + tvs + c2);
        lemma_scan(s@, i3 as int, space_pred());
    }
    let j = skip_spaces(s, i3);
    match semicolon_comment_at(s, j) {
        Some((c, e)) => {
            let it = ArgOrComment::Comment(Comment(c));
            proof {
                assert(items_view(items@.push(it)) =~= c1 + tvs + c2 + seq![ItemV::Comment(c@)]);
            }
            items.push(it);
            Ok((items, e))
        },
        None => Ok((items, i3)),
    }
}

/// The arguments after a command header at `i`, in the grammar that
/// `string_mode` selects.
pub fn args_at_pos<'r>(s: &'r [u8], i: usize, string_mode: bool) -> (r: Result<(Option<Vec<ArgOrComment<'r>>>, usize), ErrorKind>)
    requires
        i <= s@.len(),
    ensures
        match r {
            Ok((v, e)) => args_at(s@, i as int, string_mode) == Ok::<_, ErrorKind>((
                match v {
                    Some(v) => Some(items_view(v@)),
                    None => None,
                },
                e as int,
            )) && i <= e <= s@.len(),
            Err(k) => args_at(s@, i as int, string_mode) == Err::<(Option<Seq<ItemV>>, int), ErrorKind>(k),
        },
{
    let r = if string_mode {
        string_items_at(s, i)
    } else {
        kv_items_at(s, i)
    };
    match r {
        Ok((v, e)) => {
            if v.len() == 0 {
                Ok((None, e))
            } else {
                Ok((Some(v), e))
            }
        },
        Err(k) => Err(k),
    }
}

/// Parses the arguments and comments at the start of `input`, which follows a
/// command header. `string_arg_mcode` selects the grammar of commands whose
/// argument is a file name or message.
pub fn parse_args<'r>(string_arg_mcode: bool, input: &'r [u8]) -> (r: Result<(&'r [u8], Option<Vec<ArgOrComment<'r>>>), ErrorKind>)
    ensures
        match r {
            Ok((rest, v)) => args_at(input@, 0, string_arg_mcode) matches Ok((iv, e))
                && iv == match v {
                    Some(v) => Some(items_view(v@)),
                    None => None::<Seq<ItemV>>,
                } && rest@ == input@.subrange(e, input@.len() as int),
            Err(k) => args_at(input@, 0, string_arg_mcode) == Err::<(Option<Seq<ItemV>>, int), ErrorKind>(k),
        },
{
    match args_at_pos(input, 0, string_arg_mcode) {
        Ok((v, e)) => Ok((slice_subrange(input, e, input.len()), v)),
        Err(k) => Err(k),
    }
}

} // verus!
