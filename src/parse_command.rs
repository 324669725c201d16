use vstd::prelude::*;
use vstd::slice::slice_subrange;

use crate::mnemonic::{spec_mnemonic_of, Mnemonic};
use crate::scan::{lemma_scan, parse_uint, scan, skip_spaces, space_pred, uint_at};
use crate::{GCode, GCodeV};

verus! {

/// A line number at `i`: `N`, an unsigned integer, then at least one space or
/// tab; with the position after the spaces.
pub open spec fn line_number_at(s: Seq<u8>, i: int) -> Option<(u32, int)> {
    if 0 <= i < s.len() && s[i] == ('N' as u8) {
        match uint_at(s, i + 1, u32::MAX as nat) {
            Some((n, d)) => {
                let w = scan(s, d, space_pred());
                if w > d {
                    Some((n as u32, w))
                } else {
                    None
                }
            },
            None => None,
        }
    } else {
        None
    }
}

/// A command header at `i`: an optional line number, a mnemonic letter, a
/// major version and an optional `.minor` (0 when absent); no arguments yet.
pub open spec fn command_at(s: Seq<u8>, i: int) -> Option<(GCodeV, int)> {
    let (ln, j) = match line_number_at(s, i) {
        Some((n, w)) => (Some(n), w),
        None => (None, i),
    };
    if 0 <= j < s.len() && spec_mnemonic_of(s[j]) is Some {
        match uint_at(s, j + 1, u32::MAX as nat) {
            Some((major, d)) => {
                let (minor, f) = if d < s.len() && s[d] == ('.' as u8) {
                    match uint_at(s, d + 1, u32::MAX as nat) {
                        Some((mi, f)) => (mi, f),
                        None => (0, d),
                    }
                } else {
                    (0, d)
                };
                Some((
                    GCodeV {
                        line_number: ln,
                        mnemonic: spec_mnemonic_of(s[j]).unwrap(),
                        major: major as u32,
                        minor: minor as u32,
                        items: None,
                    },
                    f,
                ))
            },
            None => None,
        }
    } else {
        None
    }
}

pub proof fn lemma_uint_at(s: Seq<u8>, i: int, max: nat)
    requires
        0 <= i <= s.len(),
    ensures
        uint_at(s, i, max) matches Some((v, d)) ==> i < d <= s.len() && v <= max,
{
    lemma_scan(s, i, crate::scan::digit_pred());
}

pub fn command_at_pos<'r>(s: &'r [u8], i: usize) -> (r: Option<(GCode<'r>, usize)>)
    requires
        i <= s@.len(),
    ensures
        match r {
            Some((g, e)) => command_at(s@, i as int) == Some((g@, e as int)) && i < e <= s@.len()
                && g.args_or_comments is None,
            None => command_at(s@, i as int) is None,
        },
{
    let mut line_number: Option<u32> = None;
    let mut j: usize = i;
    if i < s.len() && s[i] == ('N' as u8) {
        proof {
            lemma_uint_at(s@, i + 1, u32::MAX as nat);
        }
        match parse_uint(s, i + 1, u32::MAX as u64) {
            Some((n, d)) => {
                let w = skip_spaces(s, d);
                proof {
                    lemma_scan(s@, d as int, space_pred());
                }
                if w > d {
                    line_number = Some(n as u32);
                    j = w;
                }
            },
            None => {},
        }
    }
    assert(match line_number_at(s@, i as int) {
        Some((n, w)) => line_number == Some(n) && j == w,
        None => line_number is None && j == i,
    });
    if j >= s.len() {
        return None;
    }
    let mnemonic = match Mnemonic::from_letter(s[j]) {
        Some(m) => m,
        None => {
            return None;
        },
    };
    proof {
        lemma_uint_at(s@, j + 1, u32::MAX as nat);
    }
    let (major, d) = match parse_uint(s, j + 1, u32::MAX as u64) {
        Some(p) => p,
        None => {
            return None;
        },
    };
    let mut minor: u64 = 0;
    let mut f: usize = d;
    if d < s.len() && s[d] == ('.' as u8) {
        proof {
            lemma_uint_at(s@, d + 1, u32::MAX as nat);
        }
        match parse_uint(s, d + 1, u32::MAX as u64) {
            Some((mi, e)) => {
                minor = mi;
                f = e;
            },
            None => {},
        }
    }
    let g = GCode {
        line_number,
        mnemonic,
        major: major as u32,
        minor: minor as u32,
        args_or_comments: None,
    };
    Some((g, f))
}

/// Parses a command header at the start of `input`: the command, with no
/// arguments yet, and what follows it.
pub fn parse_command<'r>(input: &'r [u8]) -> (r: Option<(&'r [u8], GCode<'r>)>)
    ensures
        match r {
            Some((rest, g)) => command_at(input@, 0) matches Some((gv, e))
                && g@ == gv && g.args_or_comments is None
                && rest@ == input@.subrange(e, input@.len() as int),
            None => command_at(input@, 0) is None,
        },
{
    match command_at_pos(input, 0) {
        Some((g, e)) => Some((slice_subrange(input, e, input.len()), g)),
        None => None,
    }
}

} // verus!
