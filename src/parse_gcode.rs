use vstd::prelude::*;
use vstd::slice::{slice_subrange, slice_to_vec};

use crate::mnemonic::Mnemonic;
use crate::parse_args::{args_at, args_at_pos};
use crate::parse_command::{command_at, command_at_pos};
use crate::parse_comments::{
    doc_at, doc_comment_at, paren_at, paren_comment_at, semicolon_at, semicolon_comment_at,
};
use crate::scan::{in_line_pred, lemma_scan, line_end, scan, skip_spaces, space_pred};
use crate::{line_opt_view, Comment, ErrorKind, GCodeLine, GCodeParseError, GCodeV, LineV};

verus! {

/// The commands whose single argument is a file name or message rather than
/// key/value pairs.
pub open spec fn is_string_arg_command(m: Mnemonic, major: u32, minor: u32) -> bool {
    m == Mnemonic::Miscellaneous && minor == 0 && (major == 23 || major == 28 || major == 30
        || major == 36 || major == 38 || major == 117 || major == 118)
}

pub fn string_arg_mcode(m: Mnemonic, major: u32, minor: u32) -> (r: bool)
    ensures
        r == is_string_arg_command(m, major, minor),
{
    m == Mnemonic::Miscellaneous && minor == 0 && (major == 23 || major == 28 || major == 30
        || major == 36 || major == 38 || major == 117 || major == 118)
}

/// What one line parses to: where parsing stopped and the line, if any, or
/// the kind of failure.
pub open spec fn line_at(s: Seq<u8>) -> Result<(int, Option<LineV>), ErrorKind> {
    let i = scan(s, 0, space_pred());
    if i >= s.len() {
        Ok((i, None))
    } else if s[i] == ('\n' as u8) {
        Ok((i + 1, None))
    } else if s[i] == ('%' as u8) {
        Ok((scan(s, i + 1, in_line_pred()), Some(LineV::FileDemarcator)))
    } else if s[i] == (';' as u8) {
        match doc_at(s, i) {
            Some((d, e)) => Ok((e, Some(LineV::DocComment(d)))),
            None => {
                let (c, e) = semicolon_at(s, i).unwrap();
                Ok((e, Some(LineV::Comment(c))))
            },
        }
    } else if s[i] == ('(' as u8) {
        match paren_at(s, i) {
            Some((c, e)) => Ok((e, Some(LineV::Comment(c)))),
            None => Err(ErrorKind::Comment),
        }
    } else {
        match command_at(s, i) {
            None => Err(ErrorKind::Command),
            Some((h, j)) => match args_at(s, j, is_string_arg_command(h.mnemonic, h.major, h.minor)) {
                Err(k) => Err(k),
                Ok((items, e)) => Ok((
                    e,
                    Some(LineV::GCode(GCodeV {
                        line_number: h.line_number,
                        mnemonic: h.mnemonic,
                        major: h.major,
                        minor: h.minor,
                        items,
                    })),
                )),
            },
        }
    }
}

/// Parses one line: what is left of it and the line it holds (`None` for a
/// blank line), or a failure that carries the whole line.
pub fn parse_gcode<'r>(input: &'r [u8]) -> (r: Result<(&'r [u8], Option<GCodeLine<'r>>), GCodeParseError>)
    ensures
        match r {
            Ok((rest, line)) => line_at(input@) matches Ok((e, lv))
                && line_opt_view(line) == lv
                && 0 <= e <= input@.len()
                && rest@ == input@.subrange(e, input@.len() as int),
            Err(err) => line_at(input@) == Err::<(int, Option<LineV>), ErrorKind>(err.kind())
                && err.line() == input@,
        },
{
    let s = input;
    let i = skip_spaces(s, 0);
    proof {
        lemma_scan(s@, 0, space_pred());
    }
    if i >= s.len() {
        return Ok((slice_subrange(s, i, s.len()), None));
    }
    if s[i] == ('\n' as u8) {
        return Ok((slice_subrange(s, i + 1, s.len()), None));
    }
    if s[i] == ('%' as u8) {
        let e = line_end(s, i + 1);
        proof {
            lemma_scan(s@, i + 1, in_line_pred());
        }
        return Ok((slice_subrange(s, e, s.len()), Some(GCodeLine::FileDemarcator)));
    }
    if s[i] == (';' as u8) {
        match doc_comment_at(s, i) {
            Some((d, e)) => {
                return Ok((slice_subrange(s, e, s.len()), Some(GCodeLine::DocComment(d))));
            },
            None => {},
        }
        match semicolon_comment_at(s, i) {
            Some((c, e)) => {
                return Ok((slice_subrange(s, e, s.len()), Some(GCodeLine::Comment(Comment(c)))));
            },
            None => {
                return Ok((slice_subrange(s, i, s.len()), None));
            },
        }
    }
    if s[i] == ('(' as u8) {
        match paren_comment_at(s, i) {
            Some((c, e)) => {
                return Ok((slice_subrange(s, e, s.len()), Some(GCodeLine::Comment(Comment(c)))));
            },
            None => {
                return Err(GCodeParseError::InvalidComment(slice_to_vec(s)));
            },
        }
    }
    let (mut gcode, j) = match command_at_pos(s, i) {
        Some(p) => p,
        None => {
            return Err(GCodeParseError::InvalidGCode(slice_to_vec(s)));
        },
    };
    let string_mode = string_arg_mcode(gcode.mnemonic, gcode.major, gcode.minor);
    match args_at_pos(s, j, string_mode) {
        Ok((items, e)) => {
            gcode.args_or_comments = items;
            Ok((slice_subrange(s, e, s.len()), Some(GCodeLine::GCode(gcode))))
        },
        Err(k) => {
            let line = slice_to_vec(s);
            let err = match k {
                ErrorKind::Command => GCodeParseError::InvalidGCode(line),
                ErrorKind::Arguments => GCodeParseError::InvalidArguments(line),
                ErrorKind::Comment => GCodeParseError::InvalidComment(line),
            };
            Err(err)
        },
    }
}

} // verus!
