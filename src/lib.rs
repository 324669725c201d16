//! A line-oriented G-code parser.
//!
//! Each call classifies one line of program text: a blank line, a file
//! demarcator, a comment, a slicer's doc comment, or a command with its
//! arguments. Every payload borrows from the line it was parsed from.
use vstd::prelude::*;

pub mod mnemonic;
pub mod scan;
pub mod parse_comments;
pub mod parse_command;
pub mod parse_args;
pub mod parse_gcode;
pub mod gcode;
pub mod laws;

pub use mnemonic::Mnemonic;
pub use parse_command::parse_command;
pub use parse_args::{parse_args, parse_kv_arg};
pub use parse_gcode::parse_gcode;
pub use parse_comments::{
    comment, doc_comment, filament_used, parentheses_comment, seimcolon_comment, with_parentheses_comments,
    WithComments,
};

verus! {

/// Why a line could not be parsed; each variant carries the whole line.
#[derive(Debug, PartialEq, Eq, Clone)]
pub enum GCodeParseError {
    /// The line does not start with a line number, mnemonic and version.
    InvalidGCode(Vec<u8>),
    /// The command header parsed but its argument tail is malformed.
    InvalidArguments(Vec<u8>),
    /// A comment was expected and is malformed.
    InvalidComment(Vec<u8>),
}

impl GCodeParseError {
    pub open spec fn kind(&self) -> ErrorKind {
        match *self {
            GCodeParseError::InvalidGCode(_) => ErrorKind::Command,
            GCodeParseError::InvalidArguments(_) => ErrorKind::Arguments,
            GCodeParseError::InvalidComment(_) => ErrorKind::Comment,
        }
    }

    /// The line that failed to parse.
    pub open spec fn line(&self) -> Seq<u8> {
        match *self {
            GCodeParseError::InvalidGCode(l) => l@,
            GCodeParseError::InvalidArguments(l) => l@,
            GCodeParseError::InvalidComment(l) => l@,
        }
    }
}

/// The three kinds of failure, without the line: a malformed command header,
/// a malformed argument tail, a malformed comment.
#[derive(Debug, PartialEq, Eq, Structural, Clone, Copy)]
pub enum ErrorKind {
    Command,
    Arguments,
    Comment,
}

/// The body of a comment, without its delimiters.
#[derive(Debug, PartialEq, Eq, Clone, Copy)]
pub struct Comment<'r>(pub &'r [u8]);

/// The text of a signed decimal number, as written.
#[derive(Debug, PartialEq, Eq, Clone, Copy)]
pub struct Decimal<'r>(pub &'r [u8]);

/// An argument letter, upper case, with its value if it has one.
pub type KeyValue<'r> = (char, Option<Decimal<'r>>);

#[derive(Debug, PartialEq, Eq, Clone, Copy)]
pub enum Arg<'r> {
    KeyValue(KeyValue<'r>),
    /// The verbatim payload of a command that takes a file name or message.
    Text(&'r [u8]),
}

#[derive(Debug, PartialEq, Eq, Clone, Copy)]
pub enum ArgOrComment<'r> {
    Arg(Arg<'r>),
    Comment(Comment<'r>),
}

/// Machine-readable metadata that slicers write as `;KEY: VALUE` comments.
#[derive(Debug, PartialEq, Eq, Clone, Copy)]
pub enum DocComment<'r> {
    GCodeFlavor(&'r [u8]),
    /// A print time in seconds.
    PrintTime(u64),
    FilamentUsed { meters: Decimal<'r> },
    LayerHeight { millis: Decimal<'r> },
}

/// A command: its header and the arguments and comments that follow it.
#[derive(Debug, PartialEq, Eq, Clone)]
pub struct GCode<'r> {
    pub line_number: Option<u32>,
    pub mnemonic: Mnemonic,
    pub major: u32,
    pub minor: u32,
    /// In source order; `None` when the command has none.
    pub args_or_comments: Option<Vec<ArgOrComment<'r>>>,
}

#[derive(Debug, PartialEq, Eq, Clone)]
pub enum GCodeLine<'r> {
    /// A line holding a percent sign that marks the start or end of a program.
    FileDemarcator,
    GCode(GCode<'r>),
    Comment(Comment<'r>),
    DocComment(DocComment<'r>),
}

/// What an argument stands for: its payloads as byte sequences.
pub enum ArgV {
    KeyValue((char, Option<Seq<u8>>)),
    Text(Seq<u8>),
}

/// What an argument or comment stands for.
pub enum ItemV {
    Arg(ArgV),
    Comment(Seq<u8>),
}

/// What a doc comment stands for.
pub enum DocV {
    GCodeFlavor(Seq<u8>),
    PrintTime(nat),
    FilamentUsed(Seq<u8>),
    LayerHeight(Seq<u8>),
}

/// What a command stands for.
pub struct GCodeV {
    pub line_number: Option<u32>,
    pub mnemonic: Mnemonic,
    pub major: u32,
    pub minor: u32,
    pub items: Option<Seq<ItemV>>,
}

/// What a parsed line stands for.
pub enum LineV {
    FileDemarcator,
    GCode(GCodeV),
    Comment(Seq<u8>),
    DocComment(DocV),
}

pub open spec fn decimal_opt_view(v: Option<Decimal>) -> Option<Seq<u8>> {
    match v {
        Some(d) => Some(d.0@),
        None => None,
    }
}

impl<'r> View for Arg<'r> {
    type V = ArgV;

    open spec fn view(&self) -> ArgV {
        match *self {
            Arg::KeyValue((k, v)) => ArgV::KeyValue((k, decimal_opt_view(v))),
            Arg::Text(t) => ArgV::Text(t@),
        }
    }
}

impl<'r> View for ArgOrComment<'r> {
    type V = ItemV;

    open spec fn view(&self) -> ItemV {
        match *self {
            ArgOrComment::Arg(a) => ItemV::Arg(a@),
            ArgOrComment::Comment(c) => ItemV::Comment(c.0@),
        }
    }
}

impl<'r> View for DocComment<'r> {
    type V = DocV;

    open spec fn view(&self) -> DocV {
        match *self {
            DocComment::GCodeFlavor(t) => DocV::GCodeFlavor(t@),
            DocComment::PrintTime(s) => DocV::PrintTime(s as nat),
            DocComment::FilamentUsed { meters } => DocV::FilamentUsed(meters.0@),
            DocComment::LayerHeight { millis } => DocV::LayerHeight(millis.0@),
        }
    }
}

pub open spec fn line_opt_view(l: Option<GCodeLine>) -> Option<LineV> {
    match l {
        Some(l) => Some(l@),
        None => None,
    }
}

pub open spec fn items_view(v: Seq<ArgOrComment>) -> Seq<ItemV> {
    v.map_values(|x: ArgOrComment| x@)
}

impl<'r> View for GCode<'r> {
    type V = GCodeV;

    open spec fn view(&self) -> GCodeV {
        GCodeV {
            line_number: self.line_number,
            mnemonic: self.mnemonic,
            major: self.major,
            minor: self.minor,
            items: match self.args_or_comments {
                Some(v) => Some(items_view(v@)),
                None => None,
            },
        }
    }
}

impl<'r> View for GCodeLine<'r> {
    type V = LineV;

    open spec fn view(&self) -> LineV {
        match *self {
            GCodeLine::FileDemarcator => LineV::FileDemarcator,
            GCodeLine::GCode(g) => LineV::GCode(g@),
            GCodeLine::Comment(c) => LineV::Comment(c.0@),
            GCodeLine::DocComment(d) => LineV::DocComment(d@),
        }
    }
}

} // verus!
