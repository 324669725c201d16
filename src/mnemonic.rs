use vstd::prelude::*;

verus! {

/// The command family selected by the leading letter of a command.
#[derive(Debug, PartialEq, Eq, Structural, Clone, Copy)]
pub enum Mnemonic {
    /// Preparatory commands, often telling the controller what kind of motion
    /// or offset is desired.
    General,
    /// Auxiliary commands.
    Miscellaneous,
    /// Gives the current program a unique "name".
    ProgramNumber,
    /// Tool selection.
    ToolChange,
    /// Subroutine (O-code) commands.
    Subroutine,
}

/// The mnemonic that an (upper- or lower-case) letter stands for, if any.
pub open spec fn spec_mnemonic_of(b: u8) -> Option<Mnemonic> {
    if b == ('G' as u8) || b == ('g' as u8) {
        Some(Mnemonic::General)
    } else if b == ('M' as u8) || b == ('m' as u8) {
        Some(Mnemonic::Miscellaneous)
    } else if b == ('P' as u8) || b == ('p' as u8) {
        Some(Mnemonic::ProgramNumber)
    } else if b == ('T' as u8) || b == ('t' as u8) {
        Some(Mnemonic::ToolChange)
    } else if b == ('O' as u8) || b == ('o' as u8) {
        Some(Mnemonic::Subroutine)
    } else {
        None
    }
}

/// The canonical upper-case letter of a mnemonic.
pub open spec fn spec_letter(m: Mnemonic) -> u8 {
    match m {
        Mnemonic::General => ('G' as u8),
        Mnemonic::Miscellaneous => ('M' as u8),
        Mnemonic::ProgramNumber => ('P' as u8),
        Mnemonic::ToolChange => ('T' as u8),
        Mnemonic::Subroutine => ('O' as u8),
    }
}

impl Mnemonic {
    /// Maps a command letter, in either case, to its mnemonic.
    pub fn from_letter(b: u8) -> (r: Option<Mnemonic>)
        ensures
            r == spec_mnemonic_of(b),
    {
        if b == ('G' as u8) || b == ('g' as u8) {
            Some(Mnemonic::General)
        } else if b == ('M' as u8) || b == ('m' as u8) {
            Some(Mnemonic::Miscellaneous)
        } else if b == ('P' as u8) || b == ('p' as u8) {
            Some(Mnemonic::ProgramNumber)
        } else if b == ('T' as u8) || b == ('t' as u8) {
            Some(Mnemonic::ToolChange)
        } else if b == ('O' as u8) || b == ('o' as u8) {
            Some(Mnemonic::Subroutine)
        } else {
            None
        }
    }

    /// The canonical upper-case letter of this mnemonic.
    pub fn letter(&self) -> (r: u8)
        ensures
            r == spec_letter(*self),
            spec_mnemonic_of(r) == Some(*self),
    {
        match self {
            Mnemonic::General => ('G' as u8),
            Mnemonic::Miscellaneous => ('M' as u8),
            Mnemonic::ProgramNumber => ('P' as u8),
            Mnemonic::ToolChange => ('T' as u8),
            Mnemonic::Subroutine => ('O' as u8),
        }
    }
}

} // verus!
