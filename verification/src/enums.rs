//! Enum catalogs: rank floor, character roster and winner side. Each variant
//! corresponds to one wire byte; an unmapped byte is a decode failure.

use vstd::prelude::*;
use crate::error::{DecodeFail, DecodeFailV, Error};

verus! {

/// Rank floor of a match: numeric tiers and the top Celestial tier, ordered
/// by tier progression.
#[derive(Clone, Copy, Debug, PartialEq, Eq, Structural, Hash)]
pub enum Floor {
    F1,
    F2,
    F3,
    F4,
    F5,
    F6,
    F7,
    F8,
    F9,
    F10,
    Celestial,
}

impl Floor {
    /// Wire byte of the floor; the numeric order of the codes matches tier
    /// progression.
    pub open spec fn code(self) -> u8 {
        match self {
            Floor::F1 => 1,
            Floor::F2 => 2,
            Floor::F3 => 3,
            Floor::F4 => 4,
            Floor::F5 => 5,
            Floor::F6 => 6,
            Floor::F7 => 7,
            Floor::F8 => 8,
            Floor::F9 => 9,
            Floor::F10 => 10,
            Floor::Celestial => 99,
        }
    }

    /// The checked total mapping from a wire byte to a floor.
    pub open spec fn spec_of_byte(b: u8) -> Option<Floor> {
        if b == 1 {
            Some(Floor::F1)
        } else if b == 2 {
            Some(Floor::F2)
        } else if b == 3 {
            Some(Floor::F3)
        } else if b == 4 {
            Some(Floor::F4)
        } else if b == 5 {
            Some(Floor::F5)
        } else if b == 6 {
            Some(Floor::F6)
        } else if b == 7 {
            Some(Floor::F7)
        } else if b == 8 {
            Some(Floor::F8)
        } else if b == 9 {
            Some(Floor::F9)
        } else if b == 10 {
            Some(Floor::F10)
        } else if b == 99 {
            Some(Floor::Celestial)
        } else {
            None
        }
    }

    pub fn to_u8(self) -> (r: u8)
        ensures
            r == self.code(),
            Floor::spec_of_byte(r) == Some(self),
    {
        match self {
            Floor::F1 => 1,
            Floor::F2 => 2,
            Floor::F3 => 3,
            Floor::F4 => 4,
            Floor::F5 => 5,
            Floor::F6 => 6,
            Floor::F7 => 7,
            Floor::F8 => 8,
            Floor::F9 => 9,
            Floor::F10 => 10,
            Floor::Celestial => 99,
        }
    }

    /// Map a wire byte to its floor; an unmapped byte is a structural decode
    /// failure naming that byte.
    pub fn from_u8(b: u8) -> (r: Result<Floor, Error>)
        ensures
            match r {
                Ok(f) => Floor::spec_of_byte(b) == Some(f),
                Err(e) => Floor::spec_of_byte(b) is None && (e matches
                    Error::StructuralDecodeFailure(df) && df@ == (DecodeFailV::UnknownFloorByte {
                        byte: b,
                    })),
            },
    {
        match b {
            1 => Ok(Floor::F1),
            2 => Ok(Floor::F2),
            3 => Ok(Floor::F3),
            4 => Ok(Floor::F4),
            5 => Ok(Floor::F5),
            6 => Ok(Floor::F6),
            7 => Ok(Floor::F7),
            8 => Ok(Floor::F8),
            9 => Ok(Floor::F9),
            10 => Ok(Floor::F10),
            99 => Ok(Floor::Celestial),
            _ => Err(Error::StructuralDecodeFailure(DecodeFail::UnknownFloorByte { byte: b })),
        }
    }
}

/// The game's fixed character roster.
#[derive(Clone, Copy, Debug, PartialEq, Eq, Structural, Hash)]
pub enum Character {
    Sol,
    Ky,
    May,
    Axl,
    Chipp,
    Potemkin,
    Faust,
    Millia,
    Zato,
    Ramlethal,
    Leo,
    Nagoriyuki,
    Giovanna,
    Anji,
    Ino,
    Goldlewis,
    Jacko,
    HappyChaos,
    Baiken,
    Testament,
}

impl Character {
    /// Wire byte of the character.
    pub open spec fn code(self) -> u8 {
        match self {
            Character::Sol => 0,
            Character::Ky => 1,
            Character::May => 2,
            Character::Axl => 3,
            Character::Chipp => 4,
            Character::Potemkin => 5,
            Character::Faust => 6,
            Character::Millia => 7,
            Character::Zato => 8,
            Character::Ramlethal => 9,
            Character::Leo => 10,
            Character::Nagoriyuki => 11,
            Character::Giovanna => 12,
            Character::Anji => 13,
            Character::Ino => 14,
            Character::Goldlewis => 15,
            Character::Jacko => 16,
            Character::HappyChaos => 17,
            Character::Baiken => 18,
            Character::Testament => 19,
        }
    }

    /// The checked total mapping from a wire byte to a character.
    pub open spec fn spec_of_byte(b: u8) -> Option<Character> {
        if b == 0 {
            Some(Character::Sol)
        } else if b == 1 {
            Some(Character::Ky)
        } else if b == 2 {
            Some(Character::May)
        } else if b == 3 {
            Some(Character::Axl)
        } else if b == 4 {
            Some(Character::Chipp)
        } else if b == 5 {
            Some(Character::Potemkin)
        } else if b == 6 {
            Some(Character::Faust)
        } else if b == 7 {
            Some(Character::Millia)
        } else if b == 8 {
            Some(Character::Zato)
        } else if b == 9 {
            Some(Character::Ramlethal)
        } else if b == 10 {
            Some(Character::Leo)
        } else if b == 11 {
            Some(Character::Nagoriyuki)
        } else if b == 12 {
            Some(Character::Giovanna)
        } else if b == 13 {
            Some(Character::Anji)
        } else if b == 14 {
            Some(Character::Ino)
        } else if b == 15 {
            Some(Character::Goldlewis)
        } else if b == 16 {
            Some(Character::Jacko)
        } else if b == 17 {
            Some(Character::HappyChaos)
        } else if b == 18 {
            Some(Character::Baiken)
        } else if b == 19 {
            Some(Character::Testament)
        } else {
            None
        }
    }

    pub fn to_u8(self) -> (r: u8)
        ensures
            r == self.code(),
            Character::spec_of_byte(r) == Some(self),
    {
        let r = match self {
            Character::Sol => 0,
            Character::Ky => 1,
            Character::May => 2,
            Character::Axl => 3,
            Character::Chipp => 4,
            Character::Potemkin => 5,
            Character::Faust => 6,
            Character::Millia => 7,
            Character::Zato => 8,
            Character::Ramlethal => 9,
            Character::Leo => 10,
            Character::Nagoriyuki => 11,
            Character::Giovanna => 12,
            Character::Anji => 13,
            Character::Ino => 14,
            Character::Goldlewis => 15,
            Character::Jacko => 16,
            Character::HappyChaos => 17,
            Character::Baiken => 18,
            Character::Testament => 19,
        };
        r
    }

    /// Map a wire byte to its character; an unmapped byte is a structural
    /// decode failure naming that byte.
    pub fn from_u8(b: u8) -> (r: Result<Character, Error>)
        ensures
            match r {
                Ok(c) => Character::spec_of_byte(b) == Some(c) && c.code() == b,
                Err(e) => Character::spec_of_byte(b) is None && (e matches
                    Error::StructuralDecodeFailure(df) && df@
                    == (DecodeFailV::UnknownCharacterByte { byte: b })),
            },
    {
        let r = match b {
            0 => Ok(Character::Sol),
            1 => Ok(Character::Ky),
            2 => Ok(Character::May),
            3 => Ok(Character::Axl),
            4 => Ok(Character::Chipp),
            5 => Ok(Character::Potemkin),
            6 => Ok(Character::Faust),
            7 => Ok(Character::Millia),
            8 => Ok(Character::Zato),
            9 => Ok(Character::Ramlethal),
            10 => Ok(Character::Leo),
            11 => Ok(Character::Nagoriyuki),
            12 => Ok(Character::Giovanna),
            13 => Ok(Character::Anji),
            14 => Ok(Character::Ino),
            15 => Ok(Character::Goldlewis),
            16 => Ok(Character::Jacko),
            17 => Ok(Character::HappyChaos),
            18 => Ok(Character::Baiken),
            19 => Ok(Character::Testament),
            _ => Err(Error::StructuralDecodeFailure(DecodeFail::UnknownCharacterByte { byte: b })),
        };
        r
    }
}

/// Which of the two players won the match.
#[derive(Clone, Copy, Debug, PartialEq, Eq, Structural, Hash)]
pub enum Winner {
    Player1,
    Player2,
}

impl Winner {
    /// Wire byte of the winner side.
    pub open spec fn code(self) -> u8 {
        match self {
            Winner::Player1 => 1,
            Winner::Player2 => 2,
        }
    }

    /// The checked mapping from the raw winner byte.
    pub open spec fn spec_of_byte(b: u8) -> Option<Winner> {
        if b == 1 {
            Some(Winner::Player1)
        } else if b == 2 {
            Some(Winner::Player2)
        } else {
            None
        }
    }

    pub fn to_u8(self) -> (r: u8)
        ensures
            r == self.code(),
            Winner::spec_of_byte(r) == Some(self),
    {
        match self {
            Winner::Player1 => 1,
            Winner::Player2 => 2,
        }
    }

    /// Map the raw winner byte; anything but 1 or 2 is a structural decode
    /// failure naming that byte.
    pub fn from_u8(b: u8) -> (r: Result<Winner, Error>)
        ensures
            match r {
                Ok(w) => Winner::spec_of_byte(b) == Some(w),
                Err(e) => Winner::spec_of_byte(b) is None && (e matches
                    Error::StructuralDecodeFailure(df) && df@ == (DecodeFailV::BadWinnerByte {
                        byte: b,
                    })),
            },
    {
        match b {
            1 => Ok(Winner::Player1),
            2 => Ok(Winner::Player2),
            _ => Err(Error::StructuralDecodeFailure(DecodeFail::BadWinnerByte { byte: b })),
        }
    }
}

} // verus!
