//! Plain values mirroring the official draw page's prize-grade entries.

use vstd::prelude::*;

use crate::error::Error;

verus! {

/// The seven prize grades of a draw.
#[derive(Clone, Copy, Debug, PartialEq, Eq, Structural)]
pub enum OfficialPrizeGradeType {
    Level1,
    Level2,
    Level3,
    Level4,
    Level5,
    Level6,
    Level7,
}

impl OfficialPrizeGradeType {
    /// The grade's level number, from one (the highest) to seven.
    pub open spec fn spec_level(self) -> u8 {
        match self {
            OfficialPrizeGradeType::Level1 => 1,
            OfficialPrizeGradeType::Level2 => 2,
            OfficialPrizeGradeType::Level3 => 3,
            OfficialPrizeGradeType::Level4 => 4,
            OfficialPrizeGradeType::Level5 => 5,
            OfficialPrizeGradeType::Level6 => 6,
            OfficialPrizeGradeType::Level7 => 7,
        }
    }

    pub fn level(&self) -> (r: u8)
        ensures
            r == self.spec_level(),
    {
        match self {
            OfficialPrizeGradeType::Level1 => 1,
            OfficialPrizeGradeType::Level2 => 2,
            OfficialPrizeGradeType::Level3 => 3,
            OfficialPrizeGradeType::Level4 => 4,
            OfficialPrizeGradeType::Level5 => 5,
            OfficialPrizeGradeType::Level6 => 6,
            OfficialPrizeGradeType::Level7 => 7,
        }
    }

    /// The grade of the given level number; levels outside one to seven are
    /// rejected.
    pub fn from_level(level: u8) -> (r: Result<Self, Error>)
        ensures
            r is Ok <==> 1 <= level <= 7,
            r matches Ok(g) ==> g.spec_level() == level,
    {
        match level {
            1 => Ok(OfficialPrizeGradeType::Level1),
            2 => Ok(OfficialPrizeGradeType::Level2),
            3 => Ok(OfficialPrizeGradeType::Level3),
            4 => Ok(OfficialPrizeGradeType::Level4),
            5 => Ok(OfficialPrizeGradeType::Level5),
            6 => Ok(OfficialPrizeGradeType::Level6),
            7 => Ok(OfficialPrizeGradeType::Level7),
            _ => Err(Error::InvalidBallValue(level)),
        }
    }
}

/// One prize grade of a draw: the grade, how many tickets won it, and the
/// prize money as the official page prints it.
#[derive(Clone, Debug)]
pub struct OfficialPrizeGrade {
    pub prize_type: OfficialPrizeGradeType,
    pub prize_type_number: u64,
    pub prize_type_money: String,
}

} // verus!
