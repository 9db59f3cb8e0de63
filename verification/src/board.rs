//! The boards and fans that are supported, and how the controller addresses
//! each fan.

use crate::text::same_text;
use vstd::prelude::*;

verus! {

/// A supported board.
#[derive(Debug, Clone, Copy, PartialEq, Eq, Structural)]
pub enum Board {
    Ga401,
}

/// The board that goes by `name`: the name has to match exactly.
pub open spec fn board_named(name: Seq<char>) -> Option<Board> {
    if name == "GA401IV"@ {
        Some(Board::Ga401)
    } else {
        None
    }
}

impl Board {
    /// Looks a board up by the name that its firmware reports.
    pub fn from_name(name: &str) -> (r: Option<Board>)
        ensures
            r == board_named(name@),
    {
        if same_text(name, "GA401IV") {
            Some(Board::Ga401)
        } else {
            None
        }
    }
}

/// A fan, some boards may not have all fans.
#[derive(Debug, Clone, Copy, PartialEq, Eq, Structural)]
pub enum Fan {
    Cpu,
    Gpu,
}

impl Fan {
    /// The parameter by which the controller knows the fan, if the board has
    /// it.
    pub open spec fn spec_address(self) -> Option<u32> {
        match self {
            Fan::Cpu => Some(0x40u32),
            Fan::Gpu => Some(0x44u32),
        }
    }

    /// The fan's name.
    pub open spec fn spec_name(self) -> Seq<char> {
        match self {
            Fan::Cpu => "Cpu"@,
            Fan::Gpu => "Gpu"@,
        }
    }

    /// The parameter by which the controller knows the fan, if the board has
    /// it. Both fans have one.
    pub fn address(&self) -> (r: Option<u32>)
        ensures
            r == self.spec_address(),
            r is Some,
    {
        match self {
            Fan::Cpu => Some(0x40),
            Fan::Gpu => Some(0x44),
        }
    }

    /// The fan's name.
    pub fn name(&self) -> (r: &'static str)
        ensures
            r@ == self.spec_name(),
    {
        match self {
            Fan::Cpu => "Cpu",
            Fan::Gpu => "Gpu",
        }
    }
}

} // verus!
