//! Move numbers as a game record writes them.
use crate::chess::{Color, Position};
use crate::text::{decimal, lit, put_decimal, put_lit};
use std::cmp::Ordering;
use vstd::prelude::*;

verus! {

/// The number of a move and the side that makes it.
#[derive(Clone, Copy, Debug, PartialEq, Eq, Structural)]
pub struct MoveNo {
    pub number: u32,
    pub color: Color,
}

impl MoveNo {
    /// The number of the move to be played in `pos`.
    pub fn new(pos: &Position) -> (r: MoveNo)
        ensures
            r == (MoveNo { number: pos.fullmoves, color: pos.turn }),
    {
        MoveNo { number: pos.fullmoves(), color: pos.turn() }
    }

    /// The number of the move after this one: Black's move has the number
    /// of White's before it, White's the next number, and the greatest
    /// number is its own successor.
    pub open spec fn following(self) -> MoveNo {
        match self.color {
            Color::White => MoveNo { number: self.number, color: Color::Black },
            Color::Black => MoveNo {
                number: if self.number == u32::MAX {
                    self.number
                } else {
                    (self.number + 1) as u32
                },
                color: Color::White,
            },
        }
    }

    /// The number of the move `k` halfmoves after this one.
    pub open spec fn after(self, k: nat) -> MoveNo
        decreases k,
    {
        if k == 0 {
            self
        } else {
            self.after((k - 1) as nat).following()
        }
    }

    /// The place of the move in a game: twice its number, and one more for
    /// Black.
    pub open spec fn rank(self) -> int {
        2 * self.number + (match self.color {
            Color::White => 0int,
            Color::Black => 1int,
        })
    }

    /// The number as it is written before a move: `N.` before White's,
    /// `N...` before Black's.
    pub open spec fn label(self) -> Seq<u8> {
        decimal(self.number as nat) + (match self.color {
            Color::White => lit("."),
            Color::Black => lit("..."),
        })
    }

    /// The number of the next move.
    pub fn next(self) -> (r: MoveNo)
        ensures
            r == self.following(),
    {
        match self.color {
            Color::White => MoveNo { number: self.number, color: Color::Black },
            Color::Black => MoveNo {
                number: if self.number == u32::MAX {
                    self.number
                } else {
                    self.number + 1
                },
                color: Color::White,
            },
        }
    }

    /// Computes the place of the move in a game.
    pub fn rank_value(&self) -> (r: u64)
        ensures
            r == self.rank(),
    {
        let side: u64 = match self.color {
            Color::White => 0,
            Color::Black => 1,
        };
        2 * (self.number as u64) + side
    }

    /// Writes the number as `label` says.
    pub fn to_text(&self) -> (r: Vec<u8>)
        ensures
            r@ == self.label(),
    {
        let mut out: Vec<u8> = Vec::new();
        put_decimal(&mut out, self.number as u64);
        match self.color {
            Color::White => put_lit(&mut out, "."),
            Color::Black => put_lit(&mut out, "..."),
        }
        out
    }
}

impl MoveNo {
    /// How this move stands to `other` in the order of play.
    pub open spec fn compare(self, other: MoveNo) -> Ordering {
        if self.rank() < other.rank() {
            Ordering::Less
        } else if self.rank() > other.rank() {
            Ordering::Greater
        } else {
            Ordering::Equal
        }
    }

    /// Compares two move numbers by the order of play.
    pub fn cmp(&self, other: &MoveNo) -> (r: Ordering)
        ensures
            r == self.compare(*other),
    {
        let a: u64 = self.rank_value();
        let b: u64 = other.rank_value();
        if a < b {
            Ordering::Less
        } else if a > b {
            Ordering::Greater
        } else {
            Ordering::Equal
        }
    }
}

impl PartialOrd for MoveNo {
    fn partial_cmp(&self, other: &MoveNo) -> (r: Option<Ordering>) {
        Some(self.cmp(other))
    }
}

impl vstd::std_specs::cmp::PartialOrdSpecImpl for MoveNo {
    open spec fn obeys_partial_cmp_spec() -> bool {
        true
    }

    open spec fn partial_cmp_spec(&self, other: &MoveNo) -> Option<Ordering> {
        Some(self.compare(*other))
    }
}

} // verus!
