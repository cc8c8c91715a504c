//! Engine evaluations and their order.
use crate::text::{decimal, put_decimal, put_signed, signed_decimal};
use std::cmp::Ordering;
use vstd::prelude::*;

verus! {

/// An engine's evaluation of a position.
#[derive(Clone, Copy, Debug, PartialEq, Eq, Structural)]
pub enum Score {
    /// Centipawns, from the point of view of the side the score is given for.
    Cp(i16),
    /// Moves to mate; negative where that side is the one being mated.
    Mate(i8),
}

impl Score {
    /// The place of a score in the order from worst to best: being mated
    /// below every centipawn score, mating above. A mate in fewer moves is
    /// better; among the scores of the side being mated the greater number
    /// is better. No two scores share a place.
    pub open spec fn rank(self) -> int {
        match self {
            Score::Cp(cp) => cp as int,
            Score::Mate(m) => if m >= 0 {
                100_000 - m
            } else {
                -100_000 + m
            },
        }
    }

    /// Whether the score has an opposite: the least value of either kind
    /// has none.
    pub open spec fn reversible(self) -> bool {
        match self {
            Score::Cp(cp) => cp > i16::MIN,
            Score::Mate(m) => m > i8::MIN,
        }
    }

    /// The same evaluation from the other side's point of view.
    pub open spec fn reversed(self) -> Score {
        match self {
            Score::Cp(cp) => Score::Cp((-cp) as i16),
            Score::Mate(m) => Score::Mate((-m) as i8),
        }
    }

    /// The hundreds of a centipawn value, rounded towards zero.
    pub open spec fn pawns(cp: int) -> int {
        if cp >= 0 {
            cp / 100
        } else {
            -((-cp) / 100)
        }
    }

    /// The last two digits of a centipawn value, without its sign.
    pub open spec fn hundredths(cp: int) -> nat {
        if cp >= 0 {
            (cp % 100) as nat
        } else {
            ((-cp) % 100) as nat
        }
    }

    /// The score as it is written in a comment: pawns, a dot and the
    /// hundredths for centipawns, `#` and the number of moves for a mate.
    pub open spec fn notation(self) -> Seq<u8> {
        match self {
            Score::Cp(cp) => signed_decimal(Score::pawns(cp as int)) + seq![46u8] + decimal(
                Score::hundredths(cp as int),
            ),
            Score::Mate(m) => seq![35u8] + signed_decimal(m as int),
        }
    }

    /// Turns the evaluation round to the other side's point of view.
    pub fn rev(self) -> (r: Score)
        requires
            self.reversible(),
        ensures
            r == self.reversed(),
            r.reversible(),
            r.reversed() == self,
    {
        match self {
            Score::Cp(cp) => Score::Cp(-cp),
            Score::Mate(m) => Score::Mate(-m),
        }
    }

    /// Turns the evaluation round where it has an opposite.
    pub fn checked_rev(self) -> (r: Option<Score>)
        ensures
            r == (if self.reversible() {
                Some(self.reversed())
            } else {
                None
            }),
    {
        match self {
            Score::Cp(cp) => if cp > i16::MIN {
                Some(Score::Cp(-cp))
            } else {
                None
            },
            Score::Mate(m) => if m > i8::MIN {
                Some(Score::Mate(-m))
            } else {
                None
            },
        }
    }

    /// Computes the place of the score in the order.
    pub fn rank_value(&self) -> (r: i32)
        ensures
            r == self.rank(),
    {
        match *self {
            Score::Cp(cp) => cp as i32,
            Score::Mate(m) => if m >= 0 {
                100_000 - m as i32
            } else {
                -100_000 + m as i32
            },
        }
    }

    /// Writes the score as `notation` says.
    pub fn to_text(&self) -> (r: Vec<u8>)
        ensures
            r@ == self.notation(),
    {
        let mut out: Vec<u8> = Vec::new();
        match *self {
            Score::Cp(cp) => {
                let wide: i64 = cp as i64;
                let h: i64 = wide / 100;
                let l: i64 = if wide >= 0 {
                    wide % 100
                } else {
                    (-wide) % 100
                };
                assert(h == Score::pawns(cp as int));
                put_signed(&mut out, h);
                out.push(46u8);
                put_decimal(&mut out, l as u64);
                assert(out@ =~= self.notation());
            },
            Score::Mate(m) => {
                out.push(35u8);
                put_signed(&mut out, m as i64);
                assert(out@ =~= self.notation());
            },
        }
        out
    }
}

impl Score {
    /// How `self` stands to `other` in the order of scores.
    pub open spec fn compare(self, other: Score) -> Ordering {
        if self.rank() < other.rank() {
            Ordering::Less
        } else if self.rank() > other.rank() {
            Ordering::Greater
        } else {
            Ordering::Equal
        }
    }

    /// Compares two scores; the better one is the greater.
    pub fn cmp(&self, other: &Score) -> (r: Ordering)
        ensures
            r == self.compare(*other),
    {
        let a: i32 = self.rank_value();
        let b: i32 = other.rank_value();
        if a < b {
            Ordering::Less
        } else if a > b {
            Ordering::Greater
        } else {
            Ordering::Equal
        }
    }

    /// The order is antisymmetric: two scores compare as equal only if they
    /// are the same score, and one is less than the other exactly if the
    /// other is greater than it.
    pub proof fn order_antisymmetric(a: Score, b: Score)
        ensures
            a.compare(b) == Ordering::Equal <==> a == b,
            a.compare(b) == Ordering::Less <==> b.compare(a) == Ordering::Greater,
    {
    }

    /// The order is transitive.
    pub proof fn order_transitive(a: Score, b: Score, c: Score)
        requires
            a.compare(b) != Ordering::Greater,
            b.compare(c) != Ordering::Greater,
        ensures
            a.compare(c) != Ordering::Greater,
            a.compare(b) == Ordering::Less || b.compare(c) == Ordering::Less ==> a.compare(c)
                == Ordering::Less,
    {
    }

    /// The order is total: of two scores one is less, or they are the same,
    /// or the first is greater, and only one of the three holds.
    pub proof fn order_total(a: Score, b: Score)
        ensures
            a.compare(b) == Ordering::Less || a == b || b.compare(a) == Ordering::Less,
            !(a.compare(b) == Ordering::Less && b.compare(a) == Ordering::Less),
            a == b ==> a.compare(b) == Ordering::Equal,
    {
    }

    /// Every mate for the side to move is better than every centipawn score,
    /// and every centipawn score better than every mate against it.
    pub proof fn order_of_kinds(won: i8, cp: i16, lost: i8)
        requires
            won >= 0,
            lost < 0,
        ensures
            Score::Mate(won).compare(Score::Cp(cp)) == Ordering::Greater,
            Score::Cp(cp).compare(Score::Mate(lost)) == Ordering::Greater,
    {
    }
}

impl PartialOrd for Score {
    fn partial_cmp(&self, other: &Score) -> (r: Option<Ordering>) {
        Some(self.cmp(other))
    }
}

impl vstd::std_specs::cmp::PartialOrdSpecImpl for Score {
    open spec fn obeys_partial_cmp_spec() -> bool {
        true
    }

    open spec fn partial_cmp_spec(&self, other: &Score) -> Option<Ordering> {
        Some(self.compare(*other))
    }
}

} // verus!
