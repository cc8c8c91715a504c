//! Short forms of values for a log: an optional value without its `Some`,
//! a position as its FEN, a line of moves between angle brackets.
use crate::chess::{Move, Position, UciMove};
use crate::text::{lit, put, put_lit};
use vstd::prelude::*;

verus! {

/// The texts of a list with one space between them.
pub open spec fn joined(list: Seq<Seq<u8>>) -> Seq<u8>
    decreases list.len(),
{
    if list.len() == 0 {
        Seq::empty()
    } else if list.len() == 1 {
        list[0]
    } else {
        joined(list.drop_last()) + seq![32u8] + list.last()
    }
}

/// A text between the bytes `open` and `close`.
pub open spec fn enclosed(open: u8, text: Seq<u8>, close: u8) -> Seq<u8> {
    seq![open] + text + seq![close]
}

/// A value that has a short form.
pub trait FlatOptExt {
    /// The short form.
    spec fn flat(&self) -> Seq<u8>;

    /// Writes the short form.
    fn fmt(&self) -> (r: Vec<u8>)
        ensures
            r@ == self.flat(),
    ;
}

/// Shows an optional value as the value itself, or as `None`.
pub struct FlatOpt<'a, T>(pub &'a Option<T>);

impl<'a, T: FlatOptExt> FlatOpt<'a, T> {
    /// The short form of the value, or `None`.
    pub open spec fn flat(&self) -> Seq<u8> {
        match self.0 {
            Some(t) => t.flat(),
            None => lit("None"),
        }
    }

    /// Writes the short form.
    pub fn fmt(&self) -> (r: Vec<u8>)
        ensures
            r@ == self.flat(),
    {
        match self.0 {
            Some(t) => t.fmt(),
            None => {
                let mut out: Vec<u8> = Vec::new();
                put_lit(&mut out, "None");
                out
            },
        }
    }
}

/// A value that is shown as a FEN.
pub trait DFenExt {
    /// The FEN.
    spec fn fen_text(&self) -> Seq<u8>;

    /// Writes the FEN between square brackets.
    fn fmt(&self) -> (r: Vec<u8>)
        ensures
            r@ == enclosed(91u8, self.fen_text(), 93u8),
    ;
}

impl DFenExt for Position {
    open spec fn fen_text(&self) -> Seq<u8> {
        self@
    }

    fn fmt(&self) -> (r: Vec<u8>) {
        let mut out: Vec<u8> = Vec::new();
        out.push(91u8);
        put(&mut out, self.fen());
        out.push(93u8);
        out
    }
}

impl DFenExt for Option<Position> {
    open spec fn fen_text(&self) -> Seq<u8> {
        match self {
            Some(pos) => pos@,
            None => lit("init"),
        }
    }

    fn fmt(&self) -> (r: Vec<u8>) {
        let mut out: Vec<u8> = Vec::new();
        out.push(91u8);
        match self {
            Some(pos) => put(&mut out, pos.fen()),
            None => put_lit(&mut out, "init"),
        }
        out.push(93u8);
        out
    }
}

/// Shows a value as its FEN.
pub struct DFen<'a, T>(pub &'a T);

impl<'a, T: DFenExt> DFen<'a, T> {
    /// Writes the FEN between square brackets.
    pub fn fmt(&self) -> (r: Vec<u8>)
        ensures
            r@ == enclosed(91u8, self.0.fen_text(), 93u8),
    {
        self.0.fmt()
    }
}

/// A value that is shown as a line of moves.
pub trait LineExt {
    /// The texts of the moves.
    spec fn line(&self) -> Seq<Seq<u8>>;

    /// Writes the moves between angle brackets, with one space between them.
    fn fmt(&self) -> (r: Vec<u8>)
        ensures
            r@ == enclosed(60u8, joined(self.line()), 62u8),
    ;
}

impl LineExt for Vec<UciMove> {
    open spec fn line(&self) -> Seq<Seq<u8>> {
        Seq::new(self.len() as nat, |i: int| self[i]@)
    }

    fn fmt(&self) -> (r: Vec<u8>) {
        let mut out: Vec<u8> = Vec::new();
        out.push(60u8);
        let mut i: usize = 0;
        assert(self.line().subrange(0, 0) =~= Seq::<Seq<u8>>::empty());
        while i < self.len()
            invariant
                i <= self.len(),
                out@ == seq![60u8] + joined(self.line().subrange(0, i as int)),
            decreases self.len() - i,
        {
            if i > 0 {
                out.push(32u8);
            }
            put(&mut out, self[i].as_bytes());
            assert(self.line().subrange(0, i + 1).drop_last() =~= self.line().subrange(
                0,
                i as int,
            ));
            i += 1;
        }
        assert(self.line().subrange(0, self.len() as int) =~= self.line());
        out.push(62u8);
        out
    }
}

impl LineExt for Vec<Move> {
    open spec fn line(&self) -> Seq<Seq<u8>> {
        Seq::new(self.len() as nat, |i: int| self[i]@)
    }

    fn fmt(&self) -> (r: Vec<u8>) {
        let mut out: Vec<u8> = Vec::new();
        out.push(60u8);
        let mut i: usize = 0;
        assert(self.line().subrange(0, 0) =~= Seq::<Seq<u8>>::empty());
        while i < self.len()
            invariant
                i <= self.len(),
                out@ == seq![60u8] + joined(self.line().subrange(0, i as int)),
            decreases self.len() - i,
        {
            if i > 0 {
                out.push(32u8);
            }
            put(&mut out, self[i].as_bytes());
            assert(self.line().subrange(0, i + 1).drop_last() =~= self.line().subrange(
                0,
                i as int,
            ));
            i += 1;
        }
        assert(self.line().subrange(0, self.len() as int) =~= self.line());
        out.push(62u8);
        out
    }
}

/// Shows a value as a line of moves.
pub struct Line<'a, T>(pub &'a T);

impl<'a, T: LineExt> Line<'a, T> {
    /// Writes the moves between angle brackets.
    pub fn fmt(&self) -> (r: Vec<u8>)
        ensures
            r@ == enclosed(60u8, joined(self.0.line()), 62u8),
    {
        self.0.fmt()
    }
}

/// A value that is shown as a move.
pub trait MovExt {
    /// The text of the move.
    spec fn mov(&self) -> Seq<u8>;

    /// Writes the move.
    fn fmt(&self) -> (r: Vec<u8>)
        ensures
            r@ == self.mov(),
    ;
}

impl MovExt for Move {
    open spec fn mov(&self) -> Seq<u8> {
        self@
    }

    fn fmt(&self) -> (r: Vec<u8>) {
        self.copy().text
    }
}

impl MovExt for UciMove {
    open spec fn mov(&self) -> Seq<u8> {
        self@
    }

    fn fmt(&self) -> (r: Vec<u8>) {
        self.copy().text
    }
}

/// Shows a value as a move.
pub struct Mov<'a, T>(pub &'a T);

impl<'a, T: MovExt> Mov<'a, T> {
    /// Writes the move.
    pub fn fmt(&self) -> (r: Vec<u8>)
        ensures
            r@ == self.0.mov(),
    {
        self.0.fmt()
    }
}

impl FlatOptExt for crate::uci::score::Score {
    open spec fn flat(&self) -> Seq<u8> {
        self.notation()
    }

    fn fmt(&self) -> (r: Vec<u8>) {
        self.to_text()
    }
}

impl FlatOptExt for crate::chess::Outcome {
    open spec fn flat(&self) -> Seq<u8> {
        match self {
            crate::chess::Outcome::Draw => lit("1/2-1/2"),
            crate::chess::Outcome::Decisive { winner: crate::chess::Color::White } => lit("1-0"),
            crate::chess::Outcome::Decisive { winner: crate::chess::Color::Black } => lit("0-1"),
        }
    }

    fn fmt(&self) -> (r: Vec<u8>) {
        let mut out: Vec<u8> = Vec::new();
        match self {
            crate::chess::Outcome::Draw => put_lit(&mut out, "1/2-1/2"),
            crate::chess::Outcome::Decisive { winner: crate::chess::Color::White } => put_lit(
                &mut out,
                "1-0",
            ),
            crate::chess::Outcome::Decisive { winner: crate::chess::Color::Black } => put_lit(
                &mut out,
                "0-1",
            ),
        }
        out
    }
}

} // verus!
