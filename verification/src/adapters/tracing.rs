//! How a position is recorded in a trace.
use crate::chess::Position;
use vstd::prelude::*;

verus! {

/// A value with a form of its own for a trace.
pub trait TracingAdapt {
    /// The form in which the value is recorded.
    spec fn traced(&self) -> Seq<u8>;

    /// Writes the value as it is recorded.
    fn tr(&self) -> (r: Vec<u8>)
        ensures
            r@ == self.traced(),
    ;
}

impl TracingAdapt for Position {
    /// A position is recorded as its FEN.
    open spec fn traced(&self) -> Seq<u8> {
        self@
    }

    fn tr(&self) -> (r: Vec<u8>) {
        self.copy().fen
    }
}

} // verus!
