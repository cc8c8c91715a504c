//! What a processor of positions is asked to work on, and what it owes
//! the dispatcher.
use crate::knowledge::model::Graph;
use crate::knowledge::Knowledge;
use vstd::prelude::*;

verus! {

/// A place in a variation that is to be analysed.
#[derive(Clone, Copy, Debug, PartialEq, Eq, Structural)]
pub struct Scheduled {
    /// The variation to add a move to.
    pub variation: usize,
    /// The number of halfmoves after which to analyse it.
    pub hm: usize,
}

impl Scheduled {
    /// The place after `hm` halfmoves of `variation`.
    pub fn new(variation: usize, hm: usize) -> (r: Scheduled)
        ensures
            r.variation == variation,
            r.hm == hm,
    {
        Scheduled { variation, hm }
    }

    /// The place exists: the variation does, and has that many halfmoves.
    pub open spec fn fits(self, g: Graph) -> bool {
        self.variation < g.variations.len() && self.hm <= g.variations[self.variation as int].moves.len()
    }

    /// The place is the end of a variation that has an outcome: nothing
    /// follows it.
    pub open spec fn terminal(self, g: Graph) -> bool {
        self.hm == g.variations[self.variation as int].moves.len()
            && g.variations[self.variation as int].outcome is Some
    }

    /// A place at which the game is over is terminal: such a place is
    /// never sent to a processor.
    pub proof fn over_is_terminal(self, g: Graph)
        requires
            g.sound(),
            self.fits(g),
            g.positions[g.variations[self.variation as int].positions[self.hm as int]].outcome
                is Some,
        ensures
            self.terminal(g),
    {
        g.over_is_the_end(self.variation as int, self.hm as int);
    }

    /// Tests whether the place exists.
    pub fn is_in(&self, knowledge: &Knowledge) -> (r: bool)
        ensures
            r == self.fits(knowledge@),
    {
        if self.variation >= knowledge.variations.len() {
            return false;
        }
        assert(knowledge@.variations[self.variation as int]
            == knowledge.variations[self.variation as int]@);
        self.hm <= knowledge.variations[self.variation].moves.len()
    }

    /// Tests whether nothing follows the place.
    pub fn is_terminal(&self, knowledge: &Knowledge) -> (r: bool)
        requires
            self.fits(knowledge@),
        ensures
            r == self.terminal(knowledge@),
    {
        assert(knowledge@.variations[self.variation as int]
            == knowledge.variations[self.variation as int]@);
        self.hm == knowledge.variations[self.variation].moves.len()
            && knowledge.variations[self.variation].outcome.is_some()
    }
}

/// Something that analyses positions. The analysis itself happens
/// elsewhere; what a processor decides here is whether a position is worth
/// analysing, and what its results do to the knowledge.
pub trait Processor {
    /// Whether the processor wants to analyse the place `at` of `g`.
    spec fn wants(&self, g: Graph, at: Scheduled) -> bool;

    /// What the results that the processor holds make of `g`, and the
    /// places that they name for analysis.
    spec fn outcome(&self, g: Graph) -> (Graph, Seq<Scheduled>);

    /// Whether the position is to be analysed.
    fn should_process(&self, knowledge: &Knowledge, at: &Scheduled) -> (r: bool)
        requires
            knowledge.sound(),
            at.fits(knowledge@),
        ensures
            r == self.wants(knowledge@, *at),
    ;

    /// Applies the results gathered so far to the knowledge, and says
    /// which places are to be analysed next.
    fn apply_results(&mut self, knowledge: &mut Knowledge) -> (r: Vec<Scheduled>)
        requires
            old(knowledge).sound(),
        ensures
            final(knowledge).sound(),
            old(knowledge).wf() ==> final(knowledge).wf(),
            (final(knowledge)@, r@) == old(self).outcome(old(knowledge)@),
    ;
}

} // verus!
