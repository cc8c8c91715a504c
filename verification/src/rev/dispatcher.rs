//! The dispatcher: it hands positions to processors, applies their
//! results to the knowledge and knows when nothing is left to do.
//!
//! It decides and keeps count; it does not wait. Whoever drives it asks
//! for the next position of a processor, lets the processor work on it,
//! and reports when the work is done.
use crate::knowledge::model::Graph;
use crate::knowledge::Knowledge;
use crate::rev::processor::{Processor, Scheduled};
use std::collections::VecDeque;
use vstd::prelude::*;

verus! {

/// A processor's queue and counters, as the contracts speak of them.
pub struct LaneView {
    /// The places sent to the processor and not yet looked at, oldest first.
    pub pending: Seq<Scheduled>,
    /// How many places were sent to the processor.
    pub sent: int,
    /// How many of them are done with.
    pub completed: int,
    /// Whether the processor works on a place.
    pub busy: bool,
}

impl LaneView {
    /// Every place sent is pending, being worked on or done with.
    pub open spec fn wf(self) -> bool {
        &&& 0 <= self.completed
        &&& self.sent <= u64::MAX
        &&& self.sent == self.completed + self.pending.len() + (if self.busy {
            1int
        } else {
            0int
        })
    }

    /// The lane once the place `s` has been offered to it: it takes the
    /// place unless its counter is at its limit.
    pub open spec fn offered(self, s: Scheduled) -> LaneView {
        if self.sent < u64::MAX {
            LaneView { pending: self.pending.push(s), sent: self.sent + 1, ..self }
        } else {
            self
        }
    }

    /// The lane once the places `places[i..]` have been offered to it, but
    /// for those that do not exist in `g` and those that nothing follows.
    pub open spec fn offered_all(self, g: Graph, places: Seq<Scheduled>, i: int) -> LaneView
        decreases places.len() - i,
    {
        if i < 0 || i >= places.len() {
            self
        } else if places[i].fits(g) && !places[i].terminal(g) {
            self.offered(places[i]).offered_all(g, places, i + 1)
        } else {
            self.offered_all(g, places, i + 1)
        }
    }

    /// Offering places keeps the count right.
    pub proof fn offered_all_keeps_count(self, g: Graph, places: Seq<Scheduled>, i: int)
        requires
            self.wf(),
        ensures
            self.offered_all(g, places, i).wf(),
            self.offered_all(g, places, i).busy == self.busy,
            self.offered_all(g, places, i).completed == self.completed,
        decreases places.len() - i,
    {
        if i < 0 || i >= places.len() {
        } else if places[i].fits(g) && !places[i].terminal(g) {
            self.offered(places[i]).offered_all_keeps_count(g, places, i + 1);
        } else {
            self.offered_all_keeps_count(g, places, i + 1);
        }
    }
}

/// How many places were sent to the lanes, all in all.
pub open spec fn total_sent(lanes: Seq<LaneView>) -> int
    decreases lanes.len(),
{
    if lanes.len() == 0 {
        0
    } else {
        total_sent(lanes.drop_last()) + lanes.last().sent
    }
}

/// How many places the lanes are done with, all in all.
pub open spec fn total_completed(lanes: Seq<LaneView>) -> int
    decreases lanes.len(),
{
    if lanes.len() == 0 {
        0
    } else {
        total_completed(lanes.drop_last()) + lanes.last().completed
    }
}

/// No more is done with than was sent.
pub proof fn lemma_completed_within_sent(lanes: Seq<LaneView>)
    requires
        forall|i: int| 0 <= i < lanes.len() ==> (#[trigger] lanes[i]).wf(),
    ensures
        0 <= total_completed(lanes) <= total_sent(lanes),
    decreases lanes.len(),
{
    if lanes.len() > 0 {
        assert(lanes.last().wf());
        assert forall|i: int| 0 <= i < lanes.drop_last().len() implies (
        #[trigger] lanes.drop_last()[i]).wf() by {
            assert(lanes[i].wf());
        }
        lemma_completed_within_sent(lanes.drop_last());
    }
}

/// A count kept within 64 bits.
pub open spec fn capped(n: int) -> int {
    if n > u64::MAX {
        u64::MAX as int
    } else {
        n
    }
}

/// How far the review has come.
#[derive(Clone, Copy, Debug, PartialEq, Eq, Structural)]
pub struct Progress {
    /// The places sent to processors.
    pub total: u64,
    /// The places done with.
    pub completed: u64,
    /// The share of the places done with, in hundredths.
    pub percent: u8,
}

/// What came of asking a processor for its next place.
#[derive(Clone, Copy, Debug, PartialEq, Eq, Structural)]
pub enum Received {
    /// The processor is to work on the place.
    Process(Scheduled),
    /// The processor had a place and passed it over.
    Skipped,
    /// The processor works on a place already, or none is pending.
    Idle,
}

/// A processor with its queue and its counters.
pub struct ProcessorItem<P> {
    pub processor: P,
    /// The places sent to the processor and not yet looked at.
    pub pending: VecDeque<Scheduled>,
    /// How many places were sent to the processor.
    pub sent: u64,
    /// How many of them are done with.
    pub completed: u64,
    /// Whether the processor works on a place.
    pub busy: bool,
}

impl<P> View for ProcessorItem<P> {
    type V = LaneView;

    open spec fn view(&self) -> LaneView {
        LaneView {
            pending: self.pending@,
            sent: self.sent as int,
            completed: self.completed as int,
            busy: self.busy,
        }
    }
}

impl<P> ProcessorItem<P> {
    /// Offers the places to the processor, as `offered_all` says.
    fn offer(&mut self, knowledge: &Knowledge, places: &Vec<Scheduled>)
        requires
            old(self)@.wf(),
        ensures
            final(self)@ == old(self)@.offered_all(knowledge@, places@, 0),
            final(self).processor == old(self).processor,
            final(self)@.wf(),
    {
        let ghost g = knowledge@;
        let ghost start = self@;
        proof {
            start.offered_all_keeps_count(g, places@, 0);
        }
        let mut i: usize = 0;
        while i < places.len()
            invariant
                g == knowledge@,
                i <= places.len(),
                self@.wf(),
                self.processor == old(self).processor,
                start.offered_all(g, places@, 0) == self@.offered_all(g, places@, i as int),
            decreases places.len() - i,
        {
            let place = places[i];
            if place.is_in(knowledge) && !place.is_terminal(knowledge) && self.sent < u64::MAX {
                let ghost before = self@;
                self.pending.push_back(place);
                self.sent = self.sent + 1;
                assert(self@ == before.offered(place));
            }
            i += 1;
        }
    }
}

/// Gathers the processors of a dispatcher.
pub struct DispatcherBuilder<P> {
    pub processors: Vec<P>,
}

impl<P: Processor> DispatcherBuilder<P> {
    /// A builder without processors.
    pub fn new() -> (r: DispatcherBuilder<P>)
        ensures
            r.processors@.len() == 0,
    {
        DispatcherBuilder { processors: Vec::new() }
    }

    /// Adds a processor.
    pub fn with(&mut self, processor: P) -> (r: &mut DispatcherBuilder<P>)
        ensures
            r.processors@ == old(self).processors@.push(processor),
            *final(self) == *final(r),
    {
        self.processors.push(processor);
        self
    }

    /// The dispatcher of the processors gathered, to none of which
    /// anything has been sent.
    pub fn build(self) -> (r: Dispatcher<P>)
        ensures
            r.wf(),
            r.processors@.len() == self.processors@.len(),
            forall|i: int|
                0 <= i < r.processors@.len() ==> (#[trigger] r.processors@[i])@ == (LaneView {
                    pending: Seq::empty(),
                    sent: 0,
                    completed: 0,
                    busy: false,
                }) && r.processors@[i].processor == self.processors@[i],
    {
        let mut processors = self.processors;
        let mut items: Vec<ProcessorItem<P>> = Vec::new();
        let ghost n = processors@.len();
        while processors.len() > 0
            invariant
                items@.len() + processors@.len() == n,
                n == self.processors@.len(),
                forall|i: int|
                    0 <= i < processors@.len() ==> #[trigger] processors@[i]
                        == self.processors@[items@.len() + i],
                forall|i: int|
                    0 <= i < items@.len() ==> (#[trigger] items@[i])@ == (LaneView {
                        pending: Seq::empty(),
                        sent: 0,
                        completed: 0,
                        busy: false,
                    }) && items@[i].processor == self.processors@[i],
            decreases processors@.len(),
        {
            let processor = processors.remove(0);
            let item = ProcessorItem {
                processor,
                pending: VecDeque::new(),
                sent: 0,
                completed: 0,
                busy: false,
            };
            assert(item@.pending =~= Seq::<Scheduled>::empty());
            items.push(item);
        }
        Dispatcher { processors: items }
    }
}

/// The dispatcher.
pub struct Dispatcher<P> {
    pub processors: Vec<ProcessorItem<P>>,
}

impl<P: Processor> Dispatcher<P> {
    /// The queues and counters of the processors.
    pub open spec fn lanes(&self) -> Seq<LaneView> {
        Seq::new(self.processors@.len(), |i: int| self.processors@[i]@)
    }

    /// The count of every processor is right.
    pub open spec fn wf(&self) -> bool {
        forall|i: int| 0 <= i < self.processors@.len() ==> (#[trigger] self.processors@[i])@.wf()
    }

    /// Nothing is left to do: every processor is done with all that was
    /// sent to it.
    pub open spec fn finished(&self) -> bool {
        forall|i: int|
            0 <= i < self.processors@.len() ==> (#[trigger] self.processors@[i]).sent
                == self.processors@[i].completed
    }

    /// Where nothing is left to do, no place is pending and no processor
    /// works on one.
    pub proof fn finished_is_quiet(&self)
        requires
            self.wf(),
            self.finished(),
        ensures
            forall|i: int|
                0 <= i < self.processors@.len() ==> (#[trigger] self.processors@[i]).pending@.len()
                    == 0 && !self.processors@[i].busy,
    {
        assert forall|i: int| 0 <= i < self.processors@.len() implies (
        #[trigger] self.processors@[i]).pending@.len() == 0 && !self.processors@[i].busy by {
            assert(self.processors@[i]@.wf());
        }
    }

    /// A builder for a dispatcher.
    pub fn builder() -> (r: DispatcherBuilder<P>)
        ensures
            r.processors@.len() == 0,
    {
        DispatcherBuilder::new()
    }

    /// Sends each of the places to every processor, but for the places
    /// that do not exist and those that nothing follows.
    pub fn schedule(&mut self, knowledge: &Knowledge, places: &Vec<Scheduled>)
        requires
            old(self).wf(),
        ensures
            final(self).wf(),
            final(self).processors@.len() == old(self).processors@.len(),
            forall|i: int|
                0 <= i < final(self).processors@.len() ==> (#[trigger] final(self).processors@[i])@
                    == old(self).processors@[i]@.offered_all(knowledge@, places@, 0) && final(self).processors@[i].processor == old(self).processors@[i].processor,
    {
        let mut k: usize = 0;
        while k < self.processors.len()
            invariant
                k <= self.processors@.len(),
                self.processors@.len() == old(self).processors@.len(),
                old(self).wf(),
                forall|i: int|
                    0 <= i < k ==> (#[trigger] self.processors@[i])@ == old(self).processors@[i]@.offered_all(knowledge@, places@, 0)
                        && self.processors@[i].processor == old(self).processors@[i].processor
                        && self.processors@[i]@.wf(),
                forall|i: int|
                    k <= i < self.processors@.len() ==> #[trigger] self.processors@[i] == old(self).processors@[i],
            decreases self.processors@.len() - k,
        {
            assert(old(self).processors@[k as int]@.wf());
            self.processors[k].offer(knowledge, places);
            k += 1;
        }
    }

    /// Starts a review at the place after `hm` halfmoves of `variation`:
    /// the place is sent to every processor.
    pub fn dispatch(&mut self, knowledge: &Knowledge, variation: usize, hm: usize)
        requires
            old(self).wf(),
        ensures
            final(self).wf(),
            final(self).processors@.len() == old(self).processors@.len(),
            forall|i: int|
                0 <= i < final(self).processors@.len() ==> (#[trigger] final(self).processors@[i])@
                    == old(self).processors@[i]@.offered_all(
                    knowledge@,
                    seq![Scheduled { variation, hm }],
                    0,
                ) && final(self).processors@[i].processor == old(self).processors@[i].processor,
    {
        let mut places: Vec<Scheduled> = Vec::new();
        places.push(Scheduled::new(variation, hm));
        assert(places@ =~= seq![Scheduled { variation, hm }]);
        self.schedule(knowledge, &places);
    }

    /// Asks processor `lane` for its next place.
    ///
    /// A processor that works on a place or has none pending is idle. Else
    /// its oldest place is taken from the queue. The processor is asked
    /// whether it is to be analysed, unless the place does not exist: if
    /// so, the processor is busy with it from now on; if not, the place is
    /// done with.
    pub fn receive(&mut self, lane: usize, knowledge: &Knowledge) -> (r: Received)
        requires
            old(self).wf(),
            knowledge.sound(),
            lane < old(self).processors@.len(),
        ensures
            final(self).wf(),
            final(self).processors@.len() == old(self).processors@.len(),
            forall|i: int|
                0 <= i < final(self).processors@.len() && i != lane
                    ==> #[trigger] final(self).processors@[i] == old(self).processors@[i],
            final(self).processors@[lane as int].processor == old(self).processors@[lane as int].processor,
            ({
                let before = old(self).processors@[lane as int]@;
                let after = final(self).processors@[lane as int]@;
                match r {
                    Received::Idle => (before.busy || before.pending.len() == 0) && after == before,
                    Received::Process(s) => !before.busy && before.pending.len() > 0 && s
                        == before.pending[0] && s.fits(knowledge@) && after == (LaneView {
                        pending: before.pending.subrange(1, before.pending.len() as int),
                        busy: true,
                        ..before
                    }),
                    Received::Skipped => !before.busy && before.pending.len() > 0 && after == (
                    LaneView {
                        pending: before.pending.subrange(1, before.pending.len() as int),
                        completed: before.completed + 1,
                        ..before
                    }),
                }
            }),
            !old(self).processors@[lane as int].busy && old(self).processors@[lane as int].pending@.len() > 0
                ==> (r is Process <==> old(self).processors@[lane as int].pending@[0].fits(
                knowledge@,
            ) && old(self).processors@[lane as int].processor.wants(
                knowledge@,
                old(self).processors@[lane as int].pending@[0],
            )),
    {
        assert(self.processors@[lane as int]@.wf());
        if self.processors[lane].busy || self.processors[lane].pending.len() == 0 {
            return Received::Idle;
        }
        let place = match self.processors[lane].pending.pop_front() {
            Some(place) => place,
            None => {
                return Received::Idle;
            },
        };
        let take = place.is_in(knowledge) && self.processors[lane].processor.should_process(
            knowledge,
            &place,
        );
        if take {
            self.processors[lane].busy = true;
            Received::Process(place)
        } else {
            self.processors[lane].completed = self.processors[lane].completed + 1;
            Received::Skipped
        }
    }

    /// The processor `lane`, to be given the result of its work.
    pub fn processor_mut(&mut self, lane: usize) -> (r: &mut P)
        requires
            lane < old(self).processors@.len(),
        ensures
            *r == old(self).processors@[lane as int].processor,
            final(self).processors@.len() == old(self).processors@.len(),
            forall|i: int|
                0 <= i < final(self).processors@.len() && i != lane
                    ==> #[trigger] final(self).processors@[i] == old(self).processors@[i],
            final(self).processors@[lane as int]@ == old(self).processors@[lane as int]@,
            final(self).processors@[lane as int].processor == *final(r),
    {
        &mut self.processors[lane].processor
    }

    /// The processor `lane`.
    pub fn processor(&self, lane: usize) -> (r: &P)
        requires
            lane < self.processors@.len(),
        ensures
            *r == self.processors@[lane as int].processor,
    {
        &self.processors[lane].processor
    }

    /// Takes note that processor `lane` is done with its place, with or
    /// without a result: the place counts as completed, the results of
    /// the processor are applied to the knowledge, and the places that
    /// they name are sent to every processor. Those places are handed back.
    pub fn processed(&mut self, lane: usize, knowledge: &mut Knowledge) -> (r: Vec<Scheduled>)
        requires
            old(self).wf(),
            old(knowledge).sound(),
            lane < old(self).processors@.len(),
            old(self).processors@[lane as int].busy,
        ensures
            final(self).wf(),
            final(knowledge).sound(),
            old(knowledge).wf() ==> final(knowledge).wf(),
            (final(knowledge)@, r@) == old(self).processors@[lane as int].processor.outcome(
                old(knowledge)@,
            ),
            final(self).processors@.len() == old(self).processors@.len(),
            forall|i: int|
                0 <= i < final(self).processors@.len() ==> (#[trigger] final(self).processors@[i])@
                    == (if i == lane {
                    LaneView {
                        completed: old(self).processors@[i]@.completed + 1,
                        busy: false,
                        ..old(self).processors@[i]@
                    }
                } else {
                    old(self).processors@[i]@
                }).offered_all(final(knowledge)@, r@, 0),
    {
        assert(self.processors@[lane as int]@.wf());
        self.processors[lane].completed = self.processors[lane].completed + 1;
        self.processors[lane].busy = false;
        let next = self.processors[lane].processor.apply_results(knowledge);
        assert(self.wf()) by {
            assert forall|i: int| 0 <= i < self.processors@.len() implies (
            #[trigger] self.processors@[i])@.wf() by {
                assert(old(self).processors@[i]@.wf());
            }
        }
        self.schedule(knowledge, &next);
        next
    }

    /// Whether nothing is left to do.
    pub fn done(&self) -> (r: bool)
        ensures
            r == self.finished(),
    {
        let mut i: usize = 0;
        while i < self.processors.len()
            invariant
                i <= self.processors@.len(),
                forall|k: int|
                    0 <= k < i ==> (#[trigger] self.processors@[k]).sent
                        == self.processors@[k].completed,
            decreases self.processors@.len() - i,
        {
            if self.processors[i].sent != self.processors[i].completed {
                return false;
            }
            i += 1;
        }
        true
    }

    /// How far the review has come: the places sent and the places done
    /// with, over all processors and each kept within 64 bits, and their
    /// share. Never more is done with than was sent.
    pub fn heartbeat(&self) -> (r: Progress)
        requires
            self.wf(),
        ensures
            r.total == capped(total_sent(self.lanes())),
            r.completed == capped(total_completed(self.lanes())),
            r.completed <= r.total,
            r.percent <= 100,
            r.percent == (if r.total == 0 {
                100int
            } else {
                r.completed * 100 / (r.total as int)
            }),
    {
        let ghost lanes = self.lanes();
        let mut total: u64 = 0;
        let mut completed: u64 = 0;
        let mut i: usize = 0;
        assert(lanes.subrange(0, 0) =~= Seq::<LaneView>::empty());
        while i < self.processors.len()
            invariant
                self.wf(),
                lanes == self.lanes(),
                i <= self.processors@.len(),
                0 <= total_completed(lanes.subrange(0, i as int)),
                total == capped(total_sent(lanes.subrange(0, i as int))),
                completed == capped(total_completed(lanes.subrange(0, i as int))),
            decreases self.processors@.len() - i,
        {
            let item = &self.processors[i];
            proof {
                assert(lanes.subrange(0, i + 1).drop_last() =~= lanes.subrange(0, i as int));
                assert(lanes.subrange(0, i + 1).last() == item@);
                assert(item@.wf());
                assert forall|k: int| 0 <= k < i implies (#[trigger] lanes.subrange(
                    0,
                    i as int,
                )[k]).wf() by {
                    assert(self.processors@[k]@.wf());
                }
                lemma_completed_within_sent(lanes.subrange(0, i as int));
            }
            total = if total > u64::MAX - item.sent {
                u64::MAX
            } else {
                total + item.sent
            };
            completed = if completed > u64::MAX - item.completed {
                u64::MAX
            } else {
                completed + item.completed
            };
            i += 1;
        }
        proof {
            assert(lanes.subrange(0, self.processors@.len() as int) =~= lanes);
            assert forall|k: int| 0 <= k < lanes.len() implies (#[trigger] lanes[k]).wf() by {
                assert(self.processors@[k]@.wf());
            }
            lemma_completed_within_sent(lanes);
        }
        let percent: u8 = if total == 0 {
            100
        } else {
            let wide: u128 = (completed as u128) * 100 / (total as u128);
            assert(wide <= 100) by (nonlinear_arith)
                requires
                    wide == (completed as int) * 100 / (total as int),
                    0 <= completed <= total,
                    total > 0,
            ;
            wide as u8
        };
        Progress { total, completed, percent }
    }
}

} // verus!
