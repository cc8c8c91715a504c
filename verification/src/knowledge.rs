//! What the review has learned: positions, each held once, and the
//! variations that run through them.
use crate::chess::{Move, Outcome, Position};
use crate::knowledge::model::{count, Graph, KnowledgeError, LineView, PosView};
use crate::uci::score::Score;
use vstd::prelude::*;

pub mod model;
pub mod number;
pub mod pgn;

verus! {

/// The texts of a list of moves.
pub open spec fn move_texts(moves: Seq<Move>) -> Seq<Seq<u8>> {
    Seq::new(moves.len(), |i: int| moves[i]@)
}

/// A list of indices as integers.
pub open spec fn indices(list: Seq<usize>) -> Seq<int> {
    Seq::new(list.len(), |i: int| list[i] as int)
}

/// One way in which positions follow each other. A variation may come back
/// to a position; when it does so for the second time, the game is drawn.
#[derive(Debug)]
pub struct Variation {
    /// The moves of the variation.
    pub moves: Vec<Move>,
    /// The indices of its positions, the root first: the position after the
    /// move `i` is at `i + 1`.
    pub positions: Vec<usize>,
    /// The outcome after the last move.
    pub outcome: Option<Outcome>,
}

impl View for Variation {
    type V = LineView;

    open spec fn view(&self) -> LineView {
        LineView {
            moves: move_texts(self.moves@),
            positions: indices(self.positions@),
            outcome: self.outcome,
        }
    }
}

impl Variation {
    /// A variation without moves that ends at the root.
    pub fn new(outcome: Option<Outcome>) -> (r: Variation)
        ensures
            r@ == (LineView { moves: Seq::empty(), positions: seq![0int], outcome }),
    {
        let mut positions: Vec<usize> = Vec::new();
        positions.push(0);
        let r = Variation { moves: Vec::new(), positions, outcome };
        assert(r@.moves =~= Seq::<Seq<u8>>::empty());
        assert(r@.positions =~= seq![0int]);
        r
    }

    /// Whether the last position occurs for the third time or more. Only
    /// the last position can: a variation is not extended after that.
    pub fn repetition(&self) -> (r: bool)
        ensures
            self.positions.len() > 0 ==> r == (count(self@.positions, self@.positions.last())
                >= 3),
            self.positions.len() == 0 ==> !r,
    {
        let n: usize = self.positions.len();
        if n == 0 {
            return false;
        }
        let last: usize = self.positions[n - 1];
        let ghost s = self@.positions;
        let mut seen: usize = 0;
        let mut i: usize = 0;
        assert(s.subrange(0, 0) =~= Seq::<int>::empty());
        while i < n
            invariant
                n == self.positions.len(),
                s == self@.positions,
                i <= n,
                seen <= i,
                seen == count(s.subrange(0, i as int), last as int),
            decreases n - i,
        {
            assert(s.subrange(0, i + 1).drop_last() =~= s.subrange(0, i as int));
            if self.positions[i] == last {
                seen += 1;
            }
            i += 1;
        }
        assert(s.subrange(0, n as int) =~= s);
        seen >= 3
    }

    /// The moves of the variation.
    pub fn moves(&self) -> (r: &[Move])
        ensures
            r@ == self.moves@,
    {
        self.moves.as_slice()
    }

    /// The outcome of the variation.
    pub fn outcome(&self) -> (r: Option<&Outcome>)
        ensures
            match r {
                Some(o) => self.outcome == Some(*o),
                None => self.outcome is None,
            },
    {
        self.outcome.as_ref()
    }

    /// Takes one more move, which ends in position `p`, where the game has
    /// the outcome `terminal`.
    fn take(&mut self, mov: Move, p: usize, terminal: Option<Outcome>)
        ensures
            final(self)@.moves == old(self)@.moves.push(mov@),
            final(self)@.positions == old(self)@.positions.push(p as int),
            final(self).outcome == (match terminal {
                Some(o) => Some(o),
                None => if count(final(self)@.positions, p as int) >= 3 {
                    Some(Outcome::Draw)
                } else {
                    None
                },
            }),
    {
        let ghost before = *self;
        self.moves.push(mov);
        self.positions.push(p);
        assert(self@.moves =~= before@.moves.push(mov@));
        assert(self@.positions =~= before@.positions.push(p as int));
        assert(self@.positions.last() == p);
        let repeated = self.repetition();
        self.outcome = match terminal {
            Some(o) => Some(o),
            None => if repeated {
                Some(Outcome::Draw)
            } else {
                None
            },
        };
        assert(self@.moves =~= before@.moves.push(mov@));
        assert(self@.positions =~= before@.positions.push(p as int));
    }

    /// The first `hm` moves of the variation as one of their own, still
    /// without an outcome.
    fn prefix(&self, hm: usize) -> (r: Variation)
        requires
            hm <= self.moves.len(),
            self.positions.len() == self.moves.len() + 1,
        ensures
            r@.moves == self@.moves.subrange(0, hm as int),
            r@.positions == self@.positions.subrange(0, hm + 1),
            r.outcome is None,
    {
        let mut moves: Vec<Move> = Vec::new();
        let mut positions: Vec<usize> = Vec::new();
        positions.push(self.positions[0]);
        let mut i: usize = 0;
        while i < hm
            invariant
                hm <= self.moves.len(),
                self.positions.len() == self.moves.len() + 1,
                i <= hm,
                moves@.len() == i,
                positions@.len() == i + 1,
                forall|k: int| 0 <= k < i ==> moves@[k]@ == self.moves@[k]@,
                forall|k: int| 0 <= k <= i ==> positions@[k] == self.positions@[k],
            decreases hm - i,
        {
            moves.push(self.moves[i].copy());
            positions.push(self.positions[i + 1]);
            i += 1;
        }
        let r = Variation { moves, positions, outcome: None };
        assert(r@.moves =~= self@.moves.subrange(0, hm as int));
        assert(r@.positions =~= self@.positions.subrange(0, hm + 1));
        r
    }
}

/// What belongs to a move rather than to the position it leads to: one
/// position is reached in several ways.
#[derive(Debug)]
pub struct MoveInfo {}

/// What is known of one position.
#[derive(Debug)]
pub struct PosInfo {
    /// The position itself.
    pub pos: Position,
    /// The moves from here that carry a note.
    pub moves: Vec<(Move, MoveInfo)>,
    /// The engine's evaluation, from White's point of view.
    pub eval: Option<Score>,
}

impl View for PosInfo {
    type V = PosView;

    open spec fn view(&self) -> PosView {
        PosView {
            fen: self.pos@,
            key: self.pos.key@,
            turn: self.pos.turn,
            fullmoves: self.pos.fullmoves,
            outcome: self.pos.outcome,
            moves: Seq::new(self.moves.len() as nat, |i: int| self.moves[i].0@),
            eval: self.eval,
        }
    }
}

impl PosInfo {
    /// What is known of `pos` when it enters the knowledge: the position
    /// and nothing more.
    pub open spec fn fresh(pos: Position) -> PosView {
        PosView {
            fen: pos@,
            key: pos.key@,
            turn: pos.turn,
            fullmoves: pos.fullmoves,
            outcome: pos.outcome,
            moves: Seq::empty(),
            eval: None,
        }
    }

    /// A position of which nothing is known yet.
    pub fn new(pos: Position) -> (r: PosInfo)
        ensures
            r.pos == pos,
            r@ == PosInfo::fresh(pos),
            pos.wf() ==> r@ == Graph::described(pos@),
    {
        let r = PosInfo { pos, moves: Vec::new(), eval: None };
        assert(r@.moves =~= Seq::<Seq<u8>>::empty());
        r
    }

    /// The position.
    pub fn position(&self) -> (r: &Position)
        ensures
            *r == self.pos,
    {
        &self.pos
    }

    /// The evaluation.
    pub fn eval(&self) -> (r: Option<Score>)
        ensures
            r == self.eval,
    {
        self.eval
    }

    /// Records the engine's evaluation.
    pub fn update_eval(&mut self, eval: Score) -> (r: &mut PosInfo)
        ensures
            r.pos == old(self).pos,
            r.moves == old(self).moves,
            r.eval == Some(eval),
            *final(self) == *final(r),
    {
        self.eval = Some(eval);
        self
    }

    /// The note on a move from here.
    pub fn move_info(&self, mv: &Move) -> (r: Option<&MoveInfo>)
        ensures
            r is Some <==> self@.moves.contains(mv@),
    {
        let mut i: usize = 0;
        while i < self.moves.len()
            invariant
                i <= self.moves.len(),
                forall|k: int| 0 <= k < i ==> self@.moves[k] != mv@,
            decreases self.moves.len() - i,
        {
            if self.moves[i].0.same(mv) {
                assert(self@.moves[i as int] == mv@);
                return Some(&self.moves[i].1);
            }
            i += 1;
        }
        None
    }
}

/// All that is known of the moves analysed.
#[derive(Debug)]
pub struct Knowledge {
    /// What is known of each position. The same position reached in
    /// different ways is held once.
    pub positions: Vec<PosInfo>,
    /// The variations considered.
    pub variations: Vec<Variation>,
    /// The index of the main line.
    pub main: usize,
}

impl View for Knowledge {
    type V = Graph;

    open spec fn view(&self) -> Graph {
        Graph {
            positions: Seq::new(self.positions.len() as nat, |i: int| self.positions[i]@),
            variations: Seq::new(self.variations.len() as nat, |i: int| self.variations[i]@),
            main: self.main as int,
        }
    }
}

impl Knowledge {
    /// The graph is sound: that is a matter of the data it holds.
    pub open spec fn sound(&self) -> bool {
        self@.sound()
    }

    /// The graph is faithful to the game: that is a matter of what
    /// shakmaty says of its positions and moves.
    pub open spec fn faithful(&self) -> bool {
        &&& self@.faithful()
        &&& forall|i: int|
            0 <= i < self.positions.len() ==> (#[trigger] self.positions[i]).pos.wf()
    }

    /// The graph is sound and faithful.
    pub open spec fn wf(&self) -> bool {
        self.sound() && self.faithful()
    }

    /// Starts with the root position and one variation without moves.
    pub fn new(root: Position) -> (r: Knowledge)
        ensures
            r.sound(),
            r@ == Graph::start(PosInfo::fresh(root)),
            root.wf() ==> r.wf(),
    {
        let mut variations: Vec<Variation> = Vec::new();
        variations.push(Variation::new(root.outcome()));
        let mut positions: Vec<PosInfo> = Vec::new();
        positions.push(PosInfo::new(root));
        let r = Knowledge { positions, variations, main: 0 };
        proof {
            let first = PosInfo::fresh(root);
            assert(r@.positions =~= Graph::start(first).positions);
            assert(r@.variations =~= Graph::start(first).variations);
            Graph::start_is_sound(first);
            if root.wf() {
                assert(first == Graph::described(root@));
            }
        }
        r
    }

    /// The variation `idx` and the position after `hm` of its halfmoves.
    pub fn variation_hm(&self, idx: usize, hm: usize) -> (r: (&Variation, &PosInfo))
        requires
            self.sound(),
            idx < self.variations.len(),
            hm <= self.variations[idx as int].moves.len(),
        ensures
            *r.0 == self.variations[idx as int],
            self.variations[idx as int].positions[hm as int] < self.positions.len(),
            *r.1 == self.positions[self.variations[idx as int].positions[hm as int] as int],
    {
        let variation = &self.variations[idx];
        proof {
            assert(self@.line_sound(self@.variations[idx as int]));
            assert(0 <= self@.variations[idx as int].positions[hm as int]
                < self@.positions.len());
        }
        let posidx = variation.positions[hm];
        (variation, &self.positions[posidx])
    }

    /// The variation `idx` and, to be changed, the position after `hm` of
    /// its halfmoves.
    pub fn variation_hm_mut(&mut self, idx: usize, hm: usize) -> (r: (&Variation, &mut PosInfo))
        requires
            old(self).sound(),
            idx < old(self).variations.len(),
            hm <= old(self).variations[idx as int].moves.len(),
        ensures
            *r.0 == old(self).variations[idx as int],
            old(self).variations[idx as int].positions[hm as int] < old(self).positions.len(),
            *r.1 == old(self).positions[old(self).variations[idx as int].positions[hm as int] as int],
            final(self).positions@ == old(self).positions@.update(
                old(self).variations[idx as int].positions[hm as int] as int,
                *final(r.1),
            ),
            final(self).variations == old(self).variations,
            final(self).main == old(self).main,
    {
        proof {
            assert(self@.line_sound(self@.variations[idx as int]));
            assert(0 <= self@.variations[idx as int].positions[hm as int]
                < self@.positions.len());
        }
        let variation = &self.variations[idx];
        let posidx = variation.positions[hm];
        (variation, &mut self.positions[posidx])
    }

    /// The index of the position after `hm` halfmoves of variation `idx`.
    pub fn position_index(&self, idx: usize, hm: usize) -> (r: usize)
        requires
            self.sound(),
            idx < self.variations.len(),
            hm <= self.variations[idx as int].moves.len(),
        ensures
            r == self@.variations[idx as int].positions[hm as int],
            r < self.positions.len(),
    {
        proof {
            assert(self@.line_sound(self@.variations[idx as int]));
            assert(0 <= self@.variations[idx as int].positions[hm as int]
                < self@.positions.len());
        }
        self.variations[idx].positions[hm]
    }

    /// The position with index `idx`.
    pub fn position(&self, idx: usize) -> (r: &PosInfo)
        requires
            idx < self.positions.len(),
        ensures
            *r == self.positions[idx as int],
    {
        &self.positions[idx]
    }

    /// The position with index `idx`, to be changed.
    pub fn position_mut(&mut self, idx: usize) -> (r: &mut PosInfo)
        requires
            idx < old(self).positions.len(),
        ensures
            *r == old(self).positions[idx as int],
            final(self).positions@ == old(self).positions@.update(idx as int, *final(r)),
            final(self).variations == old(self).variations,
            final(self).main == old(self).main,
    {
        &mut self.positions[idx]
    }

    /// The root position.
    pub fn root(&self) -> (r: &PosInfo)
        requires
            self.sound(),
        ensures
            *r == self.positions[0],
    {
        proof {
            assert(self@.line_sound(self@.variations[self.main as int]));
        }
        let idx = self.variations[self.main].positions[0];
        &self.positions[idx]
    }

    /// Makes `to` the main line where `from` is it now and `to` is a
    /// variation.
    pub fn update_mainline(&mut self, from: usize, to: usize)
        requires
            old(self).sound(),
        ensures
            final(self).sound(),
            old(self).wf() ==> final(self).wf(),
            final(self)@ == old(self)@.update_mainline(from as int, to as int),
            final(self).positions == old(self).positions,
            final(self).variations == old(self).variations,
    {
        proof {
            old(self)@.updates_keep_sound(0, Score::Cp(0), from as int, to as int);
            if old(self).wf() {
                old(self)@.updates_keep_faithful(0, Score::Cp(0), from as int, to as int);
            }
        }
        if from == self.main && to < self.variations.len() {
            self.main = to;
        }
    }

    /// Records the evaluation of the position with index `idx`.
    pub fn update_eval(&mut self, idx: usize, eval: Score)
        requires
            old(self).sound(),
            idx < old(self).positions.len(),
        ensures
            final(self).sound(),
            old(self).wf() ==> final(self).wf(),
            final(self)@ == old(self)@.update_eval(idx as int, eval),
            final(self).variations == old(self).variations,
            final(self).main == old(self).main,
    {
        proof {
            old(self)@.updates_keep_sound(idx as int, eval, 0, 0);
            if old(self).wf() {
                old(self)@.updates_keep_faithful(idx as int, eval, 0, 0);
            }
        }
        self.positions[idx].update_eval(eval);
        proof {
            assert(self@.positions =~= old(self)@.update_eval(idx as int, eval).positions);
            assert(self@.variations =~= old(self)@.variations);
            if old(self).wf() {
                assert forall|i: int| 0 <= i < self.positions.len() implies (
                #[trigger] self.positions[i]).pos.wf() by {
                    assert(old(self).positions[i].pos.wf());
                }
            }
        }
    }

    /// Puts the move `mov`, which leads to the position `after`, behind
    /// the first `hm` halfmoves of variation `vidx`, after which the game
    /// must go on: the variation is extended where it ends there, else a
    /// new one branches off. The result is the index of the variation that
    /// now holds the move and the index of the position after it.
    pub fn insert(&mut self, vidx: usize, hm: usize, mov: Move, after: Position) -> (r: (
        usize,
        usize,
    ))
        requires
            old(self).sound(),
            vidx < old(self).variations.len(),
            hm <= old(self).variations[vidx as int].moves.len(),
            old(self)@.open_at(old(self)@.variations[vidx as int], hm as int),
        ensures
            final(self).sound(),
            (final(self)@, r.0 as int, r.1 as int) == old(self)@.insert(
                vidx as int,
                hm as int,
                mov@,
                PosInfo::fresh(after),
            ),
            r.0 < final(self).variations.len(),
            r.1 < final(self).positions.len(),
            old(self).positions.len() <= final(self).positions.len(),
            forall|i: int|
                0 <= i < old(self).positions.len() ==> #[trigger] final(self).positions[i] == old(self).positions[i],
            final(self).positions.len() > old(self).positions.len() ==> final(self).positions[r.1 as int].pos == after,
    {
        let ghost g0 = self@;
        let ghost line0 = g0.variations[vidx as int];
        let ghost fresh = PosInfo::fresh(after);
        proof {
            g0.insert_keeps_sound(vidx as int, hm as int, mov@, fresh);
            assert(g0.line_sound(line0));
            assert(line0 == self.variations[vidx as int]@);
        }
        let n: usize = self.variations[vidx].moves.len();
        let p: usize = match self.lookup(after.key.as_slice()) {
            Some(j) => j,
            None => {
                self.positions.push(PosInfo::new(after));
                self.positions.len() - 1
            },
        };
        proof {
            assert(self@.positions =~= g0.intern(fresh).0);
            assert(p as int == g0.intern(fresh).1);
            assert(self@.variations =~= g0.variations);
        }
        let terminal = self.positions[p].pos.outcome();
        assert(terminal == self@.positions[p as int].outcome);
        let ghost grown = Graph::grown(self@.positions, line0, hm as int, mov@, p as int);
        if n == hm {
            assert(line0.moves.subrange(0, hm as int) =~= line0.moves);
            assert(line0.positions.subrange(0, hm + 1) =~= line0.positions);
            self.variations[vidx].take(mov, p, terminal);
            proof {
                assert(self.variations[vidx as int]@.moves == grown.moves);
                assert(self.variations[vidx as int]@.positions == grown.positions);
                assert(self.variations[vidx as int]@ == grown);
                assert(self@.variations =~= g0.variations.update(vidx as int, grown));
                assert(self@.positions =~= g0.intern(fresh).0);
            }
            (vidx, p)
        } else {
            let mut line = self.variations[vidx].prefix(hm);
            line.take(mov, p, terminal);
            proof {
                assert(line@.moves == grown.moves);
                assert(line@.positions == grown.positions);
                assert(line@ == grown);
            }
            self.variations.push(line);
            proof {
                assert(self@.variations =~= g0.variations.push(grown));
                assert(self@.positions =~= g0.intern(fresh).0);
            }
            (self.variations.len() - 1, p)
        }
    }

    /// Adds the move `mov` to variation `vidx` after `hm` halfmoves.
    ///
    /// Where that was the last move of the variation, the variation is
    /// extended. Where the variation goes on with another move, a new
    /// variation branches off. Where it goes on with `mov` itself, nothing
    /// changes. The result is the index of the variation that now holds the
    /// move and the index of the position after it.
    pub fn extend(&mut self, vidx: usize, hm: usize, mov: Move) -> (r: Result<
        (usize, usize),
        KnowledgeError,
    >)
        requires
            old(self).sound(),
            vidx < old(self).variations.len(),
        ensures
            final(self).sound(),
            old(self).wf() ==> final(self).wf(),
            match r {
                Ok((nv, p)) => old(self)@.add_move(vidx as int, hm as int, mov@) == Ok::<
                    (Graph, int, int),
                    KnowledgeError,
                >((final(self)@, nv as int, p as int)) && nv < final(self).variations.len() && p
                    < final(self).positions.len(),
                Err(e) => old(self)@.add_move(vidx as int, hm as int, mov@) == Err::<
                    (Graph, int, int),
                    KnowledgeError,
                >(e) && *final(self) == *old(self),
            },
    {
        let ghost g0 = self@;
        let ghost line0 = g0.variations[vidx as int];
        proof {
            g0.add_move_keeps_sound(vidx as int, hm as int, mov@);
            if old(self).wf() {
                g0.add_move_keeps_faithful(vidx as int, hm as int, mov@);
            }
            assert(g0.line_sound(line0));
            assert(line0 == self.variations[vidx as int]@);
        }
        let n: usize = self.variations[vidx].moves.len();
        if n < hm {
            return Err(KnowledgeError::AfterLastMove);
        }
        if hm < n && self.variations[vidx].moves[hm].same(&mov) {
            assert(line0.moves[hm as int] == mov@);
            assert(0 <= line0.positions[hm + 1] < g0.positions.len());
            let p: usize = self.variations[vidx].positions[hm + 1];
            return Ok((vidx, p));
        }
        assert(!(hm < line0.moves.len() && line0.moves[hm as int] == mov@));
        if n == hm && self.variations[vidx].outcome.is_some() {
            return Err(KnowledgeError::GameConcluded);
        }
        assert(0 <= line0.positions[hm as int] < g0.positions.len());
        let before: usize = self.variations[vidx].positions[hm];
        assert(g0.positions[before as int] == self.positions[before as int]@);
        let after = match self.positions[before].pos.play(&mov) {
            Some(after) => after,
            None => {
                return Err(KnowledgeError::IllegalMove);
            },
        };
        assert(PosInfo::fresh(after) == Graph::described(after@));
        proof {
            g0.lemma_open(vidx as int, hm as int);
        }
        let r = self.insert(vidx, hm, mov, after);
        proof {
            if old(self).wf() {
                assert forall|i: int| 0 <= i < self.positions.len() implies (
                #[trigger] self.positions[i]).pos.wf() by {
                    if i < old(self).positions.len() {
                        assert(old(self).positions[i].pos.wf());
                    }
                }
            }
        }
        Ok(r)
    }

    /// Adds the move `mov` to variation `vidx` after `hm` halfmoves, as
    /// `extend` does, and hands out the variation that now holds the move
    /// and, to be changed, the position after it.
    pub fn add_move(&mut self, vidx: usize, hm: usize, mov: Move) -> (r: Result<
        (usize, &Variation, &mut PosInfo),
        KnowledgeError,
    >)
        requires
            old(self).sound(),
            vidx < old(self).variations.len(),
        ensures
            match r {
                Ok((nv, variation, position)) => {
                    &&& old(self)@.add_move(vidx as int, hm as int, mov@) matches Ok((g, n, p))
                    &&& nv == n
                    &&& variation@ == g.variations[n]
                    &&& position@ == g.positions[p]
                    &&& final(self)@.variations == g.variations
                    &&& final(self)@.main == g.main
                    &&& final(self)@.positions == g.positions.update(p, final(position)@)
                    &&& *final(position) == *position ==> final(self)@ == g && final(self).sound()
                        && (old(self).wf() ==> final(self).wf())
                },
                Err(e) => old(self)@.add_move(vidx as int, hm as int, mov@) == Err::<
                    (Graph, int, int),
                    KnowledgeError,
                >(e) && *final(self) == *old(self),
            },
    {
        match self.extend(vidx, hm, mov) {
            Ok((nv, p)) => {
                let ghost mid = *self;
                let variation = &self.variations[nv];
                let position = &mut self.positions[p];
                proof {
                    assert(mid@.positions.update(p as int, mid.positions[p as int]@)
                        =~= mid@.positions);
                    assert(mid.positions@.update(p as int, mid.positions@[p as int])
                        =~= mid.positions@);
                    assert(mid.sound());
                    assert(old(self).wf() ==> mid.wf());
                }
                Ok((nv, variation, position))
            },
            Err(e) => Err(e),
        }
    }

    /// Makes a game record of the knowledge; `None` where a move cannot
    /// be written in standard algebraic notation.
    pub fn pgn(&self) -> (r: Option<crate::knowledge::pgn::Pgn<'_>>)
        requires
            self.sound(),
        ensures
            r is Some <==> crate::knowledge::pgn::sayable(self@),
            match r {
                Some(pgn) => pgn.line.tree() == crate::knowledge::pgn::tree_of(self@)
                    && *pgn.rootinfo == self.positions[0],
                None => true,
            },
    {
        crate::knowledge::pgn::Pgn::new(self)
    }

    /// Finds the position with the key `key`.
    pub fn lookup(&self, key: &[u8]) -> (r: Option<usize>)
        ensures
            match r {
                Some(j) => self@.lookup(key@) == Some(j as int) && j < self.positions.len(),
                None => self@.lookup(key@) is None,
            },
    {
        let mut i: usize = 0;
        while i < self.positions.len()
            invariant
                i <= self.positions.len(),
                self@.lookup(key@) == self@.lookup_from(key@, i as int),
            decreases self.positions.len() - i,
        {
            assert(self@.positions[i as int].key == self.positions[i as int].pos.key@);
            if crate::text::same(self.positions[i].pos.key.as_slice(), key) {
                return Some(i);
            }
            i += 1;
        }
        None
    }
}

} // verus!
