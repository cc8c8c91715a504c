//! The knowledge graph as a mathematical value, and what holds of it.
//!
//! Two things are kept apart. That a graph is *sound* is a matter of its
//! own data: no position twice, every index in range, every outcome the one
//! that is due. That it is *faithful* is a matter of chess: every position
//! holds what shakmaty says of its FEN, and every move leads where
//! shakmaty says it leads.
use crate::chess::{
    game_outcome, known, move_number, repetition_key, side_to_move, successor, Color, Outcome,
};
use crate::uci::score::Score;
use vstd::prelude::*;

verus! {

/// Why a move was not added.
#[derive(Clone, Copy, Debug, PartialEq, Eq, Structural)]
pub enum KnowledgeError {
    /// The variation has fewer moves than the halfmove asked for.
    AfterLastMove,
    /// The variation has an outcome and the move would follow its last one.
    GameConcluded,
    /// The move is not legal in the position it is to be played in.
    IllegalMove,
}

/// What is known of one position.
pub struct PosView {
    /// The FEN of the position as it was first reached.
    pub fen: Seq<u8>,
    /// The key by which the position is told from the others.
    pub key: Seq<u8>,
    /// The side to move.
    pub turn: Color,
    /// The number of the move to be played.
    pub fullmoves: u32,
    /// The outcome of the game in the position, where it is over.
    pub outcome: Option<Outcome>,
    /// The moves that carry a note of their own.
    pub moves: Seq<Seq<u8>>,
    /// The evaluation, from White's point of view.
    pub eval: Option<Score>,
}

/// One variation: its moves, and the index of the position before each move
/// and after the last.
pub struct LineView {
    pub moves: Seq<Seq<u8>>,
    pub positions: Seq<int>,
    pub outcome: Option<Outcome>,
}

/// The knowledge graph.
pub struct Graph {
    pub positions: Seq<PosView>,
    pub variations: Seq<LineView>,
    pub main: int,
}

/// How often `x` occurs in `s`.
pub open spec fn count(s: Seq<int>, x: int) -> nat
    decreases s.len(),
{
    if s.len() == 0 {
        0
    } else {
        count(s.drop_last(), x) + if s.last() == x {
            1nat
        } else {
            0nat
        }
    }
}

impl Graph {
    /// The graph that holds the position `root` and one variation without
    /// moves.
    pub open spec fn start(root: PosView) -> Graph {
        Graph {
            positions: seq![root],
            variations: seq![
                LineView { moves: Seq::empty(), positions: seq![0int], outcome: root.outcome },
            ],
            main: 0,
        }
    }

    /// The position of FEN `fen` as it enters the graph: with what
    /// shakmaty says of it, and without an evaluation.
    pub open spec fn described(fen: Seq<u8>) -> PosView {
        PosView {
            fen,
            key: repetition_key(fen).unwrap(),
            turn: side_to_move(fen).unwrap(),
            fullmoves: move_number(fen).unwrap(),
            outcome: game_outcome(fen).unwrap(),
            moves: Seq::empty(),
            eval: None,
        }
    }

    /// The index, from `i` on, of the first position with the key `key`.
    pub open spec fn lookup_from(self, key: Seq<u8>, i: int) -> Option<int>
        decreases self.positions.len() - i,
    {
        if i < 0 || i >= self.positions.len() {
            None
        } else if self.positions[i].key == key {
            Some(i)
        } else {
            self.lookup_from(key, i + 1)
        }
    }

    /// The index of the position with the key `key`.
    pub open spec fn lookup(self, key: Seq<u8>) -> Option<int> {
        self.lookup_from(key, 0)
    }

    /// The positions once `after` is among them, and its index: the index
    /// of the position with its key, or a new one at the end.
    pub open spec fn intern(self, after: PosView) -> (Seq<PosView>, int) {
        match self.lookup(after.key) {
            Some(j) => (self.positions, j),
            None => (self.positions.push(after), self.positions.len() as int),
        }
    }

    /// The outcome that a variation through `line` has: that of the game in
    /// its last position where it is over there, a draw where the last
    /// position occurs in it for the third time, and none otherwise.
    pub open spec fn concluded(positions: Seq<PosView>, line: Seq<int>) -> Option<Outcome> {
        match positions[line.last()].outcome {
            Some(o) => Some(o),
            None => if count(line, line.last()) >= 3 {
                Some(Outcome::Draw)
            } else {
                None
            },
        }
    }

    /// The game goes on in the position after `k` halfmoves of `l`.
    pub open spec fn open_at(self, l: LineView, k: int) -> bool {
        self.positions[l.positions[k]].outcome is None
    }

    /// A variation fits the graph: it starts at the root, its indices are
    /// those of positions, no move of it follows a position in which the
    /// game is over, and its outcome is the one it is due.
    pub open spec fn line_sound(self, l: LineView) -> bool {
        &&& l.positions.len() == l.moves.len() + 1
        &&& l.positions[0] == 0
        &&& forall|k: int|
            0 <= k < l.positions.len() ==> 0 <= #[trigger] l.positions[k] < self.positions.len()
        &&& forall|k: int| 0 <= k < l.moves.len() ==> #[trigger] self.open_at(l, k)
        &&& l.outcome == Graph::concluded(self.positions, l.positions)
    }

    /// No position is held twice.
    pub open spec fn distinct(self) -> bool {
        forall|i: int, j: int|
            0 <= i < j < self.positions.len() ==> (#[trigger] self.positions[i]).key != (
            #[trigger] self.positions[j]).key
    }

    /// The graph is sound: it holds the root, every position is held once,
    /// the main variation is one of the variations, and every variation
    /// fits.
    pub open spec fn sound(self) -> bool {
        &&& self.positions.len() > 0
        &&& 0 <= self.main < self.variations.len()
        &&& self.distinct()
        &&& forall|v: int|
            0 <= v < self.variations.len() ==> self.line_sound(#[trigger] self.variations[v])
    }

    /// Position `i` holds what shakmaty says of its FEN.
    pub open spec fn true_position(self, i: int) -> bool {
        &&& known(self.positions[i].fen)
        &&& self.positions[i].key == repetition_key(self.positions[i].fen).unwrap()
        &&& self.positions[i].turn == side_to_move(self.positions[i].fen).unwrap()
        &&& self.positions[i].fullmoves == move_number(self.positions[i].fen).unwrap()
        &&& self.positions[i].outcome == game_outcome(self.positions[i].fen).unwrap()
    }

    /// The move `mv` leads from position `a` to position `b`.
    pub open spec fn step(self, a: int, mv: Seq<u8>, b: int) -> bool {
        match successor(self.positions[a].fen, mv) {
            Some(fen) => repetition_key(fen).unwrap() == self.positions[b].key,
            None => false,
        }
    }

    /// Each move of the variation leads from the position before it to the
    /// one after it.
    pub open spec fn true_line(self, l: LineView) -> bool {
        forall|k: int|
            0 <= k < l.moves.len() ==> self.step(
                l.positions[k],
                #[trigger] l.moves[k],
                l.positions[k + 1],
            )
    }

    /// The graph is faithful to the game: its positions are what shakmaty
    /// says they are, and its moves lead where shakmaty says they lead.
    pub open spec fn faithful(self) -> bool {
        &&& forall|i: int| 0 <= i < self.positions.len() ==> #[trigger] self.true_position(i)
        &&& forall|v: int|
            0 <= v < self.variations.len() ==> self.true_line(#[trigger] self.variations[v])
    }

    /// The graph is sound and faithful.
    pub open spec fn wf(self) -> bool {
        self.sound() && self.faithful()
    }

    /// The variation that takes `mv` after `hm` halfmoves of `line` and ends
    /// in position `p` of `positions`.
    pub open spec fn grown(positions: Seq<PosView>, line: LineView, hm: int, mv: Seq<u8>, p: int)
        -> LineView {
        let indices = line.positions.subrange(0, hm + 1).push(p);
        LineView {
            moves: line.moves.subrange(0, hm).push(mv),
            positions: indices,
            outcome: Graph::concluded(positions, indices),
        }
    }

    /// Puts the move `mv`, which leads to the position `after`, behind the
    /// first `hm` halfmoves of variation `v`, after which the game must go
    /// on.
    ///
    /// The position gets the index of the position with its key, or a new
    /// index at the end. Where the variation ends after `hm` halfmoves, it
    /// is extended; else a new variation takes its first `hm` moves and
    /// `mv`, and is added at the end. The result holds the graph, the index
    /// of the variation that now takes the move, and the index of the
    /// position after it.
    pub open spec fn insert(self, v: int, hm: int, mv: Seq<u8>, after: PosView) -> (
        Graph,
        int,
        int,
    ) {
        let line = self.variations[v];
        let (positions, p) = self.intern(after);
        let grown = Graph::grown(positions, line, hm, mv, p);
        if line.moves.len() == hm {
            (Graph { positions, variations: self.variations.update(v, grown), main: self.main }, v, p)
        } else {
            (
                Graph { positions, variations: self.variations.push(grown), main: self.main },
                self.variations.len() as int,
                p,
            )
        }
    }

    /// Adds the move `mv` to variation `v` after `hm` halfmoves.
    ///
    /// Where the variation goes on with `mv` there, nothing changes. Else
    /// the move must be legal, and must not follow the end of a variation
    /// that has an outcome; it is put into the graph as `insert` says, with
    /// the position that it leads to.
    pub open spec fn add_move(self, v: int, hm: int, mv: Seq<u8>) -> Result<
        (Graph, int, int),
        KnowledgeError,
    > {
        let line = self.variations[v];
        if line.moves.len() < hm {
            Err(KnowledgeError::AfterLastMove)
        } else if hm < line.moves.len() && line.moves[hm] == mv {
            Ok((self, v, line.positions[hm + 1]))
        } else if line.moves.len() == hm && line.outcome is Some {
            Err(KnowledgeError::GameConcluded)
        } else {
            match successor(self.positions[line.positions[hm]].fen, mv) {
                None => Err(KnowledgeError::IllegalMove),
                Some(fen) => Ok(self.insert(v, hm, mv, Graph::described(fen))),
            }
        }
    }

    /// Records the evaluation of position `i`.
    pub open spec fn update_eval(self, i: int, eval: Score) -> Graph {
        Graph {
            positions: self.positions.update(
                i,
                PosView { eval: Some(eval), ..self.positions[i] },
            ),
            ..self
        }
    }

    /// Makes `to` the main variation where `from` is it and `to` is a
    /// variation.
    pub open spec fn update_mainline(self, from: int, to: int) -> Graph {
        if from == self.main && 0 <= to < self.variations.len() {
            Graph { main: to, ..self }
        } else {
            self
        }
    }

    /// The graph after the additions `steps`, each a variation, a number of
    /// halfmoves and a move, one after the other. An addition that is
    /// refused, or that names no variation of the graph, changes nothing.
    pub open spec fn replay(self, steps: Seq<(int, int, Seq<u8>)>) -> Graph
        decreases steps.len(),
    {
        if steps.len() == 0 {
            self
        } else {
            let g = self.replay(steps.drop_last());
            let (v, hm, mv) = steps.last();
            if 0 <= v < g.variations.len() && 0 <= hm {
                match g.add_move(v, hm, mv) {
                    Ok((next, _, _)) => next,
                    Err(_) => g,
                }
            } else {
                g
            }
        }
    }

    /// `lookup_from` finds a position with the key, the first from `i` on,
    /// and finds none only where there is none.
    pub proof fn lemma_lookup(self, key: Seq<u8>, i: int)
        requires
            0 <= i,
        ensures
            match self.lookup_from(key, i) {
                Some(j) => i <= j < self.positions.len() && self.positions[j].key == key && forall|
                    k: int,
                |
                    i <= k < j ==> self.positions[k].key != key,
                None => forall|k: int| i <= k < self.positions.len() ==> self.positions[k].key != key,
            },
        decreases self.positions.len() - i,
    {
        if i < self.positions.len() && self.positions[i].key != key {
            self.lemma_lookup(key, i + 1);
        }
    }

    /// The graph with nothing but a root is sound, and faithful where the
    /// root is what shakmaty says of its FEN.
    pub proof fn start_is_sound(root: PosView)
        ensures
            Graph::start(root).sound(),
            known(root.fen) && root == (PosView { eval: root.eval, moves: root.moves, ..Graph::described(
                root.fen,
            ) }) ==> Graph::start(root).wf(),
    {
        let g = Graph::start(root);
        let l = g.variations[0];
        assert(l.positions.drop_last() =~= Seq::<int>::empty());
        assert(count(l.positions.drop_last(), 0) == 0);
        assert(count(l.positions, 0) == 1);
        assert(g.line_sound(l));
        if known(root.fen) && root == (PosView { eval: root.eval, moves: root.moves, ..Graph::described(
            root.fen,
        ) }) {
            assert(g.true_position(0));
            assert(g.true_line(l));
        }
    }

    /// Putting a move into a sound graph leaves it sound: the variation
    /// that takes the move holds it at its place, with the index of the
    /// position after it, and nothing else is lost.
    pub proof fn insert_keeps_sound(self, v: int, hm: int, mv: Seq<u8>, after: PosView)
        requires
            self.sound(),
            0 <= v < self.variations.len(),
            0 <= hm <= self.variations[v].moves.len(),
            self.open_at(self.variations[v], hm),
        ensures
            ({
                let (g, nv, p) = self.insert(v, hm, mv, after);
                &&& g.sound()
                &&& 0 <= nv < g.variations.len()
                &&& 0 <= p < g.positions.len()
                &&& g.positions[p].key == after.key
                &&& g.variations[nv].moves.len() == hm + 1
                &&& g.variations[nv].moves[hm] == mv
                &&& g.variations[nv].positions[hm + 1] == p
                &&& g.variations[nv].moves.subrange(0, hm) == self.variations[v].moves.subrange(
                    0,
                    hm,
                )
                &&& g.variations[nv].positions.subrange(0, hm + 1)
                    == self.variations[v].positions.subrange(0, hm + 1)
                &&& self.positions.len() <= g.positions.len() <= self.positions.len() + 1
                &&& forall|i: int|
                    0 <= i < self.positions.len() ==> #[trigger] g.positions[i]
                        == self.positions[i]
                &&& g.positions.len() > self.positions.len() ==> g.positions[p] == after
                &&& self.variations.len() <= g.variations.len()
                &&& forall|w: int|
                    0 <= w < self.variations.len() && w != nv ==> #[trigger] g.variations[w]
                        == self.variations[w]
                &&& g.main == self.main
            }),
    {
        let line = self.variations[v];
        assert(self.line_sound(line));
        let (positions, p) = self.intern(after);
        self.lemma_lookup(after.key, 0);
        let grown = Graph::grown(positions, line, hm, mv, p);
        let (g, nv, _) = self.insert(v, hm, mv, after);
        assert(g.positions == positions);
        assert(forall|i: int| 0 <= i < self.positions.len() ==> g.positions[i] == self.positions[i]);
        assert(g.distinct()) by {
            assert forall|i: int, j: int| 0 <= i < j < g.positions.len() implies g.positions[i].key
                != g.positions[j].key by {
                if j < self.positions.len() {
                    assert(self.positions[i].key != self.positions[j].key);
                } else {
                    assert(self.positions[i].key != after.key);
                }
            }
        }
        assert forall|w: int| 0 <= w < self.variations.len() implies g.line_sound(
            #[trigger] self.variations[w],
        ) by {
            let l = self.variations[w];
            assert(self.line_sound(l));
            assert(0 <= l.positions[l.positions.len() - 1] < self.positions.len());
            assert forall|k: int| 0 <= k < l.moves.len() implies #[trigger] g.open_at(l, k) by {
                assert(self.open_at(l, k));
                assert(0 <= l.positions[k] < self.positions.len());
            }
        }
        assert(g.line_sound(grown)) by {
            assert forall|k: int| 0 <= k < grown.positions.len() implies 0
                <= #[trigger] grown.positions[k] < g.positions.len() by {
                if k <= hm {
                    assert(grown.positions[k] == line.positions[k]);
                }
            }
            assert forall|k: int| 0 <= k < grown.moves.len() implies #[trigger] g.open_at(
                grown,
                k,
            ) by {
                assert(grown.positions[k] == line.positions[k]);
                assert(0 <= line.positions[k] < self.positions.len());
                if k < hm {
                    assert(self.open_at(line, k));
                }
            }
        }
        assert forall|w: int| 0 <= w < g.variations.len() implies g.line_sound(
            #[trigger] g.variations[w],
        ) by {
            if w < self.variations.len() && !(w == v && line.moves.len() == hm) {
                assert(g.variations[w] == self.variations[w]);
            } else {
                assert(g.variations[w] == grown);
            }
        }
        assert(g.variations[nv] == grown);
        assert(grown.moves.subrange(0, hm) =~= line.moves.subrange(0, hm));
        assert(grown.positions.subrange(0, hm + 1) =~= line.positions.subrange(0, hm + 1));
    }

    /// Adding a move keeps the graph sound: the positions are held once
    /// each under indices without gaps, every variation starts at the
    /// root, and the variation that takes the move holds it at its place.
    pub proof fn add_move_keeps_sound(self, v: int, hm: int, mv: Seq<u8>)
        requires
            self.sound(),
            0 <= v < self.variations.len(),
            0 <= hm,
        ensures
            match self.add_move(v, hm, mv) {
                Ok((g, nv, p)) => g.sound() && 0 <= nv < g.variations.len() && 0 <= p
                    < g.positions.len() && hm < g.variations[nv].moves.len()
                    && g.variations[nv].moves[hm] == mv && g.variations[nv].positions[hm + 1] == p
                    && self.positions.len() <= g.positions.len() && self.variations.len()
                    <= g.variations.len(),
                Err(_) => true,
            },
    {
        let line = self.variations[v];
        assert(self.line_sound(line));
        if line.moves.len() < hm {
        } else if hm < line.moves.len() && line.moves[hm] == mv {
            assert(0 <= line.positions[hm + 1] < self.positions.len());
        } else if line.moves.len() == hm && line.outcome is Some {
        } else {
            match successor(self.positions[line.positions[hm]].fen, mv) {
                None => {},
                Some(fen) => {
                    self.lemma_open(v, hm);
                    self.insert_keeps_sound(v, hm, mv, Graph::described(fen));
                },
            }
        }
    }

    /// The game goes on where a move can be added: in the middle of a
    /// variation, and at the end of one without an outcome.
    pub proof fn lemma_open(self, v: int, hm: int)
        requires
            self.sound(),
            0 <= v < self.variations.len(),
            0 <= hm <= self.variations[v].moves.len(),
            hm == self.variations[v].moves.len() ==> self.variations[v].outcome is None,
        ensures
            self.open_at(self.variations[v], hm),
    {
        let line = self.variations[v];
        assert(self.line_sound(line));
        if hm < line.moves.len() {
            assert(self.open_at(line, hm));
        } else {
            assert(line.positions.last() == line.positions[hm]);
        }
    }

    /// Adding a move keeps the graph faithful: playing the moves of a
    /// variation one by one, each from the position held before it, gives
    /// the positions held after them.
    pub proof fn add_move_keeps_faithful(self, v: int, hm: int, mv: Seq<u8>)
        requires
            self.wf(),
            0 <= v < self.variations.len(),
            0 <= hm,
        ensures
            match self.add_move(v, hm, mv) {
                Ok((g, nv, p)) => g.wf(),
                Err(_) => true,
            },
    {
        self.add_move_keeps_sound(v, hm, mv);
        let line = self.variations[v];
        assert(self.line_sound(line));
        assert(self.true_line(line));
        if line.moves.len() < hm {
        } else if hm < line.moves.len() && line.moves[hm] == mv {
        } else if line.moves.len() == hm && line.outcome is Some {
        } else {
            assert(0 <= line.positions[hm] < self.positions.len());
            match successor(self.positions[line.positions[hm]].fen, mv) {
                None => {},
                Some(fen) => {
                    let after = Graph::described(fen);
                    self.lemma_open(v, hm);
                    self.insert_keeps_sound(v, hm, mv, after);
                    let (g, nv, p) = self.insert(v, hm, mv, after);
                    let grown = g.variations[nv];
                    assert forall|i: int| 0 <= i < g.positions.len() implies #[trigger] g.true_position(
                        i,
                    ) by {
                        if i < self.positions.len() {
                            assert(self.true_position(i));
                        } else {
                            assert(g.positions[i] == after);
                        }
                    }
                    assert forall|w: int| 0 <= w < g.variations.len() implies g.true_line(
                        #[trigger] g.variations[w],
                    ) by {
                        if w != nv {
                            let l = self.variations[w];
                            assert(g.variations[w] == l);
                            assert(self.line_sound(l));
                            assert(self.true_line(l));
                            assert forall|k: int| 0 <= k < l.moves.len() implies g.step(
                                l.positions[k],
                                #[trigger] l.moves[k],
                                l.positions[k + 1],
                            ) by {
                                assert(self.step(l.positions[k], l.moves[k], l.positions[k + 1]));
                                assert(0 <= l.positions[k] < self.positions.len());
                                assert(0 <= l.positions[k + 1] < self.positions.len());
                            }
                        } else {
                            assert forall|k: int| 0 <= k < grown.moves.len() implies g.step(
                                grown.positions[k],
                                #[trigger] grown.moves[k],
                                grown.positions[k + 1],
                            ) by {
                                if k < hm {
                                    assert(grown.moves[k] == grown.moves.subrange(0, hm)[k]);
                                    assert(grown.positions[k] == grown.positions.subrange(
                                        0,
                                        hm + 1,
                                    )[k]);
                                    assert(grown.positions[k + 1] == grown.positions.subrange(
                                        0,
                                        hm + 1,
                                    )[k + 1]);
                                    assert(line.moves[k] == line.moves.subrange(0, hm)[k]);
                                    assert(line.positions[k] == line.positions.subrange(
                                        0,
                                        hm + 1,
                                    )[k]);
                                    assert(line.positions[k + 1] == line.positions.subrange(
                                        0,
                                        hm + 1,
                                    )[k + 1]);
                                    assert(self.step(
                                        line.positions[k],
                                        line.moves[k],
                                        line.positions[k + 1],
                                    ));
                                    assert(0 <= line.positions[k] < self.positions.len());
                                    assert(0 <= line.positions[k + 1] < self.positions.len());
                                } else {
                                    assert(grown.positions[k] == grown.positions.subrange(
                                        0,
                                        hm + 1,
                                    )[k]);
                                    assert(line.positions[hm] == line.positions.subrange(
                                        0,
                                        hm + 1,
                                    )[hm]);
                                }
                            }
                        }
                    }
                },
            }
        }
    }

    /// After any run of additions to a sound and faithful graph the graph
    /// is sound and faithful: the positions are held once each under
    /// indices without gaps, every variation starts at the root, and each
    /// move of a variation leads from the position held before it to the
    /// position held after it.
    pub proof fn runs_keep_sound(self, steps: Seq<(int, int, Seq<u8>)>)
        requires
            self.wf(),
        ensures
            self.replay(steps).wf(),
        decreases steps.len(),
    {
        if steps.len() > 0 {
            self.runs_keep_sound(steps.drop_last());
            let g = self.replay(steps.drop_last());
            let (v, hm, mv) = steps.last();
            if 0 <= v < g.variations.len() && 0 <= hm {
                g.add_move_keeps_faithful(v, hm, mv);
            }
        }
    }

    /// Adding a move changes no position that is held already.
    pub proof fn positions_stay(self, v: int, hm: int, mv: Seq<u8>)
        requires
            self.add_move(v, hm, mv) is Ok,
        ensures
            ({
                let g = self.add_move(v, hm, mv).unwrap().0;
                &&& self.positions.len() <= g.positions.len()
                &&& forall|i: int|
                    0 <= i < self.positions.len() ==> #[trigger] g.positions[i]
                        == self.positions[i]
                &&& g.main == self.main
            }),
    {
    }

    /// A position is held once: whatever way leads to it, it has one index.
    /// Two additions that reach positions with the same key end at the same
    /// index.
    pub proof fn transpositions_meet(
        self,
        va: int,
        hma: int,
        mva: Seq<u8>,
        vb: int,
        hmb: int,
        mvb: Seq<u8>,
    )
        requires
            self.sound(),
            0 <= va < self.variations.len(),
            0 <= hma,
            0 <= hmb,
            self.add_move(va, hma, mva) is Ok,
            0 <= vb < self.add_move(va, hma, mva).unwrap().0.variations.len(),
            self.add_move(va, hma, mva).unwrap().0.add_move(vb, hmb, mvb) is Ok,
        ensures
            ({
                let (ga, na, pa) = self.add_move(va, hma, mva).unwrap();
                let (gb, nb, pb) = ga.add_move(vb, hmb, mvb).unwrap();
                ga.positions[pa].key == gb.positions[pb].key ==> pa == pb
            }),
    {
        self.add_move_keeps_sound(va, hma, mva);
        let (ga, na, pa) = self.add_move(va, hma, mva).unwrap();
        ga.add_move_keeps_sound(vb, hmb, mvb);
        let (gb, nb, pb) = ga.add_move(vb, hmb, mvb).unwrap();
        ga.positions_stay(vb, hmb, mvb);
        if ga.positions[pa].key == gb.positions[pb].key && pa != pb {
            assert(gb.positions[pa] == ga.positions[pa]);
            if pa < pb {
                assert(gb.positions[pa].key != gb.positions[pb].key);
            } else {
                assert(gb.positions[pb].key != gb.positions[pa].key);
            }
        }
    }

    /// A position that occurs for the third time ends the variation: where
    /// an addition ends in a position that is then held three times or more
    /// by the variation, the variation has an outcome, a draw unless the
    /// game is over in that position anyway, and no move can be added at
    /// its end.
    pub proof fn repetition_concludes(self, v: int, hm: int, mv: Seq<u8>, next: Seq<u8>)
        requires
            self.sound(),
            0 <= v < self.variations.len(),
            0 <= hm,
            self.add_move(v, hm, mv) is Ok,
            ({
                let (g, nv, p) = self.add_move(v, hm, mv).unwrap();
                g.variations[nv].moves.len() == hm + 1 && count(g.variations[nv].positions, p) >= 3
            }),
        ensures
            ({
                let (g, nv, p) = self.add_move(v, hm, mv).unwrap();
                &&& g.variations[nv].outcome is Some
                &&& g.positions[p].outcome is None ==> g.variations[nv].outcome == Some(
                    Outcome::Draw,
                )
                &&& g.add_move(nv, hm + 1, next) == Err::<(Graph, int, int), KnowledgeError>(
                    KnowledgeError::GameConcluded,
                )
            }),
    {
        self.add_move_keeps_sound(v, hm, mv);
        let (g, nv, p) = self.add_move(v, hm, mv).unwrap();
        let l = g.variations[nv];
        assert(g.line_sound(l));
        assert(l.positions.last() == l.positions[hm + 1]);
    }

    /// A position in which the game is over is the end of every variation
    /// that holds it, and that variation has an outcome.
    pub proof fn over_is_the_end(self, v: int, hm: int)
        requires
            self.sound(),
            0 <= v < self.variations.len(),
            0 <= hm <= self.variations[v].moves.len(),
            self.positions[self.variations[v].positions[hm]].outcome is Some,
        ensures
            hm == self.variations[v].moves.len(),
            self.variations[v].outcome is Some,
    {
        let l = self.variations[v];
        assert(self.line_sound(l));
        if hm < l.moves.len() {
            assert(self.open_at(l, hm));
        }
        assert(l.positions.last() == l.positions[hm]);
    }

    /// A variation with an outcome takes no move at its end.
    pub proof fn concluded_is_closed(self, v: int, mv: Seq<u8>)
        requires
            0 <= v < self.variations.len(),
            self.variations[v].outcome is Some,
        ensures
            self.add_move(v, self.variations[v].moves.len() as int, mv) == Err::<
                (Graph, int, int),
                KnowledgeError,
            >(KnowledgeError::GameConcluded),
    {
    }

    /// Recording an evaluation and moving the main line keep the graph
    /// sound.
    pub proof fn updates_keep_sound(self, i: int, eval: Score, from: int, to: int)
        requires
            self.sound(),
            0 <= i < self.positions.len(),
        ensures
            self.update_eval(i, eval).sound(),
            self.update_mainline(from, to).sound(),
    {
        let g = self.update_eval(i, eval);
        assert(forall|k: int|
            0 <= k < self.positions.len() ==> g.positions[k].key == self.positions[k].key
                && g.positions[k].outcome == self.positions[k].outcome);
        assert(g.distinct()) by {
            assert forall|a: int, b: int| 0 <= a < b < g.positions.len() implies g.positions[a].key
                != g.positions[b].key by {
                assert(self.positions[a].key != self.positions[b].key);
            }
        }
        assert forall|w: int| 0 <= w < g.variations.len() implies g.line_sound(
            #[trigger] g.variations[w],
        ) by {
            let l = self.variations[w];
            assert(self.line_sound(l));
            assert(0 <= l.positions[l.positions.len() - 1] < self.positions.len());
            assert forall|k: int| 0 <= k < l.moves.len() implies #[trigger] g.open_at(l, k) by {
                assert(self.open_at(l, k));
                assert(0 <= l.positions[k] < self.positions.len());
            }
        }
        let h = self.update_mainline(from, to);
        assert forall|w: int| 0 <= w < h.variations.len() implies h.line_sound(
            #[trigger] h.variations[w],
        ) by {
            let l = self.variations[w];
            assert(self.line_sound(l));
            assert forall|k: int| 0 <= k < l.moves.len() implies #[trigger] h.open_at(l, k) by {
                assert(self.open_at(l, k));
            }
        }
        assert(h.distinct()) by {
            assert forall|a: int, b: int| 0 <= a < b < h.positions.len() implies h.positions[a].key
                != h.positions[b].key by {
                assert(self.positions[a].key != self.positions[b].key);
            }
        }
    }

    /// Recording an evaluation and moving the main line keep the graph
    /// faithful.
    pub proof fn updates_keep_faithful(self, i: int, eval: Score, from: int, to: int)
        requires
            self.wf(),
            0 <= i < self.positions.len(),
        ensures
            self.update_eval(i, eval).wf(),
            self.update_mainline(from, to).wf(),
    {
        self.updates_keep_sound(i, eval, from, to);
        let g = self.update_eval(i, eval);
        assert(forall|k: int|
            0 <= k < self.positions.len() ==> g.positions[k].fen == self.positions[k].fen
                && g.positions[k].key == self.positions[k].key && g.positions[k].outcome
                == self.positions[k].outcome && g.positions[k].turn == self.positions[k].turn
                && g.positions[k].fullmoves == self.positions[k].fullmoves);
        assert forall|k: int| 0 <= k < g.positions.len() implies #[trigger] g.true_position(k) by {
            assert(self.true_position(k));
        }
        assert forall|w: int| 0 <= w < g.variations.len() implies g.true_line(
            #[trigger] g.variations[w],
        ) by {
            let l = self.variations[w];
            assert(self.line_sound(l));
            assert(self.true_line(l));
            assert forall|k: int| 0 <= k < l.moves.len() implies g.step(
                l.positions[k],
                #[trigger] l.moves[k],
                l.positions[k + 1],
            ) by {
                assert(self.step(l.positions[k], l.moves[k], l.positions[k + 1]));
                assert(0 <= l.positions[k] < self.positions.len());
                assert(0 <= l.positions[k + 1] < self.positions.len());
            }
        }
        let h = self.update_mainline(from, to);
        assert forall|w: int| 0 <= w < h.variations.len() implies h.true_line(
            #[trigger] h.variations[w],
        ) by {
            assert(self.true_line(self.variations[w]));
        }
        assert forall|k: int| 0 <= k < h.positions.len() implies #[trigger] h.true_position(k) by {
            assert(self.true_position(k));
        }
    }
}

} // verus!
