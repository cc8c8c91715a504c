//! The processor that asks a chess engine.
use crate::chess::{legal_move, Color, Move, Position, UciMove};
use crate::config::Rev;
use crate::knowledge::model::{Graph, KnowledgeError};
use crate::knowledge::{move_texts, Knowledge};
use crate::rev::processor::{Processor, Scheduled};
use crate::text::lit;
use crate::uci::proto::{spaced, texts, Command, Info};
use crate::uci::score::Score;
use vstd::prelude::*;

verus! {

/// Why a search gave no result.
#[derive(Clone, Copy, Debug, PartialEq, Eq, Structural)]
pub enum ProcessError {
    /// The engine named no move.
    NoMove,
    /// The engine gave no evaluation.
    NoEval,
}

/// What a search has found so far.
#[derive(Debug)]
pub struct Search {
    /// The first move of the last line reported.
    pub mov: Option<UciMove>,
    /// The last evaluation reported.
    pub eval: Option<Score>,
}

impl Search {
    /// A search that has found nothing yet.
    pub fn new() -> (r: Search)
        ensures
            r.mov is None,
            r.eval is None,
    {
        Search { mov: None, eval: None }
    }

    /// Takes a step of the analysis: its evaluation replaces the one kept,
    /// and so does the first move of its line, where it has one.
    pub fn update(&mut self, info: &Info)
        ensures
            final(self).eval == Some(info.score),
            match final(self).mov {
                Some(m) => if info.line@.len() > 0 {
                    m@ == info.line@[0]@
                } else {
                    old(self).mov == Some(m)
                },
                None => info.line@.len() == 0 && old(self).mov is None,
            },
    {
        if info.line.len() > 0 {
            self.mov = Some(info.line[0].copy());
        }
        self.eval = Some(info.score);
    }

    /// The result of the search: the move and the evaluation found, or
    /// what is missing, the move before the evaluation.
    pub fn finish(self) -> (r: Result<(UciMove, Score), ProcessError>)
        ensures
            match (self.mov, self.eval) {
                (None, _) => r == Err::<(UciMove, Score), ProcessError>(ProcessError::NoMove),
                (Some(_), None) => r == Err::<(UciMove, Score), ProcessError>(
                    ProcessError::NoEval,
                ),
                (Some(m), Some(e)) => r == Ok::<(UciMove, Score), ProcessError>((m, e)),
            },
    {
        match self.mov {
            None => Err(ProcessError::NoMove),
            Some(m) => match self.eval {
                None => Err(ProcessError::NoEval),
                Some(e) => Ok((m, e)),
            },
        }
    }
}

/// What an engine found for one place in a variation.
#[derive(Debug)]
pub struct EngineAnalysis {
    /// The variation analysed.
    pub variation: usize,
    /// The number of halfmoves after which it was analysed.
    pub hm: usize,
    /// The move chosen.
    pub mov: UciMove,
    /// The evaluation, from White's point of view.
    pub eval: Score,
}

/// What applying an analysis to the graph gives. Where its move is legal
/// in the position analysed and can be added to the variation, the move is
/// added, the evaluation is recorded for the position analysed, the main
/// line follows the move if the variation was the main line, and the place
/// after the move is to be analysed next. Where the move cannot be added,
/// nothing changes: an analysis is applied as a whole or not at all.
pub open spec fn applied(g: Graph, v: int, hm: int, mov: Seq<u8>, eval: Score) -> (
    Graph,
    Result<Scheduled, KnowledgeError>,
) {
    let p = g.variations[v].positions[hm];
    match legal_move(g.positions[p].fen, mov) {
        None => (g, Err(KnowledgeError::IllegalMove)),
        Some(m) => match g.add_move(v, hm, m) {
            Err(e) => (g, Err(e)),
            Ok((g2, nv, _)) => (
                g2.update_eval(p, eval).update_mainline(v, nv),
                Ok(Scheduled { variation: nv as usize, hm: (hm + 1) as usize }),
            ),
        },
    }
}

impl EngineAnalysis {
    /// The analysis of the place after `hm` halfmoves of `variation`, where
    /// `turn` is the side to move. An engine evaluates for the side to
    /// move; the evaluation kept is White's, so Black's is turned round.
    pub fn new(variation: usize, hm: usize, turn: Color, mov: UciMove, eval: Score) -> (r:
        EngineAnalysis)
        requires
            turn == Color::Black ==> eval.reversible(),
        ensures
            r.variation == variation,
            r.hm == hm,
            r.mov == mov,
            r.eval == (match turn {
                Color::White => eval,
                Color::Black => eval.reversed(),
            }),
    {
        let eval = match turn {
            Color::White => eval,
            Color::Black => eval.rev(),
        };
        EngineAnalysis { variation, hm, mov, eval }
    }

    /// The place that was analysed.
    pub open spec fn place(&self) -> Scheduled {
        Scheduled { variation: self.variation, hm: self.hm }
    }

    /// Applies the analysis to the knowledge, as `applied` says. Where it
    /// fails, the knowledge is as it was.
    pub fn apply(&self, knowledge: &mut Knowledge) -> (r: Result<Scheduled, KnowledgeError>)
        requires
            old(knowledge).sound(),
            self.place().fits(old(knowledge)@),
        ensures
            final(knowledge).sound(),
            old(knowledge).wf() ==> final(knowledge).wf(),
            (final(knowledge)@, r) == applied(
                old(knowledge)@,
                self.variation as int,
                self.hm as int,
                self.mov@,
                self.eval,
            ),
            r is Err ==> *final(knowledge) == *old(knowledge),
            r is Ok ==> r.unwrap().fits(final(knowledge)@),
    {
        let ghost g0 = knowledge@;
        let p = knowledge.position_index(self.variation, self.hm);
        assert(g0.positions[p as int] == knowledge.positions[p as int]@);
        let mov = match self.mov.to_move(knowledge.position(p).position()) {
            Some(mov) => mov,
            None => {
                return Err(KnowledgeError::IllegalMove);
            },
        };
        proof {
            g0.add_move_keeps_sound(self.variation as int, self.hm as int, mov@);
        }
        match knowledge.extend(self.variation, self.hm, mov) {
            Ok((idx, _)) => {
                assert(knowledge@.variations[idx as int] == knowledge.variations[idx as int]@);
                assert(self.hm < knowledge.variations[idx as int].moves.len());
                assert(knowledge@.positions.len() == knowledge.positions.len());
                knowledge.update_eval(p, self.eval);
                knowledge.update_mainline(self.variation, idx);
                assert(knowledge@.variations[idx as int] == knowledge.variations[idx as int]@);
                Ok(Scheduled::new(idx, self.hm + 1))
            },
            Err(e) => Err(e),
        }
    }
}

/// A request to the engine: the place to analyse, and the position and
/// moves that lead to it.
#[derive(Debug)]
pub struct Enqueued {
    /// The variation to analyse.
    pub variation: usize,
    /// The number of halfmoves after which to analyse it.
    pub hm: usize,
    /// The position in which the variation starts.
    pub fen: Position,
    /// The moves of the variation up to the place.
    pub moves: Vec<Move>,
    /// The side to move at the place.
    pub turn: Color,
}

impl Enqueued {
    /// The text of the command that sets the engine's board: the FEN of
    /// the root, and the moves where there are any.
    pub open spec fn position_text(&self) -> Seq<u8> {
        lit("position fen ") + self.fen@ + (if self.moves@.len() > 0 {
            lit(" moves") + spaced(move_texts(self.moves@))
        } else {
            Seq::empty()
        })
    }

    /// The two commands that make the engine analyse the place: the
    /// position, then the search within the limits given.
    pub fn commands(&self, depth: Option<u8>, time: Option<u64>) -> (r: (Command, Command))
        ensures
            r.0.wire() == self.position_text(),
            r.1 == (Command::Go { depth, time }),
    {
        let mut line: Vec<UciMove> = Vec::new();
        let mut i: usize = 0;
        while i < self.moves.len()
            invariant
                i <= self.moves.len(),
                line@.len() == i,
                forall|k: int| 0 <= k < i ==> (#[trigger] line@[k])@ == self.moves@[k]@,
            decreases self.moves.len() - i,
        {
            line.push(self.moves[i].to_uci());
            i += 1;
        }
        assert(texts(line@) =~= move_texts(self.moves@));
        let fen = crate::text::copy(self.fen.fen(), 0, self.fen.fen.len());
        let position = Command::Position { fen: Some(fen), line };
        assert(position.wire() =~= self.position_text());
        (position, Command::Go { depth, time })
    }
}

/// The results of `results[i..]` applied one after the other to `g`, and
/// the places to analyse next, behind those in `next`. A result is passed
/// over where its place does not exist, and where the position of its
/// place has an evaluation by now: a position takes one analysis. A result
/// whose move cannot be added changes nothing and names no place.
pub open spec fn applied_all(
    g: Graph,
    next: Seq<Scheduled>,
    results: Seq<EngineAnalysis>,
    i: int,
) -> (Graph, Seq<Scheduled>)
    decreases results.len() - i,
{
    if i < 0 || i >= results.len() {
        (g, next)
    } else if !results[i].place().fits(g) || !EngineProcessor::wanted(g, results[i].place()) {
        applied_all(g, next, results, i + 1)
    } else {
        let (g2, r) = applied(
            g,
            results[i].variation as int,
            results[i].hm as int,
            results[i].mov@,
            results[i].eval,
        );
        match r {
            Ok(s) => applied_all(g2, next.push(s), results, i + 1),
            Err(_) => applied_all(g2, next, results, i + 1),
        }
    }
}

/// The batches of results `batches[..n]`, applied one batch after the
/// other to `g`.
pub open spec fn applied_batches(g: Graph, batches: Seq<Seq<EngineAnalysis>>, n: int) -> Graph
    decreases n,
{
    if n <= 0 {
        g
    } else {
        applied_all(applied_batches(g, batches, n - 1), Seq::empty(), batches[n - 1], 0).0
    }
}

/// The processor that asks a chess engine. It analyses every position
/// that has no evaluation yet, and applies one analysis to a position.
#[derive(Debug)]
pub struct EngineProcessor {
    /// The results that have not been applied yet.
    pub results: Vec<EngineAnalysis>,
    /// The depth to search to.
    pub depth: Option<u8>,
    /// The time to search for, in milliseconds.
    pub time: Option<u64>,
}

impl EngineProcessor {
    /// A processor that searches within the limits of `config`.
    pub fn new(config: &Rev) -> (r: EngineProcessor)
        ensures
            r.results@.len() == 0,
            r.depth == config.depth,
            r.time == config.time,
    {
        EngineProcessor { results: Vec::new(), depth: config.depth, time: config.time }
    }

    /// Whether the place is to be analysed: its position has no
    /// evaluation yet.
    pub open spec fn wanted(g: Graph, at: Scheduled) -> bool {
        g.positions[g.variations[at.variation as int].positions[at.hm as int]].eval is None
    }

    /// The request to the engine for the place `at`; `None` where the
    /// place is not to be analysed.
    pub fn enqueue(&self, knowledge: &Knowledge, at: &Scheduled) -> (r: Option<Enqueued>)
        requires
            knowledge.sound(),
            at.fits(knowledge@),
        ensures
            r is Some <==> EngineProcessor::wanted(knowledge@, *at),
            match r {
                Some(q) => {
                    &&& q.variation == at.variation
                    &&& q.hm == at.hm
                    &&& q.fen@ == knowledge@.positions[0].fen
                    &&& move_texts(q.moves@) == knowledge@.variations[at.variation as int].moves.subrange(
                        0,
                        at.hm as int,
                    )
                    &&& q.turn
                        == knowledge@.positions[knowledge@.variations[at.variation as int].positions[at.hm as int]].turn
                },
                None => true,
            },
    {
        if !self.should_process(knowledge, at) {
            return None;
        }
        let ghost g = knowledge@;
        let ghost l = g.variations[at.variation as int];
        assert(l == knowledge.variations[at.variation as int]@);
        assert(g.line_sound(l));
        let (variation, position) = knowledge.variation_hm(at.variation, at.hm);
        let turn = position.position().turn();
        assert(g.positions[l.positions[at.hm as int]] == position@);
        let root = knowledge.root();
        assert(g.positions[0] == knowledge.positions[0]@);
        let mut moves: Vec<Move> = Vec::new();
        let mut i: usize = 0;
        while i < at.hm
            invariant
                at.hm <= variation.moves.len(),
                i <= at.hm,
                moves@.len() == i,
                forall|k: int| 0 <= k < i ==> (#[trigger] moves@[k])@ == variation.moves@[k]@,
            decreases at.hm - i,
        {
            moves.push(variation.moves[i].copy());
            i += 1;
        }
        assert(move_texts(moves@) =~= l.moves.subrange(0, at.hm as int));
        Some(
            Enqueued {
                variation: at.variation,
                hm: at.hm,
                fen: root.position().copy(),
                moves,
                turn,
            },
        )
    }

    /// Takes what the search for `request` gave. A result is kept for
    /// `apply_results`, with its evaluation turned to White's point of
    /// view; a search without result leaves nothing, and neither does an
    /// evaluation for Black that has no opposite.
    pub fn complete(&mut self, request: &Enqueued, found: Result<(UciMove, Score), ProcessError>)
        ensures
            final(self).depth == old(self).depth,
            final(self).time == old(self).time,
            match found {
                Ok((mov, eval)) => if request.turn == Color::Black && !eval.reversible() {
                    final(self).results@ == old(self).results@
                } else {
                    final(self).results@ == old(self).results@.push(
                        EngineAnalysis {
                            variation: request.variation,
                            hm: request.hm,
                            mov,
                            eval: match request.turn {
                                Color::White => eval,
                                Color::Black => eval.reversed(),
                            },
                        },
                    )
                },
                Err(_) => final(self).results@ == old(self).results@,
            },
    {
        match found {
            Ok((mov, eval)) => {
                let fit = match request.turn {
                    Color::White => true,
                    Color::Black => eval.checked_rev().is_some(),
                };
                if fit {
                    self.results.push(
                        EngineAnalysis::new(request.variation, request.hm, request.turn, mov, eval),
                    );
                }
            },
            Err(_) => {},
        }
    }

    /// Whether the processor holds results that have not been applied.
    pub fn is_idle(&self) -> (r: bool)
        ensures
            r == (self.results@.len() == 0),
    {
        self.results.len() == 0
    }
}

impl Processor for EngineProcessor {
    /// A place is wanted where its position has no evaluation yet.
    open spec fn wants(&self, g: Graph, at: Scheduled) -> bool {
        EngineProcessor::wanted(g, at)
    }

    /// The results are applied one after the other.
    open spec fn outcome(&self, g: Graph) -> (Graph, Seq<Scheduled>) {
        applied_all(g, Seq::empty(), self.results@, 0)
    }

    fn should_process(&self, knowledge: &Knowledge, at: &Scheduled) -> (r: bool) {
        let (_, position) = knowledge.variation_hm(at.variation, at.hm);
        proof {
            let l = knowledge@.variations[at.variation as int];
            assert(l == knowledge.variations[at.variation as int]@);
            assert(knowledge@.positions[l.positions[at.hm as int]]
                == knowledge.positions[l.positions[at.hm as int]]@);
        }
        position.eval().is_none()
    }

    fn apply_results(&mut self, knowledge: &mut Knowledge) -> (r: Vec<Scheduled>)
        ensures
            final(self).results@.len() == 0,
            final(self).depth == old(self).depth,
            final(self).time == old(self).time,
            forall|i: int| 0 <= i < r@.len() ==> (#[trigger] r@[i]).fits(final(knowledge)@),
    {
        let mut results: Vec<EngineAnalysis> = Vec::new();
        std::mem::swap(&mut self.results, &mut results);
        let ghost g0 = knowledge@;
        let mut next: Vec<Scheduled> = Vec::new();
        let mut i: usize = 0;
        while i < results.len()
            invariant
                knowledge.sound(),
                old(knowledge).wf() ==> knowledge.wf(),
                i <= results.len(),
                applied_all(g0, Seq::empty(), results@, 0) == applied_all(
                    knowledge@,
                    next@,
                    results@,
                    i as int,
                ),
                forall|k: int| 0 <= k < next@.len() ==> (#[trigger] next@[k]).fits(knowledge@),
            decreases results.len() - i,
        {
            let result = &results[i];
            let place = Scheduled::new(result.variation, result.hm);
            if place.is_in(knowledge) && self.should_process(knowledge, &place) {
                let ghost before = knowledge@;
                proof {
                    lemma_applied_keeps_places(
                        before,
                        result.variation as int,
                        result.hm as int,
                        result.mov@,
                        result.eval,
                    );
                }
                match result.apply(knowledge) {
                    Ok(s) => {
                        next.push(s);
                    },
                    Err(_) => {},
                }
            }
            i += 1;
        }
        next
    }
}

/// A place is analysed once: when an analysis has been applied, the engine
/// processor wants the place no more.
pub proof fn analysed_once(g: Graph, v: int, hm: int, mov: Seq<u8>, eval: Score)
    requires
        g.sound(),
        0 <= v < g.variations.len() <= usize::MAX,
        0 <= hm <= g.variations[v].moves.len() <= usize::MAX,
        applied(g, v, hm, mov, eval).1 is Ok,
    ensures
        !EngineProcessor::wanted(
            applied(g, v, hm, mov, eval).0,
            Scheduled { variation: v as usize, hm: hm as usize },
        ),
{
    let p = g.variations[v].positions[hm];
    let line = g.variations[v];
    assert(g.line_sound(line));
    assert(0 <= p < g.positions.len());
    let m = legal_move(g.positions[p].fen, mov).unwrap();
    g.add_move_keeps_sound(v, hm, m);
    let (g2, nv, _) = g.add_move(v, hm, m).unwrap();
    if hm < line.moves.len() && line.moves[hm] == m {
    } else {
        g.lemma_open(v, hm);
        let fen = crate::chess::successor(g.positions[p].fen, m).unwrap();
        g.insert_keeps_sound(v, hm, m, Graph::described(fen));
        if nv == v {
            assert(g2.variations[v].positions[hm] == g2.variations[v].positions.subrange(
                0,
                hm + 1,
            )[hm]);
            assert(line.positions[hm] == line.positions.subrange(0, hm + 1)[hm]);
        } else {
            assert(g2.variations[v] == g.variations[v]);
        }
    }
    assert(g2.variations[v].positions[hm] == p);
    assert(g2.update_eval(p, eval).positions[p].eval is Some);
}

/// An analysis applied a second time changes nothing: where the place was
/// the end of its variation and the analysis has been applied, applying it
/// again leaves the graph as it is and names the same place. So two
/// processors that find the same move for a place add it once.
pub proof fn applied_again(g: Graph, v: int, hm: int, mov: Seq<u8>, eval: Score)
    requires
        g.sound(),
        0 <= v < g.variations.len(),
        hm == g.variations[v].moves.len(),
        applied(g, v, hm, mov, eval).1 is Ok,
    ensures
        applied(applied(g, v, hm, mov, eval).0, v, hm, mov, eval) == applied(g, v, hm, mov, eval),
{
    let p = g.variations[v].positions[hm];
    let line = g.variations[v];
    assert(g.line_sound(line));
    assert(0 <= p < g.positions.len());
    let m = legal_move(g.positions[p].fen, mov).unwrap();
    g.add_move_keeps_sound(v, hm, m);
    let (g2, nv, q) = g.add_move(v, hm, m).unwrap();
    g.lemma_open(v, hm);
    let fen = crate::chess::successor(g.positions[p].fen, m).unwrap();
    g.insert_keeps_sound(v, hm, m, Graph::described(fen));
    assert(nv == v);
    let once = g2.update_eval(p, eval).update_mainline(v, v);
    assert(once == applied(g, v, hm, mov, eval).0);
    assert(g2.variations[v].positions[hm] == g2.variations[v].positions.subrange(0, hm + 1)[hm]);
    assert(line.positions[hm] == line.positions.subrange(0, hm + 1)[hm]);
    assert(once.variations[v].positions[hm] == p);
    assert(once.positions[p].fen == g.positions[p].fen);
    assert(once.variations[v].moves[hm] == m);
    assert(once.add_move(v, hm, m) == Ok::<(Graph, int, int), KnowledgeError>(
        (once, v, once.variations[v].positions[hm + 1]),
    ));
    assert(once.update_eval(p, eval).positions =~= once.positions);
    assert(once.update_eval(p, eval) == once);
    assert(once.update_mainline(v, v) == once);
}

/// Applying an analysis keeps the graph sound.
pub proof fn applied_keeps_sound(g: Graph, v: int, hm: int, mov: Seq<u8>, eval: Score)
    requires
        g.sound(),
        0 <= v < g.variations.len(),
        0 <= hm <= g.variations[v].moves.len(),
    ensures
        applied(g, v, hm, mov, eval).0.sound(),
        g.positions.len() <= applied(g, v, hm, mov, eval).0.positions.len(),
{
    let p = g.variations[v].positions[hm];
    assert(g.line_sound(g.variations[v]));
    assert(0 <= p < g.positions.len());
    match legal_move(g.positions[p].fen, mov) {
        None => {},
        Some(m) => {
            g.add_move_keeps_sound(v, hm, m);
            match g.add_move(v, hm, m) {
                Err(e) => {},
                Ok((g2, nv, _)) => {
                    g2.updates_keep_sound(p, eval, 0, 0);
                    g2.update_eval(p, eval).updates_keep_sound(0, eval, v, nv);
                },
            }
        },
    }
}

/// An evaluation that is recorded stays: an analysis applied to a place
/// whose position has no evaluation changes the evaluation of no other
/// position.
pub proof fn applied_keeps_evaluations(g: Graph, at: Scheduled, mov: Seq<u8>, eval: Score)
    requires
        g.sound(),
        at.fits(g),
        EngineProcessor::wanted(g, at),
    ensures
        forall|i: int|
            0 <= i < g.positions.len() && (#[trigger] g.positions[i]).eval is Some ==> applied(
                g,
                at.variation as int,
                at.hm as int,
                mov,
                eval,
            ).0.positions[i].eval == g.positions[i].eval,
{
    let v = at.variation as int;
    let hm = at.hm as int;
    let p = g.variations[v].positions[hm];
    assert(g.line_sound(g.variations[v]));
    assert(0 <= p < g.positions.len());
    match legal_move(g.positions[p].fen, mov) {
        None => {},
        Some(m) => {
            g.add_move_keeps_sound(v, hm, m);
            match g.add_move(v, hm, m) {
                Err(e) => {},
                Ok((g2, nv, _)) => {
                    g.positions_stay(v, hm, m);
                    let last = g2.update_eval(p, eval).update_mainline(v, nv);
                    assert forall|i: int|
                        0 <= i < g.positions.len() && (
                        #[trigger] g.positions[i]).eval is Some implies last.positions[i].eval
                        == g.positions[i].eval by {
                        assert(g2.positions[i] == g.positions[i]);
                        assert(i != p);
                    }
                },
            }
        },
    }
}

/// A position takes one analysis: however many results are applied, and
/// in whatever order, an evaluation that is recorded is never replaced.
pub proof fn results_keep_evaluations(
    g: Graph,
    next: Seq<Scheduled>,
    results: Seq<EngineAnalysis>,
    i: int,
)
    requires
        g.sound(),
        0 <= i,
    ensures
        applied_all(g, next, results, i).0.sound(),
        g.positions.len() <= applied_all(g, next, results, i).0.positions.len(),
        forall|k: int|
            0 <= k < g.positions.len() && (#[trigger] g.positions[k]).eval is Some ==> applied_all(
                g,
                next,
                results,
                i,
            ).0.positions[k].eval == g.positions[k].eval,
    decreases results.len() - i,
{
    if i < results.len() {
        let a = results[i];
        if !a.place().fits(g) || !EngineProcessor::wanted(g, a.place()) {
            results_keep_evaluations(g, next, results, i + 1);
        } else {
            let (g2, r) = applied(g, a.variation as int, a.hm as int, a.mov@, a.eval);
            applied_keeps_sound(g, a.variation as int, a.hm as int, a.mov@, a.eval);
            applied_keeps_evaluations(g, a.place(), a.mov@, a.eval);
            let then = match r {
                Ok(s) => next.push(s),
                Err(_) => next,
            };
            results_keep_evaluations(g2, then, results, i + 1);
            let out = applied_all(g, next, results, i).0;
            assert(out == applied_all(g2, then, results, i + 1).0);
            assert forall|k: int|
                0 <= k < g.positions.len() && (
                #[trigger] g.positions[k]).eval is Some implies out.positions[k].eval
                == g.positions[k].eval by {
                assert(g2.positions[k].eval == g.positions[k].eval);
                assert(g2.positions[k].eval is Some);
            }
        }
    }
}

/// The same of a whole review: whatever batches of results the processors
/// hand in, and in whatever order, each position keeps the evaluation of
/// the one analysis that was applied to it.
pub proof fn batches_keep_evaluations(g: Graph, batches: Seq<Seq<EngineAnalysis>>, n: int)
    requires
        g.sound(),
        0 <= n <= batches.len(),
    ensures
        applied_batches(g, batches, n).sound(),
        g.positions.len() <= applied_batches(g, batches, n).positions.len(),
        forall|k: int|
            0 <= k < g.positions.len() && (#[trigger] g.positions[k]).eval is Some
                ==> applied_batches(g, batches, n).positions[k].eval == g.positions[k].eval,
    decreases n,
{
    if n > 0 {
        batches_keep_evaluations(g, batches, n - 1);
        let before = applied_batches(g, batches, n - 1);
        results_keep_evaluations(before, Seq::empty(), batches[n - 1], 0);
        let out = applied_batches(g, batches, n);
        assert forall|k: int|
            0 <= k < g.positions.len() && (
            #[trigger] g.positions[k]).eval is Some implies out.positions[k].eval
            == g.positions[k].eval by {
            assert(before.positions[k].eval == g.positions[k].eval);
            assert(before.positions[k].eval is Some);
        }
    }
}

/// The move `k` of variation `v` was played from a position that has an
/// evaluation.
pub open spec fn chosen(g: Graph, v: int, k: int) -> bool {
    g.positions[g.variations[v].positions[k]].eval is Some
}

/// Every move of the graph was chosen by an analysis: the position it was
/// played from has an evaluation.
pub open spec fn analysed(g: Graph) -> bool {
    forall|v: int, k: int|
        0 <= v < g.variations.len() && 0 <= k < g.variations[v].moves.len() ==> #[trigger] chosen(
            g,
            v,
            k,
        )
}

/// In a graph whose moves were all chosen by analyses, an analysis for a
/// position without evaluation extends its variation: no variation is
/// added, and the moves of the graph are still all chosen by analyses.
pub proof fn applied_extends(g: Graph, at: Scheduled, mov: Seq<u8>, eval: Score)
    requires
        g.sound(),
        analysed(g),
        at.fits(g),
        EngineProcessor::wanted(g, at),
    ensures
        applied(g, at.variation as int, at.hm as int, mov, eval).0.variations.len()
            == g.variations.len(),
        analysed(applied(g, at.variation as int, at.hm as int, mov, eval).0),
{
    let v = at.variation as int;
    let hm = at.hm as int;
    let line = g.variations[v];
    let p = line.positions[hm];
    assert(g.line_sound(line));
    assert(0 <= p < g.positions.len());
    if hm < line.moves.len() {
        assert(chosen(g, v, hm));
    }
    match legal_move(g.positions[p].fen, mov) {
        None => {},
        Some(m) => {
            g.add_move_keeps_sound(v, hm, m);
            match g.add_move(v, hm, m) {
                Err(e) => {},
                Ok((g2, nv, _)) => {
                    g.lemma_open(v, hm);
                    let fen = crate::chess::successor(g.positions[p].fen, m).unwrap();
                    g.insert_keeps_sound(v, hm, m, Graph::described(fen));
                    let last = g2.update_eval(p, eval).update_mainline(v, nv);
                    assert(nv == v);
                    assert forall|w: int, k: int|
                        0 <= w < last.variations.len() && 0 <= k
                            < last.variations[w].moves.len() implies #[trigger] chosen(
                        last,
                        w,
                        k,
                    ) by {
                        if w != v {
                            assert(g2.variations[w] == g.variations[w]);
                            assert(chosen(g, w, k));
                            assert(g.line_sound(g.variations[w]));
                            assert(0 <= g.variations[w].positions[k] < g.positions.len());
                        } else if k < hm {
                            assert(chosen(g, v, k));
                            assert(g2.variations[v].positions[k] == g2.variations[v].positions.subrange(
                                0,
                                hm + 1,
                            )[k]);
                            assert(line.positions[k] == line.positions.subrange(0, hm + 1)[k]);
                            assert(0 <= line.positions[k] < g.positions.len());
                        } else {
                            assert(g2.variations[v].positions[hm] == g2.variations[v].positions.subrange(
                                0,
                                hm + 1,
                            )[hm]);
                            assert(line.positions[hm] == line.positions.subrange(0, hm + 1)[hm]);
                        }
                    }
                },
            }
        },
    }
}

/// One analysis is applied to a position, whoever hands the results in:
/// in a graph whose moves were all chosen by analyses, results in any
/// number and order add no variation, so no line of moves is held twice
/// that was not held twice before.
pub proof fn results_add_no_variation(
    g: Graph,
    next: Seq<Scheduled>,
    results: Seq<EngineAnalysis>,
    i: int,
)
    requires
        g.sound(),
        analysed(g),
        0 <= i,
    ensures
        applied_all(g, next, results, i).0.variations.len() == g.variations.len(),
        analysed(applied_all(g, next, results, i).0),
    decreases results.len() - i,
{
    if i < results.len() {
        let a = results[i];
        if !a.place().fits(g) || !EngineProcessor::wanted(g, a.place()) {
            results_add_no_variation(g, next, results, i + 1);
        } else {
            let (g2, r) = applied(g, a.variation as int, a.hm as int, a.mov@, a.eval);
            applied_keeps_sound(g, a.variation as int, a.hm as int, a.mov@, a.eval);
            applied_extends(g, a.place(), a.mov@, a.eval);
            let then = match r {
                Ok(s) => next.push(s),
                Err(_) => next,
            };
            results_add_no_variation(g2, then, results, i + 1);
        }
    }
}

/// The same of a whole review that starts with one variation without
/// moves: whatever batches of results the processors hand in, and in
/// whatever order, the knowledge holds one variation.
pub proof fn review_holds_one_line(
    root: crate::knowledge::model::PosView,
    batches: Seq<Seq<EngineAnalysis>>,
    n: int,
)
    requires
        0 <= n <= batches.len(),
    ensures
        applied_batches(Graph::start(root), batches, n).variations.len() == 1,
        analysed(applied_batches(Graph::start(root), batches, n)),
        applied_batches(Graph::start(root), batches, n).sound(),
    decreases n,
{
    let g = Graph::start(root);
    Graph::start_is_sound(root);
    if n > 0 {
        review_holds_one_line(root, batches, n - 1);
        let before = applied_batches(g, batches, n - 1);
        results_add_no_variation(before, Seq::empty(), batches[n - 1], 0);
        results_keep_evaluations(before, Seq::empty(), batches[n - 1], 0);
    }
}

/// Applying an analysis takes no place away: a variation keeps its index
/// and loses no move.
pub proof fn lemma_applied_keeps_places(g: Graph, v: int, hm: int, mov: Seq<u8>, eval: Score)
    requires
        g.sound(),
        0 <= v < g.variations.len(),
        0 <= hm <= g.variations[v].moves.len(),
    ensures
        forall|s: Scheduled| s.fits(g) ==> #[trigger] s.fits(applied(g, v, hm, mov, eval).0),
{
    let p = g.variations[v].positions[hm];
    assert(g.line_sound(g.variations[v]));
    assert(0 <= p < g.positions.len());
    match legal_move(g.positions[p].fen, mov) {
        None => {},
        Some(m) => {
            g.add_move_keeps_sound(v, hm, m);
            match g.add_move(v, hm, m) {
                Err(e) => {},
                Ok((g2, nv, _)) => {
                    let line = g.variations[v];
                    if hm < line.moves.len() && line.moves[hm] == m {
                    } else {
                        g.lemma_open(v, hm);
                        let fen = crate::chess::successor(g.positions[p].fen, m).unwrap();
                        g.insert_keeps_sound(v, hm, m, Graph::described(fen));
                    }
                    let last = g2.update_eval(p, eval).update_mainline(v, nv);
                    assert forall|s: Scheduled| s.fits(g) implies #[trigger] s.fits(last) by {
                        let w = s.variation as int;
                        if w == nv {
                            assert(g2.variations[w].moves.len() >= g.variations[w].moves.len());
                        } else {
                            assert(g2.variations[w] == g.variations[w]);
                        }
                    }
                },
            }
        },
    }
}

} // verus!
