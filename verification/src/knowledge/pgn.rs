//! The game record: the variations as one tree of moves, and its text.
use crate::chess::{san_text, Color, Outcome};
use crate::knowledge::model::Graph;
use crate::knowledge::number::MoveNo;
use crate::knowledge::{indices, Knowledge, PosInfo};
use crate::text::{lit, put, put_lit};
use crate::uci::score::Score;
use vstd::prelude::*;

verus! {

/// One move of the record, as the contracts speak of it.
pub struct MovView {
    /// The move in standard algebraic notation.
    pub san: Seq<u8>,
    /// Its number.
    pub no: MoveNo,
    /// The evaluation of the position in which it is played: what the
    /// engine made of the position when it chose the move.
    pub eval: Option<Score>,
}

/// The tree of moves: a line of moves, then the lines that go on from its
/// end. The first of them continues the line; the others are alternatives
/// to it.
pub struct Tree {
    pub line: Seq<MovView>,
    pub branches: Seq<Tree>,
    /// The outcome of the variation that ends here.
    pub outcome: Option<Outcome>,
}

/// A piece of the movetext, as the contracts speak of it.
pub enum TokenView {
    /// A move number.
    Number(MoveNo),
    /// A move.
    San(Seq<u8>),
    /// The comment after a move, with the evaluation where there is one.
    Comment(Option<Score>),
    /// The start of an alternative.
    Open,
    /// The end of an alternative.
    Close,
}

/// The text of one piece of the movetext.
pub open spec fn token_text(t: TokenView) -> Seq<u8> {
    match t {
        TokenView::Number(no) => no.label() + lit(" "),
        TokenView::San(san) => san,
        TokenView::Comment(Some(eval)) => lit(" { ") + lit("Eval: ") + eval.notation() + lit(", ") + lit(
            "}\n",
        ),
        TokenView::Comment(None) => lit(" { ") + lit("}\n"),
        TokenView::Open => lit("("),
        TokenView::Close => lit(")"),
    }
}

/// The text of the pieces of a movetext, one after the other.
pub open spec fn render(ts: Seq<TokenView>) -> Seq<u8>
    decreases ts.len(),
{
    if ts.len() == 0 {
        Seq::empty()
    } else {
        render(ts.drop_last()) + token_text(ts.last())
    }
}

/// The moves among the pieces of a movetext, in their order.
pub open spec fn sans(ts: Seq<TokenView>) -> Seq<Seq<u8>>
    decreases ts.len(),
{
    if ts.len() == 0 {
        Seq::empty()
    } else {
        match ts.last() {
            TokenView::San(san) => sans(ts.drop_last()).push(san),
            _ => sans(ts.drop_last()),
        }
    }
}

/// The pieces that the moves of a line are written with: for each move its
/// number, the move and a comment.
pub open spec fn line_tokens(line: Seq<MovView>) -> Seq<TokenView>
    decreases line.len(),
{
    if line.len() == 0 {
        Seq::empty()
    } else {
        line_tokens(line.drop_last()) + seq![
            TokenView::Number(line.last().no),
            TokenView::San(line.last().san),
            TokenView::Comment(line.last().eval),
        ]
    }
}

/// The moves of a line.
pub open spec fn line_sans(line: Seq<MovView>) -> Seq<Seq<u8>> {
    Seq::new(line.len(), |i: int| line[i].san)
}

impl Tree {
    /// The pieces that the tree is written with: its line, then its
    /// branches, each after the first between `Open` and `Close`.
    pub open spec fn tokens(self) -> Seq<TokenView>
        decreases self, 0nat,
    {
        line_tokens(self.line) + Tree::branch_tokens(self.branches, 0)
    }

    /// The pieces that the branches from `k` on are written with.
    pub open spec fn branch_tokens(bs: Seq<Tree>, k: int) -> Seq<TokenView>
        decreases bs, bs.len() - k,
    {
        if k < 0 || k >= bs.len() {
            Seq::empty()
        } else if k == 0 {
            bs[k].tokens() + Tree::branch_tokens(bs, k + 1)
        } else {
            seq![TokenView::Open] + bs[k].tokens() + seq![TokenView::Close] + Tree::branch_tokens(
                bs,
                k + 1,
            )
        }
    }

    /// The moves of the tree in the order of a walk that takes the line of
    /// a node first and then its branches, one after the other, each with
    /// all that hangs on it.
    pub open spec fn dfs(self) -> Seq<Seq<u8>>
        decreases self, 0nat,
    {
        line_sans(self.line) + Tree::branch_dfs(self.branches, 0)
    }

    /// The moves of the branches from `k` on, in the order of that walk.
    pub open spec fn branch_dfs(bs: Seq<Tree>, k: int) -> Seq<Seq<u8>>
        decreases bs, bs.len() - k,
    {
        if k < 0 || k >= bs.len() {
            Seq::empty()
        } else {
            bs[k].dfs() + Tree::branch_dfs(bs, k + 1)
        }
    }

    /// The tree of one move.
    pub open spec fn leaf(m: MovView) -> Tree {
        Tree { line: seq![m], branches: Seq::empty(), outcome: None }
    }

    /// The first branch from `k` on that starts with the move `san`.
    pub open spec fn branch_with(bs: Seq<Tree>, san: Seq<u8>, k: int) -> Option<int>
        decreases bs.len() - k,
    {
        if k < 0 || k >= bs.len() {
            None
        } else if bs[k].line.len() > 0 && bs[k].line[0].san == san {
            Some(k)
        } else {
            Tree::branch_with(bs, san, k + 1)
        }
    }

    /// The tree once the moves `path[from..]` are in it, the first of them
    /// as the move number `hm` of this node's line, and `outcome` is set
    /// where they end.
    ///
    /// A move that the line already has at its place is passed over. At
    /// the end of a line without branches the move is appended. At the end
    /// of a line with branches the branch that starts with the move is
    /// followed, or a new branch is added for it. Where the line goes on
    /// with another move, it is split there: what follows, with the
    /// branches and the outcome of the node, becomes the first branch and
    /// the new move the second.
    pub open spec fn insert(self, hm: int, path: Seq<MovView>, from: int, outcome: Option<Outcome>)
        -> Tree
        decreases path.len() - from,
    {
        if from < 0 || from >= path.len() {
            Tree { outcome, ..self }
        } else if hm == self.line.len() && self.branches.len() == 0 {
            (Tree { line: self.line.push(path[from]), ..self }).insert(
                hm + 1,
                path,
                from + 1,
                outcome,
            )
        } else if hm == self.line.len() {
            match Tree::branch_with(self.branches, path[from].san, 0) {
                Some(k) => Tree {
                    branches: self.branches.update(
                        k,
                        self.branches[k].insert(1, path, from + 1, outcome),
                    ),
                    ..self
                },
                None => Tree {
                    branches: self.branches.push(
                        Tree::leaf(path[from]).insert(1, path, from + 1, outcome),
                    ),
                    ..self
                },
            }
        } else if self.line[hm].san == path[from].san {
            self.insert(hm + 1, path, from + 1, outcome)
        } else {
            Tree {
                line: self.line.subrange(0, hm),
                branches: seq![
                    Tree {
                        line: self.line.subrange(hm, self.line.len() as int),
                        branches: self.branches,
                        outcome: self.outcome,
                    },
                    Tree::leaf(path[from]).insert(1, path, from + 1, outcome),
                ],
                outcome: self.outcome,
            }
        }
    }

    /// The movetext of the tree.
    pub open spec fn movetext(self) -> Seq<u8> {
        render(self.tokens())
    }

    /// The movetext holds the moves of the tree in the order of the walk
    /// through it: what stands between the moves is numbers, comments and
    /// brackets.
    pub proof fn written_in_walk_order(self)
        ensures
            sans(self.tokens()) == self.dfs(),
        decreases self, 0nat,
    {
        lemma_sans_of_line(self.line);
        Tree::branches_written_in_walk_order(self.branches, 0);
        lemma_sans_concat(line_tokens(self.line), Tree::branch_tokens(self.branches, 0));
    }

    /// The same of the branches from `k` on.
    pub proof fn branches_written_in_walk_order(bs: Seq<Tree>, k: int)
        ensures
            sans(Tree::branch_tokens(bs, k)) == Tree::branch_dfs(bs, k),
        decreases bs, bs.len() - k,
    {
        if k < 0 || k >= bs.len() {
        } else {
            bs[k].written_in_walk_order();
            Tree::branches_written_in_walk_order(bs, k + 1);
            let rest = Tree::branch_tokens(bs, k + 1);
            if k == 0 {
                lemma_sans_concat(bs[k].tokens(), rest);
            } else {
                let open = seq![TokenView::Open];
                let close = seq![TokenView::Close];
                assert(open.drop_last() =~= Seq::<TokenView>::empty());
                assert(close.drop_last() =~= Seq::<TokenView>::empty());
                assert(sans(open.drop_last()) =~= Seq::<Seq<u8>>::empty());
                assert(open.last() == TokenView::Open);
                assert(close.last() == TokenView::Close);
                assert(sans(open) =~= Seq::<Seq<u8>>::empty());
                assert(sans(close) =~= Seq::<Seq<u8>>::empty());
                lemma_sans_concat(open, bs[k].tokens());
                lemma_sans_concat(open + bs[k].tokens(), close);
                lemma_sans_concat(open + bs[k].tokens() + close, rest);
                assert(sans(open + bs[k].tokens() + close) =~= bs[k].dfs());
            }
        }
    }
}

/// The moves of two runs of pieces are the moves of the first, then those
/// of the second.
pub proof fn lemma_sans_concat(a: Seq<TokenView>, b: Seq<TokenView>)
    ensures
        sans(a + b) == sans(a) + sans(b),
    decreases b.len(),
{
    if b.len() == 0 {
        assert(a + b =~= a);
        assert(sans(a) + sans(b) =~= sans(a));
    } else {
        lemma_sans_concat(a, b.drop_last());
        assert((a + b).drop_last() =~= a + b.drop_last());
        assert((a + b).last() == b.last());
        match b.last() {
            TokenView::San(san) => {
                assert(sans(a + b) =~= sans(a) + sans(b));
            },
            _ => {},
        }
    }
}

/// The moves among the pieces of a line are the moves of the line.
pub proof fn lemma_sans_of_line(line: Seq<MovView>)
    ensures
        sans(line_tokens(line)) == line_sans(line),
    decreases line.len(),
{
    if line.len() == 0 {
        assert(sans(line_tokens(line)) =~= line_sans(line));
    } else {
        lemma_sans_of_line(line.drop_last());
        let head = line_tokens(line.drop_last());
        let m = line.last();
        let t3 = seq![TokenView::Number(m.no), TokenView::San(m.san), TokenView::Comment(m.eval)];
        let t2 = seq![TokenView::Number(m.no), TokenView::San(m.san)];
        let t1 = seq![TokenView::Number(m.no)];
        assert(t3.drop_last() =~= t2);
        assert(t2.drop_last() =~= t1);
        assert(t1.drop_last() =~= Seq::<TokenView>::empty());
        assert(sans(t1.drop_last()) =~= Seq::<Seq<u8>>::empty());
        assert(t1.last() == TokenView::Number(m.no));
        assert(sans(t1) =~= Seq::<Seq<u8>>::empty());
        assert(t2.last() == TokenView::San(m.san));
        assert(t3.last() == TokenView::Comment(m.eval));
        assert(sans(t2) =~= seq![m.san]);
        assert(sans(t3) =~= seq![m.san]);
        lemma_sans_concat(head, t3);
        assert(line_sans(line) =~= line_sans(line.drop_last()).push(m.san));
    }
}

/// A piece of the movetext.
#[derive(Debug)]
pub enum Token {
    Number(MoveNo),
    San(Vec<u8>),
    Comment(Option<Score>),
    Open,
    Close,
}

impl View for Token {
    type V = TokenView;

    open spec fn view(&self) -> TokenView {
        match self {
            Token::Number(no) => TokenView::Number(*no),
            Token::San(san) => TokenView::San(san@),
            Token::Comment(eval) => TokenView::Comment(*eval),
            Token::Open => TokenView::Open,
            Token::Close => TokenView::Close,
        }
    }
}

/// The views of a list of pieces.
pub open spec fn token_views(ts: Seq<Token>) -> Seq<TokenView> {
    Seq::new(ts.len(), |i: int| ts[i]@)
}

/// One move of the record.
#[derive(Debug)]
pub struct Mov {
    /// The move in standard algebraic notation.
    pub mov: Vec<u8>,
    /// Its number.
    pub no: MoveNo,
    /// The evaluation of the position in which it is played.
    pub eval: Option<Score>,
}

impl View for Mov {
    type V = MovView;

    open spec fn view(&self) -> MovView {
        MovView { san: self.mov@, no: self.no, eval: self.eval }
    }
}

impl Mov {
    /// A copy of the move.
    pub fn copy(&self) -> (r: Mov)
        ensures
            r@ == self@,
    {
        let mov = crate::text::copy(self.mov.as_slice(), 0, self.mov.len());
        assert(mov@ =~= self.mov@);
        Mov { mov, no: self.no, eval: self.eval }
    }
}

/// The views of a line of moves.
pub open spec fn mov_views(line: Seq<Mov>) -> Seq<MovView> {
    Seq::new(line.len(), |i: int| line[i]@)
}

/// A node of the tree: the moves up to the next choice, and the lines to
/// choose from there.
#[derive(Debug)]
pub struct Node {
    /// The moves up to the first choice.
    pub line: Vec<Mov>,
    /// The lines that go on from there.
    pub branches: Vec<Node>,
    /// The outcome of the variation that ends here.
    pub outcome: Option<Outcome>,
}

impl Node {
    /// The tree that the node stands for.
    pub open spec fn tree(&self) -> Tree
        decreases self,
    {
        Tree {
            line: mov_views(self.line@),
            branches: Seq::new(
                self.branches.len() as nat,
                |i: int|
                    if 0 <= i < self.branches.len() {
                        self.branches[i].tree()
                    } else {
                        arbitrary()
                    },
            ),
            outcome: self.outcome,
        }
    }

    /// A node without moves.
    pub fn empty() -> (r: Node)
        ensures
            r.tree() == (Tree { line: Seq::empty(), branches: Seq::empty(), outcome: None }),
    {
        let r = Node { line: Vec::new(), branches: Vec::new(), outcome: None };
        assert(r.tree().line =~= Seq::<MovView>::empty());
        assert(r.tree().branches =~= Seq::<Tree>::empty());
        r
    }

    /// A node of one move.
    pub fn leaf(m: Mov) -> (r: Node)
        ensures
            r.tree() == Tree::leaf(m@),
            r.line@.len() == 1,
    {
        let mut line: Vec<Mov> = Vec::new();
        line.push(m);
        let r = Node { line, branches: Vec::new(), outcome: None };
        assert(r.tree().line =~= seq![m@]);
        assert(r.tree().branches =~= Seq::<Tree>::empty());
        r
    }

    /// Finds the first branch that starts with the move `san`.
    fn branch_with(&self, san: &[u8]) -> (r: Option<usize>)
        ensures
            match r {
                Some(k) => Tree::branch_with(self.tree().branches, san@, 0) == Some(k as int) && k
                    < self.branches.len() && self.branches[k as int].line.len() > 0,
                None => Tree::branch_with(self.tree().branches, san@, 0) is None,
            },
    {
        let ghost bs = self.tree().branches;
        let mut k: usize = 0;
        while k < self.branches.len()
            invariant
                bs == self.tree().branches,
                k <= self.branches.len(),
                Tree::branch_with(bs, san@, 0) == Tree::branch_with(bs, san@, k as int),
            decreases self.branches.len() - k,
        {
            let branch = &self.branches[k];
            assert(bs[k as int] == branch.tree());
            if branch.line.len() > 0 && crate::text::same(branch.line[0].mov.as_slice(), san) {
                assert(bs[k as int].line[0].san == san@);
                return Some(k);
            }
            k += 1;
        }
        None
    }

    /// Puts the moves `path[from..]` into the tree, the first of them as
    /// the move number `hm` of this node's line, and sets `outcome` where
    /// they end.
    pub fn insert(&mut self, hm: usize, path: &Vec<Mov>, from: usize, outcome: Option<Outcome>)
        requires
            hm <= old(self).line.len(),
            from <= path.len(),
        ensures
            final(self).tree() == old(self).tree().insert(
                hm as int,
                mov_views(path@),
                from as int,
                outcome,
            ),
        decreases path.len() - from,
    {
        let ghost t0 = self.tree();
        let ghost p = mov_views(path@);
        if from >= path.len() {
            self.outcome = outcome;
            proof {
                assert(self.tree().line =~= t0.line);
                assert(self.tree().branches =~= t0.branches);
            }
            return ;
        }
        assert(p[from as int] == path@[from as int]@);
        if hm == self.line.len() && self.branches.len() == 0 {
            self.line.push(path[from].copy());
            proof {
                assert(self.tree().line =~= t0.line.push(p[from as int]));
                assert(self.tree().branches =~= t0.branches);
                assert(self.tree() == (Tree { line: t0.line.push(p[from as int]), ..t0 }));
            }
            let next: usize = self.line.len();
            self.insert(next, path, from + 1, outcome);
        } else if hm == self.line.len() {
            match self.branch_with(path[from].mov.as_slice()) {
                Some(k) => {
                    let ghost before = self.branches@;
                    self.branches[k].insert(1, path, from + 1, outcome);
                    proof {
                        assert(t0.branches[k as int] == before[k as int].tree());
                        assert(self.tree().line =~= t0.line);
                        assert(self.tree().branches =~= t0.branches.update(
                            k as int,
                            t0.branches[k as int].insert(1, p, from + 1, outcome),
                        ));
                    }
                },
                None => {
                    let mut fresh = Node::leaf(path[from].copy());
                    fresh.insert(1, path, from + 1, outcome);
                    self.branches.push(fresh);
                    proof {
                        assert(self.tree().line =~= t0.line);
                        assert(self.tree().branches =~= t0.branches.push(
                            Tree::leaf(p[from as int]).insert(1, p, from + 1, outcome),
                        ));
                    }
                },
            }
        } else if crate::text::same(self.line[hm].mov.as_slice(), path[from].mov.as_slice()) {
            assert(t0.line[hm as int].san == p[from as int].san);
            self.insert(hm + 1, path, from + 1, outcome);
        } else {
            assert(t0.line[hm as int].san != p[from as int].san);
            let ghost line0 = self.line@;
            let rest = self.line.split_off(hm);
            let mut branches: Vec<Node> = Vec::new();
            std::mem::swap(&mut self.branches, &mut branches);
            let tail = Node { line: rest, branches, outcome: self.outcome };
            proof {
                assert(tail.tree().line =~= t0.line.subrange(hm as int, t0.line.len() as int));
                assert(tail.tree().branches =~= t0.branches);
            }
            let mut fresh = Node::leaf(path[from].copy());
            fresh.insert(1, path, from + 1, outcome);
            self.branches.push(tail);
            self.branches.push(fresh);
            proof {
                assert(self.tree().line =~= t0.line.subrange(0, hm as int));
                assert(self.tree().branches =~= seq![
                    Tree {
                        line: t0.line.subrange(hm as int, t0.line.len() as int),
                        branches: t0.branches,
                        outcome: t0.outcome,
                    },
                    Tree::leaf(p[from as int]).insert(1, p, from + 1, outcome),
                ]);
            }
        }
    }

    /// Appends the pieces that the node is written with.
    pub fn tokens(&self, out: &mut Vec<Token>)
        ensures
            token_views(final(out)@) == token_views(old(out)@) + self.tree().tokens(),
        decreases self,
    {
        let ghost start = token_views(out@);
        let ghost t = self.tree();
        let mut i: usize = 0;
        assert(t.line.subrange(0, 0) =~= Seq::<MovView>::empty());
        assert(start + line_tokens(t.line.subrange(0, 0)) =~= start);
        while i < self.line.len()
            invariant
                t == self.tree(),
                i <= self.line.len(),
                token_views(out@) == start + line_tokens(t.line.subrange(0, i as int)),
            decreases self.line.len() - i,
        {
            let ghost before = token_views(out@);
            let mov = &self.line[i];
            let ghost m = t.line[i as int];
            assert(m == self.line@[i as int]@);
            out.push(Token::Number(mov.no));
            let ghost one = token_views(out@);
            assert(one =~= before.push(TokenView::Number(m.no)));
            let san = crate::text::copy(mov.mov.as_slice(), 0, mov.mov.len());
            assert(san@ =~= m.san);
            out.push(Token::San(san));
            let ghost two = token_views(out@);
            assert(two =~= one.push(TokenView::San(m.san)));
            out.push(Token::Comment(mov.eval));
            assert(token_views(out@) =~= two.push(TokenView::Comment(m.eval)));
            proof {
                assert(t.line.subrange(0, i + 1).drop_last() =~= t.line.subrange(0, i as int));
                assert(t.line.subrange(0, i + 1).last() == m);
                assert(token_views(out@) =~= before + seq![
                    TokenView::Number(m.no),
                    TokenView::San(m.san),
                    TokenView::Comment(m.eval),
                ]);
            }
            i += 1;
        }
        assert(t.line.subrange(0, self.line.len() as int) =~= t.line);
        let ghost head = token_views(out@);
        let mut k: usize = 0;
        assert(head + Seq::<TokenView>::empty() =~= head);
        while k < self.branches.len()
            invariant
                t == self.tree(),
                k <= self.branches.len(),
                head == start + line_tokens(t.line),
                token_views(out@) + Tree::branch_tokens(t.branches, k as int) == head
                    + Tree::branch_tokens(t.branches, 0),
            decreases self.branches.len() - k,
        {
            let ghost before = token_views(out@);
            let ghost child = t.branches[k as int];
            assert(child == self.branches[k as int].tree());
            if k > 0 {
                out.push(Token::Open);
            }
            let ghost opened = token_views(out@);
            self.branches[k].tokens(out);
            if k > 0 {
                out.push(Token::Close);
            }
            proof {
                let rest = Tree::branch_tokens(t.branches, k + 1);
                if k > 0 {
                    assert(opened =~= before + seq![TokenView::Open]);
                    assert(token_views(out@) =~= before + seq![TokenView::Open] + child.tokens()
                        + seq![TokenView::Close]);
                    assert(token_views(out@) + rest =~= before + (seq![TokenView::Open]
                        + child.tokens() + seq![TokenView::Close] + rest));
                } else {
                    assert(opened =~= before);
                    assert(token_views(out@) + rest =~= before + (child.tokens() + rest));
                }
            }
            k += 1;
        }
        assert(token_views(out@) + Seq::<TokenView>::empty() =~= token_views(out@));
        assert(start + line_tokens(t.line) + Tree::branch_tokens(t.branches, 0) =~= start + (
        line_tokens(t.line) + Tree::branch_tokens(t.branches, 0)));
    }
}

/// Writes the pieces of a movetext one after the other.
pub fn write_tokens(out: &mut Vec<u8>, ts: &Vec<Token>)
    ensures
        final(out)@ == old(out)@ + render(token_views(ts@)),
{
    let ghost all = token_views(ts@);
    let mut i: usize = 0;
    assert(all.subrange(0, 0) =~= Seq::<TokenView>::empty());
    while i < ts.len()
        invariant
            all == token_views(ts@),
            i <= ts.len(),
            out@ == old(out)@ + render(all.subrange(0, i as int)),
        decreases ts.len() - i,
    {
        let ghost before = out@;
        proof {
            assert(all.subrange(0, i + 1).drop_last() =~= all.subrange(0, i as int));
            assert(all.subrange(0, i + 1).last() == ts@[i as int]@);
        }
        match &ts[i] {
            Token::Number(no) => {
                let text = no.to_text();
                put(out, text.as_slice());
                put_lit(out, " ");
            },
            Token::San(san) => {
                put(out, san.as_slice());
            },
            Token::Comment(eval) => {
                put_lit(out, " { ");
                match eval {
                    Some(eval) => {
                        put_lit(out, "Eval: ");
                        let text = eval.to_text();
                        put(out, text.as_slice());
                        put_lit(out, ", ");
                    },
                    None => {},
                }
                put_lit(out, "}\n");
            },
            Token::Open => {
                put_lit(out, "(");
            },
            Token::Close => {
                put_lit(out, ")");
            },
        }
        assert(out@ =~= before + token_text(ts@[i as int]@));
        i += 1;
    }
    assert(all.subrange(0, ts.len() as int) =~= all);
}

/// The first variation from `k` on that has a move.
pub open spec fn first_with_moves(g: Graph, k: int) -> Option<int>
    decreases g.variations.len() - k,
{
    if k < 0 || k >= g.variations.len() {
        None
    } else if g.variations[k].moves.len() > 0 {
        Some(k)
    } else {
        first_with_moves(g, k + 1)
    }
}

/// The variation that the record takes for its main line: the main line
/// of the graph, or the first variation with a move where that one has
/// none. There is none where no variation has a move.
pub open spec fn mainline(g: Graph) -> Option<int> {
    if g.variations[g.main].moves.len() > 0 {
        Some(g.main)
    } else {
        first_with_moves(g, 0)
    }
}

/// The order in which the variations enter the record: as they stand in
/// the graph, but with the main line and the first variation having
/// changed places.
pub open spec fn ordered(g: Graph) -> Seq<int> {
    match mainline(g) {
        None => Seq::empty(),
        Some(m) => Seq::new(
            g.variations.len(),
            |i: int|
                if i == 0 {
                    m
                } else if i == m {
                    0
                } else {
                    i
                },
        ),
    }
}

/// The number of the first move of the record.
pub open spec fn first_number(g: Graph) -> MoveNo {
    MoveNo { number: g.positions[0].fullmoves, color: g.positions[0].turn }
}

/// The move `k` of variation `v` as the record holds it: in standard
/// algebraic notation, with its number, and with the evaluation of the
/// position in which it is played.
pub open spec fn recorded(g: Graph, v: int, k: int) -> MovView {
    let l = g.variations[v];
    MovView {
        san: san_text(g.positions[l.positions[k]].fen, l.moves[k]).unwrap(),
        no: first_number(g).after(k as nat),
        eval: g.positions[l.positions[k]].eval,
    }
}

/// The moves of variation `v` as the record holds them.
pub open spec fn path_of(g: Graph, v: int) -> Seq<MovView> {
    Seq::new(g.variations[v].moves.len(), |k: int| recorded(g, v, k))
}

/// Whether the move `k` of variation `v` can be written in standard
/// algebraic notation.
pub open spec fn sayable_at(g: Graph, v: int, k: int) -> bool {
    san_text(g.positions[g.variations[v].positions[k]].fen, g.variations[v].moves[k]) is Some
}

/// Whether every move of the record can be written.
pub open spec fn sayable(g: Graph) -> bool {
    forall|i: int, k: int|
        0 <= i < ordered(g).len() && 0 <= k < g.variations[ordered(g)[i]].moves.len()
            ==> #[trigger] sayable_at(g, ordered(g)[i], k)
}

/// The tree that holds the first move of the main line and, put into it
/// one after the other, the first `n` variations in their order.
pub open spec fn grown(g: Graph, n: int) -> Tree
    decreases n,
{
    if n <= 0 {
        Tree::leaf(path_of(g, ordered(g)[0])[0])
    } else {
        grown(g, n - 1).insert(
            0,
            path_of(g, ordered(g)[n - 1]),
            0,
            g.variations[ordered(g)[n - 1]].outcome,
        )
    }
}

/// The tree of the record: empty where no variation has a move, else the
/// tree that holds all variations.
pub open spec fn tree_of(g: Graph) -> Tree {
    if ordered(g).len() == 0 {
        Tree { line: Seq::empty(), branches: Seq::empty(), outcome: None }
    } else {
        grown(g, ordered(g).len() as int)
    }
}

/// The result as a record gives it.
pub open spec fn result_text(outcome: Option<Outcome>) -> Seq<u8> {
    match outcome {
        Some(Outcome::Draw) => lit("1/2-1/2"),
        Some(Outcome::Decisive { winner: Color::White }) => lit("1-0"),
        Some(Outcome::Decisive { winner: Color::Black }) => lit("0-1"),
        None => lit("*"),
    }
}

/// A tag of the record: its name and its value on a line.
#[verifier::opaque]
pub open spec fn tag(name: Seq<u8>, value: Seq<u8>) -> Seq<u8> {
    lit("[") + name + lit(" \"") + value + lit("\"]\n")
}

/// Appends a tag.
fn put_tag(out: &mut Vec<u8>, name: &str, value: &[u8])
    ensures
        final(out)@ == old(out)@ + tag(lit(name), value@),
{
    reveal(tag);
    put_lit(out, "[");
    put_lit(out, name);
    put_lit(out, " \"");
    put(out, value);
    put_lit(out, "\"]\n");
    assert(out@ =~= old(out)@ + tag(lit(name), value@));
}

/// The knowledge made ready for a game record.
#[derive(Debug)]
pub struct Pgn<'a> {
    /// The position in which the record starts.
    pub rootinfo: &'a PosInfo,
    /// The tree of its moves.
    pub line: Node,
}

impl<'a> Pgn<'a> {
    /// The tags of the record: the seven that every record has, with
    /// `date` for the day, and the starting position where it is not the
    /// one in which a game of chess starts. Each stands on a line of its own.
    pub open spec fn tags(&self, date: Seq<u8>) -> Seq<u8> {
        tag(lit("Event"), lit("?")) + tag(lit("Site"), lit("?")) + tag(lit("Date"), date) + tag(
            lit("Round"),
            lit("?"),
        ) + tag(lit("White"), lit("?")) + tag(lit("Black"), lit("?")) + tag(
            lit("Result"),
            result_text(self.line.outcome),
        ) + (if self.rootinfo.pos.is_initial() {
            Seq::empty()
        } else {
            tag(lit("SetUp"), lit("1")) + tag(lit("FEN"), self.rootinfo.pos@)
        })
    }

    /// The record: the tags, an empty line, the movetext and the result.
    pub open spec fn document(&self, date: Seq<u8>) -> Seq<u8> {
        self.tags(date) + lit("\n") + self.line.tree().movetext() + result_text(self.line.outcome)
    }

    /// Puts the variations in the order in which they enter the record.
    pub fn order_variations(knowledge: &Knowledge) -> (r: Vec<usize>)
        requires
            knowledge.sound(),
        ensures
            indices(r@) == ordered(knowledge@),
            forall|i: int| 0 <= i < r@.len() ==> #[trigger] r@[i] < knowledge.variations.len(),
            r@.len() > 0 ==> knowledge.variations[r@[0] as int].moves.len() > 0,
    {
        let ghost g = knowledge@;
        let n: usize = knowledge.variations.len();
        let mut main: usize = knowledge.main;
        assert(g.variations[main as int] == knowledge.variations[main as int]@);
        if knowledge.variations[main].moves.len() == 0 {
            let mut k: usize = 0;
            while k < n && knowledge.variations[k].moves.len() == 0
                invariant
                    g == knowledge@,
                    n == knowledge.variations.len(),
                    k <= n,
                    first_with_moves(g, 0) == first_with_moves(g, k as int),
                decreases n - k,
            {
                assert(g.variations[k as int] == knowledge.variations[k as int]@);
                k += 1;
            }
            if k == n {
                let r: Vec<usize> = Vec::new();
                assert(indices(r@) =~= ordered(g));
                return r;
            }
            assert(g.variations[k as int] == knowledge.variations[k as int]@);
            main = k;
        }
        assert(mainline(g) == Some(main as int));
        let mut r: Vec<usize> = Vec::new();
        let mut i: usize = 0;
        while i < n
            invariant
                n == knowledge.variations.len(),
                knowledge.variations[main as int].moves.len() > 0,
                main < n,
                i <= n,
                r@.len() == i,
                forall|j: int|
                    0 <= j < i ==> #[trigger] r@[j] == (if j == 0 {
                        main
                    } else if j == main {
                        0
                    } else {
                        j as usize
                    }),
            decreases n - i,
        {
            if i == 0 {
                r.push(main);
            } else if i == main {
                r.push(0);
            } else {
                r.push(i);
            }
            i += 1;
        }
        assert(indices(r@) =~= ordered(g));
        r
    }

    /// Makes the moves of variation `v` ready for the record; `None` where
    /// one of them cannot be written.
    pub fn path(knowledge: &Knowledge, v: usize, first: MoveNo) -> (r: Option<Vec<Mov>>)
        requires
            knowledge.sound(),
            v < knowledge.variations.len(),
            first == first_number(knowledge@),
        ensures
            match r {
                Some(p) => mov_views(p@) == path_of(knowledge@, v as int) && forall|k: int|
                    0 <= k < knowledge.variations[v as int].moves.len() ==> sayable_at(
                        knowledge@,
                        v as int,
                        k,
                    ),
                None => exists|k: int|
                    0 <= k < knowledge.variations[v as int].moves.len() && !sayable_at(
                        knowledge@,
                        v as int,
                        k,
                    ),
            },
    {
        let ghost g = knowledge@;
        let variation = &knowledge.variations[v];
        assert(g.variations[v as int] == variation@);
        assert(g.line_sound(g.variations[v as int]));
        let n: usize = variation.moves.len();
        let mut r: Vec<Mov> = Vec::new();
        let mut no: MoveNo = first;
        let mut k: usize = 0;
        while k < n
            invariant
                knowledge.sound(),
                g == knowledge@,
                v < knowledge.variations.len(),
                *variation == knowledge.variations[v as int],
                n == variation.moves.len(),
                g.line_sound(g.variations[v as int]),
                first == first_number(g),
                k <= n,
                no == first.after(k as nat),
                r@.len() == k,
                forall|j: int| 0 <= j < k ==> (#[trigger] r@[j])@ == recorded(g, v as int, j),
                forall|j: int| 0 <= j < k ==> sayable_at(g, v as int, j),
            decreases n - k,
        {
            assert(g.variations[v as int] == variation@);
            assert(0 <= g.variations[v as int].positions[k as int] < g.positions.len());
            let before: usize = variation.positions[k];
            assert(g.positions[before as int] == knowledge.positions[before as int]@);
            assert(g.variations[v as int].moves[k as int] == variation.moves[k as int]@);
            let mov = match knowledge.positions[before].pos.san(&variation.moves[k]) {
                Some(mov) => mov,
                None => {
                    assert(!sayable_at(g, v as int, k as int));
                    return None;
                },
            };
            let m = Mov { mov, no, eval: knowledge.positions[before].eval };
            assert(m@ == recorded(g, v as int, k as int));
            r.push(m);
            no = no.next();
            k += 1;
        }
        assert(mov_views(r@) =~= path_of(g, v as int));
        Some(r)
    }

    /// Makes a game record of the knowledge; `None` where a move cannot
    /// be written in standard algebraic notation.
    pub fn new(knowledge: &'a Knowledge) -> (r: Option<Pgn<'a>>)
        requires
            knowledge.sound(),
        ensures
            r is Some <==> sayable(knowledge@),
            match r {
                Some(pgn) => pgn.line.tree() == tree_of(knowledge@) && *pgn.rootinfo
                    == knowledge.positions[0],
                None => true,
            },
    {
        let ghost g = knowledge@;
        let order = Pgn::order_variations(knowledge);
        let rootinfo = knowledge.root();
        if order.len() == 0 {
            return Some(Pgn { rootinfo, line: Node::empty() });
        }
        assert(g.positions[0] == knowledge.positions[0]@);
        let first = MoveNo::new(rootinfo.position());
        assert(first == first_number(g));
        assert(ordered(g)[0] == order@[0]);
        let main = match Pgn::path(knowledge, order[0], first) {
            Some(main) => main,
            None => {
                return None;
            },
        };
        assert(g.variations[order@[0] as int] == knowledge.variations[order@[0] as int]@);
        assert(main@.len() == mov_views(main@).len());
        assert(main@.len() > 0);
        assert(mov_views(main@)[0] == main@[0]@);
        let mut line = Node::leaf(main[0].copy());
        let mut i: usize = 0;
        while i < order.len()
            invariant
                knowledge.sound(),
                g == knowledge@,
                indices(order@) == ordered(g),
                forall|j: int| 0 <= j < order@.len() ==> #[trigger] order@[j] < knowledge.variations.len(),
                first == first_number(g),
                i <= order.len(),
                0 < order.len(),
                line.tree() == grown(g, i as int),
                forall|j: int, k: int|
                    0 <= j < i && 0 <= k < g.variations[ordered(g)[j]].moves.len()
                        ==> #[trigger] sayable_at(g, ordered(g)[j], k),
            decreases order.len() - i,
        {
            let v: usize = order[i];
            assert(ordered(g)[i as int] == v);
            assert(g.variations[v as int] == knowledge.variations[v as int]@);
            let path = match Pgn::path(knowledge, v, first) {
                Some(path) => path,
                None => {
                    return None;
                },
            };
            line.insert(0, &path, 0, knowledge.variations[v].outcome);
            i += 1;
        }
        Some(Pgn { rootinfo, line })
    }

    /// Appends the result.
    fn write_result(&self, out: &mut Vec<u8>)
        ensures
            final(out)@ == old(out)@ + result_text(self.line.outcome),
    {
        match self.line.outcome {
            Some(Outcome::Draw) => put_lit(out, "1/2-1/2"),
            Some(Outcome::Decisive { winner: Color::White }) => put_lit(out, "1-0"),
            Some(Outcome::Decisive { winner: Color::Black }) => put_lit(out, "0-1"),
            None => put_lit(out, "*"),
        }
    }

    /// Appends the tags.
    fn write_tags(&self, out: &mut Vec<u8>, date: &[u8])
        ensures
            final(out)@ == old(out)@ + self.tags(date@),
    {
        let ghost start = out@;
        put_tag(out, "Event", "?".as_bytes());
        put_tag(out, "Site", "?".as_bytes());
        let ghost two = tag(lit("Event"), lit("?")) + tag(lit("Site"), lit("?"));
        assert(out@ =~= start + two);
        put_tag(out, "Date", date);
        put_tag(out, "Round", "?".as_bytes());
        let ghost four = two + tag(lit("Date"), date@) + tag(lit("Round"), lit("?"));
        assert(out@ =~= start + four);
        put_tag(out, "White", "?".as_bytes());
        put_tag(out, "Black", "?".as_bytes());
        let ghost six = four + tag(lit("White"), lit("?")) + tag(lit("Black"), lit("?"));
        assert(out@ =~= start + six);
        let mut result: Vec<u8> = Vec::new();
        self.write_result(&mut result);
        assert(result@ =~= result_text(self.line.outcome));
        put_tag(out, "Result", result.as_slice());
        let ghost seven = six + tag(lit("Result"), result_text(self.line.outcome));
        assert(out@ =~= start + seven);
        if !self.rootinfo.pos.initial() {
            put_tag(out, "SetUp", "1".as_bytes());
            put_tag(out, "FEN", self.rootinfo.pos.fen());
            let ghost nine = tag(lit("SetUp"), lit("1")) + tag(lit("FEN"), self.rootinfo.pos@);
            assert(out@ =~= start + (seven + nine));
            assert(self.tags(date@) == seven + nine);
        } else {
            assert(seven + Seq::<u8>::empty() =~= seven);
            assert(self.tags(date@) == seven + Seq::<u8>::empty());
        }
    }

    /// Appends the movetext.
    fn write_moves(&self, out: &mut Vec<u8>)
        ensures
            final(out)@ == old(out)@ + self.line.tree().movetext(),
    {
        let mut tokens: Vec<Token> = Vec::new();
        self.line.tokens(&mut tokens);
        assert(token_views(tokens@) =~= self.line.tree().tokens());
        write_tokens(out, &tokens);
    }

    /// Writes the record with `date` as its day.
    pub fn write(&self, date: &[u8]) -> (r: Vec<u8>)
        ensures
            r@ == self.document(date@),
    {
        let mut out: Vec<u8> = Vec::new();
        self.write_tags(&mut out, date);
        put_lit(&mut out, "\n");
        self.write_moves(&mut out);
        self.write_result(&mut out);
        assert(out@ =~= self.document(date@));
        out
    }

    /// Writes the record with the day on the machine's clock.
    pub fn write_pgn(&self) -> (r: Vec<u8>)
        ensures
            exists|date: Seq<u8>| r@ == #[trigger] self.document(date),
    {
        let date = today();
        self.write(date.as_slice())
    }
}

/// `chrono::Local::now` and `DateTime::format` with `%Y.%m.%d`: the day on
/// the machine's clock in its time zone, as year, month and day between
/// dots. Nothing is claimed of the text.
#[verifier::external_body]
fn today() -> (r: Vec<u8>) {
    chrono::Local::now().format("%Y.%m.%d").to_string().into_bytes()
}

} // verus!
