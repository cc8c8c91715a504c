//! Commands, messages and the course of a conversation with an engine.
//!
//! Nothing here reads or writes: a command is turned into the line to send,
//! a line received is turned into a message, and the types that follow a
//! conversation take the messages one by one.
use crate::chess::{uci_text, UciMove};
use crate::text::{
    copy, decimal, find, is, lit, number_within, put, put_decimal, put_lit, read_number, search,
    split, trim, trimmed, views, words,
};
use crate::uci::score::Score;
use vstd::prelude::*;

verus! {

/// The texts of a list of moves.
pub open spec fn texts(moves: Seq<UciMove>) -> Seq<Seq<u8>> {
    Seq::new(moves.len(), |i: int| moves[i]@)
}

/// Every text of a list, each with a space before it.
pub open spec fn spaced(list: Seq<Seq<u8>>) -> Seq<u8>
    decreases list.len(),
{
    if list.len() == 0 {
        Seq::empty()
    } else {
        spaced(list.drop_last()) + seq![32u8] + list.last()
    }
}

/// A command for the engine.
#[derive(Debug)]
pub enum Command {
    /// Start the conversation.
    Uci,
    /// Switch debug mode on.
    Debug,
    /// Set an option: its name and its value.
    SetOption(Vec<u8>, Vec<u8>),
    /// Ask for `readyok`.
    IsReady,
    /// Forget the last game.
    NewGame,
    /// Set up a position: a FEN, or the starting position where there is
    /// none, and the moves played from it.
    Position { fen: Option<Vec<u8>>, line: Vec<UciMove> },
    /// Search, to a depth and for a time in milliseconds as far as given.
    Go { depth: Option<u8>, time: Option<u64> },
    /// End the search as soon as possible.
    Stop,
    /// Shut down.
    Quit,
}

impl Command {
    /// The command as it goes over the wire, without the line feed.
    pub open spec fn wire(self) -> Seq<u8> {
        match self {
            Command::Uci => lit("uci"),
            Command::Debug => lit("debug"),
            Command::SetOption(name, value) => lit("setoption name ") + name@ + lit(" value ")
                + value@,
            Command::IsReady => lit("isready"),
            Command::NewGame => lit("ucinewgame"),
            Command::Position { fen, line } => lit("position fen ") + (match fen {
                Some(fen) => fen@,
                None => lit("startpos"),
            }) + (if line.len() > 0 {
                lit(" moves") + spaced(texts(line@))
            } else {
                Seq::empty()
            }),
            Command::Go { depth, time } => lit("go") + (match depth {
                Some(depth) => lit(" depth ") + decimal(depth as nat),
                None => Seq::empty(),
            }) + (match time {
                Some(time) => lit(" movetime ") + decimal(time as nat),
                None => Seq::empty(),
            }) + (if depth is None && time is None {
                lit(" infinite")
            } else {
                Seq::empty()
            }),
            Command::Stop => lit("stop"),
            Command::Quit => lit("quit"),
        }
    }

    /// Writes the command.
    pub fn encode(&self) -> (r: Vec<u8>)
        ensures
            r@ == self.wire(),
    {
        let mut out: Vec<u8> = Vec::new();
        match self {
            Command::Uci => put_lit(&mut out, "uci"),
            Command::Debug => put_lit(&mut out, "debug"),
            Command::SetOption(name, value) => {
                put_lit(&mut out, "setoption name ");
                put(&mut out, name.as_slice());
                put_lit(&mut out, " value ");
                put(&mut out, value.as_slice());
            },
            Command::IsReady => put_lit(&mut out, "isready"),
            Command::NewGame => put_lit(&mut out, "ucinewgame"),
            Command::Position { fen, line } => {
                put_lit(&mut out, "position fen ");
                match fen {
                    Some(fen) => put(&mut out, fen.as_slice()),
                    None => put_lit(&mut out, "startpos"),
                }
                if line.len() > 0 {
                    put_lit(&mut out, " moves");
                    let ghost head = out@;
                    let mut i: usize = 0;
                    assert(texts(line@).subrange(0, 0) =~= Seq::<Seq<u8>>::empty());
                    while i < line.len()
                        invariant
                            i <= line@.len(),
                            out@ == head + spaced(texts(line@).subrange(0, i as int)),
                        decreases line@.len() - i,
                    {
                        out.push(32u8);
                        put(&mut out, line[i].as_bytes());
                        assert(texts(line@).subrange(0, i + 1).drop_last() =~= texts(
                            line@,
                        ).subrange(0, i as int));
                        i += 1;
                    }
                    assert(texts(line@).subrange(0, line@.len() as int) =~= texts(line@));
                }
            },
            Command::Go { depth, time } => {
                put_lit(&mut out, "go");
                match depth {
                    Some(depth) => {
                        put_lit(&mut out, " depth ");
                        put_decimal(&mut out, *depth as u64);
                    },
                    None => {},
                }
                match time {
                    Some(time) => {
                        put_lit(&mut out, " movetime ");
                        put_decimal(&mut out, *time);
                    },
                    None => {},
                }
                if depth.is_none() && time.is_none() {
                    put_lit(&mut out, " infinite");
                }
            },
            Command::Stop => put_lit(&mut out, "stop"),
            Command::Quit => put_lit(&mut out, "quit"),
        }
        assert(out@ =~= self.wire());
        out
    }

    /// Writes the line to send: the command and a line feed.
    pub fn frame(&self) -> (r: Vec<u8>)
        ensures
            r@ == self.wire().push(10u8),
    {
        let mut out = self.encode();
        out.push(10u8);
        out
    }
}

/// Why an `info` line was refused.
#[derive(Clone, Copy, Debug, PartialEq, Eq, Structural)]
pub enum InfoError {
    /// `multipv` is the last word.
    MissingMultipv,
    /// The word after `multipv` is no number from 0 to 255.
    InvalidMultipv,
    /// `score` is the last word.
    MissingScoreType,
    /// The word after `score` is neither `cp` nor `mate`.
    InvalidScoreType,
    /// `cp` is the last word.
    MissingCp,
    /// The word after `cp` is no number from -32768 to 32767.
    InvalidCp,
    /// `mate` is the last word.
    MissingMate,
    /// The word after `mate` is no number from -128 to 127.
    InvalidMate,
    /// `depth` is the last word.
    MissingDepth,
    /// The word after `depth` is no number from 0 to 255.
    InvalidDepth,
    /// The line gives no score.
    ScoreMissing,
    /// The line gives no move.
    LineMissing,
}

/// A step of the analysis, as the contracts speak of it.
pub struct InfoView {
    pub multipv: u8,
    pub depth: u8,
    pub score: Score,
    pub line: Seq<Seq<u8>>,
}

/// A step of the analysis.
#[derive(Debug)]
pub struct Info {
    /// The rank of the line among those the engine reports; 1 where it
    /// reports one line only.
    pub multipv: u8,
    /// The evaluation, from the point of view of the side to move.
    pub score: Score,
    /// The line the engine expects, its best move first. Never empty.
    pub line: Vec<UciMove>,
    /// The depth reached.
    pub depth: u8,
}

impl View for Info {
    type V = InfoView;

    open spec fn view(&self) -> InfoView {
        InfoView {
            multipv: self.multipv,
            depth: self.depth,
            score: self.score,
            line: texts(self.line@),
        }
    }
}

/// What has been read of an `info` line so far.
pub struct Draft {
    pub multipv: u8,
    pub depth: u8,
    pub score: Option<Score>,
    pub line: Seq<Seq<u8>>,
    /// Whether the last word read was `pv` or a move of the line after it.
    pub in_line: bool,
}

impl Draft {
    /// Nothing read: the first line, depth 0, no score, no move.
    pub open spec fn blank() -> Draft {
        Draft { multipv: 1, depth: 0, score: None, line: Seq::empty(), in_line: false }
    }

    /// The step that the words read amount to: they must have given a score
    /// and at least one move.
    pub open spec fn finish(self) -> Result<InfoView, InfoError> {
        match self.score {
            None => Err(InfoError::ScoreMissing),
            Some(score) => if self.line.len() == 0 {
                Err(InfoError::LineMissing)
            } else {
                Ok(
                    InfoView {
                        multipv: self.multipv,
                        depth: self.depth,
                        score,
                        line: self.line,
                    },
                )
            },
        }
    }
}

/// Reads the words of an `info` line from index `i` on. Beside each word
/// stands the move that it denotes, if it denotes one.
///
/// `multipv`, `depth` and `score` take the words that follow them; `pv`
/// starts the line anew and takes every word after it for as long as the
/// words are moves. Any other word is passed over.
pub open spec fn read_words(w: Seq<Seq<u8>>, m: Seq<Option<Seq<u8>>>, i: int, d: Draft) -> Result<
    Draft,
    InfoError,
>
    decreases w.len() - i,
{
    if i < 0 || i >= w.len() {
        Ok(d)
    } else if d.in_line && m[i] is Some {
        read_words(w, m, i + 1, Draft { line: d.line.push(m[i].unwrap()), ..d })
    } else if w[i] == lit("multipv") {
        if i + 1 >= w.len() {
            Err(InfoError::MissingMultipv)
        } else {
            match number_within(w[i + 1], 0, 255) {
                Some(v) => read_words(
                    w,
                    m,
                    i + 2,
                    Draft { multipv: v as u8, in_line: false, ..d },
                ),
                None => Err(InfoError::InvalidMultipv),
            }
        }
    } else if w[i] == lit("score") {
        if i + 1 >= w.len() {
            Err(InfoError::MissingScoreType)
        } else if w[i + 1] == lit("cp") {
            if i + 2 >= w.len() {
                Err(InfoError::MissingCp)
            } else {
                match number_within(w[i + 2], -32768, 32767) {
                    Some(v) => read_words(
                        w,
                        m,
                        i + 3,
                        Draft { score: Some(Score::Cp(v as i16)), in_line: false, ..d },
                    ),
                    None => Err(InfoError::InvalidCp),
                }
            }
        } else if w[i + 1] == lit("mate") {
            if i + 2 >= w.len() {
                Err(InfoError::MissingMate)
            } else {
                match number_within(w[i + 2], -128, 127) {
                    Some(v) => read_words(
                        w,
                        m,
                        i + 3,
                        Draft { score: Some(Score::Mate(v as i8)), in_line: false, ..d },
                    ),
                    None => Err(InfoError::InvalidMate),
                }
            }
        } else {
            Err(InfoError::InvalidScoreType)
        }
    } else if w[i] == lit("depth") {
        if i + 1 >= w.len() {
            Err(InfoError::MissingDepth)
        } else {
            match number_within(w[i + 1], 0, 255) {
                Some(v) => read_words(w, m, i + 2, Draft { depth: v as u8, in_line: false, ..d }),
                None => Err(InfoError::InvalidDepth),
            }
        }
    } else if w[i] == lit("pv") {
        read_words(w, m, i + 1, Draft { line: Seq::empty(), in_line: true, ..d })
    } else {
        read_words(w, m, i + 1, Draft { in_line: false, ..d })
    }
}

/// The step of the analysis that the words of an `info` line amount to,
/// or the reason why they are refused.
pub open spec fn read(w: Seq<Seq<u8>>, m: Seq<Option<Seq<u8>>>) -> Result<InfoView, InfoError> {
    match read_words(w, m, 0, Draft::blank()) {
        Err(e) => Err(e),
        Ok(d) => d.finish(),
    }
}

/// The move that each of the words denotes, if it denotes one.
pub open spec fn moves_of(w: Seq<Seq<u8>>) -> Seq<Option<Seq<u8>>> {
    Seq::new(w.len(), |i: int| uci_text(w[i]))
}

/// The texts of a list of words read as moves.
pub open spec fn move_views(moves: Seq<Option<UciMove>>) -> Seq<Option<Seq<u8>>> {
    Seq::new(
        moves.len(),
        |i: int|
            match moves[i] {
                Some(m) => Some(m@),
                None => None,
            },
    )
}

/// The part of the arguments of `info` that is read: what stands before the
/// first ` string `, or all of it. `None` where ` string ` is there and
/// nothing but whitespace stands before it: such a line only carries a
/// remark of the engine.
pub open spec fn info_words(args: Seq<u8>) -> Option<Seq<u8>> {
    match find(args, lit(" string ")) {
        Some(k) => if trimmed(args.subrange(0, k)).len() == 0 {
            None
        } else {
            Some(args.subrange(0, k))
        },
        None => Some(args),
    }
}

/// What the arguments of an `info` line amount to: a step of the analysis,
/// nothing for a mere remark, or the reason why the line is refused.
pub open spec fn info_of(args: Seq<u8>) -> Result<Option<InfoView>, InfoError> {
    match info_words(args) {
        None => Ok(None),
        Some(part) => match read(words(part), moves_of(words(part))) {
            Err(e) => Err(e),
            Ok(info) => Ok(Some(info)),
        },
    }
}

impl Info {
    /// Reads the words of an `info` line. Beside each word stands the move
    /// that it was read as, if it was read as one.
    pub fn read(words: &Vec<Vec<u8>>, moves: &Vec<Option<UciMove>>) -> (r: Result<Info, InfoError>)
        requires
            moves@.len() == words@.len(),
        ensures
            match r {
                Ok(info) => read(views(words@), move_views(moves@)) == Ok::<InfoView, InfoError>(
                    info@,
                ),
                Err(e) => read(views(words@), move_views(moves@)) == Err::<InfoView, InfoError>(e),
            },
    {
        let ghost ws = views(words@);
        let ghost ms = move_views(moves@);
        let mut multipv: u8 = 1;
        let mut depth: u8 = 0;
        let mut score: Option<Score> = None;
        let mut line: Vec<UciMove> = Vec::new();
        let mut in_line: bool = false;
        let mut i: usize = 0;
        assert(texts(line@) =~= Seq::<Seq<u8>>::empty());
        while i < words.len()
            invariant
                ws == views(words@),
                ms == move_views(moves@),
                moves@.len() == words@.len(),
                i <= words@.len(),
                read_words(ws, ms, 0, Draft::blank()) == read_words(
                    ws,
                    ms,
                    i as int,
                    Draft { multipv, depth, score, line: texts(line@), in_line },
                ),
            decreases words@.len() - i,
        {
            let word: &[u8] = words[i].as_slice();
            assert(ws[i as int] == word@);
            if in_line {
                match &moves[i] {
                    Some(m) => {
                        let ghost before = line@;
                        assert(ms[i as int] == Some(m@));
                        line.push(m.copy());
                        assert(texts(line@) =~= texts(before).push(m@));
                        i += 1;
                        continue;
                    },
                    None => {
                        assert(ms[i as int] is None);
                    },
                }
            }
            if is(word, "multipv") {
                if i + 1 >= words.len() {
                    return Err(InfoError::MissingMultipv);
                }
                assert(ws[i + 1] == words@[i + 1]@);
                match read_number(words[i + 1].as_slice(), 0, 255) {
                    Some(v) => {
                        multipv = v as u8;
                    },
                    None => {
                        return Err(InfoError::InvalidMultipv);
                    },
                }
                in_line = false;
                i += 2;
            } else if is(word, "score") {
                if i + 1 >= words.len() {
                    return Err(InfoError::MissingScoreType);
                }
                assert(ws[i + 1] == words@[i + 1]@);
                let kind: &[u8] = words[i + 1].as_slice();
                if is(kind, "cp") {
                    if i + 2 >= words.len() {
                        return Err(InfoError::MissingCp);
                    }
                    assert(ws[i + 2] == words@[i + 2]@);
                    match read_number(words[i + 2].as_slice(), -32768, 32767) {
                        Some(v) => {
                            score = Some(Score::Cp(v as i16));
                        },
                        None => {
                            return Err(InfoError::InvalidCp);
                        },
                    }
                } else if is(kind, "mate") {
                    if i + 2 >= words.len() {
                        return Err(InfoError::MissingMate);
                    }
                    assert(ws[i + 2] == words@[i + 2]@);
                    match read_number(words[i + 2].as_slice(), -128, 127) {
                        Some(v) => {
                            score = Some(Score::Mate(v as i8));
                        },
                        None => {
                            return Err(InfoError::InvalidMate);
                        },
                    }
                } else {
                    return Err(InfoError::InvalidScoreType);
                }
                in_line = false;
                i += 3;
            } else if is(word, "depth") {
                if i + 1 >= words.len() {
                    return Err(InfoError::MissingDepth);
                }
                assert(ws[i + 1] == words@[i + 1]@);
                match read_number(words[i + 1].as_slice(), 0, 255) {
                    Some(v) => {
                        depth = v as u8;
                    },
                    None => {
                        return Err(InfoError::InvalidDepth);
                    },
                }
                in_line = false;
                i += 2;
            } else if is(word, "pv") {
                line = Vec::new();
                assert(texts(line@) =~= Seq::<Seq<u8>>::empty());
                in_line = true;
                i += 1;
            } else {
                in_line = false;
                i += 1;
            }
        }
        match score {
            None => Err(InfoError::ScoreMissing),
            Some(score) => if line.len() == 0 {
                Err(InfoError::LineMissing)
            } else {
                Ok(Info { multipv, score, line, depth })
            },
        }
    }

    /// Reads the arguments of an `info` line.
    pub fn parse(args: &[u8]) -> (r: Result<Option<Info>, InfoError>)
        ensures
            match r {
                Ok(Some(info)) => info_of(args@) == Ok::<Option<InfoView>, InfoError>(
                    Some(info@),
                ),
                Ok(None) => info_of(args@) == Ok::<Option<InfoView>, InfoError>(None),
                Err(e) => info_of(args@) == Err::<Option<InfoView>, InfoError>(e),
            },
    {
        let part: &[u8] = match search(args, " string ".as_bytes()) {
            Some(k) => {
                let before = vstd::slice::slice_subrange(args, 0, k);
                if trim(before).len() == 0 {
                    return Ok(None);
                }
                before
            },
            None => args,
        };
        assert(info_words(args@) == Some(part@));
        let w = split(part);
        let mut moves: Vec<Option<UciMove>> = Vec::new();
        let mut i: usize = 0;
        while i < w.len()
            invariant
                i <= w@.len(),
                moves@.len() == i,
                forall|k: int|
                    0 <= k < i ==> (#[trigger] move_views(moves@)[k]) == moves_of(views(w@))[k],
            decreases w@.len() - i,
        {
            let ghost before = moves@;
            let m = UciMove::parse(w[i].as_slice());
            moves.push(m);
            assert(views(w@)[i as int] == w@[i as int]@);
            assert forall|k: int| 0 <= k < i + 1 implies (#[trigger] move_views(moves@)[k])
                == moves_of(views(w@))[k] by {
                if k < i {
                    assert(move_views(before)[k] == moves_of(views(w@))[k]);
                    assert(moves@[k] == before[k]);
                }
            }
            i += 1;
        }
        assert(move_views(moves@) =~= moves_of(views(w@)));
        match Info::read(&w, &moves) {
            Ok(info) => Ok(Some(info)),
            Err(e) => Err(e),
        }
    }
}

/// A message of the engine, as the contracts speak of it.
pub enum MsgView {
    Id { name: Option<Seq<u8>> },
    UciOk,
    ReadyOk,
    BestMove(Seq<u8>),
    Info(InfoView),
}

/// A message of the engine.
#[derive(Debug)]
pub enum Msg {
    /// The engine names itself or its author; only a name is kept.
    Id { name: Option<Vec<u8>> },
    /// The engine has said all about itself.
    UciOk,
    /// The engine has worked off what was sent before `isready`.
    ReadyOk,
    /// The search is over, and this is its move.
    BestMove(UciMove),
    /// A step of the analysis.
    Info(Info),
}

impl View for Msg {
    type V = MsgView;

    open spec fn view(&self) -> MsgView {
        match self {
            Msg::Id { name: Some(name) } => MsgView::Id { name: Some(name@) },
            Msg::Id { name: None } => MsgView::Id { name: None },
            Msg::UciOk => MsgView::UciOk,
            Msg::ReadyOk => MsgView::ReadyOk,
            Msg::BestMove(m) => MsgView::BestMove(m@),
            Msg::Info(info) => MsgView::Info(info@),
        }
    }
}

/// The view of an optional message.
pub open spec fn msg_view(r: Option<Msg>) -> Option<MsgView> {
    match r {
        Some(m) => Some(m@),
        None => None,
    }
}

/// The index of the first space of a line, or its length.
pub open spec fn first_space(line: Seq<u8>) -> int {
    match find(line, seq![32u8]) {
        Some(k) => k,
        None => line.len() as int,
    }
}

/// The name that an `id` line gives: all that follows the first ` name `.
pub open spec fn id_name(args: Seq<u8>) -> Option<Seq<u8>> {
    match find(args, lit(" name ")) {
        Some(k) => Some(args.subrange(k + lit(" name ").len(), args.len() as int)),
        None => None,
    }
}

/// The word that a `bestmove` line gives as the move: its arguments without
/// the whitespace around them, up to the first space.
pub open spec fn best_word(args: Seq<u8>) -> Seq<u8> {
    trimmed(args).subrange(0, first_space(trimmed(args)))
}

/// What a line without whitespace around it means. Its first word, up to
/// the first space, decides; a line that starts with another word than the
/// five known, a `bestmove` without a move and an `info` that is refused or
/// only carries a remark mean nothing.
pub open spec fn message(line: Seq<u8>) -> Option<MsgView> {
    let idx = first_space(line);
    let cmd = trimmed(line.subrange(0, idx));
    let args = line.subrange(idx, line.len() as int);
    if cmd == lit("id") {
        Some(MsgView::Id { name: id_name(args) })
    } else if cmd == lit("uciok") {
        Some(MsgView::UciOk)
    } else if cmd == lit("readyok") {
        Some(MsgView::ReadyOk)
    } else if cmd == lit("bestmove") {
        match uci_text(best_word(args)) {
            Some(m) => Some(MsgView::BestMove(m)),
            None => None,
        }
    } else if cmd == lit("info") {
        match info_of(args) {
            Ok(Some(info)) => Some(MsgView::Info(info)),
            _ => None,
        }
    } else {
        None
    }
}

/// What a line as it was received means: nothing where it is blank, else
/// what it means without the whitespace around it.
pub open spec fn received(raw: Seq<u8>) -> Option<MsgView> {
    if trimmed(raw).len() == 0 {
        None
    } else {
        message(trimmed(raw))
    }
}

/// Finds the first space of a line.
fn space_index(line: &[u8]) -> (r: usize)
    ensures
        r == first_space(line@),
        r <= line@.len(),
{
    let pat: [u8; 1] = [32u8];
    assert(pat@ =~= seq![32u8]);
    proof {
        crate::text::lemma_find_from(line@, seq![32u8], 0);
    }
    match search(line, pat.as_slice()) {
        Some(k) => k,
        None => line.len(),
    }
}

impl Msg {
    /// Reads a line that has no whitespace around it.
    pub fn parse(line: &[u8]) -> (r: Option<Msg>)
        ensures
            msg_view(r) == message(line@),
    {
        let idx = space_index(line);
        let cmd = trim(vstd::slice::slice_subrange(line, 0, idx));
        let args = vstd::slice::slice_subrange(line, idx, line.len());
        if is(cmd, "id") {
            let pat = " name ".as_bytes();
            proof {
                crate::text::lemma_find_from(args@, pat@, 0);
            }
            match search(args, pat) {
                Some(k) => {
                    let name = copy(args, k + pat.len(), args.len());
                    Some(Msg::Id { name: Some(name) })
                },
                None => Some(Msg::Id { name: None }),
            }
        } else if is(cmd, "uciok") {
            Some(Msg::UciOk)
        } else if is(cmd, "readyok") {
            Some(Msg::ReadyOk)
        } else if is(cmd, "bestmove") {
            let rest = trim(args);
            let end = space_index(rest);
            match UciMove::parse(vstd::slice::slice_subrange(rest, 0, end)) {
                Some(m) => Some(Msg::BestMove(m)),
                None => None,
            }
        } else if is(cmd, "info") {
            match Info::parse(args) {
                Ok(Some(info)) => Some(Msg::Info(info)),
                _ => None,
            }
        } else {
            None
        }
    }

    /// Reads a line as it was received.
    pub fn receive(raw: &[u8]) -> (r: Option<Msg>)
        ensures
            msg_view(r) == received(raw@),
    {
        let line = trim(raw);
        if line.len() == 0 {
            None
        } else {
            Msg::parse(line)
        }
    }
}

/// Where a conversation with an engine stands.
#[derive(Clone, Copy, Debug, PartialEq, Eq, Structural)]
pub enum Stage {
    /// Nothing has been sent.
    Uninit,
    /// `uci` has been sent and `uciok` not yet heard.
    Handshaking,
    /// The engine waits for a command.
    Ready,
    /// The engine searches.
    Searching,
    /// `quit` has been sent.
    Exited,
}

impl Stage {
    /// The stage after `command` has been sent; `None` where the command
    /// has no place in this stage.
    pub open spec fn sent(self, command: Command) -> Option<Stage> {
        match (self, command) {
            (Stage::Uninit, Command::Uci) => Some(Stage::Handshaking),
            (Stage::Ready, Command::Debug) => Some(Stage::Ready),
            (Stage::Ready, Command::SetOption(_, _)) => Some(Stage::Ready),
            (Stage::Ready, Command::IsReady) => Some(Stage::Ready),
            (Stage::Ready, Command::NewGame) => Some(Stage::Ready),
            (Stage::Ready, Command::Position { .. }) => Some(Stage::Ready),
            (Stage::Ready, Command::Go { .. }) => Some(Stage::Searching),
            (Stage::Ready, Command::Quit) => Some(Stage::Exited),
            (Stage::Searching, Command::Stop) => Some(Stage::Searching),
            _ => None,
        }
    }

    /// The stage after `msg` has been heard: `uciok` ends the handshake and
    /// `bestmove` the search.
    pub open spec fn heard(self, msg: MsgView) -> Stage {
        match (self, msg) {
            (Stage::Handshaking, MsgView::UciOk) => Stage::Ready,
            (Stage::Searching, MsgView::BestMove(_)) => Stage::Ready,
            _ => self,
        }
    }
}

/// One side of a conversation with an engine: it says which line to send
/// for a command and what a line received means, and keeps track of the
/// stage and of the name the engine gave itself.
#[derive(Debug)]
pub struct Protocol {
    pub name: Vec<u8>,
    pub stage: Stage,
}

impl Protocol {
    /// A conversation in which nothing has been said.
    pub fn new() -> (r: Protocol)
        ensures
            r.stage == Stage::Uninit,
            r.name@.len() == 0,
    {
        Protocol { name: Vec::new(), stage: Stage::Uninit }
    }

    /// The name the engine gave itself during the handshake.
    pub fn name(&self) -> (r: &[u8])
        ensures
            r@ == self.name@,
    {
        self.name.as_slice()
    }

    /// The stage of the conversation.
    pub fn stage(&self) -> (r: Stage)
        ensures
            r == self.stage,
    {
        self.stage
    }

    /// Computes the stage after `command`.
    fn next_stage(&self, command: &Command) -> (r: Option<Stage>)
        ensures
            r == self.stage.sent(*command),
    {
        match (self.stage, command) {
            (Stage::Uninit, Command::Uci) => Some(Stage::Handshaking),
            (Stage::Ready, Command::Debug) => Some(Stage::Ready),
            (Stage::Ready, Command::SetOption(_, _)) => Some(Stage::Ready),
            (Stage::Ready, Command::IsReady) => Some(Stage::Ready),
            (Stage::Ready, Command::NewGame) => Some(Stage::Ready),
            (Stage::Ready, Command::Position { .. }) => Some(Stage::Ready),
            (Stage::Ready, Command::Go { .. }) => Some(Stage::Searching),
            (Stage::Ready, Command::Quit) => Some(Stage::Exited),
            (Stage::Searching, Command::Stop) => Some(Stage::Searching),
            _ => None,
        }
    }

    /// The line to send for `command`, where the command has a place in
    /// the stage of the conversation; the conversation moves on as if the
    /// line had been sent.
    pub fn send(&mut self, command: &Command) -> (r: Option<Vec<u8>>)
        ensures
            final(self).name == old(self).name,
            match old(self).stage.sent(*command) {
                Some(stage) => final(self).stage == stage && r is Some && r.unwrap()@
                    == command.wire().push(10u8),
                None => final(self).stage == old(self).stage && r is None,
            },
    {
        match self.next_stage(command) {
            Some(stage) => {
                self.stage = stage;
                Some(command.frame())
            },
            None => None,
        }
    }

    /// Takes a line as it was received: says what it means and moves the
    /// conversation on. A name is kept only while the handshake lasts.
    pub fn recv(&mut self, raw: &[u8]) -> (r: Option<Msg>)
        ensures
            msg_view(r) == received(raw@),
            final(self).stage == (match received(raw@) {
                Some(m) => old(self).stage.heard(m),
                None => old(self).stage,
            }),
            final(self).name@ == (match (old(self).stage, received(raw@)) {
                (Stage::Handshaking, Some(MsgView::Id { name: Some(name) })) => name,
                _ => old(self).name@,
            }),
    {
        let msg = Msg::receive(raw);
        match &msg {
            Some(Msg::Id { name: Some(name) }) => {
                if self.stage == Stage::Handshaking {
                    self.name = copy(name.as_slice(), 0, name.len());
                    assert(self.name@ =~= name@);
                }
            },
            Some(Msg::UciOk) => {
                if self.stage == Stage::Handshaking {
                    self.stage = Stage::Ready;
                }
            },
            Some(Msg::BestMove(_)) => {
                if self.stage == Stage::Searching {
                    self.stage = Stage::Ready;
                }
            },
            _ => {},
        }
        msg
    }

    /// The line that starts the conversation.
    pub fn init(&mut self) -> (r: Option<Vec<u8>>)
        ensures
            final(self).name == old(self).name,
            match old(self).stage.sent(Command::Uci) {
                Some(stage) => final(self).stage == stage && r is Some && r.unwrap()@
                    == Command::Uci.wire().push(10u8),
                None => final(self).stage == old(self).stage && r is None,
            },
    {
        self.send(&Command::Uci)
    }

    /// The line that switches debug mode on.
    pub fn debug(&mut self) -> (r: Option<Vec<u8>>)
        ensures
            final(self).name == old(self).name,
            match old(self).stage.sent(Command::Debug) {
                Some(stage) => final(self).stage == stage && r is Some && r.unwrap()@
                    == Command::Debug.wire().push(10u8),
                None => final(self).stage == old(self).stage && r is None,
            },
    {
        self.send(&Command::Debug)
    }

    /// The line that sets an option.
    pub fn set_option(&mut self, option: Vec<u8>, value: Vec<u8>) -> (r: Option<Vec<u8>>)
        ensures
            final(self).name == old(self).name,
            match old(self).stage.sent(Command::SetOption(option, value)) {
                Some(stage) => final(self).stage == stage && r is Some && r.unwrap()@
                    == Command::SetOption(option, value).wire().push(10u8),
                None => final(self).stage == old(self).stage && r is None,
            },
    {
        self.send(&Command::SetOption(option, value))
    }

    /// The line that asks for `readyok`.
    pub fn wait_ready(&mut self) -> (r: Option<Vec<u8>>)
        ensures
            final(self).name == old(self).name,
            match old(self).stage.sent(Command::IsReady) {
                Some(stage) => final(self).stage == stage && r is Some && r.unwrap()@
                    == Command::IsReady.wire().push(10u8),
                None => final(self).stage == old(self).stage && r is None,
            },
    {
        self.send(&Command::IsReady)
    }

    /// The line that starts a new game.
    pub fn new_game(&mut self) -> (r: Option<Vec<u8>>)
        ensures
            final(self).name == old(self).name,
            match old(self).stage.sent(Command::NewGame) {
                Some(stage) => final(self).stage == stage && r is Some && r.unwrap()@
                    == Command::NewGame.wire().push(10u8),
                None => final(self).stage == old(self).stage && r is None,
            },
    {
        self.send(&Command::NewGame)
    }

    /// The line that sets up the position reached from `fen`, or from the
    /// starting position, by `moves`.
    pub fn position(&mut self, fen: Option<Vec<u8>>, moves: Vec<UciMove>) -> (r: Option<Vec<u8>>)
        ensures
            final(self).name == old(self).name,
            match old(self).stage.sent(Command::Position { fen, line: moves }) {
                Some(stage) => final(self).stage == stage && r is Some && r.unwrap()@
                    == (Command::Position { fen, line: moves }).wire().push(10u8),
                None => final(self).stage == old(self).stage && r is None,
            },
    {
        self.send(&Command::Position { fen, line: moves })
    }

    /// The line that starts a search, and the stream that follows it.
    pub fn go(&mut self, depth: Option<u8>, time: Option<u64>) -> (r: Option<(Vec<u8>, InfoStream)>)
        ensures
            final(self).name == old(self).name,
            match old(self).stage.sent(Command::Go { depth, time }) {
                Some(stage) => final(self).stage == stage && r is Some && r.unwrap().0@
                    == (Command::Go { depth, time }).wire().push(10u8) && r.unwrap().1.best
                    is None,
                None => final(self).stage == old(self).stage && r is None,
            },
    {
        match self.send(&Command::Go { depth, time }) {
            Some(line) => Some((line, InfoStream { best: None })),
            None => None,
        }
    }

    /// The line that shuts the engine down.
    pub fn quit(&mut self) -> (r: Option<Vec<u8>>)
        ensures
            final(self).name == old(self).name,
            match old(self).stage.sent(Command::Quit) {
                Some(stage) => final(self).stage == stage && r is Some && r.unwrap()@
                    == Command::Quit.wire().push(10u8),
                None => final(self).stage == old(self).stage && r is None,
            },
    {
        self.send(&Command::Quit)
    }
}

/// What the next message of a search amounts to.
#[derive(Debug)]
pub enum Step {
    /// A step of the analysis.
    Info(Info),
    /// The search is over.
    End,
    /// Neither: the next message is to be read.
    Wait,
}

/// A search from `go` to `bestmove`.
#[derive(Debug)]
pub struct InfoStream {
    /// The best move once the search is over. From then on no message
    /// belongs to this search.
    pub best: Option<UciMove>,
}

impl InfoStream {
    /// Takes the next message of the engine.
    ///
    /// A step of the analysis is handed on. The first `bestmove` ends the
    /// search and its move is kept. Once the search is over it stays so:
    /// whatever the message, the answer is `End` and the move is the one kept.
    pub fn info(&mut self, msg: Msg) -> (r: Step)
        ensures
            match (old(self).best, msg) {
                (Some(_), _) => r is End && final(self).best == old(self).best,
                (None, Msg::BestMove(m)) => r is End && final(self).best == Some(m),
                (None, Msg::Info(info)) => r == Step::Info(info) && final(self).best is None,
                (None, _) => r is Wait && final(self).best is None,
            },
    {
        if self.best.is_some() {
            return Step::End;
        }
        match msg {
            Msg::BestMove(m) => {
                self.best = Some(m);
                Step::End
            },
            Msg::Info(info) => Step::Info(info),
            _ => Step::Wait,
        }
    }

    /// Whether the search is over.
    pub fn finished(&self) -> (r: bool)
        ensures
            r == self.best is Some,
    {
        self.best.is_some()
    }

    /// The best move, once the search is over.
    pub fn best(&self) -> (r: Option<&UciMove>)
        ensures
            match r {
                Some(m) => self.best == Some(*m),
                None => self.best is None,
            },
    {
        self.best.as_ref()
    }

    /// The line that ends the search of `proto` early. The engine still
    /// answers with `bestmove`, which is to be waited for.
    pub fn stop(&self, proto: &mut Protocol) -> (r: Option<Vec<u8>>)
        ensures
            final(proto).name == old(proto).name,
            match old(proto).stage.sent(Command::Stop) {
                Some(stage) => final(proto).stage == stage && r is Some && r.unwrap()@
                    == Command::Stop.wire().push(10u8),
                None => final(proto).stage == old(proto).stage && r is None,
            },
    {
        proto.send(&Command::Stop)
    }
}

} // verus!
