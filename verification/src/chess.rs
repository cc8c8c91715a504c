//! Chess positions and moves as the review sees them.
//!
//! The rules of chess are not part of this library: they are shakmaty's. A
//! position is kept as its FEN text and a move as its UCI text, and every
//! question about them (which moves are legal, what position a move leads to,
//! whether the game is over) is put to shakmaty by one of the private
//! functions at the end of this file. What those functions answer is not
//! proved here. It is given a name, and the rest of the library is proved for
//! whatever the names stand for.
use crate::text::{is, lit};
use vstd::prelude::*;

verus! {

/// The FEN that shakmaty writes, with the en passant square wherever a pawn
/// has just advanced two squares, for the standard chess position that it
/// reads from `text`; `None` where it reads no valid position.
pub uninterp spec fn canonical_fen(text: Seq<u8>) -> Option<Seq<u8>>;

/// The EPD that shakmaty writes for the position of FEN `fen`, with the en
/// passant square only where a capture is legal: piece placement, side to
/// move, castling rights and en passant square. The library holds two
/// positions to be the same exactly if they have the same EPD; the move
/// counters do not count.
pub uninterp spec fn repetition_key(fen: Seq<u8>) -> Option<Seq<u8>>;

/// The side to move in the position of FEN `fen`.
pub uninterp spec fn side_to_move(fen: Seq<u8>) -> Option<Color>;

/// The number of the move to be played in the position of FEN `fen`.
pub uninterp spec fn move_number(fen: Seq<u8>) -> Option<u32>;

/// The outcome of the game in the position of FEN `fen`: decided by
/// checkmate, drawn by stalemate or insufficient material, or still open.
pub uninterp spec fn game_outcome(fen: Seq<u8>) -> Option<Option<Outcome>>;

/// The FEN of the position that the move with UCI text `mv` leads to from
/// the position of FEN `fen`; `None` where the move is not legal there.
pub uninterp spec fn fen_after(fen: Seq<u8>, mv: Seq<u8>) -> Option<Seq<u8>>;

/// The UCI text, with castling written as a move of the king by two squares,
/// of the legal move that the UCI text `mv` denotes in the position of FEN
/// `fen`; `None` where it denotes no legal move.
pub uninterp spec fn legal_move(fen: Seq<u8>, mv: Seq<u8>) -> Option<Seq<u8>>;

/// The standard algebraic notation of the move with UCI text `mv` in the
/// position of FEN `fen`.
pub uninterp spec fn san_text(fen: Seq<u8>, mv: Seq<u8>) -> Option<Seq<u8>>;

/// The text that shakmaty writes for the UCI move that it reads from `word`;
/// `None` where `word` is no move in UCI notation.
pub uninterp spec fn uci_text(word: Seq<u8>) -> Option<Seq<u8>>;

/// The view of an optional text.
pub open spec fn opt_view(r: Option<Vec<u8>>) -> Option<Seq<u8>> {
    match r {
        Some(v) => Some(v@),
        None => None,
    }
}

/// A side.
#[derive(Clone, Copy, Debug, PartialEq, Eq, Structural)]
pub enum Color {
    White,
    Black,
}

/// How a game ended.
#[derive(Clone, Copy, Debug, PartialEq, Eq, Structural)]
pub enum Outcome {
    Decisive { winner: Color },
    Draw,
}

/// A move as an engine names it, not yet held against a position.
#[derive(Debug)]
pub struct UciMove {
    pub text: Vec<u8>,
}

impl View for UciMove {
    type V = Seq<u8>;

    open spec fn view(&self) -> Seq<u8> {
        self.text@
    }
}

/// A move that was legal in the position it was made for.
#[derive(Debug)]
pub struct Move {
    pub text: Vec<u8>,
}

impl View for Move {
    type V = Seq<u8>;

    open spec fn view(&self) -> Seq<u8> {
        self.text@
    }
}

/// A position: its FEN, and what shakmaty says of it.
#[derive(Debug)]
pub struct Position {
    pub fen: Vec<u8>,
    pub key: Vec<u8>,
    pub turn: Color,
    pub fullmoves: u32,
    pub outcome: Option<Outcome>,
}

impl View for Position {
    type V = Seq<u8>;

    open spec fn view(&self) -> Seq<u8> {
        self.fen@
    }
}

/// Whether shakmaty answers every question about the position of FEN `fen`.
pub open spec fn known(fen: Seq<u8>) -> bool {
    &&& repetition_key(fen) is Some
    &&& side_to_move(fen) is Some
    &&& move_number(fen) is Some
    &&& game_outcome(fen) is Some
}

/// The position reached by a legal move, where shakmaty knows it.
pub open spec fn successor(fen: Seq<u8>, mv: Seq<u8>) -> Option<Seq<u8>> {
    match fen_after(fen, mv) {
        Some(next) => if known(next) {
            Some(next)
        } else {
            None
        },
        None => None,
    }
}

impl UciMove {
    /// Reads a move in UCI notation.
    pub fn parse(word: &[u8]) -> (r: Option<UciMove>)
        ensures
            match r {
                Some(m) => uci_text(word@) == Some(m@),
                None => uci_text(word@) is None,
            },
    {
        match read_uci(word) {
            Some(text) => Some(UciMove { text }),
            None => None,
        }
    }

    /// The legal move that this text denotes in `pos`.
    pub fn to_move(&self, pos: &Position) -> (r: Option<Move>)
        ensures
            match r {
                Some(m) => legal_move(pos@, self@) == Some(m@),
                None => legal_move(pos@, self@) is None,
            },
    {
        match read_legal(pos.fen.as_slice(), self.text.as_slice()) {
            Some(text) => Some(Move { text }),
            None => None,
        }
    }

    /// The text of the move.
    pub fn as_bytes(&self) -> (r: &[u8])
        ensures
            r@ == self@,
    {
        self.text.as_slice()
    }

    /// A copy of the move.
    pub fn copy(&self) -> (r: UciMove)
        ensures
            r@ == self@,
    {
        UciMove { text: crate::text::copy(self.text.as_slice(), 0, self.text.len()) }
    }
}

impl Move {
    /// The move as an engine names it.
    pub fn to_uci(&self) -> (r: UciMove)
        ensures
            r@ == self@,
    {
        UciMove { text: crate::text::copy(self.text.as_slice(), 0, self.text.len()) }
    }

    /// The text of the move.
    pub fn as_bytes(&self) -> (r: &[u8])
        ensures
            r@ == self@,
    {
        self.text.as_slice()
    }

    /// Whether two moves are the same.
    pub fn same(&self, other: &Move) -> (r: bool)
        ensures
            r == (self@ == other@),
    {
        crate::text::same(self.text.as_slice(), other.text.as_slice())
    }

    /// A copy of the move.
    pub fn copy(&self) -> (r: Move)
        ensures
            r@ == self@,
    {
        Move { text: crate::text::copy(self.text.as_slice(), 0, self.text.len()) }
    }
}

impl Position {
    /// The position holds what shakmaty says of its FEN.
    pub open spec fn wf(&self) -> bool {
        &&& repetition_key(self.fen@) == Some(self.key@)
        &&& side_to_move(self.fen@) == Some(self.turn)
        &&& move_number(self.fen@) == Some(self.fullmoves)
        &&& game_outcome(self.fen@) == Some(self.outcome)
    }

    /// Gathers what shakmaty says of the position of FEN `fen`.
    fn describe(fen: Vec<u8>) -> (r: Option<Position>)
        ensures
            match r {
                Some(p) => p@ == fen@ && p.wf(),
                None => !known(fen@),
            },
    {
        let key = match read_key(fen.as_slice()) {
            Some(key) => key,
            None => { return None; },
        };
        let turn = match read_turn(fen.as_slice()) {
            Some(turn) => turn,
            None => { return None; },
        };
        let fullmoves = match read_move_number(fen.as_slice()) {
            Some(n) => n,
            None => { return None; },
        };
        let outcome = match read_outcome(fen.as_slice()) {
            Some(outcome) => outcome,
            None => { return None; },
        };
        Some(Position { fen, key, turn, fullmoves, outcome })
    }

    /// Reads a position of standard chess from its FEN.
    pub fn from_fen(text: &[u8]) -> (r: Option<Position>)
        ensures
            match r {
                Some(p) => canonical_fen(text@) == Some(p@) && p.wf(),
                None => match canonical_fen(text@) {
                    Some(fen) => !known(fen),
                    None => true,
                },
            },
    {
        match read_fen(text) {
            Some(fen) => Position::describe(fen),
            None => None,
        }
    }

    /// Plays a move; `None` where it is not legal.
    pub fn play(&self, mv: &Move) -> (r: Option<Position>)
        ensures
            match r {
                Some(p) => successor(self@, mv@) == Some(p@) && p.wf(),
                None => successor(self@, mv@) is None,
            },
    {
        match read_after(self.fen.as_slice(), mv.text.as_slice()) {
            Some(fen) => Position::describe(fen),
            None => None,
        }
    }

    /// The move in standard algebraic notation, as it is written in a game
    /// record; `None` where shakmaty cannot read the position or the move.
    pub fn san(&self, mv: &Move) -> (r: Option<Vec<u8>>)
        ensures
            opt_view(r) == san_text(self@, mv@),
    {
        read_san(self.fen.as_slice(), mv.text.as_slice())
    }

    /// Whether two positions are the same for the rules on repetition.
    pub fn same(&self, other: &Position) -> (r: bool)
        ensures
            r == (self.key@ == other.key@),
    {
        crate::text::same(self.key.as_slice(), other.key.as_slice())
    }

    /// Whether this is the position in which a game of chess starts,
    /// whatever its move counters say.
    pub open spec fn is_initial(&self) -> bool {
        self.key@ == lit("rnbqkbnr/pppppppp/8/8/8/8/PPPPPPPP/RNBQKBNR w KQkq -")
    }

    /// Tests for the position in which a game of chess starts.
    pub fn initial(&self) -> (r: bool)
        ensures
            r == self.is_initial(),
    {
        is(self.key.as_slice(), "rnbqkbnr/pppppppp/8/8/8/8/PPPPPPPP/RNBQKBNR w KQkq -")
    }

    /// The FEN of the position.
    pub fn fen(&self) -> (r: &[u8])
        ensures
            r@ == self@,
    {
        self.fen.as_slice()
    }

    /// The side to move.
    pub fn turn(&self) -> (r: Color)
        ensures
            r == self.turn,
    {
        self.turn
    }

    /// The number of the move to be played.
    pub fn fullmoves(&self) -> (r: u32)
        ensures
            r == self.fullmoves,
    {
        self.fullmoves
    }

    /// The outcome of the game, where it is over.
    pub fn outcome(&self) -> (r: Option<Outcome>)
        ensures
            r == self.outcome,
    {
        self.outcome
    }

    /// A copy of the position.
    pub fn copy(&self) -> (r: Position)
        ensures
            r@ == self@,
            r.key@ == self.key@,
            r.turn == self.turn,
            r.fullmoves == self.fullmoves,
            r.outcome == self.outcome,
            self.wf() ==> r.wf(),
    {
        Position {
            fen: crate::text::copy(self.fen.as_slice(), 0, self.fen.len()),
            key: crate::text::copy(self.key.as_slice(), 0, self.key.len()),
            turn: self.turn,
            fullmoves: self.fullmoves,
            outcome: self.outcome,
        }
    }
}

/// `shakmaty::fen::Fen::from_ascii`, `Fen::into_position` for standard chess
/// and `Fen::from_position`: reads `text` as a FEN, sets the position up and
/// writes its FEN again. Claimed: the text that comes back depends on `text`
/// alone, and nothing comes back where shakmaty refuses the text or the
/// position.
#[verifier::external_body]
fn read_fen(text: &[u8]) -> (r: Option<Vec<u8>>)
    ensures
        opt_view(r) == canonical_fen(text@),
{
    let fen = shakmaty::fen::Fen::from_ascii(text).ok()?;
    let pos: shakmaty::Chess = fen.into_position(shakmaty::CastlingMode::Standard).ok()?;
    let out = shakmaty::fen::Fen::from_position(pos, shakmaty::EnPassantMode::Always);
    Some(out.to_string().into_bytes())
}

/// `shakmaty::fen::Epd::from_position` with legal en passant squares only.
/// Claimed: the EPD that comes back depends on `fen` alone.
#[verifier::external_body]
fn read_key(fen: &[u8]) -> (r: Option<Vec<u8>>)
    ensures
        opt_view(r) == repetition_key(fen@),
{
    let fen = shakmaty::fen::Fen::from_ascii(fen).ok()?;
    let pos: shakmaty::Chess = fen.into_position(shakmaty::CastlingMode::Standard).ok()?;
    let out = shakmaty::fen::Epd::from_position(pos, shakmaty::EnPassantMode::Legal);
    Some(out.to_string().into_bytes())
}

/// `shakmaty::Position::turn`. Claimed: the side that comes back depends on
/// `fen` alone.
#[verifier::external_body]
fn read_turn(fen: &[u8]) -> (r: Option<Color>)
    ensures
        r == side_to_move(fen@),
{
    let fen = shakmaty::fen::Fen::from_ascii(fen).ok()?;
    let pos: shakmaty::Chess = fen.into_position(shakmaty::CastlingMode::Standard).ok()?;
    match shakmaty::Position::turn(&pos) {
        shakmaty::Color::White => Some(Color::White),
        shakmaty::Color::Black => Some(Color::Black),
    }
}

/// `shakmaty::Position::fullmoves`. Claimed: the number that comes back
/// depends on `fen` alone.
#[verifier::external_body]
fn read_move_number(fen: &[u8]) -> (r: Option<u32>)
    ensures
        r == move_number(fen@),
{
    let fen = shakmaty::fen::Fen::from_ascii(fen).ok()?;
    let pos: shakmaty::Chess = fen.into_position(shakmaty::CastlingMode::Standard).ok()?;
    Some(shakmaty::Position::fullmoves(&pos).get())
}

/// `shakmaty::Position::outcome`. Claimed: the outcome that comes back
/// depends on `fen` alone.
#[verifier::external_body]
fn read_outcome(fen: &[u8]) -> (r: Option<Option<Outcome>>)
    ensures
        r == game_outcome(fen@),
{
    let fen = shakmaty::fen::Fen::from_ascii(fen).ok()?;
    let pos: shakmaty::Chess = fen.into_position(shakmaty::CastlingMode::Standard).ok()?;
    match shakmaty::Position::outcome(&pos) {
        Some(shakmaty::Outcome::Decisive { winner: shakmaty::Color::White }) => Some(
            Some(Outcome::Decisive { winner: Color::White }),
        ),
        Some(shakmaty::Outcome::Decisive { winner: shakmaty::Color::Black }) => Some(
            Some(Outcome::Decisive { winner: Color::Black }),
        ),
        Some(shakmaty::Outcome::Draw) => Some(Some(Outcome::Draw)),
        None => Some(None),
    }
}

/// `shakmaty::Position::play`, which refuses a move that is not legal.
/// Claimed: the FEN that comes back depends on `fen` and `mv` alone.
#[verifier::external_body]
fn read_after(fen: &[u8], mv: &[u8]) -> (r: Option<Vec<u8>>)
    ensures
        opt_view(r) == fen_after(fen@, mv@),
{
    let fen = shakmaty::fen::Fen::from_ascii(fen).ok()?;
    let pos: shakmaty::Chess = fen.into_position(shakmaty::CastlingMode::Standard).ok()?;
    let m = shakmaty::uci::UciMove::from_ascii(mv).ok()?.to_move(&pos).ok()?;
    let next = shakmaty::Position::play(pos, &m).ok()?;
    let out = shakmaty::fen::Fen::from_position(next, shakmaty::EnPassantMode::Always);
    Some(out.to_string().into_bytes())
}

/// `shakmaty::uci::UciMove::to_move`, which refuses a move that is not
/// legal, and `UciMove::from_standard`. Claimed: the text that comes back
/// depends on `fen` and `mv` alone.
#[verifier::external_body]
fn read_legal(fen: &[u8], mv: &[u8]) -> (r: Option<Vec<u8>>)
    ensures
        opt_view(r) == legal_move(fen@, mv@),
{
    let fen = shakmaty::fen::Fen::from_ascii(fen).ok()?;
    let pos: shakmaty::Chess = fen.into_position(shakmaty::CastlingMode::Standard).ok()?;
    let m = shakmaty::uci::UciMove::from_ascii(mv).ok()?.to_move(&pos).ok()?;
    Some(shakmaty::uci::UciMove::from_standard(&m).to_string().into_bytes())
}

/// `shakmaty::san::San::from_move`. Claimed: the text that comes back
/// depends on `fen` and `mv` alone.
#[verifier::external_body]
fn read_san(fen: &[u8], mv: &[u8]) -> (r: Option<Vec<u8>>)
    ensures
        opt_view(r) == san_text(fen@, mv@),
{
    let fen = shakmaty::fen::Fen::from_ascii(fen).ok()?;
    let pos: shakmaty::Chess = fen.into_position(shakmaty::CastlingMode::Standard).ok()?;
    let m = shakmaty::uci::UciMove::from_ascii(mv).ok()?.to_move(&pos).ok()?;
    Some(shakmaty::san::San::from_move(&pos, &m).to_string().into_bytes())
}

/// `shakmaty::uci::UciMove::from_ascii`. Claimed: the text that comes back
/// depends on `word` alone, and nothing comes back where shakmaty refuses
/// the word.
#[verifier::external_body]
fn read_uci(word: &[u8]) -> (r: Option<Vec<u8>>)
    ensures
        opt_view(r) == uci_text(word@),
{
    let m = shakmaty::uci::UciMove::from_ascii(word).ok()?;
    Some(m.to_string().into_bytes())
}

} // verus!
