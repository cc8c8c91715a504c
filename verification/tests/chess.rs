use emily::chess::{Color, Outcome, Position, UciMove};

const START: &[u8] = b"rnbqkbnr/pppppppp/8/8/8/8/PPPPPPPP/RNBQKBNR w KQkq - 0 1";

#[test]
fn the_starting_position() {
    let pos = Position::from_fen(START).unwrap();
    assert_eq!(pos.fen(), START);
    assert_eq!(pos.turn(), Color::White);
    assert_eq!(pos.fullmoves(), 1);
    assert_eq!(pos.outcome(), None);
    assert!(pos.initial());
    assert_eq!(pos.key, b"rnbqkbnr/pppppppp/8/8/8/8/PPPPPPPP/RNBQKBNR w KQkq -".to_vec());
}

#[test]
fn a_fen_is_written_in_full() {
    let pos = Position::from_fen(b"rnbqkbnr/pppppppp/8/8/8/8/PPPPPPPP/RNBQKBNR").unwrap();
    assert_eq!(pos.fen(), b"rnbqkbnr/pppppppp/8/8/8/8/PPPPPPPP/RNBQKBNR w - - 0 1");
    assert!(!pos.initial());
}

#[test]
fn what_is_no_position_is_refused() {
    assert!(Position::from_fen(b"").is_none());
    assert!(Position::from_fen(b"not a fen").is_none());
    assert!(Position::from_fen(b"8/8/8/8/8/8/8/8 w - - 0 1").is_none());
    assert!(Position::from_fen(b"rnbqkbnr/pppppppp/8/8/8/8/PPPPPPPP/RNBQKBNR x KQkq - 0 1").is_none());
}

#[test]
fn the_starting_position_with_other_counters_is_still_the_starting_position() {
    let pos = Position::from_fen(b"rnbqkbnr/pppppppp/8/8/8/8/PPPPPPPP/RNBQKBNR w KQkq - 4 3").unwrap();
    assert!(pos.initial());
    assert_eq!(pos.fullmoves(), 3);
    assert!(pos.same(&Position::from_fen(START).unwrap()));
}

#[test]
fn playing_a_move() {
    let pos = Position::from_fen(START).unwrap();
    let mv = UciMove::parse(b"e2e4").unwrap().to_move(&pos).unwrap();
    assert_eq!(mv.as_bytes(), b"e2e4");
    let next = pos.play(&mv).unwrap();
    assert_eq!(next.fen(), b"rnbqkbnr/pppppppp/8/8/4P3/8/PPPP1PPP/RNBQKBNR b KQkq e3 0 1");
    assert_eq!(next.key, b"rnbqkbnr/pppppppp/8/8/4P3/8/PPPP1PPP/RNBQKBNR b KQkq -".to_vec());
    assert_eq!(next.turn(), Color::Black);
    assert_eq!(next.fullmoves(), 1);
    assert!(!next.initial());
    assert!(!next.same(&pos));
    assert_eq!(pos.san(&mv), Some(b"e4".to_vec()));
    let reply = UciMove::parse(b"g8f6").unwrap().to_move(&next).unwrap();
    let third = next.play(&reply).unwrap();
    assert_eq!(third.fullmoves(), 2);
    assert_eq!(next.san(&reply), Some(b"Nf6".to_vec()));
}

#[test]
fn an_illegal_move_is_refused() {
    let pos = Position::from_fen(START).unwrap();
    assert!(UciMove::parse(b"e2e5").unwrap().to_move(&pos).is_none());
    assert!(UciMove::parse(b"a1a1").unwrap().to_move(&pos).is_none());
    assert!(UciMove::parse(b"0000").unwrap().to_move(&pos).is_none());
    let mv = UciMove::parse(b"e2e4").unwrap().to_move(&pos).unwrap();
    let next = pos.play(&mv).unwrap();
    assert!(next.play(&mv).is_none());
    assert!(next.san(&mv).is_none());
}

#[test]
fn uci_moves() {
    assert_eq!(UciMove::parse(b"e2e4").unwrap().as_bytes(), b"e2e4");
    assert_eq!(UciMove::parse(b"a7a8q").unwrap().as_bytes(), b"a7a8q");
    assert_eq!(UciMove::parse(b"0000").unwrap().as_bytes(), b"0000");
    assert!(UciMove::parse(b"").is_none());
    assert!(UciMove::parse(b"e2").is_none());
    assert!(UciMove::parse(b"e2e9").is_none());
    assert!(UciMove::parse(b"e2e4qq").is_none());
    assert!(UciMove::parse(b"ponder").is_none());
    assert!(UciMove::parse(b"pv").is_none());
    let m = UciMove::parse(b"g1f3").unwrap();
    assert_eq!(m.copy().as_bytes(), b"g1f3");
}

#[test]
fn castling_is_written_as_a_move_of_the_king() {
    let pos = Position::from_fen(b"r3k2r/8/8/8/8/8/8/R3K2R w KQkq - 0 1").unwrap();
    let short = UciMove::parse(b"e1g1").unwrap().to_move(&pos).unwrap();
    let rook = UciMove::parse(b"e1h1").unwrap().to_move(&pos).unwrap();
    assert_eq!(short.as_bytes(), b"e1g1");
    assert_eq!(rook.as_bytes(), b"e1g1");
    assert!(short.same(&rook));
    assert_eq!(pos.san(&short), Some(b"O-O".to_vec()));
    assert_eq!(short.to_uci().as_bytes(), b"e1g1");
    assert_eq!(short.copy().as_bytes(), b"e1g1");
}

#[test]
fn outcomes() {
    let mate = Position::from_fen(b"rnb1kbnr/pppp1ppp/8/4p3/6Pq/5P2/PPPPP2P/RNBQKBNR w KQkq - 1 3").unwrap();
    assert_eq!(mate.outcome(), Some(Outcome::Decisive { winner: Color::Black }));
    let stalemate = Position::from_fen(b"7k/5Q2/6K1/8/8/8/8/8 b - - 0 1").unwrap();
    assert_eq!(stalemate.outcome(), Some(Outcome::Draw));
    let bare = Position::from_fen(b"8/8/4k3/8/8/4K3/8/8 w - - 0 1").unwrap();
    assert_eq!(bare.outcome(), Some(Outcome::Draw));
    let white = Position::from_fen(b"R5k1/5ppp/8/8/8/8/8/6K1 b - - 0 1").unwrap();
    assert_eq!(white.outcome(), Some(Outcome::Decisive { winner: Color::White }));
}

#[test]
fn en_passant_counts_for_the_key_only_where_it_can_be_taken() {
    let quiet = Position::from_fen(b"rnbqkbnr/pppppppp/8/8/4P3/8/PPPP1PPP/RNBQKBNR b KQkq e3 0 1").unwrap();
    let plain = Position::from_fen(b"rnbqkbnr/pppppppp/8/8/4P3/8/PPPP1PPP/RNBQKBNR b KQkq - 0 1").unwrap();
    assert!(quiet.same(&plain));
    assert_ne!(quiet.fen(), plain.fen());
    let sharp = Position::from_fen(b"rnbqkbnr/ppp1pppp/8/8/3pP3/8/PPPP1PPP/RNBQKBNR b KQkq e3 0 3").unwrap();
    let dull = Position::from_fen(b"rnbqkbnr/ppp1pppp/8/8/3pP3/8/PPPP1PPP/RNBQKBNR b KQkq - 0 3").unwrap();
    assert!(!sharp.same(&dull));
    assert_eq!(sharp.key, b"rnbqkbnr/ppp1pppp/8/8/3pP3/8/PPPP1PPP/RNBQKBNR b KQkq e3".to_vec());
}

#[test]
fn a_copy_is_the_same_position() {
    let pos = Position::from_fen(START).unwrap();
    let copy = pos.copy();
    assert_eq!(copy.fen(), pos.fen());
    assert_eq!(copy.key, pos.key);
    assert_eq!(copy.turn(), pos.turn());
    assert_eq!(copy.fullmoves(), pos.fullmoves());
    assert_eq!(copy.outcome(), pos.outcome());
}
