use emily::chess::UciMove;
use emily::uci::proto::{Command, Info, InfoError, InfoStream, Msg, Protocol, Stage, Step};
use emily::uci::Score;

fn uci(text: &[u8]) -> UciMove {
    UciMove::parse(text).expect("a move in UCI notation")
}

fn line_of(info: &Info) -> Vec<Vec<u8>> {
    info.line.iter().map(|m| m.as_bytes().to_vec()).collect()
}

#[test]
fn commands_are_written_as_the_protocol_has_them() {
    assert_eq!(Command::Uci.encode(), b"uci".to_vec());
    assert_eq!(Command::Debug.encode(), b"debug".to_vec());
    assert_eq!(Command::IsReady.encode(), b"isready".to_vec());
    assert_eq!(Command::NewGame.encode(), b"ucinewgame".to_vec());
    assert_eq!(Command::Stop.encode(), b"stop".to_vec());
    assert_eq!(Command::Quit.encode(), b"quit".to_vec());
    assert_eq!(
        Command::SetOption(b"Hash".to_vec(), b"128".to_vec()).encode(),
        b"setoption name Hash value 128".to_vec()
    );
}

#[test]
fn position_command() {
    let fen = b"rnbqkbnr/pppppppp/8/8/8/8/PPPPPPPP/RNBQKBNR w KQkq - 0 1".to_vec();
    assert_eq!(
        Command::Position { fen: Some(fen.clone()), line: vec![] }.encode(),
        b"position fen rnbqkbnr/pppppppp/8/8/8/8/PPPPPPPP/RNBQKBNR w KQkq - 0 1".to_vec()
    );
    assert_eq!(
        Command::Position { fen: Some(fen), line: vec![uci(b"e2e4"), uci(b"e7e5")] }.encode(),
        b"position fen rnbqkbnr/pppppppp/8/8/8/8/PPPPPPPP/RNBQKBNR w KQkq - 0 1 moves e2e4 e7e5"
            .to_vec()
    );
    assert_eq!(
        Command::Position { fen: None, line: vec![uci(b"g1f3")] }.encode(),
        b"position fen startpos moves g1f3".to_vec()
    );
    assert_eq!(
        Command::Position { fen: None, line: vec![] }.encode(),
        b"position fen startpos".to_vec()
    );
}

#[test]
fn go_command() {
    assert_eq!(Command::Go { depth: None, time: None }.encode(), b"go infinite".to_vec());
    assert_eq!(Command::Go { depth: Some(1), time: None }.encode(), b"go depth 1".to_vec());
    assert_eq!(
        Command::Go { depth: None, time: Some(11000) }.encode(),
        b"go movetime 11000".to_vec()
    );
    assert_eq!(
        Command::Go { depth: Some(255), time: Some(0) }.encode(),
        b"go depth 255 movetime 0".to_vec()
    );
}

#[test]
fn a_frame_ends_with_a_line_feed() {
    assert_eq!(Command::Uci.frame(), b"uci\n".to_vec());
    assert_eq!(Command::Go { depth: Some(3), time: None }.frame(), b"go depth 3\n".to_vec());
}

#[test]
fn info_with_score_and_line() {
    let info = Info::parse(b" depth 1 score cp 0 pv e2e4").unwrap().unwrap();
    assert_eq!(info.score, Score::Cp(0));
    assert_eq!(info.depth, 1);
    assert_eq!(info.multipv, 1);
    assert_eq!(line_of(&info), vec![b"e2e4".to_vec()]);
}

#[test]
fn info_of_a_real_engine() {
    let info = Info::parse(
        b" depth 12 seldepth 18 multipv 2 score cp -35 nodes 12345 nps 100000 tbhits 0 time 123 pv e7e5 g1f3 b8c6",
    )
    .unwrap()
    .unwrap();
    assert_eq!(info.score, Score::Cp(-35));
    assert_eq!(info.depth, 12);
    assert_eq!(info.multipv, 2);
    assert_eq!(line_of(&info), vec![b"e7e5".to_vec(), b"g1f3".to_vec(), b"b8c6".to_vec()]);
}

#[test]
fn info_with_mate() {
    let info = Info::parse(b" score mate 1 pv d8h4").unwrap().unwrap();
    assert_eq!(info.score, Score::Mate(1));
    assert_eq!(info.depth, 0);
    let info = Info::parse(b" score mate -3 pv a2a3").unwrap().unwrap();
    assert_eq!(info.score, Score::Mate(-3));
}

#[test]
fn the_line_ends_at_the_first_word_that_is_no_move() {
    let info = Info::parse(b" score cp 10 pv e2e4 e7e5 depth 7 g1f3").unwrap().unwrap();
    assert_eq!(line_of(&info), vec![b"e2e4".to_vec(), b"e7e5".to_vec()]);
    assert_eq!(info.depth, 7);
}

#[test]
fn a_later_pv_starts_the_line_anew() {
    let info = Info::parse(b" pv e2e4 e7e5 score cp 1 pv d2d4").unwrap().unwrap();
    assert_eq!(line_of(&info), vec![b"d2d4".to_vec()]);
    assert_eq!(Info::parse(b" pv e2e4 score cp 1 pv").unwrap_err(), InfoError::LineMissing);
}

#[test]
fn a_later_score_replaces_the_earlier() {
    let info = Info::parse(b" score cp 1 score mate 2 pv e2e4").unwrap().unwrap();
    assert_eq!(info.score, Score::Mate(2));
}

#[test]
fn promotion_and_null_moves_are_moves() {
    let info = Info::parse(b" score cp 900 pv a7a8q 0000").unwrap().unwrap();
    assert_eq!(line_of(&info), vec![b"a7a8q".to_vec(), b"0000".to_vec()]);
}

#[test]
fn a_remark_is_dropped() {
    assert!(Info::parse(b" string hello world").unwrap().is_none());
    assert!(Info::parse(b"  \t string NNUE evaluation using nn.nnue").unwrap().is_none());
    assert!(Info::parse(b" string ").unwrap().is_none());
    assert!(Msg::parse(b"info string hello world").is_none());
    assert!(Msg::receive(b"info string hello world\r\n").is_none());
}

#[test]
fn what_follows_a_remark_is_not_read() {
    let info = Info::parse(b" depth 3 score cp 5 pv e2e4 string score cp 99 pv d2d4").unwrap().unwrap();
    assert_eq!(info.score, Score::Cp(5));
    assert_eq!(line_of(&info), vec![b"e2e4".to_vec()]);
    assert_eq!(Info::parse(b" depth 3 string score cp 99 pv d2d4").unwrap_err(), InfoError::ScoreMissing);
}

#[test]
fn string_at_the_end_is_a_word_like_any_other() {
    assert_eq!(Info::parse(b" string").unwrap_err(), InfoError::ScoreMissing);
    let info = Info::parse(b" score cp 5 pv e2e4 string").unwrap().unwrap();
    assert_eq!(line_of(&info), vec![b"e2e4".to_vec()]);
}

#[test]
fn every_info_error_has_its_line() {
    assert_eq!(Info::parse(b" multipv").unwrap_err(), InfoError::MissingMultipv);
    assert_eq!(Info::parse(b" multipv x").unwrap_err(), InfoError::InvalidMultipv);
    assert_eq!(Info::parse(b" multipv 256").unwrap_err(), InfoError::InvalidMultipv);
    assert_eq!(Info::parse(b" score").unwrap_err(), InfoError::MissingScoreType);
    assert_eq!(Info::parse(b" score lowerbound").unwrap_err(), InfoError::InvalidScoreType);
    assert_eq!(Info::parse(b" score cp").unwrap_err(), InfoError::MissingCp);
    assert_eq!(Info::parse(b" score cp 1.5").unwrap_err(), InfoError::InvalidCp);
    assert_eq!(Info::parse(b" score cp 32768").unwrap_err(), InfoError::InvalidCp);
    assert_eq!(Info::parse(b" score mate").unwrap_err(), InfoError::MissingMate);
    assert_eq!(Info::parse(b" score mate 128").unwrap_err(), InfoError::InvalidMate);
    assert_eq!(Info::parse(b" depth").unwrap_err(), InfoError::MissingDepth);
    assert_eq!(Info::parse(b" depth -1").unwrap_err(), InfoError::InvalidDepth);
    assert_eq!(Info::parse(b" depth 1 pv e2e4").unwrap_err(), InfoError::ScoreMissing);
    assert_eq!(Info::parse(b" depth 1 score cp 0").unwrap_err(), InfoError::LineMissing);
    assert_eq!(Info::parse(b" depth 1 score cp 0 pv").unwrap_err(), InfoError::LineMissing);
    assert_eq!(Info::parse(b" depth 1 score cp 0 pv xyz").unwrap_err(), InfoError::LineMissing);
    assert_eq!(Info::parse(b"").unwrap_err(), InfoError::ScoreMissing);
}

#[test]
fn the_first_error_counts() {
    assert_eq!(Info::parse(b" depth x multipv y").unwrap_err(), InfoError::InvalidDepth);
    assert_eq!(Info::parse(b" multipv y depth x").unwrap_err(), InfoError::InvalidMultipv);
}

#[test]
fn messages() {
    assert!(matches!(Msg::parse(b"uciok"), Some(Msg::UciOk)));
    assert!(matches!(Msg::parse(b"readyok"), Some(Msg::ReadyOk)));
    assert!(matches!(Msg::parse(b"uciok now"), Some(Msg::UciOk)));
    assert!(Msg::parse(b"uciokay").is_none());
    assert!(Msg::parse(b"option name Hash type spin").is_none());
    assert!(Msg::parse(b"").is_none());
    assert!(Msg::parse(b"Stockfish 16 by the Stockfish developers").is_none());
}

#[test]
fn id_keeps_the_name() {
    match Msg::parse(b"id name Stockfish 16") {
        Some(Msg::Id { name: Some(name) }) => assert_eq!(name, b"Stockfish 16".to_vec()),
        other => panic!("{:?}", other),
    }
    match Msg::parse(b"id author the Stockfish developers") {
        Some(Msg::Id { name: None }) => {}
        other => panic!("{:?}", other),
    }
    match Msg::parse(b"id") {
        Some(Msg::Id { name: None }) => {}
        other => panic!("{:?}", other),
    }
    match Msg::parse(b"id name a name b") {
        Some(Msg::Id { name: Some(name) }) => assert_eq!(name, b"a name b".to_vec()),
        other => panic!("{:?}", other),
    }
}

#[test]
fn bestmove_takes_the_first_word() {
    match Msg::parse(b"bestmove e2e4 ponder e7e5") {
        Some(Msg::BestMove(m)) => assert_eq!(m.as_bytes(), b"e2e4"),
        other => panic!("{:?}", other),
    }
    match Msg::parse(b"bestmove   a1a1") {
        Some(Msg::BestMove(m)) => assert_eq!(m.as_bytes(), b"a1a1"),
        other => panic!("{:?}", other),
    }
    assert!(Msg::parse(b"bestmove").is_none());
    assert!(Msg::parse(b"bestmove (none)").is_none());
}

#[test]
fn info_messages() {
    match Msg::parse(b"info depth 1 score cp 0 pv e2e4") {
        Some(Msg::Info(info)) => {
            assert_eq!(info.score, Score::Cp(0));
            assert_eq!(line_of(&info), vec![b"e2e4".to_vec()]);
        }
        other => panic!("{:?}", other),
    }
    assert!(Msg::parse(b"info depth 1").is_none());
    assert!(Msg::parse(b"info").is_none());
}

#[test]
fn a_line_is_trimmed_before_it_is_read() {
    assert!(Msg::receive(b"").is_none());
    assert!(Msg::receive(b"  \r\n").is_none());
    assert!(matches!(Msg::receive(b"  uciok\r\n"), Some(Msg::UciOk)));
    assert!(matches!(Msg::receive(b"readyok\n"), Some(Msg::ReadyOk)));
    assert!(matches!(Msg::parse(b"uciok\t x"), Some(Msg::UciOk)));
}

#[test]
fn the_conversation_follows_its_stages() {
    let mut proto = Protocol::new();
    assert_eq!(proto.stage(), Stage::Uninit);
    assert!(proto.debug().is_none());
    assert!(proto.go(Some(1), None).is_none());
    assert_eq!(proto.init(), Some(b"uci\n".to_vec()));
    assert_eq!(proto.stage(), Stage::Handshaking);
    assert!(proto.init().is_none());
    assert!(proto.new_game().is_none());
    assert!(proto.recv(b"id name Test Engine 1.0\n").is_some());
    assert_eq!(proto.name(), b"Test Engine 1.0");
    assert!(proto.recv(b"id author somebody\n").is_some());
    assert!(proto.recv(b"option name Hash type spin default 16\n").is_none());
    assert_eq!(proto.stage(), Stage::Handshaking);
    assert!(matches!(proto.recv(b"uciok\n"), Some(Msg::UciOk)));
    assert_eq!(proto.stage(), Stage::Ready);
    assert_eq!(proto.debug(), Some(b"debug\n".to_vec()));
    assert_eq!(
        proto.set_option(b"Threads".to_vec(), b"2".to_vec()),
        Some(b"setoption name Threads value 2\n".to_vec())
    );
    assert_eq!(proto.new_game(), Some(b"ucinewgame\n".to_vec()));
    assert_eq!(proto.wait_ready(), Some(b"isready\n".to_vec()));
    assert!(matches!(proto.recv(b"readyok\n"), Some(Msg::ReadyOk)));
    assert!(proto.recv(b"id name Other\n").is_some());
    assert_eq!(proto.name(), b"Test Engine 1.0");
    assert_eq!(
        proto.position(None, vec![uci(b"e2e4")]),
        Some(b"position fen startpos moves e2e4\n".to_vec())
    );
    assert_eq!(proto.stage(), Stage::Ready);
    let (line, stream) = proto.go(Some(1), Some(50)).unwrap();
    assert_eq!(line, b"go depth 1 movetime 50\n".to_vec());
    assert!(!stream.finished());
    assert_eq!(proto.stage(), Stage::Searching);
    assert!(proto.quit().is_none());
    assert!(proto.position(None, vec![]).is_none());
    assert_eq!(stream.stop(&mut proto), Some(b"stop\n".to_vec()));
    assert_eq!(proto.stage(), Stage::Searching);
    assert!(proto.recv(b"info depth 1 score cp 0 pv e7e5\n").is_some());
    assert_eq!(proto.stage(), Stage::Searching);
    assert!(proto.recv(b"bestmove e7e5\n").is_some());
    assert_eq!(proto.stage(), Stage::Ready);
    assert_eq!(proto.quit(), Some(b"quit\n".to_vec()));
    assert_eq!(proto.stage(), Stage::Exited);
    assert!(proto.init().is_none());
    assert!(proto.quit().is_none());
}

#[test]
fn one_bestmove_ends_the_stream_for_good() {
    let mut stream = InfoStream { best: None };
    assert!(stream.best().is_none());
    assert!(matches!(stream.info(Msg::ReadyOk), Step::Wait));
    assert!(matches!(stream.info(Msg::Id { name: None }), Step::Wait));
    match stream.info(Msg::parse(b"info depth 1 score cp 12 pv e2e4").unwrap()) {
        Step::Info(info) => assert_eq!(info.score, Score::Cp(12)),
        other => panic!("{:?}", other),
    }
    assert!(!stream.finished());
    assert!(matches!(stream.info(Msg::parse(b"bestmove e2e4").unwrap()), Step::End));
    assert!(stream.finished());
    assert_eq!(stream.best().unwrap().as_bytes(), b"e2e4");
    assert!(matches!(stream.info(Msg::parse(b"bestmove d2d4").unwrap()), Step::End));
    assert!(matches!(
        stream.info(Msg::parse(b"info depth 1 score cp 12 pv e2e4").unwrap()),
        Step::End
    ));
    assert!(matches!(stream.info(Msg::UciOk), Step::End));
    assert_eq!(stream.best().unwrap().as_bytes(), b"e2e4");
}

#[test]
fn words_are_read_with_the_moves_that_stand_beside_them() {
    let words: Vec<Vec<u8>> = [&b"depth"[..], b"4", b"score", b"cp", b"-12", b"pv", b"e2e4", b"x", b"d2d4"]
        .iter()
        .map(|w| w.to_vec())
        .collect();
    let moves: Vec<Option<UciMove>> = words.iter().map(|w| UciMove::parse(w)).collect();
    let info = Info::read(&words, &moves).unwrap();
    assert_eq!((info.depth, info.multipv, info.score), (4, 1, Score::Cp(-12)));
    assert_eq!(line_of(&info), vec![b"e2e4".to_vec()]);
    let all: Vec<Option<UciMove>> = words.iter().map(|_| Some(uci(b"a1a2"))).collect();
    let info = Info::read(&words, &all).unwrap();
    assert_eq!(line_of(&info), vec![b"a1a2".to_vec(), b"a1a2".to_vec(), b"a1a2".to_vec()]);
    let none: Vec<Option<UciMove>> = words.iter().map(|_| None).collect();
    assert_eq!(Info::read(&words, &none).unwrap_err(), InfoError::LineMissing);
    assert_eq!(Info::read(&vec![], &vec![]).unwrap_err(), InfoError::ScoreMissing);
}
