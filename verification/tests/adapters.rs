use emily::adapters::debug::{DFen, DFenExt, FlatOpt, FlatOptExt, Line, LineExt, Mov, MovExt};
use emily::adapters::tracing::TracingAdapt;
use emily::chess::{Color, Move, Outcome, Position, UciMove};
use emily::config::{Config, Engine, Logging, Rev};
use emily::uci::Score;

const START: &[u8] = b"rnbqkbnr/pppppppp/8/8/8/8/PPPPPPPP/RNBQKBNR w KQkq - 0 1";

#[test]
fn a_line_stands_between_angle_brackets() {
    let none: Vec<UciMove> = vec![];
    assert_eq!(LineExt::fmt(&none), b"<>".to_vec());
    let one = vec![UciMove::parse(b"e2e4").unwrap()];
    assert_eq!(LineExt::fmt(&one), b"<e2e4>".to_vec());
    let three: Vec<UciMove> = [b"e2e4", b"e7e5", b"g1f3"].iter().map(|m| UciMove::parse(*m).unwrap()).collect();
    assert_eq!(Line(&three).fmt(), b"<e2e4 e7e5 g1f3>".to_vec());
    let moves = vec![Move { text: b"e2e4".to_vec() }, Move { text: b"c7c5".to_vec() }];
    assert_eq!(Line(&moves).fmt(), b"<e2e4 c7c5>".to_vec());
}

#[test]
fn a_position_is_shown_as_its_fen() {
    let pos = Position::from_fen(START).unwrap();
    let mut expected = b"[".to_vec();
    expected.extend_from_slice(START);
    expected.push(b']');
    assert_eq!(DFenExt::fmt(&pos), expected);
    assert_eq!(DFen(&pos).fmt(), expected);
    assert_eq!(DFen(&Some(pos.copy())).fmt(), expected);
    let none: Option<Position> = None;
    assert_eq!(DFen(&none).fmt(), b"[init]".to_vec());
    assert_eq!(pos.tr(), START.to_vec());
}

#[test]
fn an_optional_value_is_shown_without_its_wrapping() {
    assert_eq!(FlatOpt(&Some(Score::Cp(150))).fmt(), b"1.50".to_vec());
    assert_eq!(FlatOpt(&None::<Score>).fmt(), b"None".to_vec());
    assert_eq!(FlatOpt(&Some(Outcome::Draw)).fmt(), b"1/2-1/2".to_vec());
    assert_eq!(FlatOpt(&Some(Outcome::Decisive { winner: Color::White })).fmt(), b"1-0".to_vec());
    assert_eq!(FlatOptExt::fmt(&Outcome::Decisive { winner: Color::Black }), b"0-1".to_vec());
}

#[test]
fn a_move_is_shown_as_its_text() {
    let m = UciMove::parse(b"a7a8q").unwrap();
    assert_eq!(Mov(&m).fmt(), b"a7a8q".to_vec());
    assert_eq!(MovExt::fmt(&Move { text: b"e2e4".to_vec() }), b"e2e4".to_vec());
}

#[test]
fn the_setup_of_an_engine() {
    let engine = Engine {
        name: "stockfish".to_string(),
        command: "/usr/bin/stockfish".to_string(),
        args: vec![],
        pwd: None,
        options: vec![("Threads".to_string(), "2".to_string()), ("Hash".to_string(), "64".to_string())],
        debug: true,
    };
    let lines: Vec<Vec<u8>> = engine.setup().iter().map(|c| c.encode()).collect();
    assert_eq!(
        lines,
        vec![
            b"debug".to_vec(),
            b"setoption name Threads value 2".to_vec(),
            b"setoption name Hash value 64".to_vec(),
        ]
    );
    let commands = engine.setup();
    assert!(matches!(commands[0], emily::uci::proto::Command::Debug));
    assert!(commands[1..].iter().all(|c| matches!(c, emily::uci::proto::Command::SetOption(_, _))));
    let mut proto = emily::uci::proto::Protocol::new();
    proto.init().unwrap();
    assert!(proto.recv(b"uciok").is_some());
    for command in &commands {
        assert!(proto.send(command).is_some());
        assert_eq!(proto.stage(), emily::uci::proto::Stage::Ready);
    }
    let plain = Engine { debug: false, ..engine };
    assert!(plain.setup().iter().all(|c| matches!(c, emily::uci::proto::Command::SetOption(_, _))));
    assert_eq!(plain.setup().len(), 2);
    let quiet = Engine { debug: false, options: vec![], ..plain };
    assert!(quiet.setup().is_empty());
}

#[test]
fn the_default_configuration_is_empty() {
    let config = Config::default();
    assert!(config.engine.is_none());
    assert_eq!(config.rev.depth, None);
    assert_eq!(config.rev.time, None);
    assert!(config.logging.filter.is_empty());
    assert!(Logging::default().filter.is_empty());
    let rev = Rev::default();
    assert!(rev.depth.is_none() && rev.time.is_none());
}
