use emily::chess::{Color, Move, Outcome, Position, UciMove};
use emily::knowledge::number::MoveNo;
use emily::knowledge::pgn::{write_tokens, Mov, Node, Pgn, Token};
use emily::knowledge::Knowledge;
use emily::uci::Score;

const START: &[u8] = b"rnbqkbnr/pppppppp/8/8/8/8/PPPPPPPP/RNBQKBNR w KQkq - 0 1";

fn start() -> Knowledge {
    Knowledge::new(Position::from_fen(START).unwrap())
}

fn mv(knowledge: &Knowledge, v: usize, hm: usize, text: &[u8]) -> Move {
    let (_, info) = knowledge.variation_hm(v, hm);
    UciMove::parse(text).unwrap().to_move(info.position()).unwrap()
}

fn add(knowledge: &mut Knowledge, v: usize, hm: usize, text: &[u8]) -> usize {
    let m = mv(knowledge, v, hm, text);
    knowledge.extend(v, hm, m).unwrap().0
}

fn play(knowledge: &mut Knowledge, v: usize, from: usize, line: &[&[u8]]) {
    for (i, text) in line.iter().enumerate() {
        assert_eq!(add(knowledge, v, from + i, text), v);
    }
}

fn text(bytes: Vec<u8>) -> String {
    String::from_utf8(bytes).unwrap()
}

fn sans(node: &Node) -> Vec<String> {
    node.line.iter().map(|m| text(m.mov.clone())).collect()
}

fn walk(node: &Node, out: &mut Vec<String>) {
    out.extend(sans(node));
    for branch in &node.branches {
        walk(branch, out);
    }
}

fn written_moves(node: &Node) -> Vec<String> {
    let mut tokens = Vec::new();
    node.tokens(&mut tokens);
    tokens
        .into_iter()
        .filter_map(|t| match t {
            Token::San(san) => Some(text(san)),
            _ => None,
        })
        .collect()
}

#[test]
fn move_numbers() {
    let white = MoveNo { number: 1, color: Color::White };
    let black = white.next();
    assert_eq!(black, MoveNo { number: 1, color: Color::Black });
    assert_eq!(black.next(), MoveNo { number: 2, color: Color::White });
    assert_eq!(white.to_text(), b"1.".to_vec());
    assert_eq!(black.to_text(), b"1...".to_vec());
    assert_eq!(MoveNo { number: 120, color: Color::Black }.to_text(), b"120...".to_vec());
    let last = MoveNo { number: u32::MAX, color: Color::Black };
    assert_eq!(last.next(), MoveNo { number: u32::MAX, color: Color::White });
    assert!(white < black);
    assert!(black < black.next());
    assert!(MoveNo { number: 2, color: Color::White } > MoveNo { number: 1, color: Color::Black });
    assert_eq!(white.cmp(&white), std::cmp::Ordering::Equal);
    let pos = Position::from_fen(b"rnbqkbnr/pppp1ppp/8/4p3/6P1/5P2/PPPPP2P/RNBQKBNR b KQkq g3 0 2").unwrap();
    assert_eq!(MoveNo::new(&pos), MoveNo { number: 2, color: Color::Black });
}

#[test]
fn no_moves_no_movetext() {
    let k = start();
    let pgn = k.pgn().unwrap();
    assert!(pgn.line.line.is_empty());
    assert!(pgn.line.branches.is_empty());
    assert_eq!(
        text(pgn.write(b"2024.05.06")),
        "[Event \"?\"]\n[Site \"?\"]\n[Date \"2024.05.06\"]\n[Round \"?\"]\n[White \"?\"]\n[Black \"?\"]\n[Result \"*\"]\n\n*"
    );
}

#[test]
fn one_line() {
    let mut k = start();
    play(&mut k, 0, 0, &[b"e2e4", b"e7e5", b"g1f3"]);
    k.update_eval(0, Score::Cp(35));
    k.update_eval(2, Score::Mate(-2));
    k.update_eval(3, Score::Cp(-900));
    let pgn = k.pgn().unwrap();
    assert_eq!(sans(&pgn.line), vec!["e4", "e5", "Nf3"]);
    assert!(pgn.line.branches.is_empty());
    assert_eq!(
        text(pgn.write(b"2024.05.06")),
        "[Event \"?\"]\n[Site \"?\"]\n[Date \"2024.05.06\"]\n[Round \"?\"]\n[White \"?\"]\n[Black \"?\"]\n[Result \"*\"]\n\n\
         1. e4 { Eval: 0.35, }\n1... e5 { }\n2. Nf3 { Eval: #-2, }\n*"
    );
}

#[test]
fn a_branch_at_the_end_splits_the_line() {
    let mut k = start();
    play(&mut k, 0, 0, &[b"e2e4", b"e7e5", b"g1f3"]);
    assert_eq!(add(&mut k, 0, 1, b"c7c5"), 1);
    let pgn = k.pgn().unwrap();
    assert_eq!(sans(&pgn.line), vec!["e4"]);
    assert_eq!(pgn.line.branches.len(), 2);
    assert_eq!(sans(&pgn.line.branches[0]), vec!["e5", "Nf3"]);
    assert_eq!(sans(&pgn.line.branches[1]), vec!["c5"]);
    let out = text(pgn.write(b"2024.05.06"));
    assert!(out.ends_with("\n\n1. e4 { }\n1... e5 { }\n2. Nf3 { }\n(1... c5 { }\n)*"), "{}", out);
}

#[test]
fn a_split_takes_the_branches_along() {
    let mut k = start();
    play(&mut k, 0, 0, &[b"e2e4", b"e7e5", b"g1f3", b"b8c6"]);
    assert_eq!(add(&mut k, 0, 3, b"g8f6"), 1);
    assert_eq!(add(&mut k, 0, 1, b"c7c5"), 2);
    let pgn = k.pgn().unwrap();
    assert_eq!(sans(&pgn.line), vec!["e4"]);
    assert_eq!(pgn.line.branches.len(), 2);
    let tail = &pgn.line.branches[0];
    assert_eq!(sans(tail), vec!["e5", "Nf3"]);
    assert_eq!(tail.branches.len(), 2);
    assert_eq!(sans(&tail.branches[0]), vec!["Nc6"]);
    assert_eq!(sans(&tail.branches[1]), vec!["Nf6"]);
    assert_eq!(sans(&pgn.line.branches[1]), vec!["c5"]);
    let out = text(pgn.write(b"2024.05.06"));
    assert!(
        out.ends_with(
            "\n\n1. e4 { }\n1... e5 { }\n2. Nf3 { }\n2... Nc6 { }\n(2... Nf6 { }\n)(1... c5 { }\n)*"
        ),
        "{}",
        out
    );
}

#[test]
fn variations_that_differ_in_the_first_move() {
    let mut k = start();
    play(&mut k, 0, 0, &[b"e2e4", b"e7e5"]);
    assert_eq!(add(&mut k, 0, 0, b"d2d4"), 1);
    play(&mut k, 1, 1, &[b"d7d5"]);
    assert_eq!(add(&mut k, 0, 0, b"c2c4"), 2);
    let pgn = k.pgn().unwrap();
    assert!(pgn.line.line.is_empty());
    assert_eq!(pgn.line.branches.len(), 3);
    assert_eq!(sans(&pgn.line.branches[0]), vec!["e4", "e5"]);
    assert_eq!(sans(&pgn.line.branches[1]), vec!["d4", "d5"]);
    assert_eq!(sans(&pgn.line.branches[2]), vec!["c4"]);
    assert_eq!(pgn.line.branches[1].line[0].no, MoveNo { number: 1, color: Color::White });
    assert_eq!(pgn.line.branches[1].line[1].no, MoveNo { number: 1, color: Color::Black });
    let out = text(pgn.write(b"2024.05.06"));
    assert!(
        out.ends_with("\n\n1. e4 { }\n1... e5 { }\n(1. d4 { }\n1... d5 { }\n)(1. c4 { }\n)*"),
        "{}",
        out
    );
}

#[test]
fn the_main_line_comes_first() {
    let mut k = start();
    play(&mut k, 0, 0, &[b"e2e4", b"e7e5"]);
    assert_eq!(add(&mut k, 0, 0, b"d2d4"), 1);
    assert_eq!(add(&mut k, 0, 0, b"c2c4"), 2);
    k.update_mainline(0, 2);
    assert_eq!(Pgn::order_variations(&k), vec![2, 1, 0]);
    let pgn = k.pgn().unwrap();
    assert_eq!(pgn.line.branches.len(), 3);
    assert_eq!(sans(&pgn.line.branches[0]), vec!["c4"]);
    assert_eq!(sans(&pgn.line.branches[1]), vec!["d4"]);
    assert_eq!(sans(&pgn.line.branches[2]), vec!["e4", "e5"]);
    k.update_mainline(2, 1);
    assert_eq!(Pgn::order_variations(&k), vec![1, 0, 2]);
    assert_eq!(Pgn::order_variations(&start()), Vec::<usize>::new());
}

#[test]
fn the_moves_are_written_in_the_order_of_the_walk() {
    let mut k = start();
    play(&mut k, 0, 0, &[b"e2e4", b"e7e5", b"g1f3", b"b8c6", b"f1b5"]);
    assert_eq!(add(&mut k, 0, 3, b"g8f6"), 1);
    assert_eq!(add(&mut k, 0, 1, b"c7c5"), 2);
    play(&mut k, 2, 2, &[b"g1f3", b"d7d6"]);
    assert_eq!(add(&mut k, 2, 3, b"b8c6"), 3);
    assert_eq!(add(&mut k, 0, 0, b"d2d4"), 4);
    assert_eq!(add(&mut k, 0, 4, b"f1c4"), 5);
    let pgn = k.pgn().unwrap();
    let mut walked = Vec::new();
    walk(&pgn.line, &mut walked);
    assert_eq!(written_moves(&pgn.line), walked);
    assert_eq!(
        walked,
        vec!["e4", "e5", "Nf3", "Nc6", "Bb5", "Bc4", "Nf6", "c5", "Nf3", "d6", "Nc6", "d4"]
    );
    let out = text(pgn.write(b"2024.05.06"));
    let stripped: Vec<&str> = out
        .split("\n\n")
        .nth(1)
        .unwrap()
        .split(|c: char| c.is_whitespace() || c == '(' || c == ')')
        .filter(|w| {
            !w.is_empty() && !w.ends_with('.') && *w != "{" && *w != "}" && *w != "*" && *w != "}*"
        })
        .collect();
    assert_eq!(stripped, walked);
}

#[test]
fn the_result_is_that_of_the_main_line() {
    let mut k = start();
    play(&mut k, 0, 0, &[b"f2f3", b"e7e5", b"g2g4", b"d8h4"]);
    assert_eq!(add(&mut k, 0, 3, b"d7d5"), 1);
    let pgn = k.pgn().unwrap();
    assert_eq!(pgn.line.outcome, Some(Outcome::Decisive { winner: Color::Black }));
    let out = text(pgn.write(b"2024.05.06"));
    assert!(out.contains("[Result \"0-1\"]\n"), "{}", out);
    assert!(out.ends_with(")0-1"), "{}", out);
    assert!(out.contains("2... Qh4# { }\n") || out.contains("2... Qh4 { }\n"), "{}", out);
}

#[test]
fn a_drawn_main_line() {
    let mut k = start();
    let round: [&[u8]; 4] = [b"g1f3", b"g8f6", b"f3g1", b"f6g8"];
    play(&mut k, 0, 0, &round);
    play(&mut k, 0, 4, &round);
    let pgn = k.pgn().unwrap();
    assert_eq!(pgn.line.outcome, Some(Outcome::Draw));
    let out = text(pgn.write(b"2024.05.06"));
    assert!(out.contains("[Result \"1/2-1/2\"]\n"), "{}", out);
    assert!(out.ends_with("4... Ng8 { }\n1/2-1/2"), "{}", out);
}

#[test]
fn a_root_other_than_the_starting_position_is_given() {
    let fen: &[u8] = b"rnbqkbnr/pppp1ppp/8/4p3/6P1/5P2/PPPPP2P/RNBQKBNR b KQkq g3 0 2";
    let mut k = Knowledge::new(Position::from_fen(fen).unwrap());
    play(&mut k, 0, 0, &[b"d8h4"]);
    let pgn = k.pgn().unwrap();
    assert_eq!(
        text(pgn.write(b"1999.12.31")),
        "[Event \"?\"]\n[Site \"?\"]\n[Date \"1999.12.31\"]\n[Round \"?\"]\n[White \"?\"]\n[Black \"?\"]\n[Result \"0-1\"]\n\
         [SetUp \"1\"]\n[FEN \"rnbqkbnr/pppp1ppp/8/4p3/6P1/5P2/PPPPP2P/RNBQKBNR b KQkq g3 0 2\"]\n\n\
         2... Qh4 { }\n0-1"
    );
}

#[test]
fn the_record_of_today_has_todays_date() {
    let mut k = start();
    play(&mut k, 0, 0, &[b"e2e4"]);
    let pgn = k.pgn().unwrap();
    let out = text(pgn.write_pgn());
    let date = out.lines().nth(2).unwrap();
    assert!(date.starts_with("[Date \"") && date.ends_with("\"]"), "{}", date);
    let day = &date[7..date.len() - 2];
    let parts: Vec<&str> = day.split('.').collect();
    assert_eq!(parts.len(), 3, "{}", day);
    assert!(parts[0].len() >= 4 && parts[1].len() == 2 && parts[2].len() == 2, "{}", day);
    assert!(parts.iter().all(|p| p.bytes().all(|b| b.is_ascii_digit())), "{}", day);
    assert_eq!(out, text(pgn.write(day.as_bytes())));
}

#[test]
fn a_move_that_cannot_be_written_gives_no_record() {
    let mut k = start();
    play(&mut k, 0, 0, &[b"e2e4"]);
    k.variations[0].moves[0] = Move { text: b"e2e5".to_vec() };
    assert!(k.pgn().is_none());
    assert!(Pgn::path(&k, 0, MoveNo { number: 1, color: Color::White }).is_none());
}

#[test]
fn pieces_are_written_one_after_the_other() {
    let tokens = vec![
        Token::Number(MoveNo { number: 3, color: Color::White }),
        Token::San(b"Nf3".to_vec()),
        Token::Comment(Some(Score::Cp(-120))),
        Token::Open,
        Token::Number(MoveNo { number: 3, color: Color::Black }),
        Token::San(b"O-O".to_vec()),
        Token::Comment(None),
        Token::Close,
    ];
    let mut out = b">".to_vec();
    write_tokens(&mut out, &tokens);
    assert_eq!(text(out), ">3. Nf3 { Eval: -1.20, }\n(3... O-O { }\n)");
}

#[test]
fn inserting_by_hand() {
    let m = |san: &[u8], n: u32, c: Color| Mov { mov: san.to_vec(), no: MoveNo { number: n, color: c }, eval: None };
    let mut root = Node::leaf(m(b"e4", 1, Color::White));
    let main = vec![m(b"e4", 1, Color::White), m(b"e5", 1, Color::Black)];
    root.insert(0, &main, 0, Some(Outcome::Draw));
    assert_eq!(sans(&root), vec!["e4", "e5"]);
    assert_eq!(root.outcome, Some(Outcome::Draw));
    let side = vec![m(b"e4", 1, Color::White), m(b"c5", 1, Color::Black), m(b"Nf3", 2, Color::White)];
    root.insert(0, &side, 0, None);
    assert_eq!(sans(&root), vec!["e4"]);
    assert_eq!(root.outcome, Some(Outcome::Draw));
    assert_eq!(root.branches.len(), 2);
    assert_eq!(sans(&root.branches[0]), vec!["e5"]);
    assert_eq!(root.branches[0].outcome, Some(Outcome::Draw));
    assert_eq!(sans(&root.branches[1]), vec!["c5", "Nf3"]);
    assert_eq!(root.branches[1].outcome, None);
    let third = vec![m(b"e4", 1, Color::White), m(b"c5", 1, Color::Black), m(b"Nc3", 2, Color::White)];
    root.insert(0, &third, 0, Some(Outcome::Decisive { winner: Color::White }));
    assert_eq!(sans(&root.branches[1]), vec!["c5"]);
    assert_eq!(root.branches[1].branches.len(), 2);
    assert_eq!(root.branches[1].branches[1].outcome, Some(Outcome::Decisive { winner: Color::White }));
    let fourth = vec![m(b"e4", 1, Color::White), m(b"e6", 1, Color::Black)];
    root.insert(0, &fourth, 0, None);
    assert_eq!(root.branches.len(), 3);
    assert_eq!(sans(&root.branches[2]), vec!["e6"]);
    let empty = Node::empty();
    assert!(empty.line.is_empty() && empty.branches.is_empty() && empty.outcome.is_none());
}
