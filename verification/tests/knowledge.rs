use emily::chess::{Color, Move, Outcome, Position, UciMove};
use emily::knowledge::model::KnowledgeError;
use emily::knowledge::{Knowledge, PosInfo, Variation};
use emily::uci::Score;

const START: &[u8] = b"rnbqkbnr/pppppppp/8/8/8/8/PPPPPPPP/RNBQKBNR w KQkq - 0 1";

fn start() -> Knowledge {
    Knowledge::new(Position::from_fen(START).unwrap())
}

fn mv(knowledge: &Knowledge, v: usize, hm: usize, text: &[u8]) -> Move {
    let (_, info) = knowledge.variation_hm(v, hm);
    UciMove::parse(text).unwrap().to_move(info.position()).unwrap()
}

fn play(knowledge: &mut Knowledge, v: usize, line: &[&[u8]]) {
    for (hm, text) in line.iter().enumerate() {
        let m = mv(knowledge, v, hm, text);
        let (nv, _) = knowledge.extend(v, hm, m).unwrap();
        assert_eq!(nv, v);
    }
}

fn texts(variation: &Variation) -> Vec<Vec<u8>> {
    variation.moves().iter().map(|m| m.as_bytes().to_vec()).collect()
}

#[test]
fn a_new_knowledge_holds_the_root() {
    let k = start();
    assert_eq!(k.positions.len(), 1);
    assert_eq!(k.variations.len(), 1);
    assert_eq!(k.main, 0);
    assert_eq!(k.root().position().fen(), START);
    assert!(k.root().eval().is_none());
    assert!(k.variations[0].moves().is_empty());
    assert_eq!(k.variations[0].positions, vec![0]);
    assert!(k.variations[0].outcome().is_none());
    assert_eq!(k.position(0).position().fen(), START);
    assert_eq!(k.position_index(0, 0), 0);
}

#[test]
fn a_root_in_which_the_game_is_over_gives_the_variation_its_outcome() {
    let root = Position::from_fen(b"rnb1kbnr/pppp1ppp/8/4p3/6Pq/5P2/PPPPP2P/RNBQKBNR w KQkq - 1 3").unwrap();
    let mut k = Knowledge::new(root);
    assert_eq!(k.variations[0].outcome(), Some(&Outcome::Decisive { winner: Color::Black }));
    let any = Move { text: b"a2a3".to_vec() };
    assert_eq!(k.extend(0, 0, any).unwrap_err(), KnowledgeError::GameConcluded);
    assert_eq!(k.positions.len(), 1);
}

#[test]
fn a_move_at_the_end_extends_the_variation() {
    let mut k = start();
    let m = mv(&k, 0, 0, b"e2e4");
    let (v, variation, position) = k.add_move(0, 0, m).unwrap();
    assert_eq!(v, 0);
    assert_eq!(texts(variation), vec![b"e2e4".to_vec()]);
    assert_eq!(variation.positions, vec![0, 1]);
    assert_eq!(
        position.position().fen(),
        b"rnbqkbnr/pppppppp/8/8/4P3/8/PPPP1PPP/RNBQKBNR b KQkq e3 0 1"
    );
    position.update_eval(Score::Cp(20));
    assert_eq!(k.positions.len(), 2);
    assert_eq!(k.variations.len(), 1);
    assert_eq!(k.position(1).eval(), Some(Score::Cp(20)));
    assert!(k.variations[0].outcome().is_none());
}

#[test]
fn a_move_that_the_variation_has_already_changes_nothing() {
    let mut k = start();
    play(&mut k, 0, &[b"e2e4", b"e7e5", b"g1f3"]);
    let m = mv(&k, 0, 0, b"e2e4");
    assert_eq!(k.extend(0, 0, m).unwrap(), (0, 1));
    let m = mv(&k, 0, 1, b"e7e5");
    assert_eq!(k.extend(0, 1, m).unwrap(), (0, 2));
    let m = mv(&k, 0, 2, b"g1f3");
    assert_eq!(k.extend(0, 2, m).unwrap(), (0, 3));
    assert_eq!(k.positions.len(), 4);
    assert_eq!(k.variations.len(), 1);
    assert_eq!(k.variations[0].positions, vec![0, 1, 2, 3]);
}

#[test]
fn another_move_in_the_middle_branches() {
    let mut k = start();
    play(&mut k, 0, &[b"e2e4", b"e7e5", b"g1f3"]);
    let m = mv(&k, 0, 1, b"c7c5");
    let (v, variation, _) = k.add_move(0, 1, m).unwrap();
    assert_eq!(v, 1);
    assert_eq!(texts(variation), vec![b"e2e4".to_vec(), b"c7c5".to_vec()]);
    assert_eq!(variation.positions, vec![0, 1, 4]);
    assert!(variation.outcome().is_none());
    assert_eq!(k.variations.len(), 2);
    assert_eq!(k.positions.len(), 5);
    assert_eq!(texts(&k.variations[0]), vec![b"e2e4".to_vec(), b"e7e5".to_vec(), b"g1f3".to_vec()]);
    assert_eq!(k.main, 0);
    let m = mv(&k, 0, 0, b"d2d4");
    let (v, p) = k.extend(0, 0, m).unwrap();
    assert_eq!((v, p), (2, 5));
    assert_eq!(k.variations[2].positions, vec![0, 5]);
}

#[test]
fn a_halfmove_after_the_end_is_refused() {
    let mut k = start();
    let m = mv(&k, 0, 0, b"e2e4");
    assert_eq!(k.extend(0, 1, m).unwrap_err(), KnowledgeError::AfterLastMove);
    let m = mv(&k, 0, 0, b"e2e4");
    assert_eq!(k.add_move(0, 7, m).unwrap_err(), KnowledgeError::AfterLastMove);
    assert_eq!(k.positions.len(), 1);
    assert!(k.variations[0].moves().is_empty());
}

#[test]
fn an_illegal_move_is_refused_and_changes_nothing() {
    let mut k = start();
    play(&mut k, 0, &[b"e2e4"]);
    let white = Move { text: b"e2e4".to_vec() };
    assert_eq!(k.extend(0, 1, white).unwrap_err(), KnowledgeError::IllegalMove);
    let nonsense = Move { text: b"zz".to_vec() };
    assert_eq!(k.extend(0, 1, nonsense).unwrap_err(), KnowledgeError::IllegalMove);
    assert_eq!(k.positions.len(), 2);
    assert_eq!(k.variations.len(), 1);
    assert_eq!(k.variations[0].positions, vec![0, 1]);
}

#[test]
fn two_ways_to_one_position_meet() {
    let mut k = start();
    play(&mut k, 0, &[b"e2e4", b"e7e5", b"g1f3", b"b8c6"]);
    let m = mv(&k, 0, 0, b"g1f3");
    let (v, _) = k.extend(0, 0, m).unwrap();
    assert_eq!(v, 1);
    for (hm, text) in [b"b8c6", b"e2e4", b"e7e5"].iter().enumerate() {
        let m = mv(&k, 1, hm + 1, *text);
        assert_eq!(k.extend(1, hm + 1, m).unwrap().0, 1);
    }
    assert_eq!(k.variations[0].positions, vec![0, 1, 2, 3, 4]);
    assert_eq!(k.variations[1].positions, vec![0, 5, 6, 7, 4]);
    assert_eq!(k.positions.len(), 8);
    k.update_eval(4, Score::Cp(33));
    let (_, a) = k.variation_hm(0, 4);
    assert_eq!(a.eval(), Some(Score::Cp(33)));
    let (_, b) = k.variation_hm(1, 4);
    assert_eq!(b.eval(), Some(Score::Cp(33)));
}

#[test]
fn every_position_is_held_once() {
    let mut k = start();
    play(&mut k, 0, &[b"e2e4", b"e7e5", b"g1f3", b"b8c6"]);
    let m = mv(&k, 0, 0, b"g1f3");
    k.extend(0, 0, m).unwrap();
    for (hm, text) in [b"b8c6", b"e2e4", b"e7e5"].iter().enumerate() {
        let m = mv(&k, 1, hm + 1, *text);
        k.extend(1, hm + 1, m).unwrap();
    }
    for i in 0..k.positions.len() {
        for j in 0..k.positions.len() {
            assert_eq!(k.positions[i].pos.same(&k.positions[j].pos), i == j);
        }
        assert_eq!(k.lookup(&k.positions[i].pos.key), Some(i));
    }
    assert_eq!(k.lookup(b"8/8/8/8/8/8/8/8 w - -"), None);
}

#[test]
fn replaying_a_variation_gives_its_positions() {
    let mut k = start();
    play(&mut k, 0, &[b"d2d4", b"d7d5", b"c2c4", b"d5c4", b"e2e4"]);
    let m = mv(&k, 0, 2, b"g1f3");
    k.extend(0, 2, m).unwrap();
    for variation in &k.variations {
        assert_eq!(variation.positions[0], 0);
        assert_eq!(variation.positions.len(), variation.moves.len() + 1);
        for (i, m) in variation.moves.iter().enumerate() {
            let before = &k.positions[variation.positions[i]].pos;
            let after = before.play(m).unwrap();
            assert!(after.same(&k.positions[variation.positions[i + 1]].pos));
        }
    }
}

#[test]
fn the_third_occurrence_of_a_position_is_a_draw() {
    let mut k = start();
    let round: [&[u8]; 4] = [b"g1f3", b"g8f6", b"f3g1", b"f6g8"];
    let mut hm = 0;
    for lap in 0..2 {
        for text in round {
            let m = mv(&k, 0, hm, text);
            let (v, variation, _) = k.add_move(0, hm, m).unwrap();
            assert_eq!(v, 0);
            hm += 1;
            if lap == 1 && hm == 8 {
                assert_eq!(variation.outcome(), Some(&Outcome::Draw));
            } else {
                assert_eq!(variation.outcome(), None);
            }
        }
    }
    assert_eq!(k.positions.len(), 4);
    assert_eq!(k.variations[0].positions, vec![0, 1, 2, 3, 0, 1, 2, 3, 0]);
    assert!(k.variations[0].repetition());
    let m = Move { text: b"e2e4".to_vec() };
    assert_eq!(k.extend(0, 8, m).unwrap_err(), KnowledgeError::GameConcluded);
    let m = Move { text: b"e2e4".to_vec() };
    assert_eq!(k.add_move(0, 8, m).unwrap_err(), KnowledgeError::GameConcluded);
    assert_eq!(k.variations[0].moves.len(), 8);
    let m = mv(&k, 0, 4, b"e2e4");
    let (v, _) = k.extend(0, 4, m).unwrap();
    assert_eq!(v, 1);
    assert_eq!(k.variations[1].outcome(), None);
    assert_eq!(k.variations[1].positions, vec![0, 1, 2, 3, 0, 4]);
}

#[test]
fn a_move_that_ends_the_game_gives_the_variation_its_outcome() {
    let mut k = start();
    play(&mut k, 0, &[b"f2f3", b"e7e5", b"g2g4"]);
    assert!(k.variations[0].outcome().is_none());
    let m = mv(&k, 0, 3, b"d8h4");
    let (_, variation, position) = k.add_move(0, 3, m).unwrap();
    assert_eq!(variation.outcome(), Some(&Outcome::Decisive { winner: Color::Black }));
    assert_eq!(position.position().outcome(), Some(Outcome::Decisive { winner: Color::Black }));
    let m = Move { text: b"a2a3".to_vec() };
    assert_eq!(k.extend(0, 4, m).unwrap_err(), KnowledgeError::GameConcluded);
}

#[test]
fn the_main_line_moves_only_from_the_main_line() {
    let mut k = start();
    play(&mut k, 0, &[b"e2e4", b"e7e5"]);
    let m = mv(&k, 0, 1, b"c7c5");
    k.extend(0, 1, m).unwrap();
    k.update_mainline(1, 0);
    assert_eq!(k.main, 0);
    k.update_mainline(0, 2);
    assert_eq!(k.main, 0);
    k.update_mainline(0, 1);
    assert_eq!(k.main, 1);
    k.update_mainline(0, 0);
    assert_eq!(k.main, 1);
    k.update_mainline(1, 1);
    assert_eq!(k.main, 1);
    assert_eq!(k.root().position().fen(), START);
}

#[test]
fn an_evaluation_is_recorded() {
    let mut k = start();
    k.update_eval(0, Score::Cp(15));
    assert_eq!(k.root().eval(), Some(Score::Cp(15)));
    let (_, info) = k.variation_hm_mut(0, 0);
    info.update_eval(Score::Mate(3));
    assert_eq!(k.root().eval(), Some(Score::Mate(3)));
}

#[test]
fn a_position_has_no_notes_on_moves_of_its_own_accord() {
    let info = PosInfo::new(Position::from_fen(START).unwrap());
    assert!(info.move_info(&Move { text: b"e2e4".to_vec() }).is_none());
    assert!(info.eval().is_none());
}

#[test]
fn repetition_counts_the_last_position() {
    let mut v = Variation::new(None);
    assert!(!v.repetition());
    v.positions = vec![0, 1, 0, 1, 0];
    assert!(v.repetition());
    v.positions = vec![0, 1, 0, 1];
    assert!(!v.repetition());
    v.positions = vec![0, 0, 0, 1];
    assert!(!v.repetition());
    v.positions = vec![];
    assert!(!v.repetition());
}

#[test]
fn a_position_can_be_changed_in_place() {
    let mut k = start();
    k.position_mut(0).update_eval(Score::Cp(-7)).update_eval(Score::Cp(9));
    assert_eq!(k.position(0).eval(), Some(Score::Cp(9)));
    assert_eq!(k.positions.len(), 1);
}

#[test]
fn a_move_is_put_in_with_the_position_it_leads_to() {
    let mut k = start();
    let e4 = mv(&k, 0, 0, b"e2e4");
    let after = k.root().position().play(&e4).unwrap();
    assert_eq!(k.insert(0, 0, e4, after.copy()), (0, 1));
    let d4 = mv(&k, 0, 0, b"d2d4");
    assert_eq!(k.insert(0, 0, d4, after), (1, 1));
    assert_eq!(k.positions.len(), 2);
    assert_eq!(k.variations[1].positions, vec![0, 1]);
    let again = Move { text: b"g1f3".to_vec() };
    let root = k.root().position().copy();
    assert_eq!(k.insert(1, 1, again, root), (1, 0));
    assert_eq!(k.variations[1].positions, vec![0, 1, 0]);
    assert_eq!(k.variations[1].moves().len(), 2);
    assert_eq!(k.positions.len(), 2);
}
