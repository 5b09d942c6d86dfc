use gomoku_eval::analysis::{AnalysisOptions, DefensePolicy, LocalThreatKind, ThreatReplySet};
use gomoku_eval::board::{BoardGrid, Color, Move};
use gomoku_eval::threats::{
    broken_four_fact_through_move, broken_three_fact_through_move,
    broken_three_rest_squares_through_move, contiguous_run_len_through_move,
    corridor_defender_reply_moves, count_player_from_move, defender_reply_moves, four_completion_squares_through_move, is_run_start,
    local_threat_reply_moves, use_hybrid_local_threat_replies,
    local_threat_fact_from_run_start, offset_move, push_unique_fact, tactical_first_moves,
    virtual_run_len, LocalThreatFact,
};

fn mv(notation: &str) -> Move {
    let chars: Vec<char> = notation.chars().collect();
    Move::from_notation(&chars).expect("test move notation should parse")
}

fn board(black: &[&str], white: &[&str]) -> BoardGrid {
    let size = 15;
    let mut cells = vec![None; size * size];
    for n in black {
        let m = mv(n);
        cells[m.row * size + m.col] = Some(Color::Black);
    }
    for n in white {
        let m = mv(n);
        cells[m.row * size + m.col] = Some(Color::White);
    }
    BoardGrid { size, cells }
}

#[test]
fn closed_four_has_one_completion() {
    let b = board(&["H8", "I8", "J8", "K8"], &["G8", "A1", "A2"]);
    assert_eq!(count_player_from_move(&b, mv("H8"), Color::Black, 0, 1), 3);
    assert_eq!(count_player_from_move(&b, mv("H8"), Color::Black, 0, -1), 0);
    assert_eq!(contiguous_run_len_through_move(&b, mv("I8"), Color::Black, 0, 1), 4);
    assert_eq!(four_completion_squares_through_move(&b, 5, mv("H8"), Color::Black, 0, 1), vec![mv("L8")]);
    assert!(is_run_start(&b, mv("H8"), Color::Black, 0, 1));
    assert!(!is_run_start(&b, mv("I8"), Color::Black, 0, 1));
    let fact = local_threat_fact_from_run_start(&b, mv("H8"), Color::Black, 0, 1).unwrap();
    assert_eq!(fact.kind, LocalThreatKind::ClosedFour);
    assert_eq!(fact.defense_squares, vec![mv("L8")]);
    assert_eq!(broken_four_fact_through_move(&b, 5, mv("H8"), Color::Black, 0, 1), None);
}

#[test]
fn open_four_and_open_three_from_runs() {
    let b = board(&["H8", "I8", "J8", "K8"], &[]);
    let fact = local_threat_fact_from_run_start(&b, mv("H8"), Color::Black, 0, 1).unwrap();
    assert_eq!(fact.kind, LocalThreatKind::OpenFour);
    assert_eq!(fact.defense_squares, vec![mv("G8"), mv("L8")]);
    let mut completions = four_completion_squares_through_move(&b, 5, mv("J8"), Color::Black, 0, 1);
    completions.sort_by_key(|m| (m.row, m.col));
    assert_eq!(completions, vec![mv("G8"), mv("L8")]);

    let b3 = board(&["H8", "I9", "J10"], &[]);
    let fact = local_threat_fact_from_run_start(&b3, mv("H8"), Color::Black, 1, 1).unwrap();
    assert_eq!(fact.kind, LocalThreatKind::OpenThree);
    assert_eq!(fact.defense_squares, vec![mv("G7"), mv("K11")]);
    assert_eq!(local_threat_fact_from_run_start(&b3, mv("H8"), Color::Black, 0, 1), None);
}

#[test]
fn broken_four_and_broken_three() {
    let b4 = board(&["H8", "I8", "K8", "L8"], &["A1"]);
    let fact = broken_four_fact_through_move(&b4, 5, mv("H8"), Color::Black, 0, 1).unwrap();
    assert_eq!(fact.kind, LocalThreatKind::BrokenFour);
    assert_eq!(fact.defense_squares, vec![mv("J8")]);

    let b3 = board(&["H8", "I8", "K8"], &[]);
    assert_eq!(broken_three_rest_squares_through_move(&b3, 5, mv("H8"), Color::Black, 0, 1), vec![mv("J8")]);
    let fact = broken_three_fact_through_move(&b3, 5, mv("H8"), Color::Black, 0, 1).unwrap();
    assert_eq!(fact.kind, LocalThreatKind::BrokenThree);
    assert_eq!(fact.defense_squares, vec![mv("J8")]);
    assert_eq!(virtual_run_len(&b3, mv("J8"), Color::Black, 0, 1), 4);
    assert_eq!(virtual_run_len(&b3, mv("L8"), Color::Black, 0, 1), 2);
    let solid = board(&["H8", "I8", "J8"], &[]);
    assert!(broken_three_rest_squares_through_move(&solid, 5, mv("H8"), Color::Black, 0, 1).is_empty());
    assert_eq!(broken_three_fact_through_move(&solid, 5, mv("H8"), Color::Black, 0, 1), None);
}

#[test]
fn edges_block_windows_and_offsets() {
    let b = board(&["A1", "B1", "C1", "D1"], &[]);
    assert_eq!(four_completion_squares_through_move(&b, 5, mv("A1"), Color::Black, 0, 1), vec![mv("E1")]);
    assert_eq!(offset_move(&b, mv("A1"), 0, -1, 1), None);
    assert_eq!(offset_move(&b, mv("A1"), 1, 1, 2), Some(mv("C3")));
    assert!(four_completion_squares_through_move(&b, 0, mv("A1"), Color::Black, 0, 1).is_empty());
}

#[test]
fn helpers_keep_order_and_uniqueness() {
    let out = tactical_first_moves(vec![mv("C3"), mv("Z9"), mv("A1"), mv("C3")], vec![mv("A1"), mv("B2"), mv("C3")]);
    assert_eq!(out, vec![mv("C3"), mv("A1"), mv("B2")]);
    let mut facts = Vec::new();
    let f = LocalThreatFact { kind: LocalThreatKind::OpenThree, defense_squares: vec![mv("A1")] };
    push_unique_fact(&mut facts, f.clone());
    push_unique_fact(&mut facts, f.clone());
    push_unique_fact(&mut facts, LocalThreatFact { kind: LocalThreatKind::OpenFour, defense_squares: vec![mv("A1")] });
    assert_eq!(facts.len(), 2);
}

fn threat(replies: &[&str], local_count: usize, local: &[&str]) -> ThreatReplySet {
    ThreatReplySet {
        attacker: Color::Black,
        defender: Color::White,
        winning_squares: Vec::new(),
        raw_cost_squares: Vec::new(),
        legal_cost_squares: Vec::new(),
        illegal_cost_squares: Vec::new(),
        defender_immediate_wins: Vec::new(),
        local_threat_count: local_count,
        local_threat_replies: local.iter().map(|n| mv(n)).collect(),
        reply_moves: replies.iter().map(|n| mv(n)).collect(),
    }
}

fn options(policy: DefensePolicy) -> AnalysisOptions {
    let mut o = AnalysisOptions::default_options();
    o.defense_policy = policy;
    o
}

#[test]
fn defense_policies_choose_the_replies_to_try() {
    let legal = vec![mv("A1"), mv("B2"), mv("C3"), mv("D4")];
    let t = threat(&["C3"], 1, &["D4", "C3"]);
    assert_eq!(
        defender_reply_moves(&options(DefensePolicy::AllLegalDefense), &t, legal.clone()),
        vec![mv("C3"), mv("A1"), mv("B2"), mv("D4")]
    );
    assert_eq!(defender_reply_moves(&options(DefensePolicy::TacticalDefense), &t, legal.clone()), vec![mv("C3")]);
    assert!(use_hybrid_local_threat_replies(&t));
    assert_eq!(
        defender_reply_moves(&options(DefensePolicy::HybridDefense), &t, legal.clone()),
        vec![mv("C3"), mv("D4")]
    );
    let too_many = threat(&["C3"], 3, &["D4"]);
    assert!(!use_hybrid_local_threat_replies(&too_many));
    assert_eq!(defender_reply_moves(&options(DefensePolicy::HybridDefense), &too_many, legal.clone()), vec![mv("C3")]);
    let none = threat(&[], 0, &[]);
    assert_eq!(defender_reply_moves(&options(DefensePolicy::HybridDefense), &none, legal.clone()), legal);
}

#[test]
fn local_threat_replies_keep_legal_squares_once() {
    let facts = vec![
        LocalThreatFact { kind: LocalThreatKind::OpenThree, defense_squares: vec![mv("E5"), mv("J5")] },
        LocalThreatFact { kind: LocalThreatKind::ClosedFour, defense_squares: vec![mv("J5"), mv("K6")] },
    ];
    let legal = vec![mv("J5"), mv("K6")];
    assert_eq!(local_threat_reply_moves(&legal, &facts), vec![mv("J5"), mv("K6")]);
    assert!(local_threat_reply_moves(&legal, &[]).is_empty());
}

#[test]
fn corridor_replies_cover_costs_wins_and_the_next_actual_move() {
    let mut t = threat(&["C3"], 1, &["D4"]);
    t.legal_cost_squares = vec![mv("C3"), mv("E5")];
    t.defender_immediate_wins = vec![mv("E5"), mv("F6")];
    assert_eq!(
        corridor_defender_reply_moves(&options(DefensePolicy::HybridDefense), &t, Some(mv("C3"))),
        vec![mv("C3"), mv("E5"), mv("F6"), mv("D4")]
    );
    assert_eq!(
        corridor_defender_reply_moves(&options(DefensePolicy::TacticalDefense), &t, Some(mv("G7"))),
        vec![mv("C3"), mv("E5"), mv("F6"), mv("G7")]
    );
    t.winning_squares = vec![mv("H8")];
    assert_eq!(
        corridor_defender_reply_moves(&options(DefensePolicy::HybridDefense), &t, Some(mv("G7"))),
        vec![mv("C3"), mv("E5"), mv("F6")]
    );
}
