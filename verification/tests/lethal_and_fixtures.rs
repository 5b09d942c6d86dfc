use gomoku_eval::analysis::{
    AnalysisModel, AnalysisOptions, DefensePolicy, ForcedInterval, RootCause, TacticalNote,
};
use gomoku_eval::board::{BoardGrid, Color, Move};
use gomoku_eval::fixture::{
    actual_table, expectation_report, expectation_table, fixture_failures, AnalysisFixtureExpected, fixture_options, interval_label, key_value_table, moves_label, notes_label,
    option_usize, usize_list_label, AnalysisFixtureActualReport, AnalysisFixtureExpectationReport,
    AnalysisFixtureOptions,
};
use gomoku_eval::lethal::{
    board_ascii, normalize_moves, notation_list_from_strs, one_step_entry_list, one_step_reply_list,
    one_step_reply_list_from_expected, ExpectedOneStepEntry, ExpectedOneStepReply, OneStepDefenderReply,
    OneStepLethalEntry,
};

fn mv(notation: &str) -> Move {
    let chars: Vec<char> = notation.chars().collect();
    Move::from_notation(&chars).expect("test move notation should parse")
}

#[test]
fn normalized_moves_are_sorted_by_row_then_column_without_repeats() {
    let mut moves = vec![mv("L8"), mv("G8"), mv("A1"), mv("L8"), mv("B1")];
    normalize_moves(&mut moves);
    assert_eq!(moves, vec![mv("A1"), mv("B1"), mv("G8"), mv("L8")]);
    assert_eq!(notation_list_from_strs(&["L8", "G8", "G8"]), vec!["G8", "L8"]);
    assert!(notation_list_from_strs(&[]).is_empty());
}

#[test]
fn expected_replies_are_sorted_by_square() {
    const ENTRIES: &[ExpectedOneStepEntry] = &[
        ExpectedOneStepEntry { mv: "J9", terminal_targets: &["K10", "F5"] },
        ExpectedOneStepEntry { mv: "C2", terminal_targets: &[] },
    ];
    let replies = [
        ExpectedOneStepReply { defender_reply: "L8", lethal_entries: ENTRIES },
        ExpectedOneStepReply { defender_reply: "G8", lethal_entries: &[] },
    ];
    let out = one_step_reply_list_from_expected(&replies);
    assert_eq!(out.len(), 2);
    assert_eq!(out[0].defender_reply, "G8");
    assert!(out[0].lethal_entries.is_empty());
    assert_eq!(out[1].defender_reply, "L8");
    assert_eq!(out[1].lethal_entries[0].mv, "C2");
    assert_eq!(out[1].lethal_entries[1].mv, "J9");
    assert_eq!(out[1].lethal_entries[1].terminal_targets, vec!["F5", "K10"]);
}

#[test]
fn lethal_scenario_board_prints_top_row_first() {
    let size = 15usize;
    let mut cells = vec![None; size * size];
    for col in 7..11 {
        cells[7 * size + col] = Some(Color::Black);
    }
    cells[0] = Some(Color::White);
    let grid = BoardGrid { size, cells };
    let board = board_ascii(&grid);
    assert!(board.starts_with("    A B C D E F G H I J K L M N O\n"));
    assert!(board.contains(" 8  . . . . . . . B B B B . . . .  8"));
    assert!(board.contains(" 1  W . . . . . . . . . . . . . .  1\n"));
    assert!(board.contains("15  . . . . . . . . . . . . . . .  15\n"));
    assert!(board.ends_with("    A B C D E F G H I J K L M N O"));
    let first_row = board.lines().nth(1).unwrap();
    assert!(first_row.starts_with("15"));
}

fn model() -> AnalysisModel {
    AnalysisModel {
        defense_policy: DefensePolicy::AllLegalDefense,
        tactical_reply_coverage: Vec::new(),
        attacker_move_policy: "all".to_string(),
        rule_set: "freestyle".to_string(),
        max_depth: 2,
        max_forced_extensions: 4,
        max_backward_window: None,
    }
}

#[test]
fn fixture_failures_list_each_mismatch() {
    let expected = AnalysisFixtureExpectationReport {
        winner: Some(Color::Black),
        root_cause: RootCause::MissedDefense,
        final_forced_interval: ForcedInterval { start_ply: 8, end_ply: 9 },
        last_chance_ply: Some(7),
        critical_mistake_ply: Some(8),
        tactical_notes: vec![TacticalNote::AccidentalBlunder],
        required_unknown_gaps: vec![3, 4],
    };
    let matching = AnalysisFixtureActualReport {
        winner: Some(Color::Black),
        root_cause: RootCause::MissedDefense,
        final_forced_interval: ForcedInterval { start_ply: 8, end_ply: 9 },
        last_chance_ply: Some(7),
        critical_mistake_ply: Some(8),
        tactical_notes: vec![TacticalNote::AccidentalBlunder],
        unknown_gaps: vec![4, 3, 1],
        model: model(),
    };
    assert!(fixture_failures(&expected, &matching).is_empty());

    let wrong = AnalysisFixtureActualReport {
        winner: None,
        root_cause: RootCause::Unclear,
        final_forced_interval: ForcedInterval { start_ply: 9, end_ply: 9 },
        last_chance_ply: None,
        critical_mistake_ply: Some(8),
        tactical_notes: vec![],
        unknown_gaps: vec![4],
        model: model(),
    };
    assert_eq!(
        fixture_failures(&expected, &wrong),
        vec![
            "winner expected Some(Black), got None",
            "root_cause expected MissedDefense, got Unclear",
            "final_forced_interval expected ForcedInterval { start_ply: 8, end_ply: 9 }, got ForcedInterval { start_ply: 9, end_ply: 9 }",
            "last_chance_ply expected Some(7), got None",
            "tactical_notes expected [AccidentalBlunder], got []",
            "unknown_gaps expected to contain 3, got [4]",
        ]
    );
}

#[test]
fn fixture_options_override_only_what_they_set() {
    let base = AnalysisOptions::default_options();
    let same = fixture_options(&base, &AnalysisFixtureOptions::default());
    assert_eq!(same, base);
    let tuned = fixture_options(
        &base,
        &AnalysisFixtureOptions {
            max_depth: Some(6),
            max_forced_extensions: None,
            defense_policy: Some(DefensePolicy::TacticalDefense),
            max_backward_window: Some(3),
        },
    );
    assert_eq!(tuned.max_depth, 6);
    assert_eq!(tuned.max_forced_extensions, 4);
    assert_eq!(tuned.defense_policy, DefensePolicy::TacticalDefense);
    assert_eq!(tuned.max_backward_window, Some(3));
}

#[test]
fn fixture_labels() {
    assert_eq!(option_usize(Some(12)), "12");
    assert_eq!(option_usize(None), "-");
    assert_eq!(interval_label(&ForcedInterval { start_ply: 3, end_ply: 5 }), "3..5");
    assert_eq!(notes_label(&[]), "-");
    assert_eq!(
        notes_label(&[TacticalNote::ConversionError, TacticalNote::StrongAttack]),
        "ConversionError, StrongAttack"
    );
    assert_eq!(usize_list_label(&[]), "-");
    assert_eq!(usize_list_label(&[1, 20]), "1, 20");
    assert_eq!(moves_label(&[]), "-");
    assert_eq!(moves_label(&[mv("H8"), mv("I9")]), "H8 I9");
    assert_eq!(
        key_value_table(&[("A<", "1&2".to_string()), ("B", "x".to_string())]),
        "<table><tbody><tr><th>A&lt;</th><td>1&amp;2</td></tr><tr><th>B</th><td>x</td></tr></tbody></table>"
    );
}

#[test]
fn fixture_tables_list_each_outcome_field_escaped() {
    let expected = AnalysisFixtureExpectationReport {
        winner: Some(Color::White),
        root_cause: RootCause::StrategicLoss,
        final_forced_interval: ForcedInterval { start_ply: 3, end_ply: 11 },
        last_chance_ply: None,
        critical_mistake_ply: Some(2),
        tactical_notes: vec![],
        required_unknown_gaps: vec![5, 6],
    };
    assert_eq!(
        expectation_table(&expected),
        "<table><tbody><tr><th>Winner</th><td>White</td></tr><tr><th>Root</th><td>StrategicLoss</td></tr>\
<tr><th>Forced</th><td>3..11</td></tr><tr><th>Last Chance</th><td>-</td></tr>\
<tr><th>Critical</th><td>2</td></tr><tr><th>Notes</th><td>-</td></tr>\
<tr><th>Unknown Gaps</th><td>5, 6</td></tr></tbody></table>"
    );
    let actual = AnalysisFixtureActualReport {
        winner: None,
        root_cause: RootCause::Unclear,
        final_forced_interval: ForcedInterval { start_ply: 0, end_ply: 0 },
        last_chance_ply: Some(1),
        critical_mistake_ply: None,
        tactical_notes: vec![TacticalNote::MissedWin, TacticalNote::StrongAttack],
        unknown_gaps: vec![],
        model: model(),
    };
    let table = actual_table(&actual);
    assert!(table.contains("<tr><th>Winner</th><td>-</td></tr>"));
    assert!(table.contains("<tr><th>Notes</th><td>MissedWin, StrongAttack</td></tr>"));
    assert!(table.contains("<tr><th>Unknown Gaps</th><td>-</td></tr>"));
}

#[test]
fn found_replies_are_sorted_by_square_and_keep_target_order() {
    let entries = vec![
        OneStepLethalEntry { mv: mv("J9"), terminal_targets: vec![mv("K10"), mv("F5")] },
        OneStepLethalEntry { mv: mv("C2"), terminal_targets: vec![] },
        OneStepLethalEntry { mv: mv("A2"), terminal_targets: vec![mv("A1")] },
    ];
    let listed = one_step_entry_list(&entries);
    let moves: Vec<&str> = listed.iter().map(|e| e.mv.as_str()).collect();
    assert_eq!(moves, vec!["A2", "C2", "J9"]);
    assert_eq!(listed[2].terminal_targets, vec!["K10", "F5"]);

    let replies = vec![
        OneStepDefenderReply { reply: mv("L8"), lethal_entries: entries.clone() },
        OneStepDefenderReply { reply: mv("G8"), lethal_entries: Vec::new() },
    ];
    let out = one_step_reply_list(&replies);
    assert_eq!(out[0].defender_reply, "G8");
    assert!(out[0].lethal_entries.is_empty());
    assert_eq!(out[1].defender_reply, "L8");
    assert_eq!(out[1].lethal_entries, listed);
}

#[test]
fn fixture_expectations_become_reports() {
    const NOTES: &[TacticalNote] = &[TacticalNote::ConversionError, TacticalNote::MissedWin];
    const GAPS: &[usize] = &[2, 5];
    let expected = AnalysisFixtureExpected {
        winner: Some(Color::Black),
        root_cause: RootCause::MissedWin,
        final_forced_interval: ForcedInterval { start_ply: 10, end_ply: 11 },
        last_chance_ply: Some(9),
        critical_mistake_ply: Some(10),
        tactical_notes: NOTES,
        required_unknown_gaps: GAPS,
    };
    let report = expectation_report(&expected);
    assert_eq!(report.winner, Some(Color::Black));
    assert_eq!(report.root_cause, RootCause::MissedWin);
    assert_eq!(report.final_forced_interval, ForcedInterval { start_ply: 10, end_ply: 11 });
    assert_eq!(report.tactical_notes, vec![TacticalNote::ConversionError, TacticalNote::MissedWin]);
    assert_eq!(report.required_unknown_gaps, vec![2, 5]);
}
