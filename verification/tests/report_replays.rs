use gomoku_eval::analysis_report::{decode_move_cell, select_report_matches, ReportReplayMatch, ReportReplaySource};
use gomoku_eval::board::{Move, RuleConfig, Variant};
use gomoku_eval::published::{published_analysis_match_summary, published_analysis_sections_from_plans};
use gomoku_eval::report_replay::{
    highest_different_standing, report_replay_input_label, report_replay_section_plans,
    report_replay_selector_label, report_replay_source_label, resolve_report_replay_entrants,
    CliReportReplaySelector,
};

fn match_report(
    match_index: usize,
    black: &str,
    white: &str,
    result: &str,
    winner: Option<&str>,
    end_reason: &str,
    move_count: usize,
) -> ReportReplayMatch {
    ReportReplayMatch {
        match_index,
        black: black.to_string(),
        white: white.to_string(),
        result: result.to_string(),
        winner: winner.map(str::to_string),
        end_reason: end_reason.to_string(),
        duration_ms: Some(0),
        move_cells: (0..move_count).collect(),
        move_count,
    }
}

fn sample_source(matches: Vec<ReportReplayMatch>, standings: Vec<&str>) -> ReportReplaySource {
    ReportReplaySource {
        board_size: 15,
        move_codec: "cell_index".to_string(),
        rules: RuleConfig { board_size: 15, win_length: 5, variant: Variant::Renju },
        standings: standings.into_iter().map(str::to_string).collect(),
        matches,
    }
}

#[test]
fn stratified_report_sample_keeps_draws_both_winners_and_lengths() {
    let source = sample_source(
        vec![
            match_report(1, "bot-a", "bot-b", "black_won", Some("bot-a"), "win", 19),
            match_report(2, "bot-b", "bot-a", "white_won", Some("bot-a"), "win", 63),
            match_report(3, "bot-a", "bot-b", "white_won", Some("bot-b"), "win", 21),
            match_report(4, "bot-b", "bot-a", "black_won", Some("bot-b"), "win", 55),
            match_report(5, "bot-a", "bot-b", "draw", None, "max_moves", 120),
            match_report(6, "bot-a", "bot-b", "black_won", Some("bot-a"), "win", 15),
        ],
        Vec::new(),
    );

    let selected = select_report_matches(&source, "bot-a", "bot-b", 4)
        .expect("head-to-head matches should sample");
    let selected_indices = selected
        .iter()
        .map(|selection| selection.match_report.match_index)
        .collect::<Vec<_>>();

    assert!(selected_indices.contains(&5), "draw/max-move game is useful smoke coverage");
    assert!(
        selected.iter().any(|selection| selection.match_report.winner.as_deref() == Some("bot-a")),
        "sample should include a bot-a win"
    );
    assert!(
        selected.iter().any(|selection| selection.match_report.winner.as_deref() == Some("bot-b")),
        "sample should include a bot-b win"
    );
    assert_eq!(selected.len(), 4);
}

#[test]
fn stratified_report_sample_rejects_zero_size() {
    let source = sample_source(
        vec![match_report(1, "bot-a", "bot-b", "black_won", Some("bot-a"), "win", 19)],
        Vec::new(),
    );

    let err = select_report_matches(&source, "bot-a", "bot-b", 0)
        .expect_err("zero-sized analysis samples should be rejected");

    assert!(err.contains("sample size"));
}

#[test]
fn stratified_sample_picks_in_priority_order() {
    let source = sample_source(
        vec![
            match_report(1, "bot-a", "bot-b", "black_won", Some("bot-a"), "win", 19),
            match_report(2, "bot-b", "bot-a", "white_won", Some("bot-a"), "win", 63),
            match_report(3, "bot-a", "bot-b", "white_won", Some("bot-b"), "win", 21),
            match_report(4, "bot-b", "bot-a", "black_won", Some("bot-b"), "win", 55),
            match_report(5, "bot-a", "bot-b", "draw", None, "max_moves", 120),
            match_report(6, "bot-a", "bot-b", "black_won", Some("bot-a"), "win", 15),
        ],
        Vec::new(),
    );
    let selected = select_report_matches(&source, "bot-a", "bot-b", 4).unwrap();
    let indices: Vec<usize> = selected.iter().map(|s| s.match_report.match_index).collect();
    assert_eq!(indices, vec![5, 1, 2, 4]);
}

#[test]
fn full_sample_returns_every_game_by_match_index() {
    let source = sample_source(
        vec![
            match_report(9, "x", "y", "black_won", Some("x"), "win", 10),
            match_report(3, "y", "x", "black_won", Some("y"), "win", 12),
            match_report(4, "x", "z", "black_won", Some("x"), "win", 12),
        ],
        Vec::new(),
    );
    let selected = select_report_matches(&source, "x", "y", 10).unwrap();
    let indices: Vec<usize> = selected.iter().map(|s| s.match_report.match_index).collect();
    assert_eq!(indices, vec![3, 9]);
    let err = select_report_matches(&source, "x", "w", 10).unwrap_err();
    assert_eq!(err, "report has no head-to-head matches for x vs w");
}

#[test]
fn cells_decode_row_major() {
    assert_eq!(decode_move_cell(112, 15), Ok(Move { row: 7, col: 7 }));
    assert_eq!(decode_move_cell(113, 15), Ok(Move { row: 7, col: 8 }));
    assert_eq!(
        decode_move_cell(225, 15),
        Err("move cell 225 is outside 15x15 board".to_string())
    );
    assert_eq!(
        decode_move_cell(3, 0),
        Err("board size must be greater than zero".to_string())
    );
}

fn default_selection_avoids_self_match() {
    let standings = vec![
        "search-d7+tactical-cap-8+pattern-eval".to_string(),
        "search-d5+tactical-cap-8+pattern-eval".to_string(),
        "search-d3+pattern-eval".to_string(),
    ];

    let (entrant_a, entrant_b) = resolve_report_replay_entrants(
        &standings,
        Some("search-d5+tactical-cap-8+pattern-eval".to_string()),
        None,
    )
    .expect("missing entrant should default to the highest different standing");

    assert_eq!(entrant_a, "search-d5+tactical-cap-8+pattern-eval");
    assert_eq!(entrant_b, "search-d7+tactical-cap-8+pattern-eval");
}

#[test]
fn tests_report_replay_default_entrant_selection_avoids_self_match() {
    default_selection_avoids_self_match();
}

#[test]
fn main_report_replay_default_entrant_selection_avoids_self_match() {
    default_selection_avoids_self_match();
}

#[test]
fn tests_report_replay_source_label_keeps_default_selector_readable() {
    let report = "../reports/lab/bot-report.json";

    assert_eq!(
        report_replay_source_label(report, "search-d7", "search-d5", true),
        "../reports/lab/bot-report.json:Top 2 entrants"
    );
    assert_eq!(
        report_replay_source_label(report, "search-d7", "search-d5", false),
        "../reports/lab/bot-report.json:search-d7 vs search-d5"
    );
}

#[test]
fn main_report_replay_source_label_keeps_default_selector_readable() {
    let report = "reports/latest.json";

    assert_eq!(
        report_replay_source_label(report, "search-d7", "search-d5", true),
        "reports/latest.json:Top 2 entrants"
    );
    assert_eq!(
        report_replay_source_label(report, "search-d7", "search-d5", false),
        "reports/latest.json:search-d7 vs search-d5"
    );
}

#[test]
fn entrant_resolution_covers_every_combination() {
    let standings = vec!["top".to_string(), "second".to_string()];
    assert_eq!(
        resolve_report_replay_entrants(&standings, None, None),
        Ok(("top".to_string(), "second".to_string()))
    );
    assert_eq!(
        resolve_report_replay_entrants(&standings, None, Some("top".to_string())),
        Ok(("second".to_string(), "top".to_string()))
    );
    assert_eq!(
        resolve_report_replay_entrants(&standings, Some("x".to_string()), Some("x".to_string())),
        Err("report replay entrants must be different".to_string())
    );
    assert_eq!(
        resolve_report_replay_entrants(&[], None, None),
        Err("Tournament report has no standing #1.".to_string())
    );
    assert_eq!(
        resolve_report_replay_entrants(&["only".to_string()], None, None),
        Err("Tournament report has no standing #2.".to_string())
    );
    assert_eq!(
        resolve_report_replay_entrants(&["only".to_string()], Some("only".to_string()), None),
        Err("Tournament report has no standing different from only.".to_string())
    );
}

#[test]
fn highest_different_standing_skips_the_entrant() {
    let standings = vec!["a".to_string(), "b".to_string(), "c".to_string()];
    assert_eq!(highest_different_standing(&standings, "a"), Some("b".to_string()));
    assert_eq!(highest_different_standing(&standings, "b"), Some("a".to_string()));
    assert_eq!(highest_different_standing(&["a".to_string()], "a"), None);
}

#[test]
fn labels_of_replays_and_selectors() {
    let m = match_report(42, "search-d5+pattern-eval", "random", "black_won", Some("random"), "win", 3);
    assert_eq!(report_replay_input_label(&m), "match_0042__search-d5_pattern-eval__vs__random");
    let m = match_report(12345, "a", "b", "draw", None, "max_moves", 1);
    assert_eq!(report_replay_input_label(&m), "match_12345__a__vs__b");
    assert_eq!(report_replay_selector_label("a", "b", false), "a vs b");
    assert_eq!(report_replay_selector_label("a", "b", true), "Top 2 entrants");
    assert_eq!(CliReportReplaySelector::HeadToHead.label(), "Head-to-head");
    assert_eq!(CliReportReplaySelector::PresetTriangle.label(), "Preset triangle");
}

#[test]
fn section_plans_for_head_to_head_and_presets() {
    let source = sample_source(
        vec![
            match_report(1, "a", "b", "black_won", Some("a"), "win", 9),
            match_report(2, "b", "a", "black_won", Some("b"), "win", 11),
            match_report(3, "search-d1", "search-d3+pattern-eval", "draw", None, "max_moves", 5),
        ],
        vec!["a", "b"],
    );
    let plans = report_replay_section_plans(&source, CliReportReplaySelector::HeadToHead, None, None, 1)
        .unwrap();
    assert_eq!(plans.len(), 1);
    assert_eq!(plans[0].label, "a vs b");
    assert_eq!(plans[0].selections.len(), 1);

    let err = report_replay_section_plans(
        &source,
        CliReportReplaySelector::PresetTriangle,
        Some("a".to_string()),
        None,
        1,
    )
    .unwrap_err();
    assert_eq!(err, "preset-triangle selector does not accept --entrant-a or --entrant-b");

    let err = report_replay_section_plans(&source, CliReportReplaySelector::PresetTriangle, None, None, 1)
        .unwrap_err();
    assert_eq!(
        err,
        "report has no head-to-head matches for search-d1 vs search-d7+tactical-cap-8+pattern-eval+corridor-proof-c16-d8-w4"
    );

    let published = published_analysis_sections_from_plans(&plans);
    assert_eq!(published.len(), 1);
    assert_eq!(published[0].entrant_a, "a");
    assert_eq!(published[0].matches.len(), 1);
    let summary = published_analysis_match_summary(&source.matches[0]);
    assert_eq!(summary.match_index, 1);
    assert_eq!(summary.winner.as_deref(), Some("a"));
    assert_eq!(summary.move_cells, (0..9).collect::<Vec<usize>>());
}
