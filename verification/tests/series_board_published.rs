use gomoku_eval::analysis::{
    DefenderReplyOutcome, DefenderReplyRole, ProofLimitCause, ProofStatus, RootCause,
};
use gomoku_eval::proof_markers::{
    AnalysisBatchProofDetails, AnalysisBatchProofFrame, AnalysisBatchProofMarker,
    AnalysisBatchProofMarkerKind,
};
use gomoku_eval::arena::{MatchTiming, SeriesStats};
use gomoku_eval::board::{board_rows, color_for_ply, column_label, BoardGrid, Color, GameResult, Move};
use gomoku_eval::eval_options::{eval_context, pooled_budget_label, CliSearchBudgetMode, EvalOptions};
use gomoku_eval::published::{
    combined_search_diagnostics, increment_summary_from_entry, limit_cause_counts,
    published_analysis_proof_details, published_analysis_proof_frame, DefenderReplyAnalysis,
    published_analysis_search_details, AnalysisBatchSummary, ProofLimitCauseCount,
    PublishedAnalysisProvenance, SearchDiagnostics,
};
use gomoku_eval::board::{RuleConfig, Variant};

#[test]
fn series_credits_wins_to_the_bot_holding_the_winning_color() {
    let mut stats = SeriesStats::new();
    let timing = MatchTiming { black_time_ms: 30, black_moves: 5, white_time_ms: 20, white_moves: 4 };
    stats.record_game(0, GameResult::Winner(Color::Black), timing);
    stats.record_game(1, GameResult::Winner(Color::Black), timing);
    stats.record_game(2, GameResult::Draw, timing);
    assert_eq!(stats.bot_a_wins, 1);
    assert_eq!(stats.bot_b_wins, 1);
    assert_eq!(stats.draws, 1);
    assert_eq!(stats.bot_a_time_ms, 30 + 20 + 30);
    assert_eq!(stats.bot_b_time_ms, 20 + 30 + 20);
    assert_eq!(stats.bot_a_moves, 5 + 4 + 5);
    assert_eq!(stats.bot_b_moves, 4 + 5 + 4);
}

#[test]
fn notation_round_trips_and_colors_alternate() {
    let m = Move { row: 7, col: 7 };
    assert_eq!(m.to_notation(), "H8");
    let chars: Vec<char> = "H8".chars().collect();
    assert_eq!(Move::from_notation(&chars), Some(m));
    let chars: Vec<char> = "O15".chars().collect();
    assert_eq!(Move::from_notation(&chars), Some(Move { row: 14, col: 14 }));
    for bad in ["", "H", "h8", "H0", "8H", "H8x"] {
        let chars: Vec<char> = bad.chars().collect();
        assert_eq!(Move::from_notation(&chars), None, "{bad}");
    }
    assert_eq!(color_for_ply(0), None);
    assert_eq!(color_for_ply(1), Some(Color::Black));
    assert_eq!(color_for_ply(2), Some(Color::White));
    assert_eq!(column_label(0), 'A');
    assert_eq!(column_label(25), 'Z');
    assert_eq!(Color::Black.opponent(), Color::White);
}

#[test]
fn board_rows_print_stones() {
    let grid = BoardGrid { size: 3, cells: vec![Some(Color::Black), None, None, None, Some(Color::White), None, None, None, None] };
    assert_eq!(grid.cell(1, 1), Some(Color::White));
    assert_eq!(board_rows(&grid), vec!["B..", ".W.", "..."]);
}

#[test]
fn limit_causes_are_counted_in_declaration_order() {
    let entries = vec![
        vec![ProofLimitCause::OutsideScanWindow, ProofLimitCause::DepthCutoff],
        vec![],
        vec![ProofLimitCause::DepthCutoff, ProofLimitCause::DepthCutoff],
    ];
    assert_eq!(
        limit_cause_counts(&entries),
        vec![
            ProofLimitCauseCount { cause: ProofLimitCause::DepthCutoff, count: 3 },
            ProofLimitCauseCount { cause: ProofLimitCause::OutsideScanWindow, count: 1 },
        ]
    );
    assert!(limit_cause_counts(&[]).is_empty());
}

#[test]
fn search_effort_adds_nodes_and_keeps_the_deepest_depth() {
    let parts = [
        SearchDiagnostics { search_nodes: 99, branch_probes: 3, max_depth_reached: 4 },
        SearchDiagnostics { search_nodes: 1, branch_probes: 2, max_depth_reached: 7 },
        SearchDiagnostics { search_nodes: 0, branch_probes: 0, max_depth_reached: 2 },
    ];
    let total = combined_search_diagnostics(&parts);
    assert_eq!(total, SearchDiagnostics { search_nodes: 100, branch_probes: 5, max_depth_reached: 7 });
    let published = published_analysis_search_details(&total);
    assert_eq!(published.search_nodes, 100);
    assert_eq!(published.branch_probes, 5);
    assert_eq!(published.max_depth_reached, 7);
    assert_eq!(combined_search_diagnostics(&[]).max_depth_reached, 0);
}

#[test]
fn summary_counts_draws_and_unclear_games() {
    let mut summary = AnalysisBatchSummary::default();
    increment_summary_from_entry(&mut summary, None, None);
    increment_summary_from_entry(&mut summary, Some(Color::Black), None);
    increment_summary_from_entry(&mut summary, Some(Color::White), Some(RootCause::Unclear));
    increment_summary_from_entry(&mut summary, Some(Color::White), Some(RootCause::MissedDefense));
    assert_eq!(summary.ongoing_or_draw, 1);
    assert_eq!(summary.unclear, 2);
    assert_eq!(summary.analysis_error, 0);
    let provenance = PublishedAnalysisProvenance::default();
    assert!(provenance.command.is_empty());
    assert_eq!(provenance.git_commit, None);
}

fn options(rule: &str, mode: CliSearchBudgetMode, max_move: Option<u64>) -> EvalOptions {
    EvalOptions {
        rule: rule.to_string(),
        search_time_ms: None,
        search_cpu_time_ms: Some(1_000),
        search_budget_mode: mode,
        search_cpu_reserve_ms: 4_000,
        search_cpu_max_move_ms: max_move,
        max_moves: Some(120),
        max_game_ms: None,
        seed: 7,
    }
}

#[test]
fn evaluation_options_are_checked() {
    let ctx = eval_context(&options("renju", CliSearchBudgetMode::Pooled, Some(3_000))).unwrap();
    assert_eq!(ctx.config, RuleConfig { board_size: 15, win_length: 5, variant: Variant::Renju });
    assert_eq!(ctx.rule_label, "renju");
    assert_eq!(ctx.limits.max_moves, Some(120));
    assert_eq!(ctx.seed, 7);
    let ctx = eval_context(&options("freestyle", CliSearchBudgetMode::Strict, None)).unwrap();
    assert_eq!(ctx.config.variant, Variant::Freestyle);
    assert_eq!(
        eval_context(&options("renju", CliSearchBudgetMode::Strict, Some(3_000))).unwrap_err(),
        "--search-cpu-max-move-ms requires --search-budget-mode pooled."
    );
    assert_eq!(
        eval_context(&options("gomoku", CliSearchBudgetMode::Strict, None)).unwrap_err(),
        "Unknown rule variant 'gomoku'. Use 'renju' or 'freestyle'."
    );
    assert_eq!(CliSearchBudgetMode::Pooled.label(), "pooled");
    assert_eq!(
        pooled_budget_label(4_000, Some(2_500)),
        "Search budget mode: pooled (reserve cap 4000 ms, max move 2500 ms)"
    );
    assert_eq!(pooled_budget_label(4_000, None), "Search budget mode: pooled (reserve cap 4000 ms)");
}

#[test]
fn published_frames_keep_markers_and_replies_without_board_rows() {
    let h8 = Move { row: 7, col: 7 };
    let frame = AnalysisBatchProofFrame {
        label: "winning_ply".to_string(),
        ply: 9,
        side_to_move: Color::Black,
        status: ProofStatus::ForcedWin,
        move_played: Some(h8),
        move_played_notation: Some("H8".to_string()),
        lethal_onset_reached: true,
        rows: vec!["...".to_string()],
        markers: vec![AnalysisBatchProofMarker {
            mv: h8,
            notation: "H8".to_string(),
            kinds: vec![AnalysisBatchProofMarkerKind::Winning, AnalysisBatchProofMarkerKind::Actual],
        }],
        reply_outcomes: vec![DefenderReplyAnalysis {
            mv: h8,
            notation: "H8".to_string(),
            roles: vec![DefenderReplyRole::ImmediateDefense],
            outcome: DefenderReplyOutcome::Escape,
            principal_line: Vec::new(),
            principal_line_notation: Vec::new(),
            limit_causes: Vec::new(),
        }],
    };
    let published = published_analysis_proof_frame(&frame);
    assert_eq!(published.label, "winning_ply");
    assert_eq!(published.ply, 9);
    assert_eq!(published.move_played_notation, Some("H8".to_string()));
    assert!(published.lethal_onset_reached);
    assert_eq!(published.markers.len(), 1);
    assert_eq!(published.markers[0].kinds, vec![AnalysisBatchProofMarkerKind::Winning, AnalysisBatchProofMarkerKind::Actual]);
    assert_eq!(published.reply_outcomes[0].roles, vec![DefenderReplyRole::ImmediateDefense]);
    assert_eq!(published.reply_outcomes[0].outcome, DefenderReplyOutcome::Escape);
    let details = published_analysis_proof_details(&AnalysisBatchProofDetails { proof_frames: vec![frame.clone(), frame] });
    assert_eq!(details.proof_frames.len(), 2);
    assert_eq!(details.proof_frames[1], published);
}

#[test]
fn default_series_totals_are_zero() {
    assert_eq!(SeriesStats::default(), SeriesStats::new());
    assert_eq!(SeriesStats::default().draws, 0);
}
