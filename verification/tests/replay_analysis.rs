use gomoku_eval::analysis::{
    analysis_model, extend_limit_causes, push_note, tactical_reply_coverage, AnalysisError,
    AnalysisModel, AnalysisOptions, DefensePolicy, ForcedInterval, LocalThreatKind,
    ProofLimitCause, ProofResult, ProofStatus, RootCause, TacticalNote, UnclearReason,
};
use gomoku_eval::analysis::ProofStatus::{EscapeFound, ForcedWin, Unknown};
use gomoku_eval::board::{Color, Variant};
use gomoku_eval::replay_summary::{
    classify_root_cause, find_final_forced_interval, find_last_chance, initial_scan_start,
    proof_intervals, summarize_decisive_replay, tactical_notes, unclear_reason, unknown_gaps,
    widened_scan_start,
};

fn model() -> AnalysisModel {
    analysis_model(&Variant::Freestyle, &AnalysisOptions::default_options())
}

fn proof_with(status: ProofStatus, side_to_move: Color) -> ProofResult {
    ProofResult {
        status,
        attacker: Color::Black,
        side_to_move,
        model: model(),
        principal_line: Vec::new(),
        escape_moves: Vec::new(),
        threat_evidence: Vec::new(),
        limit_hit: false,
        limit_causes: Vec::new(),
    }
}

fn side_after(ply: usize) -> Color {
    if ply % 2 == 0 { Color::Black } else { Color::White }
}

#[test]
fn missed_defense_against_closed_four_is_classified() {
    // Plies 6..=9 of a nine-move game won by Black: the loser could escape
    // after ply 7, played into a forced loss at ply 8.
    let statuses = [ProofStatus::Unknown, ProofStatus::EscapeFound, ProofStatus::ForcedWin, ProofStatus::ForcedWin];
    let proofs: Vec<ProofResult> =
        statuses.iter().enumerate().map(|(i, s)| proof_with(*s, side_after(6 + i))).collect();
    let summary = summarize_decisive_replay(&proofs, 6, 9, Color::Black, false, false);
    assert!(summary.final_forced_interval_found);
    assert_eq!(summary.final_forced_interval, ForcedInterval { start_ply: 8, end_ply: 9 });
    assert_eq!(summary.proof_intervals, vec![ForcedInterval { start_ply: 8, end_ply: 9 }]);
    assert_eq!(summary.previous_status, Some(ProofStatus::EscapeFound));
    assert_eq!(summary.root_cause, RootCause::MissedDefense);
    assert_eq!(summary.last_chance_ply, Some(7));
    assert_eq!(summary.critical_mistake_ply, Some(8));
    assert_eq!(summary.decisive_attack_ply, None);
    assert_eq!(summary.tactical_notes, vec![TacticalNote::AccidentalBlunder]);
    assert_eq!(summary.unknown_gaps, vec![6]);
    assert_eq!(summary.unclear_reason, None);
}

#[test]
fn forced_intervals_are_maximal_runs() {
    let statuses = [ForcedWin, ForcedWin, Unknown, ForcedWin, EscapeFound, ForcedWin];
    let proofs: Vec<ProofResult> = statuses.iter().map(|s| proof_with(*s, Color::Black)).collect();
    assert_eq!(
        proof_intervals(&proofs, 10),
        vec![
            ForcedInterval { start_ply: 10, end_ply: 11 },
            ForcedInterval { start_ply: 13, end_ply: 13 },
            ForcedInterval { start_ply: 15, end_ply: 15 },
        ]
    );
    assert!(proof_intervals(&[], 3).is_empty());
    assert_eq!(unknown_gaps(&proofs, 10), vec![12]);
}

#[test]
fn final_interval_must_end_at_the_last_move() {
    let ivs = [ForcedInterval { start_ply: 2, end_ply: 4 }, ForcedInterval { start_ply: 6, end_ply: 9 }];
    assert_eq!(find_final_forced_interval(&ivs, 9), (true, ForcedInterval { start_ply: 6, end_ply: 9 }));
    assert_eq!(find_final_forced_interval(&ivs, 4), (true, ForcedInterval { start_ply: 2, end_ply: 4 }));
    assert_eq!(find_final_forced_interval(&ivs, 11), (false, ForcedInterval { start_ply: 11, end_ply: 11 }));
}

#[test]
fn root_cause_follows_the_mover() {
    let esc = Some(ProofStatus::EscapeFound);
    assert_eq!(classify_root_cause(esc, Some(Color::White), Color::Black, false), RootCause::MissedDefense);
    assert_eq!(classify_root_cause(esc, Some(Color::Black), Color::Black, false), RootCause::StrategicLoss);
    assert_eq!(classify_root_cause(Some(ProofStatus::Unknown), Some(Color::White), Color::Black, false), RootCause::Unclear);
    assert_eq!(classify_root_cause(None, None, Color::White, true), RootCause::MissedWin);
}

#[test]
fn last_chance_and_unclear_reasons() {
    let proofs: Vec<ProofResult> = [EscapeFound, EscapeFound, Unknown, ForcedWin]
        .iter()
        .enumerate()
        .map(|(i, s)| proof_with(*s, side_after(4 + i)))
        .collect();
    assert_eq!(find_last_chance(&proofs, 4, 7, Some(Color::White)), Some(5));
    assert_eq!(find_last_chance(&proofs, 4, 7, Some(Color::Black)), Some(4));
    assert_eq!(find_last_chance(&proofs, 4, 7, None), None);
    let final_iv = ForcedInterval { start_ply: 7, end_ply: 7 };
    assert_eq!(
        unclear_reason(RootCause::Unclear, true, final_iv, Some(Unknown), &proofs, 4),
        Some(UnclearReason::PreviousPrefixUnknown)
    );
    assert_eq!(unclear_reason(RootCause::MissedDefense, true, final_iv, Some(Unknown), &proofs, 4), None);
    assert_eq!(
        unclear_reason(RootCause::Unclear, false, final_iv, None, &proofs, 4),
        Some(UnclearReason::NoFinalForcedInterval)
    );
}

#[test]
fn notes_and_scan_windows() {
    let ivs = [ForcedInterval { start_ply: 2, end_ply: 3 }, ForcedInterval { start_ply: 6, end_ply: 9 }];
    let notes = tactical_notes(RootCause::StrategicLoss, &ivs, ivs[1], true);
    assert_eq!(
        notes,
        vec![TacticalNote::ConversionError, TacticalNote::MissedWin, TacticalNote::StrongAttack]
    );
    assert_eq!(initial_scan_start(10, Some(3)), 6);
    assert_eq!(initial_scan_start(10, None), 0);
    assert_eq!(initial_scan_start(2, Some(5)), 0);
    assert_eq!(widened_scan_start(None, true, ForcedInterval { start_ply: 6, end_ply: 9 }, 6), None);
}

#[test]
fn notes_and_causes_are_kept_without_repeats() {
    let mut notes = vec![TacticalNote::MissedWin];
    push_note(&mut notes, TacticalNote::MissedWin);
    push_note(&mut notes, TacticalNote::StrongAttack);
    assert_eq!(notes, vec![TacticalNote::MissedWin, TacticalNote::StrongAttack]);
    let mut causes = vec![ProofLimitCause::OutsideScanWindow];
    extend_limit_causes(&mut causes, &[ProofLimitCause::DepthCutoff, ProofLimitCause::OutsideScanWindow]);
    assert_eq!(causes, vec![ProofLimitCause::DepthCutoff, ProofLimitCause::OutsideScanWindow]);
}

#[test]
fn model_labels_and_threat_ranks() {
    let m = model();
    assert_eq!(m.tactical_reply_coverage, vec!["all_legal"]);
    assert_eq!(m.rule_set, "freestyle");
    assert_eq!(tactical_reply_coverage(DefensePolicy::HybridDefense).len(), 5);
    assert!(LocalThreatKind::OpenFour.is_forcing());
    assert!(LocalThreatKind::OpenThree.is_forcing());
    assert!(LocalThreatKind::OpenFour.rank() > LocalThreatKind::BrokenThree.rank());
    let err = AnalysisError::InvalidReplayMove { ply: 3, message: "bad square".to_string() };
    assert_eq!(err.message_text(), "invalid replay move at ply 3: bad square");
    assert_eq!(AnalysisOptions::default(), AnalysisOptions::default_options());
}
