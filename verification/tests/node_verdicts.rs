use gomoku_eval::analysis::{
    analysis_model, AnalysisOptions, CorridorReplyOutcome, CorridorReplyStatus, DefenderReplyOutcome,
    EvidenceAttribution, ProofLimitCause, ProofResult, ProofStatus, ReplyClassification,
    ThreatReplySet,
};
use gomoku_eval::board::{Color, GameResult, Move, Variant};
use gomoku_eval::node_verdicts::{
    corridor_attacker_verdict, corridor_defender_verdict, corridor_reply_status,
    corridor_report_verdict, defender_extension_verdict, defender_node_verdict, DefenderReplyProof,
    DefenderReplyResult, DefenderReplyStep, ReportChild, ReportStep,
};

fn mv(notation: &str) -> Move {
    let chars: Vec<char> = notation.chars().collect();
    Move::from_notation(&chars).expect("test move notation should parse")
}

fn threat(winning: &[&str], legal_cost: &[&str]) -> ThreatReplySet {
    ThreatReplySet {
        attacker: Color::Black,
        defender: Color::White,
        winning_squares: winning.iter().map(|n| mv(n)).collect(),
        raw_cost_squares: legal_cost.iter().map(|n| mv(n)).collect(),
        legal_cost_squares: legal_cost.iter().map(|n| mv(n)).collect(),
        illegal_cost_squares: Vec::new(),
        defender_immediate_wins: Vec::new(),
        local_threat_count: 0,
        local_threat_replies: Vec::new(),
        reply_moves: legal_cost.iter().map(|n| mv(n)).collect(),
    }
}

fn search_result(status: ProofStatus, line: &[&str], causes: Vec<ProofLimitCause>) -> ProofResult {
    ProofResult {
        status,
        attacker: Color::Black,
        side_to_move: Color::White,
        model: analysis_model(&Variant::Freestyle, &AnalysisOptions::default_options()),
        principal_line: line.iter().map(|n| mv(n)).collect(),
        escape_moves: if status == ProofStatus::EscapeFound { vec![mv("O15")] } else { Vec::new() },
        threat_evidence: Vec::new(),
        limit_hit: !causes.is_empty(),
        limit_causes: causes,
    }
}

fn att() -> EvidenceAttribution {
    EvidenceAttribution { prefix_ply: Some(7), actual_reply: None }
}

#[test]
fn defender_node_is_forced_only_when_every_reply_loses() {
    let t = threat(&["L8"], &["L8", "G8"]);
    let forced = defender_node_verdict(
        &t,
        att(),
        &[
            DefenderReplyResult { mv: mv("L8"), step: DefenderReplyStep::Refuted(mv("G8")) },
            DefenderReplyResult { mv: mv("G8"), step: DefenderReplyStep::Searched(search_result(ProofStatus::ForcedWin, &["L8"], Vec::new())) },
            DefenderReplyResult { mv: mv("A1"), step: DefenderReplyStep::Skipped },
        ],
    );
    assert_eq!(forced.status, ProofStatus::ForcedWin);
    assert_eq!(forced.principal_line, vec![mv("L8"), mv("G8")]);
    assert_eq!(forced.evidence.len(), 1);
    assert_eq!(forced.evidence[0].reply_classification, ReplyClassification::BlockedButForced);
    assert_eq!(forced.evidence[0].forced_replies, vec![mv("L8"), mv("G8")]);
    assert_eq!(forced.evidence[0].next_forcing_move, Some(mv("G8")));

    let escaped = defender_node_verdict(
        &t,
        att(),
        &[
            DefenderReplyResult { mv: mv("L8"), step: DefenderReplyStep::Refuted(mv("G8")) },
            DefenderReplyResult { mv: mv("G8"), step: DefenderReplyStep::Searched(search_result(ProofStatus::EscapeFound, &[], Vec::new())) },
            DefenderReplyResult { mv: mv("H9"), step: DefenderReplyStep::Searched(search_result(ProofStatus::ForcedWin, &[], Vec::new())) },
        ],
    );
    assert_eq!(escaped.status, ProofStatus::EscapeFound);
    assert_eq!(escaped.escape_moves, vec![mv("G8")]);
    assert_eq!(escaped.evidence[0].reply_classification, ReplyClassification::Escaped);
    assert_eq!(escaped.evidence[0].forced_replies, vec![mv("L8")]);

    let unknown = defender_node_verdict(
        &t,
        att(),
        &[DefenderReplyResult {
            mv: mv("L8"),
            step: DefenderReplyStep::Searched(search_result(ProofStatus::Unknown, &[], vec![ProofLimitCause::DepthCutoff])),
        }],
    );
    assert_eq!(unknown.status, ProofStatus::Unknown);
    assert_eq!(unknown.limit_causes, vec![ProofLimitCause::DepthCutoff, ProofLimitCause::DefenderReplyUnknown]);
    assert_eq!(unknown.evidence[0].limit_causes, vec![ProofLimitCause::DefenderReplyUnknown]);

    let none = defender_node_verdict(&threat(&[], &[]), att(), &[]);
    assert_eq!(none.status, ProofStatus::Unknown);
    assert_eq!(none.limit_causes, vec![ProofLimitCause::ModelScopeUnknown]);

    let blocked = defender_node_verdict(&threat(&["L8"], &[]), att(), &[]);
    assert_eq!(blocked.status, ProofStatus::ForcedWin);
    assert_eq!(blocked.principal_line, vec![mv("L8")]);
    assert_eq!(blocked.evidence[0].reply_classification, ReplyClassification::NoLegalBlock);

    let ext = defender_extension_verdict(&threat(&[], &["L8"]), att(), &[]);
    assert_eq!(ext.status, ProofStatus::Unknown);
    assert_eq!(ext.limit_causes, vec![ProofLimitCause::ModelScopeUnknown]);
}

#[test]
fn corridor_replies_and_defender_nodes() {
    assert_eq!(corridor_reply_status(false, GameResult::Ongoing, Color::Black, None, None), CorridorReplyStatus::Unknown);
    assert_eq!(corridor_reply_status(true, GameResult::Winner(Color::White), Color::Black, None, None), CorridorReplyStatus::Escape);
    assert_eq!(corridor_reply_status(true, GameResult::Winner(Color::Black), Color::Black, None, None), CorridorReplyStatus::Forced);
    assert_eq!(corridor_reply_status(true, GameResult::Draw, Color::Black, None, None), CorridorReplyStatus::Escape);
    assert_eq!(corridor_reply_status(true, GameResult::Ongoing, Color::Black, Some(mv("A1")), None), CorridorReplyStatus::Forced);
    assert_eq!(
        corridor_reply_status(true, GameResult::Ongoing, Color::Black, None, Some(ProofStatus::EscapeFound)),
        CorridorReplyStatus::Escape
    );

    let t = threat(&["L8"], &["L8", "G8"]);
    let outcome = |n: &str, status: CorridorReplyStatus, p: ProofResult| CorridorReplyOutcome { mv: mv(n), status, proof: p };
    let forced = corridor_defender_verdict(
        &t,
        att(),
        &[
            outcome("L8", CorridorReplyStatus::Forced, search_result(ProofStatus::ForcedWin, &["G8", "H8"], Vec::new())),
            outcome("G8", CorridorReplyStatus::Forced, search_result(ProofStatus::ForcedWin, &[], Vec::new())),
        ],
    );
    assert_eq!(forced.status, ProofStatus::ForcedWin);
    assert_eq!(forced.principal_line, vec![mv("L8"), mv("G8"), mv("H8")]);
    assert_eq!(forced.evidence[0].next_forcing_move, Some(mv("G8")));
    let escaped = corridor_defender_verdict(
        &t,
        att(),
        &[
            outcome("L8", CorridorReplyStatus::Escape, search_result(ProofStatus::EscapeFound, &[], Vec::new())),
            outcome("G8", CorridorReplyStatus::Forced, search_result(ProofStatus::ForcedWin, &[], Vec::new())),
            outcome("H9", CorridorReplyStatus::Escape, search_result(ProofStatus::EscapeFound, &[], Vec::new())),
        ],
    );
    assert_eq!(escaped.status, ProofStatus::EscapeFound);
    assert_eq!(escaped.escape_moves, vec![mv("L8"), mv("H9")]);
    assert_eq!(escaped.evidence[0].forced_replies, vec![mv("G8")]);
    let unknown = corridor_defender_verdict(
        &t,
        att(),
        &[outcome("L8", CorridorReplyStatus::Unknown, search_result(ProofStatus::Unknown, &[], vec![ProofLimitCause::OutsideScanWindow]))],
    );
    assert_eq!(unknown.status, ProofStatus::Unknown);
    assert_eq!(unknown.limit_causes, vec![ProofLimitCause::DefenderReplyUnknown, ProofLimitCause::OutsideScanWindow]);
}

#[test]
fn corridor_attacker_turns_follow_the_actual_move() {
    let child = search_result(ProofStatus::ForcedWin, &["G8"], vec![ProofLimitCause::DepthCutoff]);
    let win = corridor_attacker_verdict(Some(mv("H8")), Some(mv("A1")), true, true, &child);
    assert_eq!(win.status, ProofStatus::ForcedWin);
    assert_eq!(win.principal_line, vec![mv("H8")]);
    assert_eq!(corridor_attacker_verdict(None, None, true, true, &child).status, ProofStatus::EscapeFound);
    assert_eq!(corridor_attacker_verdict(None, Some(mv("A1")), false, true, &child).status, ProofStatus::EscapeFound);
    assert_eq!(corridor_attacker_verdict(None, Some(mv("A1")), true, false, &child).status, ProofStatus::Unknown);
    let forced = corridor_attacker_verdict(None, Some(mv("A1")), true, true, &child);
    assert_eq!(forced.principal_line, vec![mv("A1"), mv("G8")]);
    assert_eq!(forced.limit_causes, vec![ProofLimitCause::DepthCutoff]);
    let unknown = corridor_attacker_verdict(
        None,
        Some(mv("A1")),
        true,
        true,
        &search_result(ProofStatus::Unknown, &[], vec![ProofLimitCause::OutsideScanWindow]),
    );
    assert_eq!(unknown.principal_line, vec![mv("A1")]);
    assert_eq!(unknown.limit_causes, vec![ProofLimitCause::AttackerChildUnknown, ProofLimitCause::OutsideScanWindow]);
    let escaped = corridor_attacker_verdict(None, Some(mv("A1")), true, true, &search_result(ProofStatus::EscapeFound, &[], Vec::new()));
    assert_eq!(escaped.escape_moves, vec![mv("O15")]);
}

#[test]
fn report_corridors_find_the_first_losing_line() {
    let cutoff = corridor_report_verdict(0, true, None, &[]);
    assert_eq!(cutoff.outcome, DefenderReplyOutcome::Unknown);
    assert_eq!(cutoff.limit_causes, vec![ProofLimitCause::ForcedExtensionCutoff]);
    assert_eq!(corridor_report_verdict(2, false, None, &[]).outcome, DefenderReplyOutcome::Escape);
    let win = corridor_report_verdict(2, true, Some(mv("H8")), &[]);
    assert_eq!(win.outcome, DefenderReplyOutcome::ForcedLoss);
    assert_eq!(win.principal_line, vec![mv("H8")]);
    let probe = |outcome: DefenderReplyOutcome, line: Vec<Move>, causes: Vec<ProofLimitCause>| {
        ReportStep::Probed(DefenderReplyProof { outcome, principal_line: line, limit_causes: causes })
    };
    let children = vec![
        ReportChild { mv: mv("A1"), step: ReportStep::Skipped },
        ReportChild { mv: mv("B2"), step: probe(DefenderReplyOutcome::Unknown, Vec::new(), vec![ProofLimitCause::DepthCutoff]) },
        ReportChild { mv: mv("C3"), step: probe(DefenderReplyOutcome::ImmediateLoss, vec![mv("D4")], vec![ProofLimitCause::OutsideScanWindow]) },
        ReportChild { mv: mv("E5"), step: ReportStep::AttackerWins },
    ];
    let loss = corridor_report_verdict(2, true, None, &children);
    assert_eq!(loss.outcome, DefenderReplyOutcome::ForcedLoss);
    assert_eq!(loss.principal_line, vec![mv("C3"), mv("D4")]);
    assert_eq!(loss.limit_causes, vec![ProofLimitCause::OutsideScanWindow]);
    let unknown = corridor_report_verdict(2, true, None, &children[..2]);
    assert_eq!(unknown.outcome, DefenderReplyOutcome::Unknown);
    assert_eq!(unknown.limit_causes, vec![ProofLimitCause::DepthCutoff]);
    let wins = corridor_report_verdict(2, true, None, &children[3..]);
    assert_eq!(wins.principal_line, vec![mv("E5")]);
    assert_eq!(corridor_report_verdict(2, true, None, &children[..1]).outcome, DefenderReplyOutcome::Escape);
}
