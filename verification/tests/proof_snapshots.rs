use gomoku_eval::analysis::{
    analysis_model, attacker_node_verdict, count_proof_status, ChildProof, first_forced_principal_line, forced_corridor_replies,
    CorridorReplyOutcome, CorridorReplyStatus, EvidenceAttribution, ProofTrace, ThreatEvidenceInput,
    ThreatReplySet, push_reply_role, with_limit_causes, AnalysisOptions,
    DefenderReplyRole, ForcedInterval, ProofLimitCause, ProofResult, ProofStatus,
    ReplyClassification, RootCause, ThreatSequenceEvidence, UnclearReason,
};
use gomoku_eval::board::{BoardGrid, Color, Move, Variant};
use gomoku_eval::proof_snapshots::{
    actual_move_at_ply, board_snapshot, collect_evidence_moves, first_corridor_branch_evidence,
    pre_corridor_escape_entry_move, next_attacker_move_after_defender_reply,
    proof_frame_start_ply, proof_limit_causes_from_evidence, proof_limit_hit_from_evidence, proof_snapshot,
    unclear_context, EvidenceSquares, Position,
};

fn mv(notation: &str) -> Move {
    let chars: Vec<char> = notation.chars().collect();
    Move::from_notation(&chars).expect("test move notation should parse")
}

fn evidence(winning: &[&str], escapes: &[&str], causes: Vec<ProofLimitCause>, limit_hit: bool) -> ThreatSequenceEvidence {
    ThreatSequenceEvidence {
        prefix_ply: Some(3),
        attacker: Color::Black,
        defender: Color::White,
        winning_squares: winning.iter().map(|n| mv(n)).collect(),
        raw_cost_squares: Vec::new(),
        legal_cost_squares: vec![mv("A1")],
        illegal_cost_squares: Vec::new(),
        defender_immediate_wins: Vec::new(),
        actual_reply: None,
        reply_classification: ReplyClassification::BlockedButForced,
        escape_replies: escapes.iter().map(|n| mv(n)).collect(),
        forced_replies: Vec::new(),
        next_forcing_move: None,
        proof_status: ProofStatus::ForcedWin,
        limit_hit,
        limit_causes: causes,
    }
}

fn proof_with(evs: Vec<ThreatSequenceEvidence>) -> ProofResult {
    ProofResult {
        status: ProofStatus::EscapeFound,
        attacker: Color::Black,
        side_to_move: Color::White,
        model: analysis_model(&Variant::Freestyle, &AnalysisOptions::default_options()),
        principal_line: vec![mv("H8"), mv("I9")],
        escape_moves: vec![mv("C3")],
        threat_evidence: evs,
        limit_hit: false,
        limit_causes: Vec::new(),
    }
}

#[test]
fn snapshots_gather_evidence_without_repeats() {
    let proof = proof_with(vec![
        evidence(&["G8", "L8"], &["B2"], vec![ProofLimitCause::OutsideScanWindow], false),
        evidence(&["L8", "M8"], &["C3", "D4"], vec![ProofLimitCause::DepthCutoff], true),
    ]);
    assert_eq!(collect_evidence_moves(&proof, EvidenceSquares::Winning), vec![mv("G8"), mv("L8"), mv("M8")]);
    assert_eq!(collect_evidence_moves(&proof, EvidenceSquares::LegalCost), vec![mv("A1")]);
    let snap = proof_snapshot(5, &proof);
    assert_eq!(snap.prefix_ply, 5);
    assert_eq!(snap.reply_classification, Some(ReplyClassification::BlockedButForced));
    assert_eq!(snap.escape_replies, vec![mv("C3"), mv("B2"), mv("D4")]);
    assert_eq!(snap.principal_line_notation, vec!["H8", "I9"]);
    assert!(snap.forced_replies.is_empty());
    assert_eq!(
        proof_limit_causes_from_evidence(&proof.threat_evidence),
        vec![ProofLimitCause::DepthCutoff, ProofLimitCause::OutsideScanWindow]
    );
    assert!(proof_limit_hit_from_evidence(&proof.threat_evidence));
    let quiet = vec![evidence(&[], &[], Vec::new(), false)];
    assert!(!proof_limit_hit_from_evidence(&quiet));
    assert!(!proof_limit_hit_from_evidence(&[]));
    assert_eq!(proof_snapshot(0, &proof_with(Vec::new())).reply_classification, None);
}

#[test]
fn principal_line_reply_and_board_snapshots() {
    assert_eq!(next_attacker_move_after_defender_reply(&[mv("A1"), mv("B2")]), Some(mv("B2")));
    assert_eq!(next_attacker_move_after_defender_reply(&[mv("A1")]), None);
    let grid = BoardGrid { size: 2, cells: vec![Some(Color::Black), None, None, Some(Color::White)] };
    let snap = board_snapshot("start", 2, &Position { grid, current_player: Color::Black });
    assert_eq!(snap.label, "start");
    assert_eq!(snap.rows, vec!["B.", ".W"]);
    assert_eq!(snap.side_to_move, Color::Black);
}

#[test]
fn unclear_context_reports_previous_prefix_and_boards() {
    let positions: Vec<Position> = (0..4)
        .map(|ply| Position {
            grid: BoardGrid { size: 2, cells: vec![None; 4] },
            current_player: if ply % 2 == 0 { Color::Black } else { Color::White },
        })
        .collect();
    let mut unknown = proof_with(Vec::new());
    unknown.status = ProofStatus::Unknown;
    unknown.limit_causes = vec![ProofLimitCause::DepthCutoff];
    let forced = proof_with(Vec::new());
    let proofs = vec![unknown, forced];
    let interval = ForcedInterval { start_ply: 3, end_ply: 3 };
    let ctx = unclear_context(
        RootCause::Unclear,
        Some(UnclearReason::ProofLimitHit),
        &interval,
        &proofs,
        2,
        &positions,
        Color::Black,
        &[mv("A1")],
        3,
    )
    .unwrap();
    assert_eq!(ctx.previous_prefix_ply, Some(2));
    assert_eq!(ctx.previous_proof_status, Some(ProofStatus::Unknown));
    assert_eq!(ctx.previous_proof_limit_hit, Some(true));
    assert_eq!(ctx.previous_limit_causes, vec![ProofLimitCause::DepthCutoff]);
    assert_eq!(ctx.previous_side_to_move, Some(Color::Black));
    assert_eq!(ctx.scan_end_ply, Some(3));
    assert_eq!(ctx.snapshots.len(), 2);
    assert_eq!(ctx.snapshots[0].label, "previous_prefix");
    assert_eq!(ctx.snapshots[1].label, "final_forced_start");
    assert_eq!(ctx.principal_line_notation, vec!["A1"]);

    let outside = unclear_context(
        RootCause::Unclear,
        Some(UnclearReason::ScanWindowCutoff),
        &ForcedInterval { start_ply: 1, end_ply: 3 },
        &proofs,
        2,
        &positions,
        Color::Black,
        &[],
        3,
    )
    .unwrap();
    assert_eq!(outside.previous_proof_status, None);
    assert_eq!(outside.previous_limit_causes, vec![ProofLimitCause::OutsideScanWindow]);

    assert!(unclear_context(RootCause::MissedDefense, Some(UnclearReason::ScanWindowCutoff), &interval, &proofs, 2, &positions, Color::Black, &[], 3).is_none());
    assert!(unclear_context(RootCause::Unclear, Some(UnclearReason::DrawOrOngoing), &interval, &proofs, 2, &positions, Color::Black, &[], 3).is_none());
    assert!(unclear_context(RootCause::Unclear, None, &interval, &proofs, 2, &positions, Color::Black, &[], 3).is_none());
}

#[test]
fn proof_frames_open_on_the_attacker_move() {
    let positions: Vec<Position> = (0..6)
        .map(|ply| Position {
            grid: BoardGrid { size: 2, cells: vec![None; 4] },
            current_player: if ply % 2 == 0 { Color::Black } else { Color::White },
        })
        .collect();
    // Position after 3 plies has White (the loser) to move: step back one ply.
    assert_eq!(proof_frame_start_ply(&positions, Some(Color::Black), ForcedInterval { start_ply: 4, end_ply: 5 }), 3);
    // Position after 4 plies has Black to move: keep the start.
    assert_eq!(proof_frame_start_ply(&positions, Some(Color::Black), ForcedInterval { start_ply: 5, end_ply: 5 }), 5);
    assert_eq!(proof_frame_start_ply(&positions, None, ForcedInterval { start_ply: 4, end_ply: 5 }), 4);
    assert_eq!(proof_frame_start_ply(&positions, Some(Color::Black), ForcedInterval { start_ply: 1, end_ply: 5 }), 1);
    assert_eq!(proof_frame_start_ply(&positions, Some(Color::Black), ForcedInterval { start_ply: 9, end_ply: 9 }), 9);
}

#[test]
fn limit_causes_added_set_the_limit_flag() {
    let proof = proof_with(Vec::new());
    let same = with_limit_causes(proof.clone(), &[]);
    assert!(!same.limit_hit);
    assert!(same.limit_causes.is_empty());
    let out = with_limit_causes(
        proof,
        &[ProofLimitCause::OutsideScanWindow, ProofLimitCause::DepthCutoff, ProofLimitCause::DepthCutoff],
    );
    assert!(out.limit_hit);
    assert_eq!(out.limit_causes, vec![ProofLimitCause::DepthCutoff, ProofLimitCause::OutsideScanWindow]);
    assert_eq!(out.principal_line, vec![mv("H8"), mv("I9")]);
}

#[test]
fn proof_statuses_are_counted() {
    let mut unknown = proof_with(Vec::new());
    unknown.status = ProofStatus::Unknown;
    let summary = vec![proof_with(Vec::new()), unknown.clone(), unknown, proof_with(Vec::new())];
    assert_eq!(count_proof_status(&summary, ProofStatus::Unknown), 2);
    assert_eq!(count_proof_status(&summary, ProofStatus::EscapeFound), 2);
    assert_eq!(count_proof_status(&summary, ProofStatus::ForcedWin), 0);
    assert_eq!(count_proof_status(&[], ProofStatus::ForcedWin), 0);
}

#[test]
fn reply_roles_keep_one_entry_per_move() {
    let mut replies: Vec<(Move, Vec<DefenderReplyRole>)> = Vec::new();
    push_reply_role(&mut replies, mv("H8"), DefenderReplyRole::ImmediateDefense);
    push_reply_role(&mut replies, mv("I9"), DefenderReplyRole::OffensiveCounter);
    push_reply_role(&mut replies, mv("H8"), DefenderReplyRole::Actual);
    push_reply_role(&mut replies, mv("H8"), DefenderReplyRole::ImmediateDefense);
    assert_eq!(
        replies,
        vec![
            (mv("H8"), vec![DefenderReplyRole::ImmediateDefense, DefenderReplyRole::Actual]),
            (mv("I9"), vec![DefenderReplyRole::OffensiveCounter]),
        ]
    );
}

#[test]
fn corridor_lines_follow_the_first_forced_reply() {
    let mut forced_proof = proof_with(Vec::new());
    forced_proof.principal_line = vec![mv("K8"), mv("L8")];
    let outcomes = vec![
        CorridorReplyOutcome { mv: mv("A1"), status: CorridorReplyStatus::Unknown, proof: proof_with(Vec::new()) },
        CorridorReplyOutcome { mv: mv("B2"), status: CorridorReplyStatus::Forced, proof: forced_proof },
        CorridorReplyOutcome { mv: mv("C3"), status: CorridorReplyStatus::Forced, proof: proof_with(Vec::new()) },
        CorridorReplyOutcome { mv: mv("D4"), status: CorridorReplyStatus::Escape, proof: proof_with(Vec::new()) },
    ];
    assert_eq!(forced_corridor_replies(&outcomes), vec![mv("B2"), mv("C3")]);
    assert_eq!(first_forced_principal_line(&outcomes), vec![mv("B2"), mv("K8"), mv("L8")]);
    assert!(first_forced_principal_line(&outcomes[3..]).is_empty());
    assert!(forced_corridor_replies(&[]).is_empty());
}

#[test]
fn traces_follow_the_actual_game() {
    let moves = vec![mv("H8"), mv("I9"), mv("J10")];
    let trace = ProofTrace { actual_moves: &moves, prefix_ply: 1 };
    let a = trace.attribution();
    assert_eq!(a, EvidenceAttribution { prefix_ply: Some(1), actual_reply: Some(mv("I9")) });
    let next = trace.after_move(mv("I9")).expect("the played move keeps the trace");
    assert_eq!(next.prefix_ply, 2);
    assert!(trace.after_move(mv("A1")).is_none());
    let end = ProofTrace { actual_moves: &moves, prefix_ply: 3 };
    assert_eq!(end.attribution().actual_reply, None);
    assert!(end.after_move(mv("A1")).is_none());
    assert_eq!(EvidenceAttribution::none(), EvidenceAttribution { prefix_ply: None, actual_reply: None });
}

#[test]
fn threat_evidence_records_the_threat_and_the_findings() {
    let threat = ThreatReplySet {
        attacker: Color::Black,
        defender: Color::White,
        winning_squares: vec![mv("L8")],
        raw_cost_squares: vec![mv("L8"), mv("G8")],
        legal_cost_squares: vec![mv("L8")],
        illegal_cost_squares: vec![mv("G8")],
        defender_immediate_wins: Vec::new(),
        local_threat_count: 1,
        local_threat_replies: vec![mv("L8")],
        reply_moves: vec![mv("L8")],
    };
    let ev = threat.evidence(ThreatEvidenceInput {
        attribution: EvidenceAttribution { prefix_ply: Some(7), actual_reply: Some(mv("A1")) },
        reply_classification: ReplyClassification::Escaped,
        escape_replies: vec![mv("L8")],
        forced_replies: Vec::new(),
        next_forcing_move: None,
        proof_status: ProofStatus::EscapeFound,
        limit_causes: Vec::new(),
    });
    assert_eq!(ev.prefix_ply, Some(7));
    assert_eq!(ev.actual_reply, Some(mv("A1")));
    assert_eq!(ev.illegal_cost_squares, vec![mv("G8")]);
    assert_eq!(ev.escape_replies, vec![mv("L8")]);
    assert!(!ev.limit_hit);
    let limited = threat.evidence(ThreatEvidenceInput {
        attribution: EvidenceAttribution::none(),
        reply_classification: ReplyClassification::Unknown,
        escape_replies: Vec::new(),
        forced_replies: vec![mv("L8")],
        next_forcing_move: Some(mv("M8")),
        proof_status: ProofStatus::Unknown,
        limit_causes: vec![ProofLimitCause::DefenderReplyUnknown],
    });
    assert!(limited.limit_hit);
    assert_eq!(limited.next_forcing_move, Some(mv("M8")));
}

#[test]
fn corridor_entry_comes_from_the_escape_position() {
    let moves = vec![mv("H8"), mv("A1"), mv("I9"), mv("B2"), mv("J10")];
    assert_eq!(actual_move_at_ply(&moves, 1), Some(mv("H8")));
    assert_eq!(actual_move_at_ply(&moves, 0), None);
    assert_eq!(actual_move_at_ply(&moves, 6), None);
    let interval = ForcedInterval { start_ply: 3, end_ply: 5 };
    let escape = proof_with(Vec::new());
    let mut forced = proof_with(Vec::new());
    forced.status = ProofStatus::ForcedWin;
    forced.principal_line = vec![mv("K11"), mv("L12")];
    assert_eq!(pre_corridor_escape_entry_move(&moves, interval.clone(), 3, Some(&escape), None), Some(mv("B2")));
    assert_eq!(pre_corridor_escape_entry_move(&moves, interval.clone(), 4, Some(&forced), Some(&escape)), Some(mv("K11")));
    assert_eq!(pre_corridor_escape_entry_move(&moves, interval.clone(), 4, Some(&forced), Some(&forced)), None);
    assert_eq!(pre_corridor_escape_entry_move(&moves, interval, 2, Some(&escape), None), None);
}

#[test]
fn corridor_branch_evidence_comes_from_the_first_matching_reply() {
    let first = proof_with(vec![evidence(&["G8"], &[], Vec::new(), false)]);
    let second = proof_with(vec![evidence(&["M8"], &[], Vec::new(), false), evidence(&["N8"], &[], Vec::new(), true)]);
    let outcomes = vec![
        CorridorReplyOutcome { mv: mv("A1"), status: CorridorReplyStatus::Forced, proof: first },
        CorridorReplyOutcome { mv: mv("B2"), status: CorridorReplyStatus::Escape, proof: second.clone() },
    ];
    assert_eq!(first_corridor_branch_evidence(&outcomes, CorridorReplyStatus::Escape), second.threat_evidence);
    assert!(first_corridor_branch_evidence(&outcomes, CorridorReplyStatus::Unknown).is_empty());
}

#[test]
fn attacker_nodes_need_one_forcing_move() {
    let child = |n: &str, status: ProofStatus, line: Vec<Move>, causes: Vec<ProofLimitCause>| ChildProof {
        mv: mv(n),
        status,
        principal_line: line,
        limit_causes: causes,
    };
    let win = attacker_node_verdict(Some(mv("H8")), &[]);
    assert_eq!(win.status, ProofStatus::ForcedWin);
    assert_eq!(win.principal_line, vec![mv("H8")]);
    let children = vec![
        child("A1", ProofStatus::Unknown, Vec::new(), vec![ProofLimitCause::OutsideScanWindow]),
        child("B2", ProofStatus::ForcedWin, vec![mv("C3")], vec![ProofLimitCause::DepthCutoff]),
        child("D4", ProofStatus::ForcedWin, Vec::new(), Vec::new()),
    ];
    let forced = attacker_node_verdict(None, &children);
    assert_eq!(forced.status, ProofStatus::ForcedWin);
    assert_eq!(forced.principal_line, vec![mv("B2"), mv("C3")]);
    assert_eq!(forced.limit_causes, vec![ProofLimitCause::DepthCutoff]);
    let unknown = attacker_node_verdict(
        None,
        &[
            child("A1", ProofStatus::Unknown, Vec::new(), vec![ProofLimitCause::OutsideScanWindow]),
            child("E5", ProofStatus::EscapeFound, Vec::new(), Vec::new()),
            child("F6", ProofStatus::Unknown, Vec::new(), vec![ProofLimitCause::DepthCutoff]),
        ],
    );
    assert_eq!(unknown.status, ProofStatus::Unknown);
    assert_eq!(
        unknown.limit_causes,
        vec![ProofLimitCause::DepthCutoff, ProofLimitCause::OutsideScanWindow, ProofLimitCause::AttackerChildUnknown]
    );
    let escape = attacker_node_verdict(None, &[child("E5", ProofStatus::EscapeFound, Vec::new(), Vec::new())]);
    assert_eq!(escape.status, ProofStatus::EscapeFound);
    assert!(escape.limit_causes.is_empty());
}
