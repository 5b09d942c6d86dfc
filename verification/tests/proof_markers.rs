use gomoku_eval::analysis::{DefenderReplyOutcome, DefenderReplyRole, ForcedInterval, ProofStatus};
use gomoku_eval::board::{Color, Move};
use gomoku_eval::proof_markers::{
    actual_frame_label, actual_marker_class, add_replay_annotation_markers, cell_classes,
    evidence_marker_kind_for_replay_highlight, marker_kind_for_replay_highlight,
    marker_kind_for_replay_marker, ReplayFrameAnnotations, ReplayFrameHighlight,
    ReplayFrameHighlightRole, ReplayFrameMarker, ReplayFrameMarkerRole, perspective_proof_status_label, add_marker_kind, corridor_entry_marker_kind,
    extend_unique_moves, has_immediate_tactical_hint, has_visible_tactical_hint,
    is_hint_marker_kind, marker_classes, marker_kind_for_defender_reply_role, marker_label,
    reply_line_label, reply_roles_label, upsert_marker, AnalysisBatchProofFrame,
    AnalysisBatchProofMarker, AnalysisBatchProofMarkerKind,
};
use gomoku_eval::published::DefenderReplyAnalysis;
use gomoku_eval::proof_markers::AnalysisBatchProofMarkerKind as K;

fn mv(notation: &str) -> Move {
    let chars: Vec<char> = notation.chars().collect();
    Move::from_notation(&chars).expect("test move notation should parse")
}

fn marker(kinds: Vec<AnalysisBatchProofMarkerKind>) -> AnalysisBatchProofMarker {
    let m = mv("H8");
    AnalysisBatchProofMarker { mv: m, notation: m.to_notation(), kinds }
}

#[test]
fn analysis_batch_proof_marker_labels_are_semantic_not_step_numbers() {
    assert_eq!(marker_label(&marker(vec![K::Winning])), "");
    assert_eq!(marker_label(&marker(vec![K::Threat, K::Actual])), "");
    assert_eq!(marker_label(&marker(vec![K::Actual])), "");
    assert_eq!(marker_label(&marker(vec![K::Threat])), "L");
    assert_eq!(marker_label(&marker(vec![K::Threat, K::Forbidden])), "F");
    assert_eq!(marker_label(&marker(vec![K::ImmediateLoss])), "!");
    assert_eq!(marker_label(&marker(vec![K::PossibleEscape])), "P");
}

#[test]
fn marker_labels_follow_their_priority() {
    assert_eq!(marker_label(&marker(vec![K::ForcedLoss])), "L");
    assert_eq!(marker_label(&marker(vec![K::ConfirmedEscape, K::PossibleEscape])), "E");
    assert_eq!(marker_label(&marker(vec![K::UnknownOutcome])), "?");
    assert_eq!(marker_label(&marker(vec![K::ImmediateLoss, K::Forbidden])), "F");
    assert_eq!(marker_label(&marker(vec![])), "");
}

#[test]
fn adding_kinds_keeps_one_marker_per_square_and_each_kind_once() {
    let mut markers: Vec<AnalysisBatchProofMarker> = Vec::new();
    add_marker_kind(&mut markers, &[mv("H8"), mv("I9"), mv("H8")], K::Threat);
    assert_eq!(markers.len(), 2);
    assert_eq!(markers[0].notation, "H8");
    assert_eq!(markers[0].kinds, vec![K::Threat]);
    add_marker_kind(&mut markers, &[mv("I9")], K::Forbidden);
    add_marker_kind(&mut markers, &[mv("I9")], K::Threat);
    assert_eq!(markers.len(), 2);
    assert_eq!(markers[1].kinds, vec![K::Threat, K::Forbidden]);
    let idx = upsert_marker(&mut markers, mv("A1"));
    assert_eq!(idx, 2);
    assert_eq!(markers[2].notation, "A1");
    assert!(markers[2].kinds.is_empty());
    assert_eq!(upsert_marker(&mut markers, mv("I9")), 1);
    assert_eq!(markers.len(), 3);
}

#[test]
fn hint_detection() {
    assert!(is_hint_marker_kind(K::CorridorEntryWhite));
    assert!(!is_hint_marker_kind(K::Actual));
    let quiet = vec![marker(vec![K::Actual, K::ForcedLoss])];
    assert!(!has_visible_tactical_hint(&quiet));
    assert!(!has_immediate_tactical_hint(&quiet));
    let imminent = vec![marker(vec![K::ImminentDefense])];
    assert!(has_visible_tactical_hint(&imminent));
    assert!(!has_immediate_tactical_hint(&imminent));
    let threat = vec![marker(vec![K::Actual]), marker(vec![K::Threat])];
    assert!(has_immediate_tactical_hint(&threat));
}

#[test]
fn role_and_color_markers() {
    assert_eq!(corridor_entry_marker_kind(Color::Black), K::CorridorEntryBlack);
    assert_eq!(corridor_entry_marker_kind(Color::White), K::CorridorEntryWhite);
    assert_eq!(marker_kind_for_defender_reply_role(DefenderReplyRole::Actual, None), None);
    assert_eq!(
        marker_kind_for_defender_reply_role(DefenderReplyRole::Actual, Some(K::Actual)),
        Some(K::Actual)
    );
    assert_eq!(
        marker_kind_for_defender_reply_role(DefenderReplyRole::ImmediateDefense, None),
        Some(K::Threat)
    );
    assert_eq!(actual_marker_class(Color::White), "marker--actual-white");
}

fn frame(label: &str, side: Color) -> AnalysisBatchProofFrame {
    AnalysisBatchProofFrame {
        label: label.to_string(),
        ply: 9,
        side_to_move: side,
        status: ProofStatus::ForcedWin,
        move_played: None,
        move_played_notation: None,
        lethal_onset_reached: false,
        rows: Vec::new(),
        markers: Vec::new(),
        reply_outcomes: Vec::new(),
    }
}

#[test]
fn marker_classes_hide_winning_on_the_actual_winning_move() {
    let m = marker(vec![K::Winning, K::Actual]);
    assert_eq!(
        marker_classes(&frame("winning_ply", Color::Black), &m),
        vec!["marker--actual", "marker--side-black", "marker--actual-black"]
    );
    assert_eq!(
        marker_classes(&frame("actual_ply_8", Color::White), &m),
        vec!["marker--winning", "marker--actual", "marker--side-white", "marker--actual-white"]
    );
    let t = marker(vec![K::Threat, K::Forbidden]);
    assert_eq!(
        marker_classes(&frame("winning_ply", Color::White), &t),
        vec!["marker--threat", "marker--forbidden", "marker--side-white"]
    );
}

#[test]
fn frame_labels_and_reply_labels() {
    let interval = ForcedInterval { start_ply: 8, end_ply: 11 };
    assert_eq!(actual_frame_label(11, &interval), "winning_ply");
    assert_eq!(actual_frame_label(9, &interval), "actual_ply_9");
    assert_eq!(
        reply_roles_label(&[DefenderReplyRole::ImminentDefense, DefenderReplyRole::OffensiveCounter]),
        "imminent + offensive"
    );
    assert_eq!(reply_roles_label(&[]), "");
    let reply = DefenderReplyAnalysis {
        mv: mv("I10"),
        notation: "I10".to_string(),
        roles: vec![DefenderReplyRole::ImminentDefense],
        outcome: DefenderReplyOutcome::Escape,
        principal_line: vec![mv("I11")],
        principal_line_notation: vec!["I11".to_string(), "J12".to_string()],
        limit_causes: Vec::new(),
    };
    assert_eq!(reply_line_label(&reply), "I10 I11 J12");
    let quiet = DefenderReplyAnalysis { principal_line_notation: Vec::new(), ..reply };
    assert_eq!(reply_line_label(&quiet), "-");
}

#[test]
fn unique_moves_extend_in_order() {
    let mut target = vec![mv("A1")];
    extend_unique_moves(&mut target, &[mv("B2"), mv("A1"), mv("B2"), mv("C3")]);
    assert_eq!(target, vec![mv("A1"), mv("B2"), mv("C3")]);
}

#[test]
fn proof_status_reads_from_each_side() {
    let mut f = frame("turn", Color::Black);
    assert_eq!(perspective_proof_status_label(&f, Color::Black), "forced win");
    assert_eq!(perspective_proof_status_label(&f, Color::White), "forced loss");
    f.lethal_onset_reached = true;
    assert_eq!(perspective_proof_status_label(&f, Color::Black), "guaranteed win");
    assert_eq!(perspective_proof_status_label(&f, Color::White), "guaranteed loss");
    f.status = ProofStatus::EscapeFound;
    assert_eq!(perspective_proof_status_label(&f, Color::Black), "win not forced");
    assert_eq!(perspective_proof_status_label(&f, Color::White), "can escape");
    f.status = ProofStatus::Unknown;
    assert_eq!(perspective_proof_status_label(&f, Color::White), "unknown");
}

#[test]
fn cell_classes_join_stone_and_marker_classes() {
    let f = frame("turn", Color::White);
    assert_eq!(cell_classes(&f, '.', None), "proof-cell");
    assert_eq!(cell_classes(&f, 'B', None), "proof-cell proof-cell--stone-black");
    assert_eq!(cell_classes(&f, 'W', None), "proof-cell proof-cell--stone-white");
    let m = marker(vec![K::Threat]);
    let expected_tail = marker_classes(&f, &m).join(" ");
    assert_eq!(
        cell_classes(&f, 'B', Some(&m)),
        format!("proof-cell proof-cell--stone-black {expected_tail}")
    );
}

#[test]
fn replay_roles_map_to_marker_kinds() {
    assert_eq!(marker_kind_for_replay_marker(ReplayFrameMarkerRole::ConfirmedEscape), K::ConfirmedEscape);
    assert_eq!(marker_kind_for_replay_marker(ReplayFrameMarkerRole::Unknown), K::UnknownOutcome);
    assert_eq!(marker_kind_for_replay_highlight(ReplayFrameHighlightRole::ImmediateThreat, Color::White), K::Threat);
    assert_eq!(marker_kind_for_replay_highlight(ReplayFrameHighlightRole::CorridorEntry, Color::White), K::CorridorEntryWhite);
    assert_eq!(evidence_marker_kind_for_replay_highlight(ReplayFrameHighlightRole::ImmediateWin), Some(K::WinningEvidence));
    assert_eq!(evidence_marker_kind_for_replay_highlight(ReplayFrameHighlightRole::CorridorEntry), None);
}

#[test]
fn replay_annotations_mark_each_square_once() {
    let annotation = ReplayFrameAnnotations {
        evidence: vec![
            ReplayFrameHighlight { mv: mv("H8"), role: ReplayFrameHighlightRole::ImmediateThreat, side: Color::Black },
            ReplayFrameHighlight { mv: mv("I9"), role: ReplayFrameHighlightRole::CorridorEntry, side: Color::Black },
        ],
        highlights: vec![ReplayFrameHighlight {
            mv: mv("H8"),
            role: ReplayFrameHighlightRole::ImmediateThreat,
            side: Color::Black,
        }],
        markers: vec![ReplayFrameMarker { mv: mv("J10"), role: ReplayFrameMarkerRole::ForcedLoss }],
    };
    let mut markers: Vec<AnalysisBatchProofMarker> = Vec::new();
    add_replay_annotation_markers(&mut markers, &annotation);
    assert_eq!(markers.len(), 2);
    assert_eq!(markers[0].notation, "H8");
    assert_eq!(markers[0].kinds, vec![K::ThreatEvidence, K::Threat]);
    assert_eq!(markers[1].notation, "J10");
    assert_eq!(markers[1].kinds, vec![K::ForcedLoss]);
}
