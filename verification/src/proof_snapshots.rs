//! Snapshots of proof results for a batch report: the evidence squares
//! gathered without repeats, the limit causes a proof carries, and the
//! board and context shown when a root cause stays unclear.
use vstd::prelude::*;
use crate::analysis::{
    append_missing, extend_limit_causes, sorted_causes, CorridorReplyOutcome, CorridorReplyStatus,
    ForcedInterval, ProofLimitCause,
    ProofResult, ProofStatus, ReplyClassification, RootCause, ThreatSequenceEvidence,
    UnclearReason,
};
use crate::board::{board_rows, copy_moves, notation_spec, row_chars_spec, BoardGrid, Color, Move};
use crate::fixture::move_texts;
use crate::lethal::notation_list;
use crate::proof_markers::{extend_unique_moves, extend_unique_spec};
use crate::replay_summary::{has_limit_hit, proof_at, proof_index};
use crate::text::strings_view;

verus! {

/// Which squares of a threat sequence's evidence to gather.
#[derive(Debug, Clone, Copy, PartialEq, Eq, Structural)]
pub enum EvidenceSquares {
    Winning,
    LegalCost,
    IllegalCost,
    DefenderImmediateWins,
    EscapeReplies,
    ForcedReplies,
}

/// The squares of one evidence record that `which` names.
pub open spec fn evidence_squares(e: ThreatSequenceEvidence, which: EvidenceSquares) -> Seq<Move> {
    match which {
        EvidenceSquares::Winning => e.winning_squares@,
        EvidenceSquares::LegalCost => e.legal_cost_squares@,
        EvidenceSquares::IllegalCost => e.illegal_cost_squares@,
        EvidenceSquares::DefenderImmediateWins => e.defender_immediate_wins@,
        EvidenceSquares::EscapeReplies => e.escape_replies@,
        EvidenceSquares::ForcedReplies => e.forced_replies@,
    }
}

/// `start` extended, record by record, with the named squares of each
/// evidence record not present yet.
pub open spec fn gathered(start: Seq<Move>, evs: Seq<ThreatSequenceEvidence>, which: EvidenceSquares) -> Seq<Move>
    decreases evs.len(),
{
    if evs.len() == 0 {
        start
    } else {
        extend_unique_spec(gathered(start, evs.drop_last(), which), evidence_squares(evs.last(), which))
    }
}

fn squares_of(e: &ThreatSequenceEvidence, which: EvidenceSquares) -> (r: &Vec<Move>)
    ensures
        r@ == evidence_squares(*e, which),
{
    match which {
        EvidenceSquares::Winning => &e.winning_squares,
        EvidenceSquares::LegalCost => &e.legal_cost_squares,
        EvidenceSquares::IllegalCost => &e.illegal_cost_squares,
        EvidenceSquares::DefenderImmediateWins => &e.defender_immediate_wins,
        EvidenceSquares::EscapeReplies => &e.escape_replies,
        EvidenceSquares::ForcedReplies => &e.forced_replies,
    }
}

fn gather_into(target: &mut Vec<Move>, evs: &Vec<ThreatSequenceEvidence>, which: EvidenceSquares)
    ensures
        final(target)@ == gathered(old(target)@, evs@, which),
{
    let ghost start = target@;
    let mut i: usize = 0;
    while i < evs.len()
        invariant
            i <= evs.len(),
            start == old(target)@,
            target@ == gathered(start, evs@.take(i as int), which),
        decreases evs.len() - i,
    {
        assert(evs@.take(i + 1).drop_last() =~= evs@.take(i as int));
        assert(evs@.take(i + 1).last() == evs@[i as int]);
        let squares = squares_of(&evs[i], which);
        extend_unique_moves(target, squares.as_slice());
        i += 1;
    }
    assert(evs@.take(evs.len() as int) =~= evs@);
}

/// The squares of the proof's evidence that `which` names, each once, in
/// the order met.
pub fn collect_evidence_moves(proof: &ProofResult, which: EvidenceSquares) -> (r: Vec<Move>)
    ensures
        r@ == gathered(Seq::empty(), proof.threat_evidence@, which),
{
    let mut moves: Vec<Move> = Vec::new();
    gather_into(&mut moves, &proof.threat_evidence, which);
    moves
}

/// A proof result as a batch report shows it at one prefix.
#[derive(Debug, Clone, PartialEq, Eq)]
pub struct AnalysisBatchProofSnapshot {
    pub prefix_ply: usize,
    pub attacker: Color,
    pub side_to_move: Color,
    pub status: ProofStatus,
    pub reply_classification: Option<ReplyClassification>,
    pub winning_squares: Vec<Move>,
    pub legal_cost_squares: Vec<Move>,
    pub illegal_cost_squares: Vec<Move>,
    pub defender_immediate_wins: Vec<Move>,
    pub escape_replies: Vec<Move>,
    pub forced_replies: Vec<Move>,
    pub principal_line: Vec<Move>,
    pub principal_line_notation: Vec<String>,
    pub limit_hit: bool,
    pub limit_causes: Vec<ProofLimitCause>,
}

/// Every move of the list has a column letter and a row number.
pub open spec fn notatable(moves: Seq<Move>) -> bool {
    forall|i: int| 0 <= i < moves.len() ==> (#[trigger] moves[i]).col < 26 && moves[i].row < usize::MAX
}

fn copy_causes(v: &Vec<ProofLimitCause>) -> (r: Vec<ProofLimitCause>)
    ensures
        r@ == v@,
{
    let mut r: Vec<ProofLimitCause> = Vec::new();
    let mut k: usize = 0;
    while k < v.len()
        invariant
            k <= v.len(),
            r@ == v@.take(k as int),
        decreases v.len() - k,
    {
        r.push(v[k]);
        assert(v@.take(k + 1) =~= v@.take(k as int).push(v@[k as int]));
        k += 1;
    }
    assert(v@.take(v.len() as int) =~= v@);
    r
}

/// The snapshot of a proof result at `prefix_ply`: its status and sides,
/// the first evidence record's reply classification, the evidence squares
/// of each kind gathered without repeats (escape replies after the proof's
/// own escape moves), and its principal line and limits.
pub open spec fn snapshot_agrees(prefix_ply: usize, proof: ProofResult, s: AnalysisBatchProofSnapshot) -> bool {
    let evs = proof.threat_evidence@;
    &&& s.prefix_ply == prefix_ply
    &&& s.attacker == proof.attacker
    &&& s.side_to_move == proof.side_to_move
    &&& s.status == proof.status
    &&& s.reply_classification == (if evs.len() > 0 {
        Some(evs[0].reply_classification)
    } else {
        None
    })
    &&& s.winning_squares@ == gathered(Seq::empty(), evs, EvidenceSquares::Winning)
    &&& s.legal_cost_squares@ == gathered(Seq::empty(), evs, EvidenceSquares::LegalCost)
    &&& s.illegal_cost_squares@ == gathered(Seq::empty(), evs, EvidenceSquares::IllegalCost)
    &&& s.defender_immediate_wins@ == gathered(
        Seq::empty(),
        evs,
        EvidenceSquares::DefenderImmediateWins,
    )
    &&& s.escape_replies@ == gathered(proof.escape_moves@, evs, EvidenceSquares::EscapeReplies)
    &&& s.forced_replies@ == gathered(Seq::empty(), evs, EvidenceSquares::ForcedReplies)
    &&& s.principal_line@ == proof.principal_line@
    &&& strings_view(s.principal_line_notation@) == move_texts(proof.principal_line@)
    &&& s.limit_hit == proof.limit_hit
    &&& s.limit_causes@ == proof.limit_causes@
}

/// The report snapshot of the proof result at `prefix_ply`.
pub fn proof_snapshot(prefix_ply: usize, proof: &ProofResult) -> (r: AnalysisBatchProofSnapshot)
    requires
        notatable(proof.principal_line@),
    ensures
        snapshot_agrees(prefix_ply, *proof, r),
{
    let mut escape_replies = copy_moves(proof.escape_moves.as_slice());
    gather_into(&mut escape_replies, &proof.threat_evidence, EvidenceSquares::EscapeReplies);
    let reply_classification = if proof.threat_evidence.len() > 0 {
        Some(proof.threat_evidence[0].reply_classification)
    } else {
        None
    };
    AnalysisBatchProofSnapshot {
        prefix_ply,
        attacker: proof.attacker,
        side_to_move: proof.side_to_move,
        status: proof.status,
        reply_classification,
        winning_squares: collect_evidence_moves(proof, EvidenceSquares::Winning),
        legal_cost_squares: collect_evidence_moves(proof, EvidenceSquares::LegalCost),
        illegal_cost_squares: collect_evidence_moves(proof, EvidenceSquares::IllegalCost),
        defender_immediate_wins: collect_evidence_moves(
            proof,
            EvidenceSquares::DefenderImmediateWins,
        ),
        escape_replies,
        forced_replies: collect_evidence_moves(proof, EvidenceSquares::ForcedReplies),
        principal_line: copy_moves(proof.principal_line.as_slice()),
        principal_line_notation: notation_list(proof.principal_line.as_slice()),
        limit_hit: proof.limit_hit,
        limit_causes: copy_causes(&proof.limit_causes),
    }
}

/// The limit causes met over the evidence records, each once, in
/// declaration order.
pub open spec fn evidence_causes(evs: Seq<ThreatSequenceEvidence>) -> Seq<ProofLimitCause>
    decreases evs.len(),
{
    if evs.len() == 0 {
        Seq::empty()
    } else {
        sorted_causes(append_missing(evidence_causes(evs.drop_last()), evs.last().limit_causes@))
    }
}

/// The limit causes of a proof's evidence, each once, in declaration order.
pub fn proof_limit_causes_from_evidence(threat_evidence: &[ThreatSequenceEvidence]) -> (r: Vec<
    ProofLimitCause,
>)
    ensures
        r@ == evidence_causes(threat_evidence@),
{
    let mut causes: Vec<ProofLimitCause> = Vec::new();
    let mut i: usize = 0;
    while i < threat_evidence.len()
        invariant
            i <= threat_evidence.len(),
            causes@ == evidence_causes(threat_evidence@.take(i as int)),
        decreases threat_evidence.len() - i,
    {
        assert(threat_evidence@.take(i + 1).drop_last() =~= threat_evidence@.take(i as int));
        assert(threat_evidence@.take(i + 1).last() == threat_evidence@[i as int]);
        extend_limit_causes(&mut causes, threat_evidence[i].limit_causes.as_slice());
        i += 1;
    }
    assert(threat_evidence@.take(threat_evidence.len() as int) =~= threat_evidence@);
    causes
}

/// Whether the evidence shows a limit: some cause was met, or some record
/// says a limit was hit.
pub fn proof_limit_hit_from_evidence(threat_evidence: &[ThreatSequenceEvidence]) -> (r: bool)
    ensures
        r == (evidence_causes(threat_evidence@).len() > 0 || exists|i: int|
            0 <= i < threat_evidence@.len() && (#[trigger] threat_evidence@[i]).limit_hit),
{
    let causes = proof_limit_causes_from_evidence(threat_evidence);
    if causes.len() > 0 {
        return true;
    }
    let mut i: usize = 0;
    while i < threat_evidence.len()
        invariant
            i <= threat_evidence.len(),
            forall|j: int| 0 <= j < i ==> !(#[trigger] threat_evidence@[j]).limit_hit,
        decreases threat_evidence.len() - i,
    {
        if threat_evidence[i].limit_hit {
            return true;
        }
        i += 1;
    }
    false
}

/// The attacker's move after a defender reply on a principal line: its
/// second move.
pub fn next_attacker_move_after_defender_reply(principal_line: &[Move]) -> (r: Option<Move>)
    ensures
        r == (if principal_line@.len() >= 2 {
            Some(principal_line@[1])
        } else {
            None
        }),
{
    if principal_line.len() >= 2 {
        Some(principal_line[1])
    } else {
        None
    }
}

/// A board position as the analysis reads it: the stones and whose turn it
/// is.
#[derive(Debug, Clone, PartialEq, Eq)]
pub struct Position {
    pub grid: BoardGrid,
    pub current_player: Color,
}

/// A labelled picture of a board at a ply.
#[derive(Debug, Clone, PartialEq, Eq)]
pub struct AnalysisBoardSnapshot {
    pub label: String,
    pub ply: usize,
    pub side_to_move: Color,
    pub rows: Vec<String>,
}

/// The snapshot shows the position's rows and side to move under `label`.
pub open spec fn board_snapshot_agrees(label: Seq<char>, ply: usize, board: Position, s: AnalysisBoardSnapshot) -> bool {
    &&& s.label@ == label
    &&& s.ply == ply
    &&& s.side_to_move == board.current_player
    &&& s.rows@.len() == board.grid.size
    &&& forall|i: int| 0 <= i < board.grid.size ==> #[trigger] s.rows@[i]@ == row_chars_spec(board.grid, i)
}

/// A labelled snapshot of a position.
pub fn board_snapshot(label: &str, ply: usize, board: &Position) -> (r: AnalysisBoardSnapshot)
    requires
        board.grid.wf(),
    ensures
        board_snapshot_agrees(label@, ply, *board, r),
{
    AnalysisBoardSnapshot {
        label: String::from_str(label),
        ply,
        side_to_move: board.current_player,
        rows: board_rows(&board.grid),
    }
}

/// What is known around an unclear root cause: the prefix before the final
/// forced interval, its proof, the scan window and board snapshots.
#[derive(Debug, Clone, PartialEq, Eq)]
pub struct UnclearContext {
    pub reason: UnclearReason,
    pub previous_prefix_ply: Option<usize>,
    pub final_forced_interval: ForcedInterval,
    pub previous_proof_status: Option<ProofStatus>,
    pub previous_proof_limit_hit: Option<bool>,
    pub previous_limit_causes: Vec<ProofLimitCause>,
    pub previous_side_to_move: Option<Color>,
    pub winner: Color,
    pub principal_line: Vec<Move>,
    pub principal_line_notation: Vec<String>,
    pub scan_start_ply: usize,
    pub scan_end_ply: Option<usize>,
    pub move_count: usize,
    pub snapshots: Vec<AnalysisBoardSnapshot>,
}

/// The ply before the final forced interval, if there is one.
pub open spec fn previous_ply_spec(fi: ForcedInterval) -> Option<usize> {
    if fi.start_ply > 0 {
        Some((fi.start_ply - 1) as usize)
    } else {
        None
    }
}

/// The proof at the ply before the final forced interval, if scanned.
pub open spec fn previous_proof_spec(proofs: Seq<ProofResult>, scan_start: int, fi: ForcedInterval) -> Option<
    ProofResult,
> {
    match previous_ply_spec(fi) {
        Some(p) => match proof_index(proofs.len(), scan_start, p as int) {
            Some(i) => Some(proofs[i]),
            None => None,
        },
        None => None,
    }
}

/// The board at the ply before the final forced interval, if known.
pub open spec fn previous_board_spec(boards: Seq<Position>, fi: ForcedInterval) -> Option<Position> {
    match previous_ply_spec(fi) {
        Some(p) => if p < boards.len() {
            Some(boards[p as int])
        } else {
            None
        },
        None => None,
    }
}

/// The context holds what the inputs give: the reason, the previous ply and
/// its proof (status, limit flag, causes, or `OutsideScanWindow` when the
/// scan did not reach it), the side to move there, the principal line in
/// notation, the scan window, and snapshots of the previous board and of
/// the board where the final forced interval starts, when known.
pub open spec fn unclear_context_agrees(
    reason: UnclearReason,
    fi: ForcedInterval,
    proofs: Seq<ProofResult>,
    scan_start: usize,
    boards: Seq<Position>,
    winner: Color,
    line: Seq<Move>,
    move_count: usize,
    c: UnclearContext,
) -> bool {
    let pp = previous_proof_spec(proofs, scan_start as int, fi);
    let pb = previous_board_spec(boards, fi);
    &&& c.reason == reason
    &&& c.previous_prefix_ply == previous_ply_spec(fi)
    &&& c.final_forced_interval == fi
    &&& c.previous_proof_status == (match pp {
        Some(p) => Some(p.status),
        None => None,
    })
    &&& c.previous_proof_limit_hit == (match pp {
        Some(p) => Some(has_limit_hit(p)),
        None => None,
    })
    &&& c.previous_limit_causes@ == (match pp {
        Some(p) => p.limit_causes@,
        None => seq![ProofLimitCause::OutsideScanWindow],
    })
    &&& c.previous_side_to_move == (match pb {
        Some(b) => Some(b.current_player),
        None => None,
    })
    &&& c.winner == winner
    &&& c.principal_line@ == line
    &&& strings_view(c.principal_line_notation@) == move_texts(line)
    &&& c.scan_start_ply == scan_start
    &&& c.scan_end_ply == (if proofs.len() == 0 {
        None
    } else {
        Some((scan_start + proofs.len() - 1) as usize)
    })
    &&& c.move_count == move_count
    &&& c.snapshots@.len() == (if pb is Some {
        1int
    } else {
        0
    }) + (if fi.start_ply < boards.len() {
        1int
    } else {
        0
    })
    &&& pb is Some ==> board_snapshot_agrees(
        "previous_prefix"@,
        previous_ply_spec(fi)->0,
        pb->0,
        c.snapshots@[0],
    )
    &&& fi.start_ply < boards.len() ==> board_snapshot_agrees(
        "final_forced_start"@,
        fi.start_ply,
        boards[fi.start_ply as int],
        c.snapshots@[c.snapshots@.len() - 1],
    )
}

/// The context of an unclear root cause; none when the root cause is clear,
/// no reason was given, or the game was drawn or still going.
pub fn unclear_context(
    root_cause: RootCause,
    unclear_reason: Option<UnclearReason>,
    final_forced_interval: &ForcedInterval,
    proof_summary: &[ProofResult],
    scan_start: usize,
    boards: &[Position],
    winner: Color,
    principal_line: &[Move],
    move_count: usize,
) -> (r: Option<UnclearContext>)
    requires
        forall|i: int| 0 <= i < boards.len() ==> (#[trigger] boards@[i]).grid.wf(),
        notatable(principal_line@),
        scan_start + proof_summary.len() <= usize::MAX,
    ensures
        match r {
            Some(c) => root_cause == RootCause::Unclear && unclear_reason is Some
                && unclear_reason != Some(UnclearReason::DrawOrOngoing) && unclear_context_agrees(
                unclear_reason->0,
                *final_forced_interval,
                proof_summary@,
                scan_start,
                boards@,
                winner,
                principal_line@,
                move_count,
                c,
            ),
            None => root_cause != RootCause::Unclear || unclear_reason is None || unclear_reason
                == Some(UnclearReason::DrawOrOngoing),
        },
{
    if root_cause != RootCause::Unclear {
        return None;
    }
    let reason = match unclear_reason {
        Some(r) => r,
        None => return None,
    };
    if reason == UnclearReason::DrawOrOngoing {
        return None;
    }
    let fi = *final_forced_interval;
    let previous_prefix_ply: Option<usize> = if fi.start_ply > 0 {
        Some(fi.start_ply - 1)
    } else {
        None
    };
    let previous_proof: Option<&ProofResult> = match previous_prefix_ply {
        Some(p) => proof_at(proof_summary, scan_start, p),
        None => None,
    };
    let previous_limit_causes = match previous_proof {
        Some(p) => copy_causes(&p.limit_causes),
        None => vec![ProofLimitCause::OutsideScanWindow],
    };
    let previous_board: Option<&Position> = match previous_prefix_ply {
        Some(p) => if p < boards.len() {
            Some(&boards[p])
        } else {
            None
        },
        None => None,
    };
    let mut snapshots: Vec<AnalysisBoardSnapshot> = Vec::new();
    match (previous_prefix_ply, previous_board) {
        (Some(p), Some(b)) => {
            snapshots.push(board_snapshot("previous_prefix", p, b));
        },
        _ => {},
    }
    if fi.start_ply < boards.len() {
        let ghost before = snapshots@;
        snapshots.push(board_snapshot("final_forced_start", fi.start_ply, &boards[fi.start_ply]));
        assert(snapshots@[snapshots@.len() - 1] == snapshots@[before.len() as int]);
    }
    let previous_proof_status = match previous_proof {
        Some(p) => Some(p.status),
        None => None,
    };
    let previous_proof_limit_hit = match previous_proof {
        Some(p) => Some(p.limit_hit || p.limit_causes.len() > 0),
        None => None,
    };
    let previous_side_to_move = match previous_board {
        Some(b) => Some(b.current_player),
        None => None,
    };
    let scan_end_ply = if proof_summary.len() == 0 {
        None
    } else {
        Some(scan_start + proof_summary.len() - 1)
    };
    let ctx = UnclearContext {
        reason,
        previous_prefix_ply,
        final_forced_interval: fi,
        previous_proof_status,
        previous_proof_limit_hit,
        previous_limit_causes,
        previous_side_to_move,
        winner,
        principal_line: copy_moves(principal_line),
        principal_line_notation: notation_list(principal_line),
        scan_start_ply: scan_start,
        scan_end_ply,
        move_count,
        snapshots,
    };
    let ghost pp = previous_proof_spec(proof_summary@, scan_start as int, fi);
    let ghost pb = previous_board_spec(boards@, fi);
    assert(ctx.previous_prefix_ply == previous_ply_spec(fi));
    assert(ctx.previous_proof_status == (match pp {
        Some(p) => Some(p.status),
        None => None,
    }));
    assert(ctx.previous_proof_limit_hit == (match pp {
        Some(p) => Some(has_limit_hit(p)),
        None => None,
    }));
    assert(ctx.previous_limit_causes@ == (match pp {
        Some(p) => p.limit_causes@,
        None => seq![ProofLimitCause::OutsideScanWindow],
    }));
    assert(ctx.previous_side_to_move == (match pb {
        Some(b) => Some(b.current_player),
        None => None,
    }));
    assert(ctx.snapshots@.len() == (if pb is Some {
        1int
    } else {
        0
    }) + (if fi.start_ply < boards.len() {
        1int
    } else {
        0
    }));
    Some(ctx)
}

/// The first ply the proof frames show: the final forced interval's start,
/// moved one ply back when the position before it has the loser to move,
/// so that the frames open on the attacker's move. With no winner, or a
/// start at ply 0 or 1, the start itself.
pub open spec fn proof_frame_start_ply_spec(
    boards: Seq<Position>,
    winner: Option<Color>,
    interval: ForcedInterval,
) -> usize {
    let start = interval.start_ply;
    match winner {
        None => start,
        Some(w) => if start <= 1 {
            start
        } else if start - 1 < boards.len() && boards[start - 1].current_player
            == w.opponent_spec() {
            (start - 1) as usize
        } else {
            start
        },
    }
}

/// Where the proof frames of an analysis begin; `boards[p]` is the
/// position after `p` plies.
pub fn proof_frame_start_ply(
    boards: &[Position],
    winner: Option<Color>,
    final_forced_interval: ForcedInterval,
) -> (r: usize)
    ensures
        r == proof_frame_start_ply_spec(boards@, winner, final_forced_interval),
{
    let start_ply = final_forced_interval.start_ply;
    let w = match winner {
        None => {
            return start_ply;
        },
        Some(w) => w,
    };
    if start_ply <= 1 {
        return start_ply;
    }
    let start_board_ply = start_ply - 1;
    if start_board_ply < boards.len() && boards[start_board_ply].current_player == w.opponent() {
        start_ply - 1
    } else {
        start_ply
    }
}

/// The move played at `ply` (the `ply`-th move, counting from one), if the
/// game has it.
pub open spec fn actual_move_at_spec(actual_moves: Seq<Move>, ply: int) -> Option<Move> {
    if 1 <= ply <= actual_moves.len() {
        Some(actual_moves[ply - 1])
    } else {
        None
    }
}

/// The `ply`-th move of the game, counting from one.
pub fn actual_move_at_ply(actual_moves: &[Move], ply: usize) -> (r: Option<Move>)
    ensures
        r == actual_move_at_spec(actual_moves@, ply as int),
{
    if ply >= 1 && ply <= actual_moves.len() {
        Some(actual_moves[ply - 1])
    } else {
        None
    }
}

/// The status of an optional proof.
pub open spec fn status_of(result: Option<ProofResult>) -> Option<ProofStatus> {
    match result {
        Some(p) => Some(p.status),
        None => None,
    }
}

/// The move that entered the forced corridor from a position with an
/// escape: at the interval's first ply with an escape, the move played
/// next; one ply later, when the escape gave way to a forced win, the first
/// move of that win's line.
pub open spec fn pre_corridor_entry_spec(
    actual_moves: Seq<Move>,
    start_ply: usize,
    ply: usize,
    current: Option<ProofResult>,
    previous: Option<ProofResult>,
) -> Option<Move> {
    if ply == start_ply && status_of(current) == Some(ProofStatus::EscapeFound) {
        actual_move_at_spec(actual_moves, ply + 1)
    } else if ply == start_ply + 1 && status_of(previous) == Some(ProofStatus::EscapeFound)
        && status_of(current) == Some(ProofStatus::ForcedWin) {
        if current->0.principal_line@.len() > 0 {
            Some(current->0.principal_line@[0])
        } else {
            None
        }
    } else {
        None
    }
}

/// Where the winner entered the forced corridor around the interval's start.
pub fn pre_corridor_escape_entry_move(
    actual_moves: &[Move],
    final_forced_interval: ForcedInterval,
    ply: usize,
    current_proof: Option<&ProofResult>,
    previous_proof: Option<&ProofResult>,
) -> (r: Option<Move>)
    ensures
        r == pre_corridor_entry_spec(
            actual_moves@,
            final_forced_interval.start_ply,
            ply,
            match current_proof {
                Some(p) => Some(*p),
                None => None,
            },
            match previous_proof {
                Some(p) => Some(*p),
                None => None,
            },
        ),
{
    let start = final_forced_interval.start_ply;
    let status = match current_proof {
        Some(p) => Some(p.status),
        None => None,
    };
    let previous_status = match previous_proof {
        Some(p) => Some(p.status),
        None => None,
    };
    if ply == start && status == Some(ProofStatus::EscapeFound) {
        if ply < actual_moves.len() {
            return Some(actual_moves[ply]);
        }
        return None;
    }
    if ply >= 1 && ply - 1 == start && previous_status == Some(ProofStatus::EscapeFound) && status
        == Some(ProofStatus::ForcedWin) {
        match current_proof {
            Some(p) => {
                if p.principal_line.len() > 0 {
                    return Some(p.principal_line[0]);
                }
                return None;
            },
            None => {
                return None;
            },
        }
    }
    None
}

/// The evidence of the first reply with the given status, or none.
pub open spec fn first_branch_index(outcomes: Seq<CorridorReplyOutcome>, status: CorridorReplyStatus) -> Option<int>
    decreases outcomes.len(),
{
    if outcomes.len() == 0 {
        None
    } else {
        match first_branch_index(outcomes.drop_last(), status) {
            Some(i) => Some(i),
            None => if outcomes.last().status == status {
                Some(outcomes.len() - 1)
            } else {
                None
            },
        }
    }
}

proof fn lemma_first_branch_index(outcomes: Seq<CorridorReplyOutcome>, status: CorridorReplyStatus)
    ensures
        match first_branch_index(outcomes, status) {
            Some(i) => 0 <= i < outcomes.len() && outcomes[i].status == status && forall|j: int|
                0 <= j < i ==> (#[trigger] outcomes[j]).status != status,
            None => forall|j: int| 0 <= j < outcomes.len() ==> (#[trigger] outcomes[j]).status != status,
        },
    decreases outcomes.len(),
{
    if outcomes.len() > 0 {
        lemma_first_branch_index(outcomes.drop_last(), status);
        assert forall|j: int| 0 <= j < outcomes.len() - 1 implies outcomes.drop_last()[j]
            == #[trigger] outcomes[j] by {}
    }
}

/// Two evidence records hold the same values.
pub open spec fn evidence_same(a: ThreatSequenceEvidence, b: ThreatSequenceEvidence) -> bool {
    &&& a.prefix_ply == b.prefix_ply
    &&& a.attacker == b.attacker
    &&& a.defender == b.defender
    &&& a.winning_squares@ == b.winning_squares@
    &&& a.raw_cost_squares@ == b.raw_cost_squares@
    &&& a.legal_cost_squares@ == b.legal_cost_squares@
    &&& a.illegal_cost_squares@ == b.illegal_cost_squares@
    &&& a.defender_immediate_wins@ == b.defender_immediate_wins@
    &&& a.actual_reply == b.actual_reply
    &&& a.reply_classification == b.reply_classification
    &&& a.escape_replies@ == b.escape_replies@
    &&& a.forced_replies@ == b.forced_replies@
    &&& a.next_forcing_move == b.next_forcing_move
    &&& a.proof_status == b.proof_status
    &&& a.limit_hit == b.limit_hit
    &&& a.limit_causes@ == b.limit_causes@
}

/// A copy of an evidence record.
pub fn copy_evidence(e: &ThreatSequenceEvidence) -> (r: ThreatSequenceEvidence)
    ensures
        evidence_same(r, *e),
{
    ThreatSequenceEvidence {
        prefix_ply: e.prefix_ply,
        attacker: e.attacker,
        defender: e.defender,
        winning_squares: copy_moves(e.winning_squares.as_slice()),
        raw_cost_squares: copy_moves(e.raw_cost_squares.as_slice()),
        legal_cost_squares: copy_moves(e.legal_cost_squares.as_slice()),
        illegal_cost_squares: copy_moves(e.illegal_cost_squares.as_slice()),
        defender_immediate_wins: copy_moves(e.defender_immediate_wins.as_slice()),
        actual_reply: e.actual_reply,
        reply_classification: e.reply_classification,
        escape_replies: copy_moves(e.escape_replies.as_slice()),
        forced_replies: copy_moves(e.forced_replies.as_slice()),
        next_forcing_move: e.next_forcing_move,
        proof_status: e.proof_status,
        limit_hit: e.limit_hit,
        limit_causes: copy_causes(&e.limit_causes),
    }
}

/// The threat evidence of the first reply whose status is `status`; none
/// when no reply has it.
pub fn first_corridor_branch_evidence(
    outcomes: &[CorridorReplyOutcome],
    status: CorridorReplyStatus,
) -> (r: Vec<ThreatSequenceEvidence>)
    ensures
        match first_branch_index(outcomes@, status) {
            Some(i) => r@.len() == outcomes@[i].proof.threat_evidence@.len() && forall|k: int|
                0 <= k < r@.len() ==> evidence_same(
                    #[trigger] r@[k],
                    outcomes@[i].proof.threat_evidence@[k],
                ),
            None => r@.len() == 0,
        },
{
    proof {
        lemma_first_branch_index(outcomes@, status);
    }
    let mut i: usize = 0;
    while i < outcomes.len()
        invariant
            i <= outcomes.len(),
            forall|j: int| 0 <= j < i ==> (#[trigger] outcomes@[j]).status != status,
            match first_branch_index(outcomes@, status) {
                Some(k) => 0 <= k < outcomes@.len() && outcomes@[k].status == status && forall|j: int|
                    0 <= j < k ==> (#[trigger] outcomes@[j]).status != status,
                None => forall|j: int| 0 <= j < outcomes@.len() ==> (#[trigger] outcomes@[j]).status != status,
            },
        decreases outcomes.len() - i,
    {
        if outcomes[i].status == status {
            assert(first_branch_index(outcomes@, status) == Some(i as int));
            let src = &outcomes[i].proof.threat_evidence;
            let mut out: Vec<ThreatSequenceEvidence> = Vec::new();
            let mut k: usize = 0;
            while k < src.len()
                invariant
                    k <= src.len(),
                    out@.len() == k,
                    forall|j: int| 0 <= j < k ==> evidence_same(#[trigger] out@[j], src@[j]),
                decreases src.len() - k,
            {
                let e = copy_evidence(&src[k]);
                out.push(e);
                k += 1;
            }
            return out;
        }
        i += 1;
    }
    Vec::new()
}

} // verus!
