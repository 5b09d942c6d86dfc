//! The classification of a decisive replay from the proof results at its
//! prefixes: `proofs[i]` is the result for the position after
//! `scan_start + i` moves.
use vstd::prelude::*;
use crate::analysis::{
    push_note, ForcedInterval, ProofLimitCause, ProofResult, ProofStatus, RootCause,
    TacticalNote, UnclearReason,
};
use crate::board::{color_for_ply, color_for_ply_spec, Color};

verus! {

/// The statuses of the proof results, in order.
pub open spec fn statuses(proofs: Seq<ProofResult>) -> Seq<ProofStatus> {
    Seq::new(proofs.len(), |i: int| proofs[i].status)
}

/// The intervals closed so far and the start of the open run, after reading
/// the statuses of the plies `base .. base + st.len()`.
pub open spec fn runs(st: Seq<ProofStatus>, base: int) -> (Seq<ForcedInterval>, Option<int>)
    decreases st.len(),
{
    if st.len() == 0 {
        (Seq::empty(), None)
    } else {
        let prev = runs(st.drop_last(), base);
        let ply = base + st.len() - 1;
        if st.last() == ProofStatus::ForcedWin {
            (prev.0, if prev.1 is Some {
                prev.1
            } else {
                Some(ply)
            })
        } else {
            match prev.1 {
                Some(s) => (
                    prev.0.push(ForcedInterval { start_ply: s as usize, end_ply: (ply - 1) as usize }),
                    None,
                ),
                None => (prev.0, None),
            }
        }
    }
}

/// The maximal runs of consecutive forced-win plies, as intervals of ply
/// numbers, in order.
pub open spec fn proof_intervals_spec(st: Seq<ProofStatus>, base: int) -> Seq<ForcedInterval> {
    let r = runs(st, base);
    match r.1 {
        Some(s) => r.0.push(
            ForcedInterval { start_ply: s as usize, end_ply: (base + st.len() - 1) as usize },
        ),
        None => r.0,
    }
}

/// The maximal runs of consecutive plies whose proof status is a forced win.
pub fn proof_intervals(proofs: &[ProofResult], scan_start: usize) -> (r: Vec<ForcedInterval>)
    requires
        scan_start + proofs.len() <= usize::MAX,
    ensures
        r@ == proof_intervals_spec(statuses(proofs@), scan_start as int),
{
    let ghost st = statuses(proofs@);
    let mut intervals: Vec<ForcedInterval> = Vec::new();
    let mut current_start: Option<usize> = None;
    let mut idx: usize = 0;
    while idx < proofs.len()
        invariant
            idx <= proofs.len(),
            scan_start + proofs.len() <= usize::MAX,
            st == statuses(proofs@),
            intervals@ == runs(st.take(idx as int), scan_start as int).0,
            match current_start {
                Some(s) => runs(st.take(idx as int), scan_start as int).1 == Some(s as int),
                None => runs(st.take(idx as int), scan_start as int).1 is None,
            },
        decreases proofs.len() - idx,
    {
        assert(st.take(idx + 1).drop_last() =~= st.take(idx as int));
        assert(st.take(idx + 1).last() == proofs@[idx as int].status);
        let ply = scan_start + idx;
        if proofs[idx].status == ProofStatus::ForcedWin {
            if current_start.is_none() {
                current_start = Some(ply);
            }
        } else {
            match current_start {
                Some(start) => {
                    intervals.push(ForcedInterval { start_ply: start, end_ply: ply - 1 });
                    current_start = None;
                },
                None => {},
            }
        }
        idx += 1;
    }
    assert(st.take(proofs.len() as int) =~= st);
    if let Some(start) = current_start {
        intervals.push(
            ForcedInterval { start_ply: start, end_ply: scan_start + proofs.len() - 1 },
        );
    }
    intervals
}

/// Whether some interval ends at `move_count`, and the last such interval
/// (or the empty interval at `move_count` when there is none).
pub open spec fn final_forced_interval_spec(intervals: Seq<ForcedInterval>, move_count: usize) -> (
    bool,
    ForcedInterval,
)
    decreases intervals.len(),
{
    if intervals.len() == 0 {
        (false, ForcedInterval { start_ply: move_count, end_ply: move_count })
    } else if intervals.last().end_ply == move_count {
        (true, intervals.last())
    } else {
        final_forced_interval_spec(intervals.drop_last(), move_count)
    }
}

/// The last interval that ends at the final move, and whether there is one.
pub fn find_final_forced_interval(intervals: &[ForcedInterval], move_count: usize) -> (r: (
    bool,
    ForcedInterval,
))
    ensures
        r == final_forced_interval_spec(intervals@, move_count),
{
    let mut i: usize = intervals.len();
    assert(intervals@.take(i as int) =~= intervals@);
    while i > 0
        invariant
            i <= intervals.len(),
            final_forced_interval_spec(intervals@, move_count) == final_forced_interval_spec(
                intervals@.take(i as int),
                move_count,
            ),
        decreases i,
    {
        assert(intervals@.take(i as int).last() == intervals@[i - 1]);
        assert(intervals@.take(i as int).drop_last() =~= intervals@.take(i - 1));
        if intervals[i - 1].end_ply == move_count {
            return (true, intervals[i - 1]);
        }
        i -= 1;
    }
    assert(intervals@.take(0) =~= Seq::<ForcedInterval>::empty());
    (false, ForcedInterval { start_ply: move_count, end_ply: move_count })
}

/// The index of the proof for ply `ply`, when the scan covered it.
pub open spec fn proof_index(len: nat, scan_start: int, ply: int) -> Option<int> {
    if scan_start <= ply && ply - scan_start < len {
        Some(ply - scan_start)
    } else {
        None
    }
}

/// The proof result for ply `ply`, when the scan covered it.
pub fn proof_at(proofs: &[ProofResult], scan_start: usize, ply: usize) -> (r: Option<&ProofResult>)
    ensures
        match proof_index(proofs@.len(), scan_start as int, ply as int) {
            Some(i) => r == Some(&proofs@[i]),
            None => r is None,
        },
{
    if ply < scan_start {
        return None;
    }
    let idx = ply - scan_start;
    if idx < proofs.len() {
        Some(&proofs[idx])
    } else {
        None
    }
}

/// The loser could still escape at ply `ply`: the loser was to move there and
/// the proof found an escape.
pub open spec fn escape_chance_at(proofs: Seq<ProofResult>, scan_start: int, ply: int, loser: Color) -> bool {
    match proof_index(proofs.len(), scan_start, ply) {
        Some(i) => proofs[i].side_to_move == loser && proofs[i].status == ProofStatus::EscapeFound,
        None => false,
    }
}

/// The last ply before `before_ply` (and from `scan_start` on) at which the
/// loser could still escape.
pub open spec fn last_chance_spec(
    proofs: Seq<ProofResult>,
    scan_start: int,
    before_ply: int,
    loser: Option<Color>,
) -> Option<int>
    decreases before_ply - scan_start,
{
    match loser {
        None => None,
        Some(l) => if before_ply <= scan_start {
            None
        } else if escape_chance_at(proofs, scan_start, before_ply - 1, l) {
            Some(before_ply - 1)
        } else {
            last_chance_spec(proofs, scan_start, before_ply - 1, loser)
        },
    }
}

/// The loser's last chance: the latest ply before `before_ply` at which the
/// loser was to move and an escape was found.
pub fn find_last_chance(
    proofs: &[ProofResult],
    scan_start: usize,
    before_ply: usize,
    loser: Option<Color>,
) -> (r: Option<usize>)
    ensures
        match r {
            Some(p) => last_chance_spec(proofs@, scan_start as int, before_ply as int, loser)
                == Some(p as int),
            None => last_chance_spec(proofs@, scan_start as int, before_ply as int, loser) is None,
        },
{
    let l = match loser {
        None => {
            return None;
        },
        Some(l) => l,
    };
    let mut ply: usize = before_ply;
    while ply > scan_start
        invariant
            scan_start <= ply <= before_ply || ply == before_ply,
            last_chance_spec(proofs@, scan_start as int, before_ply as int, loser)
                == last_chance_spec(proofs@, scan_start as int, ply as int, loser),
            loser == Some(l),
        decreases ply,
    {
        let p = ply - 1;
        match proof_at(proofs, scan_start, p) {
            Some(proof) => {
                if proof.side_to_move == l && proof.status == ProofStatus::EscapeFound {
                    return Some(p);
                }
            },
            None => {},
        }
        ply = p;
    }
    None
}

/// The root cause from the status before the final forced interval and the
/// color that moved into it.
pub open spec fn root_cause_spec(
    previous_status: Option<ProofStatus>,
    move_color: Option<Color>,
    winner: Color,
    missed_win_root: bool,
) -> RootCause {
    if missed_win_root {
        RootCause::MissedWin
    } else if previous_status == Some(ProofStatus::EscapeFound) && move_color == Some(
        winner.opponent_spec(),
    ) {
        RootCause::MissedDefense
    } else if previous_status == Some(ProofStatus::EscapeFound) && move_color == Some(winner) {
        RootCause::StrategicLoss
    } else {
        RootCause::Unclear
    }
}

/// The root cause: a missed immediate win of the loser, a move by the loser
/// out of a position with an escape (missed defense), a move by the winner
/// out of such a position (strategic loss), or unclear.
pub fn classify_root_cause(
    previous_status: Option<ProofStatus>,
    move_color: Option<Color>,
    winner: Color,
    missed_win_root: bool,
) -> (r: RootCause)
    ensures
        r == root_cause_spec(previous_status, move_color, winner, missed_win_root),
{
    if missed_win_root {
        return RootCause::MissedWin;
    }
    match (previous_status, move_color) {
        (Some(ProofStatus::EscapeFound), Some(color)) => {
            if color == winner.opponent() {
                RootCause::MissedDefense
            } else {
                RootCause::StrategicLoss
            }
        },
        _ => RootCause::Unclear,
    }
}

/// A proof was cut short by a limit.
pub open spec fn has_limit_hit(p: ProofResult) -> bool {
    p.limit_hit || p.limit_causes@.len() > 0
}

/// Whether a proof was cut short by a limit.
pub fn proof_has_limit_hit(proof: &ProofResult) -> (r: bool)
    ensures
        r == has_limit_hit(*proof),
{
    proof.limit_hit || proof.limit_causes.len() > 0
}

/// Why an unclear root cause stayed unclear.
pub open spec fn unclear_reason_spec(
    root_cause: RootCause,
    final_found: bool,
    final_interval: ForcedInterval,
    previous_status: Option<ProofStatus>,
    proofs: Seq<ProofResult>,
    scan_start: int,
) -> Option<UnclearReason> {
    if root_cause != RootCause::Unclear {
        None
    } else if !final_found {
        Some(UnclearReason::NoFinalForcedInterval)
    } else if final_interval.start_ply == 0 {
        Some(UnclearReason::ScanWindowCutoff)
    } else {
        match proof_index(proofs.len(), scan_start, final_interval.start_ply - 1) {
            None => Some(UnclearReason::ScanWindowCutoff),
            Some(i) => match previous_status {
                Some(ProofStatus::Unknown) => if has_limit_hit(proofs[i]) {
                    Some(UnclearReason::ProofLimitHit)
                } else {
                    Some(UnclearReason::PreviousPrefixUnknown)
                },
                None => Some(UnclearReason::ScanWindowCutoff),
                _ => Some(UnclearReason::PreviousPrefixUnknown),
            },
        }
    }
}

/// Why the root cause is unclear (none when it is not): no final interval,
/// the ply before it outside the scan, a proof limit hit there, or an
/// unproven position there.
pub fn unclear_reason(
    root_cause: RootCause,
    final_found: bool,
    final_interval: ForcedInterval,
    previous_status: Option<ProofStatus>,
    proofs: &[ProofResult],
    scan_start: usize,
) -> (r: Option<UnclearReason>)
    ensures
        r == unclear_reason_spec(
            root_cause,
            final_found,
            final_interval,
            previous_status,
            proofs@,
            scan_start as int,
        ),
{
    if root_cause != RootCause::Unclear {
        return None;
    }
    if !final_found {
        return Some(UnclearReason::NoFinalForcedInterval);
    }
    if final_interval.start_ply == 0 {
        return Some(UnclearReason::ScanWindowCutoff);
    }
    let previous_ply = final_interval.start_ply - 1;
    let previous_proof = match proof_at(proofs, scan_start, previous_ply) {
        None => {
            return Some(UnclearReason::ScanWindowCutoff);
        },
        Some(p) => p,
    };
    match previous_status {
        Some(ProofStatus::Unknown) => {
            if proof_has_limit_hit(previous_proof) {
                Some(UnclearReason::ProofLimitHit)
            } else {
                Some(UnclearReason::PreviousPrefixUnknown)
            }
        },
        None => Some(UnclearReason::ScanWindowCutoff),
        _ => Some(UnclearReason::PreviousPrefixUnknown),
    }
}

/// The notes on a decisive game, each at most once, in this order:
/// accidental blunder (missed defense), missed win (root cause), conversion
/// error (an earlier forced interval was let go), missed win (the winner
/// skipped an immediate win inside a forced win), strong attack (strategic
/// loss).
pub open spec fn tactical_notes_spec(
    root_cause: RootCause,
    intervals: Seq<ForcedInterval>,
    final_interval: ForcedInterval,
    winner_missed_forced_win: bool,
) -> Seq<TacticalNote> {
    let n1: Seq<TacticalNote> = if root_cause == RootCause::MissedDefense {
        seq![TacticalNote::AccidentalBlunder]
    } else {
        Seq::empty()
    };
    let n2 = if root_cause == RootCause::MissedWin {
        n1.push(TacticalNote::MissedWin)
    } else {
        n1
    };
    let n3 = if exists|k: int|
        0 <= k < intervals.len() && #[trigger] intervals[k].end_ply < final_interval.start_ply {
        n2.push(TacticalNote::ConversionError)
    } else {
        n2
    };
    let n4 = if winner_missed_forced_win && !n3.contains(TacticalNote::MissedWin) {
        n3.push(TacticalNote::MissedWin)
    } else {
        n3
    };
    if root_cause == RootCause::StrategicLoss {
        n4.push(TacticalNote::StrongAttack)
    } else {
        n4
    }
}

/// The tactical notes of a decisive game.
pub fn tactical_notes(
    root_cause: RootCause,
    intervals: &[ForcedInterval],
    final_interval: ForcedInterval,
    winner_missed_forced_win: bool,
) -> (r: Vec<TacticalNote>)
    ensures
        r@ == tactical_notes_spec(root_cause, intervals@, final_interval, winner_missed_forced_win),
{
    let mut notes: Vec<TacticalNote> = Vec::new();
    if root_cause == RootCause::MissedDefense {
        push_note(&mut notes, TacticalNote::AccidentalBlunder);
    }
    if root_cause == RootCause::MissedWin {
        push_note(&mut notes, TacticalNote::MissedWin);
    }
    let mut conversion = false;
    let mut i: usize = 0;
    while i < intervals.len()
        invariant
            i <= intervals.len(),
            conversion == exists|k: int|
                0 <= k < i && #[trigger] intervals@[k].end_ply < final_interval.start_ply,
        decreases intervals.len() - i,
    {
        if intervals[i].end_ply < final_interval.start_ply {
            conversion = true;
        }
        i += 1;
    }
    if conversion {
        push_note(&mut notes, TacticalNote::ConversionError);
    }
    if winner_missed_forced_win {
        push_note(&mut notes, TacticalNote::MissedWin);
    }
    if root_cause == RootCause::StrategicLoss {
        push_note(&mut notes, TacticalNote::StrongAttack);
    }
    notes
}

/// The plies whose proof stayed unknown.
pub open spec fn unknown_gaps_spec(proofs: Seq<ProofResult>, scan_start: int) -> Seq<usize>
    decreases proofs.len(),
{
    if proofs.len() == 0 {
        Seq::empty()
    } else {
        let prev = unknown_gaps_spec(proofs.drop_last(), scan_start);
        if proofs.last().status == ProofStatus::Unknown {
            prev.push((scan_start + proofs.len() - 1) as usize)
        } else {
            prev
        }
    }
}

/// The plies whose proof stayed unknown, in order.
pub fn unknown_gaps(proofs: &[ProofResult], scan_start: usize) -> (r: Vec<usize>)
    requires
        scan_start + proofs.len() <= usize::MAX,
    ensures
        r@ == unknown_gaps_spec(proofs@, scan_start as int),
{
    let mut gaps: Vec<usize> = Vec::new();
    let mut i: usize = 0;
    while i < proofs.len()
        invariant
            i <= proofs.len(),
            scan_start + proofs.len() <= usize::MAX,
            gaps@ == unknown_gaps_spec(proofs@.take(i as int), scan_start as int),
        decreases proofs.len() - i,
    {
        assert(proofs@.take(i + 1).drop_last() =~= proofs@.take(i as int));
        if proofs[i].status == ProofStatus::Unknown {
            gaps.push(scan_start + i);
        }
        i += 1;
    }
    assert(proofs@.take(proofs.len() as int) =~= proofs@);
    gaps
}

/// The first prefix a bounded backward window scans: the last `window + 1`
/// prefixes of `prefix_count`, or all of them without a window.
pub fn initial_scan_start(prefix_count: usize, max_backward_window: Option<usize>) -> (r: usize)
    ensures
        r == (match max_backward_window {
            Some(w) => if w + 1 >= prefix_count {
                0
            } else {
                (prefix_count - (w + 1)) as usize
            },
            None => 0,
        }),
{
    match max_backward_window {
        Some(w) => {
            if w >= prefix_count || w + 1 >= prefix_count {
                0
            } else {
                prefix_count - (w + 1)
            }
        },
        None => 0,
    }
}

/// With a backward window, a final interval that starts right at the scan
/// start may reach further back: the scan is widened by one more window
/// (at least one ply). `None` when no widening is due.
pub fn widened_scan_start(
    max_backward_window: Option<usize>,
    final_found: bool,
    final_interval: ForcedInterval,
    scan_start: usize,
) -> (r: Option<usize>)
    ensures
        match max_backward_window {
            Some(w) => if final_found && final_interval.start_ply == scan_start && scan_start > 0 {
                r == Some((if scan_start >= (if w >= 1 {
                    w
                } else {
                    1
                }) {
                    scan_start - (if w >= 1 {
                        w
                    } else {
                        1
                    })
                } else {
                    0
                }) as usize)
            } else {
                r is None
            },
            None => r is None,
        },
{
    match max_backward_window {
        Some(w) => {
            if final_found && final_interval.start_ply == scan_start && scan_start > 0 {
                let step = if w >= 1 {
                    w
                } else {
                    1
                };
                Some(scan_start.saturating_sub(step))
            } else {
                None
            }
        },
        None => None,
    }
}

/// The classification of a decisive replay.
#[derive(Debug, Clone, PartialEq, Eq)]
pub struct ReplaySummary {
    pub final_forced_interval_found: bool,
    pub final_forced_interval: ForcedInterval,
    pub proof_intervals: Vec<ForcedInterval>,
    pub unknown_gaps: Vec<usize>,
    pub previous_status: Option<ProofStatus>,
    pub root_cause: RootCause,
    pub last_chance_ply: Option<usize>,
    pub decisive_attack_ply: Option<usize>,
    pub critical_mistake_ply: Option<usize>,
    pub tactical_notes: Vec<TacticalNote>,
    pub unclear_reason: Option<UnclearReason>,
}

/// The status of the proof at the ply before the final interval.
pub open spec fn previous_status_spec(proofs: Seq<ProofResult>, scan_start: int, final_interval: ForcedInterval) -> Option<ProofStatus> {
    if final_interval.start_ply == 0 {
        None
    } else {
        match proof_index(proofs.len(), scan_start, final_interval.start_ply - 1) {
            Some(i) => Some(proofs[i].status),
            None => None,
        }
    }
}

/// Classifies a decisive replay of `move_count` moves won by `winner`, from
/// the proof results at the prefixes `scan_start ..`. `missed_win_root`
/// tells whether the loser, to move just before the final forced interval,
/// had an immediate win and did not play it; `winner_missed_forced_win`
/// tells whether the winner, inside a forced win, skipped an immediate win.
pub fn summarize_decisive_replay(
    proofs: &[ProofResult],
    scan_start: usize,
    move_count: usize,
    winner: Color,
    missed_win_root: bool,
    winner_missed_forced_win: bool,
) -> (r: ReplaySummary)
    requires
        scan_start + proofs.len() <= usize::MAX,
    ensures
        r.proof_intervals@ == proof_intervals_spec(statuses(proofs@), scan_start as int),
        (r.final_forced_interval_found, r.final_forced_interval) == final_forced_interval_spec(
            r.proof_intervals@,
            move_count,
        ),
        r.unknown_gaps@ == unknown_gaps_spec(proofs@, scan_start as int),
        r.previous_status == previous_status_spec(proofs@, scan_start as int, r.final_forced_interval),
        r.root_cause == root_cause_spec(
            r.previous_status,
            color_for_ply_spec(r.final_forced_interval.start_ply as nat),
            winner,
            missed_win_root,
        ),
        r.last_chance_ply == match last_chance_spec(
            proofs@,
            scan_start as int,
            r.final_forced_interval.start_ply as int,
            Some(winner.opponent_spec()),
        ) {
            Some(p) => Some(p as usize),
            None => None::<usize>,
        },
        r.critical_mistake_ply == (if r.root_cause == RootCause::MissedDefense || r.root_cause
            == RootCause::MissedWin {
            Some(r.final_forced_interval.start_ply)
        } else {
            None
        }),
        r.decisive_attack_ply == (if color_for_ply_spec(r.final_forced_interval.start_ply as nat)
            == Some(winner) {
            Some(r.final_forced_interval.start_ply)
        } else {
            None
        }),
        r.tactical_notes@ == tactical_notes_spec(
            r.root_cause,
            r.proof_intervals@,
            r.final_forced_interval,
            winner_missed_forced_win,
        ),
        r.unclear_reason == unclear_reason_spec(
            r.root_cause,
            r.final_forced_interval_found,
            r.final_forced_interval,
            r.previous_status,
            proofs@,
            scan_start as int,
        ),
{
    let intervals = proof_intervals(proofs, scan_start);
    let (found, final_interval) = find_final_forced_interval(intervals.as_slice(), move_count);
    let gaps = unknown_gaps(proofs, scan_start);
    let previous_status = if final_interval.start_ply == 0 {
        None
    } else {
        match proof_at(proofs, scan_start, final_interval.start_ply - 1) {
            Some(p) => Some(p.status),
            None => None,
        }
    };
    let move_color = color_for_ply(final_interval.start_ply);
    let root_cause = classify_root_cause(previous_status, move_color, winner, missed_win_root);
    let last_chance = find_last_chance(
        proofs,
        scan_start,
        final_interval.start_ply,
        Some(winner.opponent()),
    );
    let critical = match root_cause {
        RootCause::MissedDefense | RootCause::MissedWin => Some(final_interval.start_ply),
        _ => None,
    };
    let decisive = match move_color {
        Some(c) => if c == winner {
            Some(final_interval.start_ply)
        } else {
            None
        },
        None => None,
    };
    let notes = tactical_notes(root_cause, intervals.as_slice(), final_interval, winner_missed_forced_win);
    let reason = unclear_reason(root_cause, found, final_interval, previous_status, proofs, scan_start);
    ReplaySummary {
        final_forced_interval_found: found,
        final_forced_interval: final_interval,
        proof_intervals: intervals,
        unknown_gaps: gaps,
        previous_status,
        root_cause,
        last_chance_ply: last_chance,
        decisive_attack_ply: decisive,
        critical_mistake_ply: critical,
        tactical_notes: notes,
        unclear_reason: reason,
    }
}

// ---------------------------------------------------------------------
// Laws
// ---------------------------------------------------------------------
/// The proof at ply `p` is a forced win.
pub open spec fn forced_at(st: Seq<ProofStatus>, base: int, p: int) -> bool {
    base <= p < base + st.len() && st[p - base] == ProofStatus::ForcedWin
}

/// `iv` is a maximal run of forced-win plies.
pub open spec fn maximal_run(st: Seq<ProofStatus>, base: int, iv: ForcedInterval) -> bool {
    &&& base <= iv.start_ply <= iv.end_ply < base + st.len()
    &&& forall|p: int| iv.start_ply <= p <= iv.end_ply ==> #[trigger] forced_at(st, base, p)
    &&& !forced_at(st, base, iv.start_ply - 1)
    &&& !forced_at(st, base, iv.end_ply + 1)
}

/// Ply `p` lies in one of the intervals.
pub open spec fn covered(ivs: Seq<ForcedInterval>, p: int) -> bool {
    exists|k: int| 0 <= k < ivs.len() && ivs[k].start_ply <= p && p <= #[trigger] ivs[k].end_ply
}

proof fn lemma_forced_prefix(st: Seq<ProofStatus>, base: int, p: int)
    requires
        st.len() > 0,
        p < base + st.len() - 1,
    ensures
        forced_at(st, base, p) == forced_at(st.drop_last(), base, p),
{
    if base <= p {
        assert(st.drop_last()[p - base] == st[p - base]);
    }
}

proof fn lemma_runs(st: Seq<ProofStatus>, base: int)
    requires
        base >= 0,
        base + st.len() <= usize::MAX,
    ensures
        ({
            let r = runs(st, base);
            let n = st.len() as int;
            &&& (r.1 is Some) == (n > 0 && st.last() == ProofStatus::ForcedWin)
            &&& r.1 matches Some(s) ==> {
                &&& base <= s <= base + n - 1
                &&& forall|p: int| s <= p < base + n ==> #[trigger] forced_at(st, base, p)
                &&& !forced_at(st, base, s - 1)
                &&& forall|k: int| 0 <= k < r.0.len() ==> #[trigger] r.0[k].end_ply + 1 < s
            }
            &&& forall|k: int|
                0 <= k < r.0.len() ==> maximal_run(st, base, #[trigger] r.0[k]) && r.0[k].end_ply
                    + 1 < base + n
            &&& forall|k: int|
                0 <= k < r.0.len() - 1 ==> #[trigger] r.0[k].end_ply + 1 < r.0[k + 1].start_ply
            &&& forall|p: int|
                #[trigger] forced_at(st, base, p) ==> covered(r.0, p) || (r.1 matches Some(s) && s
                    <= p)
        }),
    decreases st.len(),
{
    if st.len() > 0 {
        let prev_st = st.drop_last();
        lemma_runs(prev_st, base);
        let prev = runs(prev_st, base);
        let r = runs(st, base);
        let n = st.len() as int;
        assert forall|p: int| p < base + n - 1 implies forced_at(st, base, p) == forced_at(
            prev_st,
            base,
            p,
        ) by {
            lemma_forced_prefix(st, base, p);
        }
        assert(forced_at(st, base, base + n - 1) == (st.last() == ProofStatus::ForcedWin));
        // closed intervals of the prefix stay maximal runs
        assert forall|k: int| 0 <= k < prev.0.len() implies maximal_run(st, base, prev.0[k]) by {
            let iv = prev.0[k];
            assert(maximal_run(prev_st, base, iv));
            assert forall|p: int| iv.start_ply <= p <= iv.end_ply implies #[trigger] forced_at(
                st,
                base,
                p,
            ) by {
                assert(forced_at(prev_st, base, p));
            }
        }
        if st.last() == ProofStatus::ForcedWin {
            assert(r.0 == prev.0);
            if prev.1 is Some {
                let s = prev.1->0;
                assert(r.1 == Some(s));
                assert forall|p: int| s <= p < base + n implies #[trigger] forced_at(st, base, p) by {
                    if p < base + n - 1 {
                        assert(forced_at(prev_st, base, p));
                    }
                }
            } else {
                assert(r.1 == Some(base + n - 1));
                assert(!forced_at(st, base, base + n - 2)) by {
                    if n >= 2 {
                        assert(!forced_at(prev_st, base, base + n - 2));
                    }
                }
                assert forall|k: int| 0 <= k < r.0.len() implies #[trigger] r.0[k].end_ply + 1
                    < base + n - 1 + 0 + 1 by {
                }
            }
            assert forall|p: int| #[trigger] forced_at(st, base, p) implies covered(r.0, p) || (
            r.1 matches Some(s) && s <= p) by {
                if p < base + n - 1 {
                    assert(forced_at(prev_st, base, p));
                }
            }
        } else {
            assert(r.1 is None);
            match prev.1 {
                Some(s) => {
                    let iv = ForcedInterval { start_ply: s as usize, end_ply: (base + n - 2) as usize };
                    assert(r.0 == prev.0.push(iv));
                    assert(maximal_run(st, base, iv)) by {
                        assert forall|p: int| iv.start_ply <= p <= iv.end_ply implies #[trigger] forced_at(
                            st,
                            base,
                            p,
                        ) by {
                            assert(forced_at(prev_st, base, p));
                        }
                        if s - 1 >= base {
                            assert(!forced_at(prev_st, base, s - 1));
                        }
                    }
                    assert forall|k: int| 0 <= k < r.0.len() implies maximal_run(
                        st,
                        base,
                        #[trigger] r.0[k],
                    ) && r.0[k].end_ply + 1 < base + n by {
                        if k < prev.0.len() {
                            assert(r.0[k] == prev.0[k]);
                        }
                    }
                    assert forall|k: int| 0 <= k < r.0.len() - 1 implies #[trigger] r.0[k].end_ply
                        + 1 < r.0[k + 1].start_ply by {
                        assert(r.0[k] == prev.0[k]);
                        if k + 1 < prev.0.len() {
                            assert(r.0[k + 1] == prev.0[k + 1]);
                        }
                    }
                    assert forall|p: int| #[trigger] forced_at(st, base, p) implies covered(r.0, p)
                        by {
                        assert(forced_at(prev_st, base, p));
                        if covered(prev.0, p) {
                            let k = choose|k: int|
                                0 <= k < prev.0.len() && prev.0[k].start_ply <= p && p
                                    <= #[trigger] prev.0[k].end_ply;
                            assert(r.0[k] == prev.0[k]);
                        } else {
                            assert(r.0[prev.0.len() as int] == iv);
                        }
                    }
                },
                None => {
                    assert(r.0 == prev.0);
                    assert forall|p: int| #[trigger] forced_at(st, base, p) implies covered(r.0, p)
                        by {
                        assert(forced_at(prev_st, base, p));
                    }
                },
            }
        }
    }
}

/// Law: the forced intervals are exactly the maximal runs of forced-win
/// plies: each interval is such a run, they come in order with at least one
/// non-forced ply between two of them, and every forced-win ply lies in one
/// of them.
pub proof fn law_proof_intervals_are_maximal_forced_runs(st: Seq<ProofStatus>, base: int)
    requires
        base >= 0,
        base + st.len() <= usize::MAX,
    ensures
        ({
            let ivs = proof_intervals_spec(st, base);
            &&& forall|k: int| 0 <= k < ivs.len() ==> maximal_run(st, base, #[trigger] ivs[k])
            &&& forall|k: int|
                0 <= k < ivs.len() - 1 ==> #[trigger] ivs[k].end_ply + 1 < ivs[k + 1].start_ply
            &&& forall|p: int| #[trigger] forced_at(st, base, p) ==> covered(ivs, p)
        }),
{
    lemma_runs(st, base);
    let r = runs(st, base);
    let ivs = proof_intervals_spec(st, base);
    if r.1 is Some {
        let s = r.1->0;
        let n = st.len() as int;
        let last = ForcedInterval { start_ply: s as usize, end_ply: (base + n - 1) as usize };
        assert(ivs == r.0.push(last));
        assert(maximal_run(st, base, last));
        assert forall|k: int| 0 <= k < ivs.len() implies maximal_run(st, base, #[trigger] ivs[k]) by {
            if k < r.0.len() {
                assert(ivs[k] == r.0[k]);
            }
        }
        assert forall|k: int| 0 <= k < ivs.len() - 1 implies #[trigger] ivs[k].end_ply + 1
            < ivs[k + 1].start_ply by {
            assert(ivs[k] == r.0[k]);
            if k + 1 < r.0.len() {
                assert(ivs[k + 1] == r.0[k + 1]);
            }
        }
        assert forall|p: int| #[trigger] forced_at(st, base, p) implies covered(ivs, p) by {
            if covered(r.0, p) {
                let k = choose|k: int|
                    0 <= k < r.0.len() && r.0[k].start_ply <= p && p <= #[trigger] r.0[k].end_ply;
                assert(ivs[k] == r.0[k]);
            } else {
                assert(ivs[r.0.len() as int] == last);
            }
        }
    }
}

/// Law: the final forced interval is found exactly when some interval ends
/// at the last move, and then it is the last such interval; otherwise it is
/// the empty interval at the last move.
pub proof fn law_final_interval_ends_at_last_move(intervals: Seq<ForcedInterval>, move_count: usize)
    ensures
        ({
            let f = final_forced_interval_spec(intervals, move_count);
            &&& f.0 == exists|k: int|
                0 <= k < intervals.len() && #[trigger] intervals[k].end_ply == move_count
            &&& f.0 ==> f.1.end_ply == move_count && exists|k: int|
                0 <= k < intervals.len() && #[trigger] intervals[k] == f.1 && forall|j: int|
                    k < j < intervals.len() ==> intervals[j].end_ply != move_count
            &&& !f.0 ==> f.1 == (ForcedInterval { start_ply: move_count, end_ply: move_count })
        }),
    decreases intervals.len(),
{
    if intervals.len() > 0 {
        let prev = intervals.drop_last();
        law_final_interval_ends_at_last_move(prev, move_count);
        let k_last = intervals.len() - 1;
        if intervals.last().end_ply == move_count {
            assert(intervals[k_last] == intervals.last());
        } else {
            let f = final_forced_interval_spec(prev, move_count);
            if f.0 {
                let k = choose|k: int|
                    0 <= k < prev.len() && #[trigger] prev[k] == f.1 && forall|j: int|
                        k < j < prev.len() ==> prev[j].end_ply != move_count;
                assert(intervals[k] == prev[k]);
                assert forall|j: int| k < j < intervals.len() implies intervals[j].end_ply
                    != move_count by {
                    if j < prev.len() {
                        assert(intervals[j] == prev[j]);
                    }
                }
            }
            assert((exists|k: int|
                0 <= k < intervals.len() && #[trigger] intervals[k].end_ply == move_count) == (exists|
                k: int,
            | 0 <= k < prev.len() && #[trigger] prev[k].end_ply == move_count)) by {
                if exists|k: int|
                    0 <= k < intervals.len() && #[trigger] intervals[k].end_ply == move_count {
                    let k = choose|k: int|
                        0 <= k < intervals.len() && #[trigger] intervals[k].end_ply == move_count;
                    assert(k < prev.len());
                    assert(prev[k] == intervals[k]);
                }
                if exists|k: int| 0 <= k < prev.len() && #[trigger] prev[k].end_ply == move_count {
                    let k = choose|k: int| 0 <= k < prev.len() && #[trigger] prev[k].end_ply == move_count;
                    assert(prev[k] == intervals[k]);
                }
            }
        }
    }
}

/// Law: a missed defense is only blamed when the position before the final
/// forced interval had an escape and the loser made the move into it; a
/// strategic loss when the winner made that move; a missed win only when the
/// loser skipped an immediate win.
pub proof fn law_root_cause_blames_the_mover(
    previous_status: Option<ProofStatus>,
    move_color: Option<Color>,
    winner: Color,
    missed_win_root: bool,
)
    ensures
        root_cause_spec(previous_status, move_color, winner, missed_win_root)
            == RootCause::MissedDefense ==> previous_status == Some(ProofStatus::EscapeFound)
            && move_color == Some(winner.opponent_spec()) && !missed_win_root,
        root_cause_spec(previous_status, move_color, winner, missed_win_root)
            == RootCause::StrategicLoss ==> previous_status == Some(ProofStatus::EscapeFound)
            && move_color == Some(winner) && !missed_win_root,
        (root_cause_spec(previous_status, move_color, winner, missed_win_root)
            == RootCause::MissedWin) == missed_win_root,
{
}

/// Law: an unclear reason is given exactly when the root cause is unclear.
pub proof fn law_unclear_reason_only_when_unclear(
    root_cause: RootCause,
    final_found: bool,
    final_interval: ForcedInterval,
    previous_status: Option<ProofStatus>,
    proofs: Seq<ProofResult>,
    scan_start: int,
)
    ensures
        (unclear_reason_spec(
            root_cause,
            final_found,
            final_interval,
            previous_status,
            proofs,
            scan_start,
        ) is Some) == (root_cause == RootCause::Unclear),
{
}

/// Law: no tactical note is listed twice.
pub proof fn law_tactical_notes_are_distinct(
    root_cause: RootCause,
    intervals: Seq<ForcedInterval>,
    final_interval: ForcedInterval,
    winner_missed_forced_win: bool,
)
    ensures
        ({
            let n = tactical_notes_spec(
                root_cause,
                intervals,
                final_interval,
                winner_missed_forced_win,
            );
            forall|i: int, j: int| 0 <= i < j < n.len() ==> n[i] != n[j]
        }),
{
    let n = tactical_notes_spec(root_cause, intervals, final_interval, winner_missed_forced_win);
    let n1: Seq<TacticalNote> = if root_cause == RootCause::MissedDefense {
        seq![TacticalNote::AccidentalBlunder]
    } else {
        Seq::empty()
    };
    let n2 = if root_cause == RootCause::MissedWin {
        n1.push(TacticalNote::MissedWin)
    } else {
        n1
    };
    let conv = exists|k: int|
        0 <= k < intervals.len() && #[trigger] intervals[k].end_ply < final_interval.start_ply;
    let n3 = if conv {
        n2.push(TacticalNote::ConversionError)
    } else {
        n2
    };
    let n4 = if winner_missed_forced_win && !n3.contains(TacticalNote::MissedWin) {
        n3.push(TacticalNote::MissedWin)
    } else {
        n3
    };
    assert forall|i: int, j: int| 0 <= i < j < n4.len() implies n4[i] != n4[j] by {
        if winner_missed_forced_win && !n3.contains(TacticalNote::MissedWin) && j == n4.len() - 1 {
            assert(n4[i] == n3[i]);
        }
    }
    assert forall|i: int| 0 <= i < n4.len() implies n4[i] != TacticalNote::StrongAttack by {}
}

/// Law: the last chance is the latest ply before the given one at which the
/// loser was to move and could escape.
pub proof fn law_last_chance_is_latest_escape(
    proofs: Seq<ProofResult>,
    scan_start: int,
    before_ply: int,
    loser: Color,
)
    ensures
        match last_chance_spec(proofs, scan_start, before_ply, Some(loser)) {
            Some(p) => scan_start <= p < before_ply && escape_chance_at(proofs, scan_start, p, loser)
                && forall|q: int| p < q < before_ply ==> !escape_chance_at(proofs, scan_start, q, loser),
            None => forall|q: int|
                scan_start <= q < before_ply ==> !escape_chance_at(proofs, scan_start, q, loser),
        },
    decreases before_ply - scan_start,
{
    if before_ply > scan_start && !escape_chance_at(proofs, scan_start, before_ply - 1, loser) {
        law_last_chance_is_latest_escape(proofs, scan_start, before_ply - 1, loser);
    }
}

/// Law: the unknown gaps are exactly the plies whose proof is unknown, in
/// increasing order: ply `scan_start + i` is listed when the `i`-th proof
/// is unknown, and no other ply is.
pub proof fn law_unknown_gaps_are_unknown_plies(proofs: Seq<ProofResult>, scan_start: int)
    requires
        scan_start >= 0,
        scan_start + proofs.len() <= usize::MAX,
    ensures
        ({
            let g = unknown_gaps_spec(proofs, scan_start);
            &&& forall|i: int, j: int| 0 <= i < j < g.len() ==> #[trigger] g[i] < #[trigger] g[j]
            &&& forall|k: int| 0 <= k < g.len() ==> scan_start <= #[trigger] g[k] < scan_start + proofs.len()
            &&& forall|p: int| #[trigger] g.contains(p as usize) && scan_start <= p < scan_start + proofs.len()
                <==> (scan_start <= p < scan_start + proofs.len() && proofs[p - scan_start].status == ProofStatus::Unknown)
        }),
    decreases proofs.len(),
{
    if proofs.len() > 0 {
        let d = proofs.drop_last();
        law_unknown_gaps_are_unknown_plies(d, scan_start);
        let prev = unknown_gaps_spec(d, scan_start);
        let g = unknown_gaps_spec(proofs, scan_start);
        let last_ply = scan_start + proofs.len() - 1;
        if proofs.last().status == ProofStatus::Unknown {
            assert(g == prev.push(last_ply as usize));
            assert forall|i: int, j: int| 0 <= i < j < g.len() implies #[trigger] g[i] < #[trigger] g[j] by {
                if j == prev.len() {
                    assert(g[i] == prev[i]);
                } else {
                    assert(g[i] == prev[i] && g[j] == prev[j]);
                }
            }
            assert forall|k: int| 0 <= k < g.len() implies scan_start <= #[trigger] g[k] < scan_start + proofs.len() by {
                if k < prev.len() {
                    assert(g[k] == prev[k]);
                }
            }
        }
        assert forall|p: int| #[trigger] g.contains(p as usize) && scan_start <= p < scan_start + proofs.len()
            <==> (scan_start <= p < scan_start + proofs.len() && proofs[p - scan_start].status == ProofStatus::Unknown) by {
            if scan_start <= p < last_ply {
                assert(proofs[p - scan_start] == d[p - scan_start]);
            }
            if g.contains(p as usize) && scan_start <= p < scan_start + proofs.len() {
                let k = choose|k: int| 0 <= k < g.len() && g[k] == p as usize;
                if k < prev.len() {
                    assert(g[k] == prev[k]);
                    assert(prev.contains(p as usize));
                }
            }
            if scan_start <= p < scan_start + proofs.len() && proofs[p - scan_start].status == ProofStatus::Unknown {
                if p < last_ply {
                    assert(prev.contains(p as usize));
                    let k = choose|k: int| 0 <= k < prev.len() && prev[k] == p as usize;
                    assert(g[k] == prev[k]);
                } else {
                    assert(proofs[p - scan_start] == proofs.last());
                    assert(g[prev.len() as int] == p as usize);
                }
            }
        }
    }
}

} // verus!
