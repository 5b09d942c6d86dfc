//! Board markers of proof frames: which squares carry which hints, the
//! labels and style classes they are drawn with, and the bookkeeping that
//! keeps one marker per square and each kind once per marker.
use vstd::prelude::*;
use crate::analysis::{DefenderReplyRole, ForcedInterval, ProofStatus};
use crate::board::{notation_spec, Color, Move};
use crate::published::DefenderReplyAnalysis;
use crate::text::{join_spec, join_strings, strings_view, usize_to_string, decimal};

verus! {

/// What a marker on a proof board says about its square.
#[derive(Debug, Clone, Copy, PartialEq, Eq, Structural)]
pub enum AnalysisBatchProofMarkerKind {
    Winning,
    Threat,
    ImminentDefense,
    OffensiveCounter,
    WinningEvidence,
    ThreatEvidence,
    ImminentEvidence,
    OffensiveEvidence,
    CorridorEntryBlack,
    CorridorEntryWhite,
    Forbidden,
    ForcedLoss,
    ConfirmedEscape,
    PossibleEscape,
    ImmediateLoss,
    UnknownOutcome,
    Actual,
}

/// A marked square of a proof board, with its notation and marker kinds.
#[derive(Debug, Clone, PartialEq, Eq)]
pub struct AnalysisBatchProofMarker {
    pub mv: Move,
    pub notation: String,
    pub kinds: Vec<AnalysisBatchProofMarkerKind>,
}

/// One board of the proof walk-through.
#[derive(Debug, Clone, PartialEq, Eq)]
pub struct AnalysisBatchProofFrame {
    pub label: String,
    pub ply: usize,
    pub side_to_move: Color,
    pub status: ProofStatus,
    pub move_played: Option<Move>,
    pub move_played_notation: Option<String>,
    pub lethal_onset_reached: bool,
    pub rows: Vec<String>,
    pub markers: Vec<AnalysisBatchProofMarker>,
    pub reply_outcomes: Vec<DefenderReplyAnalysis>,
}

/// The proof walk-through of one game: its frames in order.
#[derive(Debug, Clone, PartialEq, Eq)]
pub struct AnalysisBatchProofDetails {
    pub proof_frames: Vec<AnalysisBatchProofFrame>,
}

/// The corridor-entry marker of the winner's color.
pub fn corridor_entry_marker_kind(winner: Color) -> (r: AnalysisBatchProofMarkerKind)
    ensures
        r == (match winner {
            Color::Black => AnalysisBatchProofMarkerKind::CorridorEntryBlack,
            Color::White => AnalysisBatchProofMarkerKind::CorridorEntryWhite,
        }),
{
    match winner {
        Color::Black => AnalysisBatchProofMarkerKind::CorridorEntryBlack,
        Color::White => AnalysisBatchProofMarkerKind::CorridorEntryWhite,
    }
}

/// The marker of a defender reply role; the actual move takes `actual_kind`.
pub open spec fn role_marker_spec(
    role: DefenderReplyRole,
    actual_kind: Option<AnalysisBatchProofMarkerKind>,
) -> Option<AnalysisBatchProofMarkerKind> {
    match role {
        DefenderReplyRole::Actual => actual_kind,
        DefenderReplyRole::ImmediateDefense => Some(AnalysisBatchProofMarkerKind::Threat),
        DefenderReplyRole::ImminentDefense => Some(AnalysisBatchProofMarkerKind::ImminentDefense),
        DefenderReplyRole::OffensiveCounter => Some(AnalysisBatchProofMarkerKind::OffensiveCounter),
    }
}

/// The marker kind shown for a defender reply of the given role.
pub fn marker_kind_for_defender_reply_role(
    role: DefenderReplyRole,
    actual_kind: Option<AnalysisBatchProofMarkerKind>,
) -> (r: Option<AnalysisBatchProofMarkerKind>)
    ensures
        r == role_marker_spec(role, actual_kind),
{
    match role {
        DefenderReplyRole::Actual => actual_kind,
        DefenderReplyRole::ImmediateDefense => Some(AnalysisBatchProofMarkerKind::Threat),
        DefenderReplyRole::ImminentDefense => Some(AnalysisBatchProofMarkerKind::ImminentDefense),
        DefenderReplyRole::OffensiveCounter => Some(AnalysisBatchProofMarkerKind::OffensiveCounter),
    }
}

/// Kinds that hint at what to play: wins, threats, defenses, counters and
/// corridor entries.
pub open spec fn is_hint_spec(kind: AnalysisBatchProofMarkerKind) -> bool {
    match kind {
        AnalysisBatchProofMarkerKind::Winning | AnalysisBatchProofMarkerKind::Threat
        | AnalysisBatchProofMarkerKind::ImminentDefense
        | AnalysisBatchProofMarkerKind::OffensiveCounter
        | AnalysisBatchProofMarkerKind::CorridorEntryBlack
        | AnalysisBatchProofMarkerKind::CorridorEntryWhite => true,
        _ => false,
    }
}

/// Whether the kind is a tactical hint.
pub fn is_hint_marker_kind(kind: AnalysisBatchProofMarkerKind) -> (r: bool)
    ensures
        r == is_hint_spec(kind),
{
    match kind {
        AnalysisBatchProofMarkerKind::Winning | AnalysisBatchProofMarkerKind::Threat
        | AnalysisBatchProofMarkerKind::ImminentDefense
        | AnalysisBatchProofMarkerKind::OffensiveCounter
        | AnalysisBatchProofMarkerKind::CorridorEntryBlack
        | AnalysisBatchProofMarkerKind::CorridorEntryWhite => true,
        _ => false,
    }
}

/// Some marker carries a kind that `pred` accepts.
pub open spec fn any_marker_kind(
    markers: Seq<AnalysisBatchProofMarker>,
    pred: spec_fn(AnalysisBatchProofMarkerKind) -> bool,
) -> bool {
    exists|i: int, j: int|
        0 <= i < markers.len() && 0 <= j < markers[i].kinds@.len() && pred(
            #[trigger] markers[i].kinds@[j],
        )
}

/// Whether any marker carries a tactical hint.
pub fn has_visible_tactical_hint(markers: &[AnalysisBatchProofMarker]) -> (r: bool)
    ensures
        r == any_marker_kind(markers@, |k: AnalysisBatchProofMarkerKind| is_hint_spec(k)),
{
    let ghost pred = |k: AnalysisBatchProofMarkerKind| is_hint_spec(k);
    let mut i: usize = 0;
    while i < markers.len()
        invariant
            i <= markers.len(),
            pred == (|k: AnalysisBatchProofMarkerKind| is_hint_spec(k)),
            forall|a: int, b: int|
                0 <= a < i && 0 <= b < markers@[a].kinds@.len() ==> !pred(
                    #[trigger] markers@[a].kinds@[b],
                ),
        decreases markers.len() - i,
    {
        let kinds = &markers[i].kinds;
        let mut j: usize = 0;
        while j < kinds.len()
            invariant
                j <= kinds.len(),
                i < markers.len(),
                kinds@ == markers@[i as int].kinds@,
                pred == (|k: AnalysisBatchProofMarkerKind| is_hint_spec(k)),
                forall|b: int| 0 <= b < j ==> !pred(#[trigger] kinds@[b]),
            decreases kinds.len() - j,
        {
            if is_hint_marker_kind(kinds[j]) {
                assert(pred(markers@[i as int].kinds@[j as int]));
                return true;
            }
            j += 1;
        }
        i += 1;
    }
    false
}

/// Whether any marker shows an immediate win or threat.
pub fn has_immediate_tactical_hint(markers: &[AnalysisBatchProofMarker]) -> (r: bool)
    ensures
        r == any_marker_kind(
            markers@,
            |k: AnalysisBatchProofMarkerKind|
                k == AnalysisBatchProofMarkerKind::Winning || k
                    == AnalysisBatchProofMarkerKind::Threat,
        ),
{
    let ghost pred = |k: AnalysisBatchProofMarkerKind|
        k == AnalysisBatchProofMarkerKind::Winning || k == AnalysisBatchProofMarkerKind::Threat;
    let mut i: usize = 0;
    while i < markers.len()
        invariant
            i <= markers.len(),
            pred == (|k: AnalysisBatchProofMarkerKind|
                k == AnalysisBatchProofMarkerKind::Winning || k
                    == AnalysisBatchProofMarkerKind::Threat),
            forall|a: int, b: int|
                0 <= a < i && 0 <= b < markers@[a].kinds@.len() ==> !pred(
                    #[trigger] markers@[a].kinds@[b],
                ),
        decreases markers.len() - i,
    {
        let kinds = &markers[i].kinds;
        let mut j: usize = 0;
        while j < kinds.len()
            invariant
                j <= kinds.len(),
                i < markers.len(),
                kinds@ == markers@[i as int].kinds@,
                pred == (|k: AnalysisBatchProofMarkerKind|
                    k == AnalysisBatchProofMarkerKind::Winning || k
                        == AnalysisBatchProofMarkerKind::Threat),
                forall|b: int| 0 <= b < j ==> !pred(#[trigger] kinds@[b]),
            decreases kinds.len() - j,
        {
            let k = kinds[j];
            if k == AnalysisBatchProofMarkerKind::Winning || k == AnalysisBatchProofMarkerKind::Threat {
                assert(pred(markers@[i as int].kinds@[j as int]));
                return true;
            }
            j += 1;
        }
        i += 1;
    }
    false
}

/// A marker set is well formed: one marker per square, each kind at most
/// once per marker, and each notation that of its square.
pub open spec fn markers_wf(ms: Seq<AnalysisBatchProofMarker>) -> bool {
    &&& forall|i: int, j: int| 0 <= i < j < ms.len() ==> #[trigger] ms[i].mv != #[trigger] ms[j].mv
    &&& forall|i: int|
        0 <= i < ms.len() ==> {
            &&& (#[trigger] ms[i]).notation@ == notation_spec(ms[i].mv)
            &&& forall|a: int, b: int|
                0 <= a < b < ms[i].kinds@.len() ==> ms[i].kinds@[a] != ms[i].kinds@[b]
        }
}

/// Square `mv` has a marker.
pub open spec fn has_marker(ms: Seq<AnalysisBatchProofMarker>, mv: Move) -> bool {
    exists|i: int| 0 <= i < ms.len() && (#[trigger] ms[i]).mv == mv
}

/// Square `mv` carries a marker of kind `kind`.
pub open spec fn has_mark(ms: Seq<AnalysisBatchProofMarker>, mv: Move, kind: AnalysisBatchProofMarkerKind) -> bool {
    exists|i: int| 0 <= i < ms.len() && (#[trigger] ms[i]).mv == mv && ms[i].kinds@.contains(kind)
}

/// Finds the marker of `mv`, adding an empty one at the end when there is
/// none; returns its index.
pub fn upsert_marker(markers: &mut Vec<AnalysisBatchProofMarker>, mv: Move) -> (r: usize)
    requires
        mv.col < 26,
        mv.row < usize::MAX,
    ensures
        r < final(markers).len(),
        final(markers)@[r as int].mv == mv,
        forall|j: int| 0 <= j < r ==> (#[trigger] final(markers)@[j]).mv != mv,
        has_marker(old(markers)@, mv) ==> final(markers)@ == old(markers)@,
        !has_marker(old(markers)@, mv) ==> {
            &&& final(markers)@.len() == old(markers)@.len() + 1
            &&& r == old(markers)@.len()
            &&& final(markers)@.take(r as int) == old(markers)@
            &&& final(markers)@[r as int].notation@ == notation_spec(mv)
            &&& final(markers)@[r as int].kinds@.len() == 0
        },
{
    let mut i: usize = 0;
    while i < markers.len()
        invariant
            i <= markers.len(),
            markers@ == old(markers)@,
            forall|j: int| 0 <= j < i ==> (#[trigger] markers@[j]).mv != mv,
        decreases markers.len() - i,
    {
        if markers[i].mv == mv {
            return i;
        }
        i += 1;
    }
    let ghost before = markers@;
    markers.push(AnalysisBatchProofMarker { mv, notation: mv.to_notation(), kinds: Vec::new() });
    assert(markers@.take(before.len() as int) =~= before);
    i
}

fn kinds_contain(kinds: &Vec<AnalysisBatchProofMarkerKind>, kind: AnalysisBatchProofMarkerKind) -> (r:
    bool)
    ensures
        r == kinds@.contains(kind),
{
    let mut j: usize = 0;
    while j < kinds.len()
        invariant
            j <= kinds.len(),
            forall|b: int| 0 <= b < j ==> kinds@[b] != kind,
        decreases kinds.len() - j,
    {
        if kinds[j] == kind {
            assert(kinds@[j as int] == kind);
            return true;
        }
        j += 1;
    }
    false
}

/// Adds `kind` to the marker of `mv` (creating it if needed), unless that
/// marker has it already.
fn add_kind_to(markers: &mut Vec<AnalysisBatchProofMarker>, mv: Move, kind: AnalysisBatchProofMarkerKind)
    requires
        mv.col < 26,
        mv.row < usize::MAX,
        markers_wf(old(markers)@),
    ensures
        markers_wf(final(markers)@),
        forall|m: Move| #[trigger]
            has_marker(final(markers)@, m) <==> has_marker(old(markers)@, m) || m == mv,
        forall|m: Move, k: AnalysisBatchProofMarkerKind| #[trigger]
            has_mark(final(markers)@, m, k) <==> has_mark(old(markers)@, m, k) || (m == mv && k
                == kind),
{
    let ghost start = markers@;
    let idx = upsert_marker(markers, mv);
    let ghost mid = markers@;
    assert(markers_wf(mid)) by {
        if mid != start {
            assert forall|i: int, j: int| 0 <= i < j < mid.len() implies #[trigger] mid[i].mv
                != #[trigger] mid[j].mv by {
                if j == idx {
                    assert(!has_marker(start, mv));
                    assert(mid[i] == start[i]);
                    if mid[i].mv == mv {
                        assert(start[i].mv == mv);
                    }
                } else {
                    assert(mid[i] == start[i]);
                    assert(mid[j] == start[j]);
                }
            }
            assert forall|i: int| 0 <= i < mid.len() implies (#[trigger] mid[i]).notation@
                == notation_spec(mid[i].mv) && forall|a: int, b: int|
                0 <= a < b < mid[i].kinds@.len() ==> mid[i].kinds@[a] != mid[i].kinds@[b] by {
                if i < start.len() {
                    assert(mid[i] == start[i]);
                }
            }
        }
    };
    assert forall|m: Move| #[trigger] has_marker(mid, m) <==> has_marker(start, m) || m == mv by {
        if has_marker(start, m) {
            let i = choose|i: int| 0 <= i < start.len() && (#[trigger] start[i]).mv == m;
            if mid != start {
                assert(mid[i] == start[i]);
            }
        }
        if has_marker(mid, m) && mid != start {
            let i = choose|i: int| 0 <= i < mid.len() && (#[trigger] mid[i]).mv == m;
            if i < start.len() {
                assert(mid[i] == start[i]);
            }
        }
        if m == mv {
            assert(mid[idx as int].mv == mv);
        }
    }
    assert forall|m: Move, k: AnalysisBatchProofMarkerKind| #[trigger]
        has_mark(mid, m, k) <==> has_mark(start, m, k) by {
        if has_mark(start, m, k) {
            let i = choose|i: int|
                0 <= i < start.len() && (#[trigger] start[i]).mv == m && start[i].kinds@.contains(k);
            if mid != start {
                assert(mid[i] == start[i]);
            }
        }
        if has_mark(mid, m, k) && mid != start {
            let i = choose|i: int|
                0 <= i < mid.len() && (#[trigger] mid[i]).mv == m && mid[i].kinds@.contains(k);
            if i < start.len() {
                assert(mid[i] == start[i]);
            } else {
                assert(mid[i].kinds@.len() == 0);
            }
        }
    }
    if !kinds_contain(&markers[idx].kinds, kind) {
        let mut marker = markers.remove(idx);
        let ghost old_kinds = marker.kinds@;
        marker.kinds.push(kind);
        markers.insert(idx, marker);
        let ghost fin = markers@;
        assert(fin =~= mid.update(idx as int, marker));
        assert(markers_wf(fin)) by {
            assert forall|i: int, j: int| 0 <= i < j < fin.len() implies #[trigger] fin[i].mv
                != #[trigger] fin[j].mv by {
                assert(fin[i].mv == mid[i].mv);
                assert(fin[j].mv == mid[j].mv);
            }
            assert forall|i: int| 0 <= i < fin.len() implies (#[trigger] fin[i]).notation@
                == notation_spec(fin[i].mv) && forall|a: int, b: int|
                0 <= a < b < fin[i].kinds@.len() ==> fin[i].kinds@[a] != fin[i].kinds@[b] by {
                if i != idx {
                    assert(fin[i] == mid[i]);
                } else {
                    assert(fin[i].kinds@ == old_kinds.push(kind));
                    assert forall|a: int, b: int|
                        0 <= a < b < fin[i].kinds@.len() implies fin[i].kinds@[a]
                        != fin[i].kinds@[b] by {
                        if b == old_kinds.len() {
                            assert(old_kinds[a] == fin[i].kinds@[a]);
                            assert(!old_kinds.contains(kind));
                        } else {
                            assert(mid[i].kinds@[a] != mid[i].kinds@[b]);
                        }
                    }
                }
            }
        };
        assert forall|m: Move| #[trigger] has_marker(fin, m) <==> has_marker(mid, m) by {
            if has_marker(mid, m) {
                let i = choose|i: int| 0 <= i < mid.len() && (#[trigger] mid[i]).mv == m;
                assert(fin[i].mv == mid[i].mv);
            }
            if has_marker(fin, m) {
                let i = choose|i: int| 0 <= i < fin.len() && (#[trigger] fin[i]).mv == m;
                assert(fin[i].mv == mid[i].mv);
            }
        }
        assert forall|m: Move, k: AnalysisBatchProofMarkerKind| #[trigger]
            has_mark(fin, m, k) <==> has_mark(mid, m, k) || (m == mv && k == kind) by {
            if has_mark(mid, m, k) {
                let i = choose|i: int|
                    0 <= i < mid.len() && (#[trigger] mid[i]).mv == m && mid[i].kinds@.contains(k);
                if i == idx {
                    let a = choose|a: int| 0 <= a < old_kinds.len() && old_kinds[a] == k;
                    assert(fin[i].kinds@[a] == k);
                } else {
                    assert(fin[i] == mid[i]);
                }
            }
            if m == mv && k == kind {
                assert(fin[idx as int].kinds@[old_kinds.len() as int] == kind);
            }
            if has_mark(fin, m, k) {
                let i = choose|i: int|
                    0 <= i < fin.len() && (#[trigger] fin[i]).mv == m && fin[i].kinds@.contains(k);
                if i == idx {
                    let a = choose|a: int| 0 <= a < fin[i].kinds@.len() && fin[i].kinds@[a] == k;
                    if a < old_kinds.len() {
                        assert(mid[i].kinds@[a] == k);
                    }
                } else {
                    assert(fin[i] == mid[i]);
                }
            }
        }
    } else {
        assert(has_mark(mid, mv, kind)) by {
            assert(mid[idx as int].mv == mv);
        }
    }
}

/// Adds a marker of kind `kind` to each square of `moves`.
pub fn add_marker_kind(
    markers: &mut Vec<AnalysisBatchProofMarker>,
    moves: &[Move],
    kind: AnalysisBatchProofMarkerKind,
)
    requires
        markers_wf(old(markers)@),
        forall|i: int| 0 <= i < moves.len() ==> (#[trigger] moves@[i]).col < 26 && moves@[i].row < usize::MAX,
    ensures
        markers_wf(final(markers)@),
        forall|m: Move| #[trigger]
            has_marker(final(markers)@, m) <==> has_marker(old(markers)@, m) || moves@.contains(m),
        forall|m: Move, k: AnalysisBatchProofMarkerKind| #[trigger]
            has_mark(final(markers)@, m, k) <==> has_mark(old(markers)@, m, k) || (
            moves@.contains(m) && k == kind),
{
    let mut i: usize = 0;
    while i < moves.len()
        invariant
            i <= moves.len(),
            markers_wf(markers@),
            forall|j: int| 0 <= j < moves.len() ==> (#[trigger] moves@[j]).col < 26 && moves@[j].row < usize::MAX,
            forall|m: Move| #[trigger]
                has_marker(markers@, m) <==> has_marker(old(markers)@, m) || moves@.take(
                    i as int,
                ).contains(m),
            forall|m: Move, k: AnalysisBatchProofMarkerKind| #[trigger]
                has_mark(markers@, m, k) <==> has_mark(old(markers)@, m, k) || (moves@.take(
                    i as int,
                ).contains(m) && k == kind),
        decreases moves.len() - i,
    {
        let mv = moves[i];
        add_kind_to(markers, mv, kind);
        assert forall|m: Move| moves@.take(i + 1).contains(m) <==> moves@.take(i as int).contains(m)
            || m == mv by {
            if moves@.take(i + 1).contains(m) {
                let a = choose|a: int| 0 <= a < i + 1 && #[trigger] moves@.take(i + 1)[a] == m;
                if a < i {
                    assert(moves@.take(i as int)[a] == m);
                }
            }
            if moves@.take(i as int).contains(m) {
                let a = choose|a: int| 0 <= a < i && #[trigger] moves@.take(i as int)[a] == m;
                assert(moves@.take(i + 1)[a] == m);
            }
            if m == mv {
                assert(moves@.take(i + 1)[i as int] == m);
            }
        }
        i += 1;
    }
    assert(moves@.take(moves.len() as int) =~= moves@);
}

/// `moves` appended to `target`, skipping each move already present.
pub open spec fn extend_unique_spec(target: Seq<Move>, moves: Seq<Move>) -> Seq<Move>
    decreases moves.len(),
{
    if moves.len() == 0 {
        target
    } else {
        let p = extend_unique_spec(target, moves.drop_last());
        if p.contains(moves.last()) {
            p
        } else {
            p.push(moves.last())
        }
    }
}

/// Appends each move not yet in `target`, in order.
pub fn extend_unique_moves(target: &mut Vec<Move>, moves: &[Move])
    ensures
        final(target)@ == extend_unique_spec(old(target)@, moves@),
{
    let ghost start = target@;
    let mut i: usize = 0;
    while i < moves.len()
        invariant
            i <= moves.len(),
            start == old(target)@,
            target@ == extend_unique_spec(start, moves@.take(i as int)),
        decreases moves.len() - i,
    {
        assert(moves@.take(i + 1).drop_last() =~= moves@.take(i as int));
        let mv = moves[i];
        let mut present = false;
        let mut j: usize = 0;
        while j < target.len()
            invariant
                j <= target.len(),
                present == (exists|a: int| 0 <= a < j && target@[a] == mv),
            decreases target.len() - j,
        {
            if target[j] == mv {
                present = true;
            }
            j += 1;
        }
        if !present {
            target.push(mv);
        }
        i += 1;
    }
    assert(moves@.take(moves.len() as int) =~= moves@);
}

/// Extending a list without repeats keeps it without repeats.
pub proof fn law_extend_unique_keeps_moves_distinct(target: Seq<Move>, moves: Seq<Move>)
    requires
        target.no_duplicates(),
    ensures
        extend_unique_spec(target, moves).no_duplicates(),
        forall|m: Move| #[trigger]
            extend_unique_spec(target, moves).contains(m) <==> target.contains(m) || moves.contains(m),
    decreases moves.len(),
{
    if moves.len() > 0 {
        let p = extend_unique_spec(target, moves.drop_last());
        law_extend_unique_keeps_moves_distinct(target, moves.drop_last());
        assert forall|m: Move| moves.contains(m) <==> moves.drop_last().contains(m) || m
            == moves.last() by {
            if moves.contains(m) {
                let a = choose|a: int| 0 <= a < moves.len() && moves[a] == m;
                if a < moves.len() - 1 {
                    assert(moves.drop_last()[a] == m);
                }
            }
            if moves.drop_last().contains(m) {
                let a = choose|a: int| 0 <= a < moves.drop_last().len() && moves.drop_last()[a] == m;
                assert(moves[a] == m);
            }
            if m == moves.last() {
                assert(moves[moves.len() - 1] == m);
            }
        }
        if !p.contains(moves.last()) {
            let q = p.push(moves.last());
            assert forall|a: int, b: int| 0 <= a < q.len() && 0 <= b < q.len() && a != b implies q[a]
                != q[b] by {
                if a == p.len() {
                    assert(!p.contains(q[b]) || q[b] != moves.last());
                } else if b == p.len() {
                    assert(q[a] == p[a]);
                }
            }
            assert forall|m: Move| #[trigger] q.contains(m) <==> p.contains(m) || m == moves.last() by {
                if q.contains(m) {
                    let a = choose|a: int| 0 <= a < q.len() && q[a] == m;
                    if a < p.len() {
                        assert(p[a] == m);
                    }
                }
                if p.contains(m) {
                    let a = choose|a: int| 0 <= a < p.len() && p[a] == m;
                    assert(q[a] == m);
                }
                if m == moves.last() {
                    assert(q[p.len() as int] == m);
                }
            }
        }
    }
}

/// The hint letter drawn on a marker: nothing on the actual move, then by
/// priority `F` forbidden, `!` immediate loss, `L` forced loss, `E`
/// confirmed escape, `P` possible escape, `?` unknown, `L` threat, else
/// nothing.
pub open spec fn marker_label_spec(kinds: Seq<AnalysisBatchProofMarkerKind>) -> Seq<char> {
    if kinds.contains(AnalysisBatchProofMarkerKind::Actual) {
        Seq::empty()
    } else if kinds.contains(AnalysisBatchProofMarkerKind::Forbidden) {
        seq!['F']
    } else if kinds.contains(AnalysisBatchProofMarkerKind::ImmediateLoss) {
        seq!['!']
    } else if kinds.contains(AnalysisBatchProofMarkerKind::ForcedLoss) {
        seq!['L']
    } else if kinds.contains(AnalysisBatchProofMarkerKind::ConfirmedEscape) {
        seq!['E']
    } else if kinds.contains(AnalysisBatchProofMarkerKind::PossibleEscape) {
        seq!['P']
    } else if kinds.contains(AnalysisBatchProofMarkerKind::UnknownOutcome) {
        seq!['?']
    } else if kinds.contains(AnalysisBatchProofMarkerKind::Threat) {
        seq!['L']
    } else {
        Seq::empty()
    }
}

fn one_char(c: char) -> (r: String)
    ensures
        r@ == seq![c],
{
    let mut s = String::new();
    crate::text::push_char(&mut s, c);
    s
}

/// The letter drawn on a marker.
pub fn marker_label(marker: &AnalysisBatchProofMarker) -> (r: String)
    ensures
        r@ == marker_label_spec(marker.kinds@),
{
    let k = &marker.kinds;
    if kinds_contain(k, AnalysisBatchProofMarkerKind::Actual) {
        return String::new();
    }
    if kinds_contain(k, AnalysisBatchProofMarkerKind::Forbidden) {
        return one_char('F');
    }
    if kinds_contain(k, AnalysisBatchProofMarkerKind::ImmediateLoss) {
        return one_char('!');
    }
    if kinds_contain(k, AnalysisBatchProofMarkerKind::ForcedLoss) {
        return one_char('L');
    }
    if kinds_contain(k, AnalysisBatchProofMarkerKind::ConfirmedEscape) {
        return one_char('E');
    }
    if kinds_contain(k, AnalysisBatchProofMarkerKind::PossibleEscape) {
        return one_char('P');
    }
    if kinds_contain(k, AnalysisBatchProofMarkerKind::UnknownOutcome) {
        return one_char('?');
    }
    if kinds_contain(k, AnalysisBatchProofMarkerKind::Threat) {
        return one_char('L');
    }
    String::new()
}

/// The style class of a marker kind.
pub open spec fn kind_class_spec(kind: AnalysisBatchProofMarkerKind) -> Seq<char> {
    match kind {
        AnalysisBatchProofMarkerKind::Winning => "marker--winning"@,
        AnalysisBatchProofMarkerKind::Threat => "marker--threat"@,
        AnalysisBatchProofMarkerKind::ImminentDefense => "marker--imminent-defense"@,
        AnalysisBatchProofMarkerKind::OffensiveCounter => "marker--offensive-counter"@,
        AnalysisBatchProofMarkerKind::WinningEvidence => "marker--winning-evidence"@,
        AnalysisBatchProofMarkerKind::ThreatEvidence => "marker--threat-evidence"@,
        AnalysisBatchProofMarkerKind::ImminentEvidence => "marker--imminent-evidence"@,
        AnalysisBatchProofMarkerKind::OffensiveEvidence => "marker--offensive-evidence"@,
        AnalysisBatchProofMarkerKind::CorridorEntryBlack => "marker--corridor-entry-black"@,
        AnalysisBatchProofMarkerKind::CorridorEntryWhite => "marker--corridor-entry-white"@,
        AnalysisBatchProofMarkerKind::Forbidden => "marker--forbidden"@,
        AnalysisBatchProofMarkerKind::ForcedLoss => "marker--forced-loss"@,
        AnalysisBatchProofMarkerKind::ConfirmedEscape => "marker--confirmed-escape"@,
        AnalysisBatchProofMarkerKind::PossibleEscape => "marker--possible-escape"@,
        AnalysisBatchProofMarkerKind::ImmediateLoss => "marker--immediate-loss"@,
        AnalysisBatchProofMarkerKind::UnknownOutcome => "marker--unknown-outcome"@,
        AnalysisBatchProofMarkerKind::Actual => "marker--actual"@,
    }
}

fn kind_class(kind: AnalysisBatchProofMarkerKind) -> (r: &'static str)
    ensures
        r@ == kind_class_spec(kind),
{
    match kind {
        AnalysisBatchProofMarkerKind::Winning => "marker--winning",
        AnalysisBatchProofMarkerKind::Threat => "marker--threat",
        AnalysisBatchProofMarkerKind::ImminentDefense => "marker--imminent-defense",
        AnalysisBatchProofMarkerKind::OffensiveCounter => "marker--offensive-counter",
        AnalysisBatchProofMarkerKind::WinningEvidence => "marker--winning-evidence",
        AnalysisBatchProofMarkerKind::ThreatEvidence => "marker--threat-evidence",
        AnalysisBatchProofMarkerKind::ImminentEvidence => "marker--imminent-evidence",
        AnalysisBatchProofMarkerKind::OffensiveEvidence => "marker--offensive-evidence",
        AnalysisBatchProofMarkerKind::CorridorEntryBlack => "marker--corridor-entry-black",
        AnalysisBatchProofMarkerKind::CorridorEntryWhite => "marker--corridor-entry-white",
        AnalysisBatchProofMarkerKind::Forbidden => "marker--forbidden",
        AnalysisBatchProofMarkerKind::ForcedLoss => "marker--forced-loss",
        AnalysisBatchProofMarkerKind::ConfirmedEscape => "marker--confirmed-escape",
        AnalysisBatchProofMarkerKind::PossibleEscape => "marker--possible-escape",
        AnalysisBatchProofMarkerKind::ImmediateLoss => "marker--immediate-loss",
        AnalysisBatchProofMarkerKind::UnknownOutcome => "marker--unknown-outcome",
        AnalysisBatchProofMarkerKind::Actual => "marker--actual",
    }
}

/// The class marking the actual move of a color.
pub open spec fn actual_class_spec(color: Color) -> Seq<char> {
    match color {
        Color::Black => "marker--actual-black"@,
        Color::White => "marker--actual-white"@,
    }
}

/// The class marking the actual move of a color.
pub fn actual_marker_class(color: Color) -> (r: &'static str)
    ensures
        r@ == actual_class_spec(color),
{
    match color {
        Color::Black => "marker--actual-black",
        Color::White => "marker--actual-white",
    }
}

/// The class of the side to move.
pub open spec fn side_class_spec(color: Color) -> Seq<char> {
    match color {
        Color::Black => "marker--side-black"@,
        Color::White => "marker--side-white"@,
    }
}

/// The classes of the kinds in `kinds`, in order, where a winning marker on
/// the actual move of the winning frame is left out.
pub open spec fn kind_classes_spec(kinds: Seq<AnalysisBatchProofMarkerKind>, skip_winning: bool) -> Seq<Seq<char>>
    decreases kinds.len(),
{
    if kinds.len() == 0 {
        Seq::empty()
    } else {
        let prev = kind_classes_spec(kinds.drop_last(), skip_winning);
        if skip_winning && kinds.last() == AnalysisBatchProofMarkerKind::Winning {
            prev
        } else {
            prev.push(kind_class_spec(kinds.last()))
        }
    }
}

/// All classes of a marker on a frame: one per kind (without the winning
/// class on the actual move of the `winning_ply` frame), the side to move,
/// and the actual-move class of the side to move when the marker is the
/// actual move.
pub open spec fn marker_classes_spec(frame_label: Seq<char>, side_to_move: Color, kinds: Seq<AnalysisBatchProofMarkerKind>) -> Seq<Seq<char>> {
    let actual = kinds.contains(AnalysisBatchProofMarkerKind::Actual);
    let base = kind_classes_spec(kinds, frame_label == "winning_ply"@ && actual).push(
        side_class_spec(side_to_move),
    );
    if actual {
        base.push(actual_class_spec(side_to_move))
    } else {
        base
    }
}

/// The static strings of `v`, by their characters.
pub open spec fn strs_view(v: Seq<&'static str>) -> Seq<Seq<char>> {
    Seq::new(v.len(), |i: int| v[i]@)
}

/// The style classes of a marker drawn on a frame.
pub fn marker_classes(frame: &AnalysisBatchProofFrame, marker: &AnalysisBatchProofMarker) -> (r: Vec<
    &'static str,
>)
    ensures
        strs_view(r@) == marker_classes_spec(frame.label@, frame.side_to_move, marker.kinds@),
{
    let actual = kinds_contain(&marker.kinds, AnalysisBatchProofMarkerKind::Actual);
    let winning_frame = crate::text::str_eq(frame.label.as_str(), "winning_ply");
    let skip = winning_frame && actual;
    let mut classes: Vec<&'static str> = Vec::new();
    let mut i: usize = 0;
    while i < marker.kinds.len()
        invariant
            i <= marker.kinds.len(),
            strs_view(classes@) == kind_classes_spec(marker.kinds@.take(i as int), skip),
        decreases marker.kinds.len() - i,
    {
        assert(marker.kinds@.take(i + 1).drop_last() =~= marker.kinds@.take(i as int));
        let kind = marker.kinds[i];
        if !(skip && kind == AnalysisBatchProofMarkerKind::Winning) {
            let ghost before = classes@;
            let c = kind_class(kind);
            classes.push(c);
            assert(strs_view(classes@) =~= strs_view(before).push(c@));
        }
        i += 1;
    }
    assert(marker.kinds@.take(marker.kinds.len() as int) =~= marker.kinds@);
    let ghost before = classes@;
    let side = match frame.side_to_move {
        Color::Black => "marker--side-black",
        Color::White => "marker--side-white",
    };
    classes.push(side);
    assert(strs_view(classes@) =~= strs_view(before).push(side_class_spec(frame.side_to_move)));
    if actual {
        let ghost before2 = classes@;
        let a = actual_marker_class(frame.side_to_move);
        classes.push(a);
        assert(strs_view(classes@) =~= strs_view(before2).push(a@));
    }
    classes
}

/// The label of a proof frame on the actual line: `winning_ply` at the end
/// of the forced interval, else `actual_ply_N`.
pub open spec fn actual_frame_label_spec(ply: nat, interval: ForcedInterval) -> Seq<char> {
    if ply == interval.end_ply {
        "winning_ply"@
    } else {
        "actual_ply_"@ + decimal(ply)
    }
}

/// The label of the frame at `ply` of the forced interval.
pub fn actual_frame_label(ply: usize, interval: &ForcedInterval) -> (r: String)
    ensures
        r@ == actual_frame_label_spec(ply as nat, *interval),
{
    if ply == interval.end_ply {
        String::from_str("winning_ply")
    } else {
        let mut s = String::from_str("actual_ply_");
        let n = usize_to_string(ply);
        s.append(n.as_str());
        s
    }
}

/// The word for a defender reply role.
pub open spec fn role_word_spec(role: DefenderReplyRole) -> Seq<char> {
    match role {
        DefenderReplyRole::Actual => "actual"@,
        DefenderReplyRole::ImmediateDefense => "immediate"@,
        DefenderReplyRole::ImminentDefense => "imminent"@,
        DefenderReplyRole::OffensiveCounter => "offensive"@,
    }
}

/// The roles' words joined by ` + `.
pub open spec fn roles_label_spec(roles: Seq<DefenderReplyRole>) -> Seq<char> {
    join_spec(Seq::new(roles.len(), |i: int| role_word_spec(roles[i])), " + "@)
}

/// The roles of a defender reply, as words joined by ` + `.
pub fn reply_roles_label(roles: &[DefenderReplyRole]) -> (r: String)
    ensures
        r@ == roles_label_spec(roles@),
{
    let mut words: Vec<String> = Vec::new();
    let mut i: usize = 0;
    while i < roles.len()
        invariant
            i <= roles.len(),
            strings_view(words@) == Seq::new(i as nat, |j: int| role_word_spec(roles@[j])),
        decreases roles.len() - i,
    {
        let w = match roles[i] {
            DefenderReplyRole::Actual => "actual",
            DefenderReplyRole::ImmediateDefense => "immediate",
            DefenderReplyRole::ImminentDefense => "imminent",
            DefenderReplyRole::OffensiveCounter => "offensive",
        };
        assert(w@ == role_word_spec(roles@[i as int]));
        let ghost before = words@;
        let ws = String::from_str(w);
        assert(strings_view(before).len() == i);
        assert(ws@ == w@);
        words.push(ws);
        assert(words@[i as int] == ws);
        assert(words@[i as int]@ == role_word_spec(roles@[i as int]));
        assert forall|j: int| 0 <= j < i + 1 implies #[trigger] strings_view(words@)[j]
            == role_word_spec(roles@[j]) by {
            if j < i {
                assert(words@[j] == before[j]);
                assert(strings_view(before)[j] == before[j]@);
            }
        }
        assert(strings_view(words@) =~= Seq::new((i + 1) as nat, |j: int| role_word_spec(roles@[j])));
        i += 1;
    }
    assert(Seq::new(roles.len() as nat, |j: int| role_word_spec(roles@[j])) =~= Seq::new(
        roles@.len(),
        |j: int| role_word_spec(roles@[j]),
    ));
    join_strings(&words, " + ")
}

/// A reply's line: `-` without a principal line, else the reply's notation
/// followed by the line's moves, space separated.
pub open spec fn reply_line_spec(notation: Seq<char>, line: Seq<Seq<char>>) -> Seq<char> {
    if line.len() == 0 {
        "-"@
    } else {
        join_spec(seq![notation] + line, " "@)
    }
}

/// The principal line after a defender reply.
pub fn reply_line_label(reply: &DefenderReplyAnalysis) -> (r: String)
    ensures
        r@ == reply_line_spec(reply.notation@, strings_view(reply.principal_line_notation@)),
{
    if reply.principal_line_notation.len() == 0 {
        return String::from_str("-");
    }
    let mut parts: Vec<String> = Vec::new();
    parts.push(reply.notation.clone());
    let mut i: usize = 0;
    while i < reply.principal_line_notation.len()
        invariant
            i <= reply.principal_line_notation.len(),
            strings_view(parts@) == seq![reply.notation@] + strings_view(
                reply.principal_line_notation@,
            ).take(i as int),
        decreases reply.principal_line_notation.len() - i,
    {
        let ghost before = parts@;
        let item = reply.principal_line_notation[i].clone();
        assert(item@ == strings_view(reply.principal_line_notation@)[i as int]);
        assert(strings_view(before).len() == i + 1);
        parts.push(item);
        assert(parts@[i + 1] == item);
        assert forall|j: int| 0 <= j < i + 2 implies #[trigger] strings_view(parts@)[j] == (seq![
            reply.notation@,
        ] + strings_view(reply.principal_line_notation@).take(i + 1))[j] by {
            if j < i + 1 {
                assert(parts@[j] == before[j]);
                assert(strings_view(before)[j] == before[j]@);
            }
        }
        assert(strings_view(parts@) =~= seq![reply.notation@] + strings_view(
            reply.principal_line_notation@,
        ).take(i + 1));
        i += 1;
    }
    assert(strings_view(reply.principal_line_notation@).take(
        reply.principal_line_notation.len() as int,
    ) =~= strings_view(reply.principal_line_notation@));
    join_strings(&parts, " ")
}

/// How a frame's proof status reads from the attacker's side or the
/// defender's: a forced win is guaranteed once the lethal onset is reached.
pub open spec fn perspective_label_spec(
    status: ProofStatus,
    side_to_move: Color,
    lethal_onset_reached: bool,
    attacker: Color,
) -> Seq<char> {
    match status {
        ProofStatus::ForcedWin => if side_to_move == attacker {
            if lethal_onset_reached {
                "guaranteed win"@
            } else {
                "forced win"@
            }
        } else if lethal_onset_reached {
            "guaranteed loss"@
        } else {
            "forced loss"@
        },
        ProofStatus::EscapeFound => if side_to_move == attacker {
            "win not forced"@
        } else {
            "can escape"@
        },
        ProofStatus::Unknown => "unknown"@,
    }
}

/// The frame's proof status as the side to move sees it against `attacker`.
pub fn perspective_proof_status_label(frame: &AnalysisBatchProofFrame, attacker: Color) -> (r:
    &'static str)
    ensures
        r@ == perspective_label_spec(
            frame.status,
            frame.side_to_move,
            frame.lethal_onset_reached,
            attacker,
        ),
{
    let attacking = frame.side_to_move == attacker;
    match frame.status {
        ProofStatus::ForcedWin => {
            if attacking {
                if frame.lethal_onset_reached {
                    "guaranteed win"
                } else {
                    "forced win"
                }
            } else if frame.lethal_onset_reached {
                "guaranteed loss"
            } else {
                "forced loss"
            }
        },
        ProofStatus::EscapeFound => {
            if attacking {
                "win not forced"
            } else {
                "can escape"
            }
        },
        ProofStatus::Unknown => "unknown",
    }
}

/// The classes of a board cell: `proof-cell`, the stone's class for `B` or
/// `W`, then the classes of the marker on it, if any.
pub open spec fn cell_class_list(frame: AnalysisBatchProofFrame, stone: char, marker: Option<
    AnalysisBatchProofMarker,
>) -> Seq<Seq<char>> {
    let base = seq!["proof-cell"@];
    let with_stone = if stone == 'B' {
        base.push("proof-cell--stone-black"@)
    } else if stone == 'W' {
        base.push("proof-cell--stone-white"@)
    } else {
        base
    };
    match marker {
        Some(m) => with_stone + marker_classes_spec(frame.label@, frame.side_to_move, m.kinds@),
        None => with_stone,
    }
}

/// The class attribute of a board cell, its classes joined by spaces.
pub fn cell_classes(
    frame: &AnalysisBatchProofFrame,
    stone: char,
    marker: Option<&AnalysisBatchProofMarker>,
) -> (r: String)
    ensures
        r@ == join_spec(
            cell_class_list(
                *frame,
                stone,
                match marker {
                    Some(m) => Some(*m),
                    None => None,
                },
            ),
            " "@,
        ),
{
    let mut parts: Vec<String> = Vec::new();
    parts.push(String::from_str("proof-cell"));
    if stone == 'B' {
        parts.push(String::from_str("proof-cell--stone-black"));
    } else if stone == 'W' {
        parts.push(String::from_str("proof-cell--stone-white"));
    }
    let ghost head = strings_view(parts@);
    match marker {
        Some(m) => {
            let classes = marker_classes(frame, m);
            let mut i: usize = 0;
            while i < classes.len()
                invariant
                    i <= classes.len(),
                    strings_view(parts@) == head + strs_view(classes@).take(i as int),
                decreases classes.len() - i,
            {
                let ghost before = parts@;
                let t = String::from_str(classes[i]);
                parts.push(t);
                assert(strings_view(parts@) =~= strings_view(before).push(t@));
                assert(strs_view(classes@).take(i + 1) =~= strs_view(classes@).take(i as int).push(
                    classes@[i as int]@,
                ));
                assert(strings_view(parts@) =~= head + strs_view(classes@).take(i + 1));
                i += 1;
            }
            assert(strs_view(classes@).take(classes.len() as int) =~= strs_view(classes@));
        },
        None => {},
    }
    proof {
        let mk = match marker {
            Some(m) => Some(*m),
            None => None,
        };
        assert(strings_view(parts@) =~= cell_class_list(*frame, stone, mk));
    }
    join_strings(&parts, " ")
}

/// How a replay annotation marks a defender square.
#[derive(Debug, Clone, Copy, PartialEq, Eq, Structural)]
pub enum ReplayFrameMarkerRole {
    ConfirmedEscape,
    PossibleEscape,
    ForcedLoss,
    ImmediateLoss,
    Forbidden,
    Unknown,
}

/// Which threat a replay annotation highlights.
#[derive(Debug, Clone, Copy, PartialEq, Eq, Structural)]
pub enum ReplayFrameHighlightRole {
    ImmediateWin,
    ImmediateThreat,
    ImminentThreat,
    CounterThreat,
    CorridorEntry,
}

/// A highlighted square of a replay frame and the side it belongs to.
#[derive(Debug, Clone, Copy, PartialEq, Eq, Structural)]
pub struct ReplayFrameHighlight {
    pub mv: Move,
    pub role: ReplayFrameHighlightRole,
    pub side: Color,
}

/// A marked square of a replay frame.
#[derive(Debug, Clone, Copy, PartialEq, Eq, Structural)]
pub struct ReplayFrameMarker {
    pub mv: Move,
    pub role: ReplayFrameMarkerRole,
}

/// What the corridor replay says about one frame: evidence squares,
/// highlighted threats and marked replies.
#[derive(Debug, Clone, PartialEq, Eq)]
pub struct ReplayFrameAnnotations {
    pub evidence: Vec<ReplayFrameHighlight>,
    pub highlights: Vec<ReplayFrameHighlight>,
    pub markers: Vec<ReplayFrameMarker>,
}

/// The marker kind of a replay marker role.
pub open spec fn replay_marker_kind_spec(role: ReplayFrameMarkerRole) -> AnalysisBatchProofMarkerKind {
    match role {
        ReplayFrameMarkerRole::ConfirmedEscape => AnalysisBatchProofMarkerKind::ConfirmedEscape,
        ReplayFrameMarkerRole::PossibleEscape => AnalysisBatchProofMarkerKind::PossibleEscape,
        ReplayFrameMarkerRole::ForcedLoss => AnalysisBatchProofMarkerKind::ForcedLoss,
        ReplayFrameMarkerRole::ImmediateLoss => AnalysisBatchProofMarkerKind::ImmediateLoss,
        ReplayFrameMarkerRole::Forbidden => AnalysisBatchProofMarkerKind::Forbidden,
        ReplayFrameMarkerRole::Unknown => AnalysisBatchProofMarkerKind::UnknownOutcome,
    }
}

/// The marker kind of a replay marker role.
pub fn marker_kind_for_replay_marker(role: ReplayFrameMarkerRole) -> (r: AnalysisBatchProofMarkerKind)
    ensures
        r == replay_marker_kind_spec(role),
{
    match role {
        ReplayFrameMarkerRole::ConfirmedEscape => AnalysisBatchProofMarkerKind::ConfirmedEscape,
        ReplayFrameMarkerRole::PossibleEscape => AnalysisBatchProofMarkerKind::PossibleEscape,
        ReplayFrameMarkerRole::ForcedLoss => AnalysisBatchProofMarkerKind::ForcedLoss,
        ReplayFrameMarkerRole::ImmediateLoss => AnalysisBatchProofMarkerKind::ImmediateLoss,
        ReplayFrameMarkerRole::Forbidden => AnalysisBatchProofMarkerKind::Forbidden,
        ReplayFrameMarkerRole::Unknown => AnalysisBatchProofMarkerKind::UnknownOutcome,
    }
}

/// The marker kind of a highlighted threat; a corridor entry takes the
/// side's color.
pub open spec fn replay_highlight_kind_spec(role: ReplayFrameHighlightRole, side: Color) -> AnalysisBatchProofMarkerKind {
    match role {
        ReplayFrameHighlightRole::ImmediateWin => AnalysisBatchProofMarkerKind::Winning,
        ReplayFrameHighlightRole::ImmediateThreat => AnalysisBatchProofMarkerKind::Threat,
        ReplayFrameHighlightRole::ImminentThreat => AnalysisBatchProofMarkerKind::ImminentDefense,
        ReplayFrameHighlightRole::CounterThreat => AnalysisBatchProofMarkerKind::OffensiveCounter,
        ReplayFrameHighlightRole::CorridorEntry => match side {
            Color::Black => AnalysisBatchProofMarkerKind::CorridorEntryBlack,
            Color::White => AnalysisBatchProofMarkerKind::CorridorEntryWhite,
        },
    }
}

/// The marker kind of a highlighted threat.
pub fn marker_kind_for_replay_highlight(role: ReplayFrameHighlightRole, side: Color) -> (r:
    AnalysisBatchProofMarkerKind)
    ensures
        r == replay_highlight_kind_spec(role, side),
{
    match role {
        ReplayFrameHighlightRole::ImmediateWin => AnalysisBatchProofMarkerKind::Winning,
        ReplayFrameHighlightRole::ImmediateThreat => AnalysisBatchProofMarkerKind::Threat,
        ReplayFrameHighlightRole::ImminentThreat => AnalysisBatchProofMarkerKind::ImminentDefense,
        ReplayFrameHighlightRole::CounterThreat => AnalysisBatchProofMarkerKind::OffensiveCounter,
        ReplayFrameHighlightRole::CorridorEntry => corridor_entry_marker_kind(side),
    }
}

/// The evidence marker kind of a highlighted threat; a corridor entry has
/// none.
pub open spec fn replay_evidence_kind_spec(role: ReplayFrameHighlightRole) -> Option<AnalysisBatchProofMarkerKind> {
    match role {
        ReplayFrameHighlightRole::ImmediateWin => Some(AnalysisBatchProofMarkerKind::WinningEvidence),
        ReplayFrameHighlightRole::ImmediateThreat => Some(AnalysisBatchProofMarkerKind::ThreatEvidence),
        ReplayFrameHighlightRole::ImminentThreat => Some(AnalysisBatchProofMarkerKind::ImminentEvidence),
        ReplayFrameHighlightRole::CounterThreat => Some(AnalysisBatchProofMarkerKind::OffensiveEvidence),
        ReplayFrameHighlightRole::CorridorEntry => None,
    }
}

/// The evidence marker kind of a highlighted threat.
pub fn evidence_marker_kind_for_replay_highlight(role: ReplayFrameHighlightRole) -> (r: Option<
    AnalysisBatchProofMarkerKind,
>)
    ensures
        r == replay_evidence_kind_spec(role),
{
    match role {
        ReplayFrameHighlightRole::ImmediateWin => Some(AnalysisBatchProofMarkerKind::WinningEvidence),
        ReplayFrameHighlightRole::ImmediateThreat => Some(AnalysisBatchProofMarkerKind::ThreatEvidence),
        ReplayFrameHighlightRole::ImminentThreat => Some(AnalysisBatchProofMarkerKind::ImminentEvidence),
        ReplayFrameHighlightRole::CounterThreat => Some(AnalysisBatchProofMarkerKind::OffensiveEvidence),
        ReplayFrameHighlightRole::CorridorEntry => None,
    }
}

/// The evidence squares mark `mv` with `k`.
pub open spec fn evidence_marks(ev: Seq<ReplayFrameHighlight>, mv: Move, k: AnalysisBatchProofMarkerKind) -> bool
    decreases ev.len(),
{
    if ev.len() == 0 {
        false
    } else {
        evidence_marks(ev.drop_last(), mv, k) || (ev.last().mv == mv && replay_evidence_kind_spec(
            ev.last().role,
        ) == Some(k))
    }
}

/// The highlights mark `mv` with `k`.
pub open spec fn highlight_marks(hs: Seq<ReplayFrameHighlight>, mv: Move, k: AnalysisBatchProofMarkerKind) -> bool
    decreases hs.len(),
{
    if hs.len() == 0 {
        false
    } else {
        highlight_marks(hs.drop_last(), mv, k) || (hs.last().mv == mv && replay_highlight_kind_spec(
            hs.last().role,
            hs.last().side,
        ) == k)
    }
}

/// The replay markers mark `mv` with `k`.
pub open spec fn replay_marker_marks(ms: Seq<ReplayFrameMarker>, mv: Move, k: AnalysisBatchProofMarkerKind) -> bool
    decreases ms.len(),
{
    if ms.len() == 0 {
        false
    } else {
        replay_marker_marks(ms.drop_last(), mv, k) || (ms.last().mv == mv && replay_marker_kind_spec(
            ms.last().role,
        ) == k)
    }
}

/// Every square the annotation names has a notation.
pub open spec fn annotation_printable(a: ReplayFrameAnnotations) -> bool {
    &&& forall|i: int| 0 <= i < a.evidence@.len() ==> (#[trigger] a.evidence@[i]).mv.col < 26 && a.evidence@[i].mv.row < usize::MAX
    &&& forall|i: int| 0 <= i < a.highlights@.len() ==> (#[trigger] a.highlights@[i]).mv.col < 26 && a.highlights@[i].mv.row < usize::MAX
    &&& forall|i: int| 0 <= i < a.markers@.len() ==> (#[trigger] a.markers@[i]).mv.col < 26 && a.markers@[i].mv.row < usize::MAX
}

/// The annotation marks `mv` with `k`.
pub open spec fn annotation_marks(a: ReplayFrameAnnotations, mv: Move, k: AnalysisBatchProofMarkerKind) -> bool {
    evidence_marks(a.evidence@, mv, k) || highlight_marks(a.highlights@, mv, k) || replay_marker_marks(
        a.markers@,
        mv,
        k,
    )
}

fn add_kind_at(markers: &mut Vec<AnalysisBatchProofMarker>, mv: Move, kind: AnalysisBatchProofMarkerKind)
    requires
        markers_wf(old(markers)@),
        mv.col < 26,
        mv.row < usize::MAX,
    ensures
        markers_wf(final(markers)@),
        forall|m: Move, k: AnalysisBatchProofMarkerKind| #[trigger]
            has_mark(final(markers)@, m, k) <==> has_mark(old(markers)@, m, k) || (m == mv && k == kind),
{
    let one: Vec<Move> = vec![mv];
    assert(one@[0] == mv);
    assert forall|m: Move| one@.contains(m) <==> m == mv by {
        if one@.contains(m) {
            let a = choose|a: int| 0 <= a < one@.len() && one@[a] == m;
            assert(a == 0);
        }
    }
    add_marker_kind(markers, one.as_slice(), kind);
}

/// Marks the annotation's squares on the frame: evidence kinds for the
/// evidence, highlight kinds for the highlights, and outcome kinds for the
/// replay markers.
pub fn add_replay_annotation_markers(
    markers: &mut Vec<AnalysisBatchProofMarker>,
    annotation: &ReplayFrameAnnotations,
)
    requires
        markers_wf(old(markers)@),
        annotation_printable(*annotation),
    ensures
        markers_wf(final(markers)@),
        forall|m: Move, k: AnalysisBatchProofMarkerKind| #[trigger]
            has_mark(final(markers)@, m, k) <==> has_mark(old(markers)@, m, k) || annotation_marks(
                *annotation,
                m,
                k,
            ),
{
    let ghost start = markers@;
    let ev = &annotation.evidence;
    let mut i: usize = 0;
    while i < ev.len()
        invariant
            i <= ev.len(),
            markers_wf(markers@),
            annotation_printable(*annotation),
            ev == &annotation.evidence,
            start == old(markers)@,
            forall|m: Move, k: AnalysisBatchProofMarkerKind| #[trigger]
                has_mark(markers@, m, k) <==> has_mark(start, m, k) || evidence_marks(ev@.take(i as int), m, k),
        decreases ev.len() - i,
    {
        assert(ev@.take(i + 1).drop_last() =~= ev@.take(i as int));
        assert(ev@.take(i + 1).last() == ev@[i as int]);
        let h = ev[i];
        match evidence_marker_kind_for_replay_highlight(h.role) {
            Some(kind) => {
                add_kind_at(markers, h.mv, kind);
            },
            None => {},
        }
        i += 1;
    }
    assert(ev@.take(ev.len() as int) =~= ev@);
    let ghost mid = markers@;
    let hs = &annotation.highlights;
    let mut j: usize = 0;
    while j < hs.len()
        invariant
            j <= hs.len(),
            markers_wf(markers@),
            annotation_printable(*annotation),
            hs == &annotation.highlights,
            forall|m: Move, k: AnalysisBatchProofMarkerKind| #[trigger]
                has_mark(markers@, m, k) <==> has_mark(mid, m, k) || highlight_marks(hs@.take(j as int), m, k),
        decreases hs.len() - j,
    {
        assert(hs@.take(j + 1).drop_last() =~= hs@.take(j as int));
        assert(hs@.take(j + 1).last() == hs@[j as int]);
        let h = hs[j];
        let kind = marker_kind_for_replay_highlight(h.role, h.side);
        add_kind_at(markers, h.mv, kind);
        j += 1;
    }
    assert(hs@.take(hs.len() as int) =~= hs@);
    let ghost mid2 = markers@;
    let ms = &annotation.markers;
    let mut k: usize = 0;
    while k < ms.len()
        invariant
            k <= ms.len(),
            markers_wf(markers@),
            annotation_printable(*annotation),
            ms == &annotation.markers,
            forall|m: Move, kk: AnalysisBatchProofMarkerKind| #[trigger]
                has_mark(markers@, m, kk) <==> has_mark(mid2, m, kk) || replay_marker_marks(ms@.take(k as int), m, kk),
        decreases ms.len() - k,
    {
        assert(ms@.take(k + 1).drop_last() =~= ms@.take(k as int));
        assert(ms@.take(k + 1).last() == ms@[k as int]);
        let r = ms[k];
        let kind = marker_kind_for_replay_marker(r.role);
        add_kind_at(markers, r.mv, kind);
        k += 1;
    }
    assert(ms@.take(ms.len() as int) =~= ms@);
}

} // verus!
