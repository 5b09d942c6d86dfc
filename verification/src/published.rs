//! The published form of an analysis run: which games each section covers,
//! search effort figures, defender reply outcomes, and the run's summary
//! counts.
use vstd::prelude::*;
use crate::analysis::{
    cause_of_rank, cause_rank, of_rank, DefenderReplyOutcome, DefenderReplyRole, ProofLimitCause,
    RootCause,
};
use crate::analysis_report::ReportReplayMatch;
use crate::board::{Color, Move};
use crate::proof_markers::{
    AnalysisBatchProofDetails, AnalysisBatchProofFrame, AnalysisBatchProofMarker,
    AnalysisBatchProofMarkerKind,
};
use crate::analysis::ProofStatus;
use crate::report_replay::ReportReplaySectionPlan;

verus! {

/// When, where and how a published report was produced.
#[derive(Debug, Clone, PartialEq, Eq)]
pub struct PublishedAnalysisProvenance {
    pub generated_at_utc: Option<String>,
    pub generated_at_local: Option<String>,
    pub git_commit: Option<String>,
    pub git_dirty: Option<bool>,
    pub command: Vec<String>,
}

impl Default for PublishedAnalysisProvenance {
    /// Nothing known: no times, no commit, no command.
    fn default() -> (r: Self)
        ensures
            r.generated_at_utc is None,
            r.generated_at_local is None,
            r.git_commit is None,
            r.git_dirty is None,
            r.command@.len() == 0,
    {
        PublishedAnalysisProvenance {
            generated_at_utc: None,
            generated_at_local: None,
            git_commit: None,
            git_dirty: None,
            command: Vec::new(),
        }
    }
}

/// A replayed game as a published report lists it.
#[derive(Debug, Clone, PartialEq, Eq)]
pub struct PublishedAnalysisMatchSummary {
    pub match_index: usize,
    pub black: String,
    pub white: String,
    pub result: String,
    pub winner: Option<String>,
    pub end_reason: String,
    pub move_cells: Vec<usize>,
    pub move_count: usize,
}

/// The search effort spent on a game's proof details.
#[derive(Debug, Clone, Copy, PartialEq, Eq, Structural)]
pub struct PublishedAnalysisSearchDetails {
    pub search_nodes: usize,
    pub branch_probes: usize,
    pub max_depth_reached: usize,
}

/// A defender reply and what it led to, as published.
#[derive(Debug, Clone, PartialEq, Eq)]
pub struct PublishedAnalysisReplyOutcome {
    pub notation: String,
    pub roles: Vec<DefenderReplyRole>,
    pub outcome: DefenderReplyOutcome,
}

/// One section of a published report: a pairing and its games.
#[derive(Debug, Clone, PartialEq, Eq)]
pub struct PublishedAnalysisSectionInput {
    pub label: String,
    pub entrant_a: String,
    pub entrant_b: String,
    pub matches: Vec<PublishedAnalysisMatchSummary>,
}

/// Search effort counters of a proof search.
#[derive(Debug, Clone, Copy, PartialEq, Eq, Structural)]
pub struct SearchDiagnostics {
    pub search_nodes: usize,
    pub branch_probes: usize,
    pub max_depth_reached: usize,
}

/// A defender reply examined by the analysis.
#[derive(Debug, Clone, PartialEq, Eq)]
pub struct DefenderReplyAnalysis {
    pub mv: Move,
    pub notation: String,
    pub roles: Vec<DefenderReplyRole>,
    pub outcome: DefenderReplyOutcome,
    pub principal_line: Vec<Move>,
    pub principal_line_notation: Vec<String>,
    pub limit_causes: Vec<ProofLimitCause>,
}

/// A string option by its characters.
pub open spec fn opt_chars(o: Option<String>) -> Option<Seq<char>> {
    match o {
        Some(s) => Some(s@),
        None => None,
    }
}

/// `s` lists game `m` field for field.
pub open spec fn summary_agrees(m: ReportReplayMatch, s: PublishedAnalysisMatchSummary) -> bool {
    &&& s.match_index == m.match_index
    &&& s.black@ == m.black@
    &&& s.white@ == m.white@
    &&& s.result@ == m.result@
    &&& opt_chars(s.winner) == opt_chars(m.winner)
    &&& s.end_reason@ == m.end_reason@
    &&& s.move_cells@ == m.move_cells@
    &&& s.move_count == m.move_count
}

fn clone_opt_string(o: &Option<String>) -> (r: Option<String>)
    ensures
        opt_chars(r) == opt_chars(*o),
{
    match o {
        Some(s) => Some(s.clone()),
        None => None,
    }
}

fn clone_cells(v: &Vec<usize>) -> (r: Vec<usize>)
    ensures
        r@ == v@,
{
    let mut r: Vec<usize> = Vec::new();
    let mut k: usize = 0;
    while k < v.len()
        invariant
            k <= v.len(),
            r@ == v@.take(k as int),
        decreases v.len() - k,
    {
        r.push(v[k]);
        assert(v@.take(k + 1) =~= v@.take(k as int).push(v@[k as int]));
        k += 1;
    }
    assert(v@.take(v.len() as int) =~= v@);
    r
}

/// The published summary of a replayed game: its fields, copied.
pub fn published_analysis_match_summary(match_report: &ReportReplayMatch) -> (r:
    PublishedAnalysisMatchSummary)
    ensures
        summary_agrees(*match_report, r),
{
    PublishedAnalysisMatchSummary {
        match_index: match_report.match_index,
        black: match_report.black.clone(),
        white: match_report.white.clone(),
        result: match_report.result.clone(),
        winner: clone_opt_string(&match_report.winner),
        end_reason: match_report.end_reason.clone(),
        move_cells: clone_cells(&match_report.move_cells),
        move_count: match_report.move_count,
    }
}

/// `input` is the published form of `plan`: same label and entrants, and
/// one summary per chosen game, in order.
pub open spec fn section_input_agrees<'a>(
    plan: ReportReplaySectionPlan<'a>,
    input: PublishedAnalysisSectionInput,
) -> bool {
    &&& input.label@ == plan.label@
    &&& input.entrant_a@ == plan.entrant_a@
    &&& input.entrant_b@ == plan.entrant_b@
    &&& input.matches@.len() == plan.selections@.len()
    &&& forall|j: int|
        0 <= j < input.matches@.len() ==> summary_agrees(
            *plan.selections@[j].match_report,
            #[trigger] input.matches@[j],
        )
}

fn published_section_input<'a>(plan: &ReportReplaySectionPlan<'a>) -> (r:
    PublishedAnalysisSectionInput)
    ensures
        section_input_agrees(*plan, r),
{
    let mut matches: Vec<PublishedAnalysisMatchSummary> = Vec::new();
    let mut j: usize = 0;
    while j < plan.selections.len()
        invariant
            j <= plan.selections.len(),
            matches.len() == j,
            forall|i: int|
                0 <= i < j ==> summary_agrees(
                    *plan.selections@[i].match_report,
                    #[trigger] matches@[i],
                ),
        decreases plan.selections.len() - j,
    {
        matches.push(published_analysis_match_summary(plan.selections[j].match_report));
        j += 1;
    }
    PublishedAnalysisSectionInput {
        label: plan.label.clone(),
        entrant_a: plan.entrant_a.clone(),
        entrant_b: plan.entrant_b.clone(),
        matches,
    }
}

/// The published sections of a replay run, one per plan and in order.
pub fn published_analysis_sections_from_plans<'a>(sections: &[ReportReplaySectionPlan<'a>]) -> (r:
    Vec<PublishedAnalysisSectionInput>)
    ensures
        r.len() == sections.len(),
        forall|k: int| 0 <= k < r.len() ==> section_input_agrees(sections@[k], #[trigger] r@[k]),
{
    let mut out: Vec<PublishedAnalysisSectionInput> = Vec::new();
    let mut k: usize = 0;
    while k < sections.len()
        invariant
            k <= sections.len(),
            out.len() == k,
            forall|i: int| 0 <= i < k ==> section_input_agrees(sections@[i], #[trigger] out@[i]),
        decreases sections.len() - k,
    {
        out.push(published_section_input(&sections[k]));
        k += 1;
    }
    out
}

/// The published search effort: the diagnostics' three counters.
pub fn published_analysis_search_details(diagnostics: &SearchDiagnostics) -> (r:
    PublishedAnalysisSearchDetails)
    ensures
        r.search_nodes == diagnostics.search_nodes,
        r.branch_probes == diagnostics.branch_probes,
        r.max_depth_reached == diagnostics.max_depth_reached,
{
    PublishedAnalysisSearchDetails {
        search_nodes: diagnostics.search_nodes,
        branch_probes: diagnostics.branch_probes,
        max_depth_reached: diagnostics.max_depth_reached,
    }
}

/// Total nodes over `parts`.
pub open spec fn total_nodes(parts: Seq<SearchDiagnostics>) -> int
    decreases parts.len(),
{
    if parts.len() == 0 {
        0
    } else {
        total_nodes(parts.drop_last()) + parts.last().search_nodes
    }
}

/// Total branch probes over `parts`.
pub open spec fn total_probes(parts: Seq<SearchDiagnostics>) -> int
    decreases parts.len(),
{
    if parts.len() == 0 {
        0
    } else {
        total_probes(parts.drop_last()) + parts.last().branch_probes
    }
}

/// The deepest depth reached over `parts` (0 when empty).
pub open spec fn deepest(parts: Seq<SearchDiagnostics>) -> int
    decreases parts.len(),
{
    if parts.len() == 0 {
        0
    } else if parts.last().max_depth_reached > deepest(parts.drop_last()) {
        parts.last().max_depth_reached as int
    } else {
        deepest(parts.drop_last())
    }
}

proof fn lemma_totals_monotone(parts: Seq<SearchDiagnostics>, k: int)
    requires
        0 <= k <= parts.len(),
    ensures
        total_nodes(parts.take(k)) <= total_nodes(parts),
        total_probes(parts.take(k)) <= total_probes(parts),
        0 <= deepest(parts),
    decreases parts.len(),
{
    if parts.len() > 0 {
        if k == parts.len() {
            assert(parts.take(k) =~= parts);
            lemma_totals_monotone(parts.drop_last(), 0);
        } else {
            assert(parts.take(k) =~= parts.drop_last().take(k));
            lemma_totals_monotone(parts.drop_last(), k);
        }
    }
}

/// The search effort of several searches together: nodes and probes added
/// up, the deepest depth kept.
pub fn combined_search_diagnostics(parts: &[SearchDiagnostics]) -> (r: SearchDiagnostics)
    requires
        total_nodes(parts@) <= usize::MAX,
        total_probes(parts@) <= usize::MAX,
    ensures
        r.search_nodes == total_nodes(parts@),
        r.branch_probes == total_probes(parts@),
        r.max_depth_reached == deepest(parts@),
{
    let mut acc = SearchDiagnostics { search_nodes: 0, branch_probes: 0, max_depth_reached: 0 };
    let mut k: usize = 0;
    while k < parts.len()
        invariant
            k <= parts.len(),
            total_nodes(parts@) <= usize::MAX,
            total_probes(parts@) <= usize::MAX,
            acc.search_nodes == total_nodes(parts@.take(k as int)),
            acc.branch_probes == total_probes(parts@.take(k as int)),
            acc.max_depth_reached == deepest(parts@.take(k as int)),
        decreases parts.len() - k,
    {
        assert(parts@.take(k + 1).drop_last() =~= parts@.take(k as int));
        assert(parts@.take(k + 1).last() == parts@[k as int]);
        proof {
            lemma_totals_monotone(parts@, k + 1);
            lemma_totals_monotone(parts@.take(k as int), 0);
        }
        let p = parts[k];
        acc.search_nodes = acc.search_nodes + p.search_nodes;
        acc.branch_probes = acc.branch_probes + p.branch_probes;
        if p.max_depth_reached > acc.max_depth_reached {
            acc.max_depth_reached = p.max_depth_reached;
        }
        k += 1;
    }
    assert(parts@.take(parts.len() as int) =~= parts@);
    acc
}

fn clone_roles(v: &Vec<DefenderReplyRole>) -> (r: Vec<DefenderReplyRole>)
    ensures
        r@ == v@,
{
    let mut r: Vec<DefenderReplyRole> = Vec::new();
    let mut k: usize = 0;
    while k < v.len()
        invariant
            k <= v.len(),
            r@ == v@.take(k as int),
        decreases v.len() - k,
    {
        r.push(v[k]);
        assert(v@.take(k + 1) =~= v@.take(k as int).push(v@[k as int]));
        k += 1;
    }
    assert(v@.take(v.len() as int) =~= v@);
    r
}

/// The published form of a defender reply: its notation, roles and outcome.
pub fn published_analysis_reply_outcome(reply: &DefenderReplyAnalysis) -> (r:
    PublishedAnalysisReplyOutcome)
    ensures
        r.notation@ == reply.notation@,
        r.roles@ == reply.roles@,
        r.outcome == reply.outcome,
{
    PublishedAnalysisReplyOutcome {
        notation: reply.notation.clone(),
        roles: clone_roles(&reply.roles),
        outcome: reply.outcome,
    }
}

/// Whether a batch entry was analysed or failed.
#[derive(Debug, Clone, Copy, PartialEq, Eq, Structural)]
pub enum AnalysisBatchEntryStatus {
    Analyzed,
    Error,
}

/// The summary counts of an analysis batch.
#[derive(Debug, Clone, Copy, PartialEq, Eq, Structural)]
pub struct AnalysisBatchSummary {
    pub unclear: usize,
    pub ongoing_or_draw: usize,
    pub analysis_error: usize,
}

impl Default for AnalysisBatchSummary {
    /// All counts zero.
    fn default() -> (r: Self)
        ensures
            r.unclear == 0,
            r.ongoing_or_draw == 0,
            r.analysis_error == 0,
    {
        AnalysisBatchSummary { unclear: 0, ongoing_or_draw: 0, analysis_error: 0 }
    }
}

/// Counts an analysed game into the summary: a game without a winner is a
/// draw or still going; a decided game whose root cause is unclear or
/// missing counts as unclear.
pub fn increment_summary_from_entry(
    summary: &mut AnalysisBatchSummary,
    winner: Option<Color>,
    root_cause: Option<RootCause>,
)
    requires
        old(summary).ongoing_or_draw < usize::MAX,
        old(summary).unclear < usize::MAX,
    ensures
        final(summary).analysis_error == old(summary).analysis_error,
        final(summary).ongoing_or_draw == old(summary).ongoing_or_draw + (if winner is None {
            1int
        } else {
            0
        }),
        final(summary).unclear == old(summary).unclear + (if winner is Some && (root_cause is None
            || root_cause == Some(RootCause::Unclear)) {
            1int
        } else {
            0
        }),
{
    if winner.is_none() {
        summary.ongoing_or_draw = summary.ongoing_or_draw + 1;
        return;
    }
    match root_cause {
        Some(RootCause::Unclear) | None => {
            summary.unclear = summary.unclear + 1;
        },
        _ => {},
    }
}

} // verus!

verus! {

/// How many batch entries a proof limit cause was met in, counting each
/// occurrence.
#[derive(Debug, Clone, Copy, PartialEq, Eq, Structural)]
pub struct ProofLimitCauseCount {
    pub cause: ProofLimitCause,
    pub count: usize,
}

/// How often causes of rank `r` occur over all the entries' cause lists.
pub open spec fn total_of_rank(entries: Seq<Seq<ProofLimitCause>>, r: int) -> int
    decreases entries.len(),
{
    if entries.len() == 0 {
        0
    } else {
        total_of_rank(entries.drop_last(), r) + of_rank(entries.last(), r).len()
    }
}

/// The counts of the causes of rank below `k` that occur at all, in rank
/// (declaration) order.
pub open spec fn cause_counts_spec(entries: Seq<Seq<ProofLimitCause>>, k: int) -> Seq<(ProofLimitCause, int)>
    decreases k,
{
    if k <= 0 {
        Seq::empty()
    } else {
        let prev = cause_counts_spec(entries, k - 1);
        let n = total_of_rank(entries, k - 1);
        if n > 0 {
            prev.push((cause_of_rank(k - 1), n))
        } else {
            prev
        }
    }
}

/// The counts as (cause, count) pairs.
pub open spec fn counts_view(v: Seq<ProofLimitCauseCount>) -> Seq<(ProofLimitCause, int)> {
    Seq::new(v.len(), |i: int| (v[i].cause, v[i].count as int))
}

proof fn lemma_of_rank_prefix(s: Seq<ProofLimitCause>, j: int, r: int)
    requires
        0 <= j < s.len(),
    ensures
        of_rank(s.take(j + 1), r).len() == of_rank(s.take(j), r).len() + (if cause_rank(s[j]) == r {
            1int
        } else {
            0
        }),
        of_rank(s.take(j + 1), r).len() <= of_rank(s, r).len(),
    decreases s.len() - j,
{
    assert(s.take(j + 1).drop_last() =~= s.take(j));
    if j + 1 < s.len() {
        lemma_of_rank_prefix(s, j + 1, r);
    } else {
        assert(s.take(j + 1) =~= s);
    }
}

proof fn lemma_total_prefix(entries: Seq<Seq<ProofLimitCause>>, i: int, r: int)
    requires
        0 <= i <= entries.len(),
    ensures
        total_of_rank(entries.take(i), r) <= total_of_rank(entries, r),
        0 <= total_of_rank(entries.take(i), r),
    decreases entries.len() - i,
{
    if i < entries.len() {
        lemma_total_prefix(entries, i + 1, r);
        assert(entries.take(i + 1).drop_last() =~= entries.take(i));
    } else {
        assert(entries.take(i) =~= entries);
    }
    lemma_total_nonneg(entries.take(i), r);
}

proof fn lemma_total_nonneg(entries: Seq<Seq<ProofLimitCause>>, r: int)
    ensures
        0 <= total_of_rank(entries, r),
    decreases entries.len(),
{
    if entries.len() > 0 {
        lemma_total_nonneg(entries.drop_last(), r);
    }
}

/// The cause lists of the entries, by their contents.
pub open spec fn cause_lists_view(v: Seq<Vec<ProofLimitCause>>) -> Seq<Seq<ProofLimitCause>> {
    Seq::new(v.len(), |i: int| v[i]@)
}

fn rank_index(c: ProofLimitCause) -> (r: usize)
    ensures
        r == cause_rank(c),
{
    match c {
        ProofLimitCause::DepthCutoff => 0,
        ProofLimitCause::ForcedExtensionCutoff => 1,
        ProofLimitCause::AttackerChildUnknown => 2,
        ProofLimitCause::DefenderReplyUnknown => 3,
        ProofLimitCause::ModelScopeUnknown => 4,
        ProofLimitCause::OutsideScanWindow => 5,
    }
}

fn cause_at_rank(r: usize) -> (c: ProofLimitCause)
    requires
        r < 6,
    ensures
        c == cause_of_rank(r as int),
        cause_rank(c) == r,
{
    if r == 0 {
        ProofLimitCause::DepthCutoff
    } else if r == 1 {
        ProofLimitCause::ForcedExtensionCutoff
    } else if r == 2 {
        ProofLimitCause::AttackerChildUnknown
    } else if r == 3 {
        ProofLimitCause::DefenderReplyUnknown
    } else if r == 4 {
        ProofLimitCause::ModelScopeUnknown
    } else {
        ProofLimitCause::OutsideScanWindow
    }
}

/// How often each proof limit cause occurs over the entries' cause lists,
/// for the causes that occur, in declaration order.
pub fn limit_cause_counts(entry_causes: &[Vec<ProofLimitCause>]) -> (r: Vec<ProofLimitCauseCount>)
    requires
        forall|k: int| 0 <= k < 6 ==> total_of_rank(cause_lists_view(entry_causes@), k) <= usize::MAX,
    ensures
        counts_view(r@) == cause_counts_spec(cause_lists_view(entry_causes@), 6),
{
    let ghost all = cause_lists_view(entry_causes@);
    let mut counts: Vec<usize> = vec![0usize, 0usize, 0usize, 0usize, 0usize, 0usize];
    let mut i: usize = 0;
    while i < entry_causes.len()
        invariant
            i <= entry_causes.len(),
            all == cause_lists_view(entry_causes@),
            counts.len() == 6,
            forall|k: int| 0 <= k < 6 ==> total_of_rank(all, k) <= usize::MAX,
            forall|k: int| 0 <= k < 6 ==> #[trigger] counts@[k] == total_of_rank(all.take(i as int), k),
        decreases entry_causes.len() - i,
    {
        let list = &entry_causes[i];
        assert(all[i as int] == list@);
        assert(all.take(i + 1).drop_last() =~= all.take(i as int));
        assert(all.take(i + 1).last() == list@);
        let mut j: usize = 0;
        assert(list@.take(0) =~= Seq::<ProofLimitCause>::empty());
        while j < list.len()
            invariant
                j <= list.len(),
                i < entry_causes.len(),
                all == cause_lists_view(entry_causes@),
                all[i as int] == list@,
                all.take(i + 1).drop_last() == all.take(i as int),
                all.take(i + 1).last() == list@,
                counts.len() == 6,
                forall|k: int| 0 <= k < 6 ==> total_of_rank(all, k) <= usize::MAX,
                forall|k: int|
                    0 <= k < 6 ==> #[trigger] counts@[k] == total_of_rank(all.take(i as int), k)
                        + of_rank(list@.take(j as int), k).len(),
            decreases list.len() - j,
        {
            let c = list[j];
            let k = rank_index(c);
            proof {
                lemma_of_rank_prefix(list@, j as int, k as int);
                lemma_total_prefix(all, i + 1, k as int);
                assert(total_of_rank(all.take(i + 1), k as int) == total_of_rank(all.take(i as int), k as int)
                    + of_rank(list@, k as int).len());
                assert forall|q: int| 0 <= q < 6 implies of_rank(list@.take(j + 1), q).len()
                    == of_rank(list@.take(j as int), q).len() + (if q == k {
                    1int
                } else {
                    0
                }) by {
                    lemma_of_rank_prefix(list@, j as int, q);
                }
            }
            let cur = counts[k];
            counts.set(k, cur + 1);
            j += 1;
        }
        assert(list@.take(list.len() as int) =~= list@);
        i += 1;
    }
    assert(all.take(entry_causes.len() as int) =~= all);
    let mut out: Vec<ProofLimitCauseCount> = Vec::new();
    let mut k: usize = 0;
    while k < 6
        invariant
            k <= 6,
            counts.len() == 6,
            forall|q: int| 0 <= q < 6 ==> #[trigger] counts@[q] == total_of_rank(all, q),
            counts_view(out@) == cause_counts_spec(all, k as int),
        decreases 6 - k,
    {
        let n = counts[k];
        if n > 0 {
            let ghost before = out@;
            let c = cause_at_rank(k);
            out.push(ProofLimitCauseCount { cause: c, count: n });
            assert(counts_view(out@) =~= counts_view(before).push((cause_of_rank(k as int), n as int)));
        }
        k += 1;
    }
    out
}

/// A marker of a published proof frame: the square and its kinds.
#[derive(Debug, Clone, PartialEq, Eq)]
pub struct PublishedAnalysisProofMarker {
    pub notation: String,
    pub kinds: Vec<AnalysisBatchProofMarkerKind>,
}

/// A published proof frame: the frame without its board rows and with its
/// markers and replies in published form.
#[derive(Debug, Clone, PartialEq, Eq)]
pub struct PublishedAnalysisProofFrame {
    pub label: String,
    pub ply: usize,
    pub side_to_move: Color,
    pub status: ProofStatus,
    pub move_played_notation: Option<String>,
    pub lethal_onset_reached: bool,
    pub markers: Vec<PublishedAnalysisProofMarker>,
    pub reply_outcomes: Vec<PublishedAnalysisReplyOutcome>,
}

/// The published proof walk-through of one game.
#[derive(Debug, Clone, PartialEq, Eq)]
pub struct PublishedAnalysisProofDetails {
    pub proof_frames: Vec<PublishedAnalysisProofFrame>,
}

/// `p` publishes the marker `m`.
pub open spec fn marker_published(m: AnalysisBatchProofMarker, p: PublishedAnalysisProofMarker) -> bool {
    p.notation@ == m.notation@ && p.kinds@ == m.kinds@
}

/// `p` publishes the reply `r`.
pub open spec fn reply_published(r: DefenderReplyAnalysis, p: PublishedAnalysisReplyOutcome) -> bool {
    p.notation@ == r.notation@ && p.roles@ == r.roles@ && p.outcome == r.outcome
}

/// `p` publishes the frame `f`: the same label, ply, side, status, move,
/// onset flag, and each marker and reply in order.
pub open spec fn frame_published(f: AnalysisBatchProofFrame, p: PublishedAnalysisProofFrame) -> bool {
    &&& p.label@ == f.label@
    &&& p.ply == f.ply
    &&& p.side_to_move == f.side_to_move
    &&& p.status == f.status
    &&& opt_chars(p.move_played_notation) == opt_chars(f.move_played_notation)
    &&& p.lethal_onset_reached == f.lethal_onset_reached
    &&& p.markers@.len() == f.markers@.len()
    &&& forall|i: int| 0 <= i < p.markers@.len() ==> marker_published(f.markers@[i], #[trigger] p.markers@[i])
    &&& p.reply_outcomes@.len() == f.reply_outcomes@.len()
    &&& forall|i: int|
        0 <= i < p.reply_outcomes@.len() ==> reply_published(f.reply_outcomes@[i], #[trigger] p.reply_outcomes@[i])
}

fn copy_kinds(v: &Vec<AnalysisBatchProofMarkerKind>) -> (r: Vec<AnalysisBatchProofMarkerKind>)
    ensures
        r@ == v@,
{
    let mut r: Vec<AnalysisBatchProofMarkerKind> = Vec::new();
    let mut k: usize = 0;
    while k < v.len()
        invariant
            k <= v.len(),
            r@ == v@.take(k as int),
        decreases v.len() - k,
    {
        r.push(v[k]);
        assert(v@.take(k + 1) =~= v@.take(k as int).push(v@[k as int]));
        k += 1;
    }
    assert(v@.take(v.len() as int) =~= v@);
    r
}

/// The published form of a proof frame.
pub fn published_analysis_proof_frame(frame: &AnalysisBatchProofFrame) -> (r: PublishedAnalysisProofFrame)
    ensures
        frame_published(*frame, r),
{
    let mut markers: Vec<PublishedAnalysisProofMarker> = Vec::new();
    let mut i: usize = 0;
    while i < frame.markers.len()
        invariant
            i <= frame.markers.len(),
            markers@.len() == i,
            forall|j: int| 0 <= j < i ==> marker_published(frame.markers@[j], #[trigger] markers@[j]),
        decreases frame.markers.len() - i,
    {
        let m = &frame.markers[i];
        markers.push(PublishedAnalysisProofMarker { notation: m.notation.clone(), kinds: copy_kinds(&m.kinds) });
        i += 1;
    }
    let mut replies: Vec<PublishedAnalysisReplyOutcome> = Vec::new();
    let mut k: usize = 0;
    while k < frame.reply_outcomes.len()
        invariant
            k <= frame.reply_outcomes.len(),
            replies@.len() == k,
            forall|j: int| 0 <= j < k ==> reply_published(frame.reply_outcomes@[j], #[trigger] replies@[j]),
        decreases frame.reply_outcomes.len() - k,
    {
        let reply = published_analysis_reply_outcome(&frame.reply_outcomes[k]);
        replies.push(reply);
        k += 1;
    }
    PublishedAnalysisProofFrame {
        label: frame.label.clone(),
        ply: frame.ply,
        side_to_move: frame.side_to_move,
        status: frame.status,
        move_played_notation: clone_opt_string(&frame.move_played_notation),
        lethal_onset_reached: frame.lethal_onset_reached,
        markers,
        reply_outcomes: replies,
    }
}

/// The published form of a proof walk-through: each frame published, in
/// order.
pub fn published_analysis_proof_details(details: &AnalysisBatchProofDetails) -> (r: PublishedAnalysisProofDetails)
    ensures
        r.proof_frames@.len() == details.proof_frames@.len(),
        forall|i: int|
            0 <= i < r.proof_frames@.len() ==> frame_published(details.proof_frames@[i], #[trigger] r.proof_frames@[i]),
{
    let mut frames: Vec<PublishedAnalysisProofFrame> = Vec::new();
    let mut i: usize = 0;
    while i < details.proof_frames.len()
        invariant
            i <= details.proof_frames.len(),
            frames@.len() == i,
            forall|j: int| 0 <= j < i ==> frame_published(details.proof_frames@[j], #[trigger] frames@[j]),
        decreases details.proof_frames.len() - i,
    {
        let f = published_analysis_proof_frame(&details.proof_frames[i]);
        frames.push(f);
        i += 1;
    }
    PublishedAnalysisProofDetails { proof_frames: frames }
}

proof fn lemma_cause_counts(entries: Seq<Seq<ProofLimitCause>>, k: int)
    requires
        0 <= k <= 6,
    ensures
        ({
            let v = cause_counts_spec(entries, k);
            &&& forall|i: int| 0 <= i < v.len() ==> cause_rank((#[trigger] v[i]).0) < k && v[i].1 > 0
            &&& forall|i: int, j: int| 0 <= i < j < v.len() ==> cause_rank((#[trigger] v[i]).0) < cause_rank((#[trigger] v[j]).0)
            &&& forall|c: ProofLimitCause, n: int| #[trigger] v.contains((c, n)) <==> (cause_rank(c) < k
                && n == total_of_rank(entries, cause_rank(c)) && n > 0)
        }),
    decreases k,
{
    if k > 0 {
        lemma_cause_counts(entries, k - 1);
        let prev = cause_counts_spec(entries, k - 1);
        let n = total_of_rank(entries, k - 1);
        let v = cause_counts_spec(entries, k);
        if n > 0 {
            let add = (cause_of_rank(k - 1), n);
            assert(v == prev.push(add));
            assert forall|c: ProofLimitCause, m: int| #[trigger] v.contains((c, m)) <==> (cause_rank(c) < k
                && m == total_of_rank(entries, cause_rank(c)) && m > 0) by {
                if v.contains((c, m)) {
                    let i = choose|i: int| 0 <= i < v.len() && v[i] == (c, m);
                    if i < prev.len() {
                        assert(prev[i] == (c, m));
                        assert(prev.contains((c, m)));
                    }
                }
                if cause_rank(c) < k && m == total_of_rank(entries, cause_rank(c)) && m > 0 {
                    if cause_rank(c) < k - 1 {
                        assert(prev.contains((c, m)));
                        let i = choose|i: int| 0 <= i < prev.len() && prev[i] == (c, m);
                        assert(v[i] == (c, m));
                    } else {
                        assert(c == cause_of_rank(k - 1));
                        assert(v[prev.len() as int] == (c, m));
                    }
                }
            }
        } else {
            assert forall|c: ProofLimitCause, m: int| #[trigger] v.contains((c, m)) <==> (cause_rank(c) < k
                && m == total_of_rank(entries, cause_rank(c)) && m > 0) by {
                if cause_rank(c) == k - 1 && m == total_of_rank(entries, cause_rank(c)) && m > 0 {
                    assert(false);
                }
                if cause_rank(c) < k - 1 && m == total_of_rank(entries, cause_rank(c)) && m > 0 {
                    assert(prev.contains((c, m)));
                }
            }
        }
    }
}

/// Law: the cause counts come in strictly increasing declaration order,
/// every count is at least one, and a cause is listed with count `n`
/// exactly when it occurs `n > 0` times over all the cause lists (the
/// occurrences of a cause are those of its rank).
pub proof fn law_cause_counts_are_exact_totals(entries: Seq<Seq<ProofLimitCause>>)
    ensures
        ({
            let v = cause_counts_spec(entries, 6);
            &&& forall|i: int| 0 <= i < v.len() ==> (#[trigger] v[i]).1 >= 1
            &&& forall|i: int, j: int| 0 <= i < j < v.len() ==> cause_rank((#[trigger] v[i]).0) < cause_rank((#[trigger] v[j]).0)
            &&& forall|c: ProofLimitCause, n: int| #[trigger] v.contains((c, n)) <==> (n
                == total_of_rank(entries, cause_rank(c)) && n > 0)
        }),
{
    lemma_cause_counts(entries, 6);
}

} // verus!

verus! {

/// How many games the section inputs list in all.
pub open spec fn section_match_total(sections: Seq<PublishedAnalysisSectionInput>) -> int
    decreases sections.len(),
{
    if sections.len() == 0 {
        0
    } else {
        section_match_total(sections.drop_last()) + sections.last().matches.len()
    }
}

/// The entries of the batch that each section takes, as half-open index
/// ranges: a section starts where the sections before it end and takes as
/// many entries as it lists games.
pub open spec fn section_ranges_spec(sections: Seq<PublishedAnalysisSectionInput>) -> Seq<(int, int)> {
    Seq::new(
        sections.len(),
        |i: int| (section_match_total(sections.take(i)), section_match_total(sections.take(i + 1))),
    )
}

/// The section ranges, or the error for section inputs whose game count
/// differs from the number of batch entries.
pub open spec fn section_bounds_spec(sections: Seq<PublishedAnalysisSectionInput>, entry_count: nat) -> Result<
    Seq<(int, int)>,
    Seq<char>,
> {
    let expected = section_match_total(sections);
    if expected == entry_count {
        Ok(section_ranges_spec(sections))
    } else {
        Err("published analysis section inputs cover "@ + crate::text::decimal(expected as nat)
            + " entries, but batch contains "@ + crate::text::decimal(entry_count))
    }
}

proof fn lemma_total_monotone(sections: Seq<PublishedAnalysisSectionInput>, i: int, j: int)
    requires
        0 <= i <= j <= sections.len(),
    ensures
        section_match_total(sections.take(i)) <= section_match_total(sections.take(j)),
    decreases j - i,
{
    if i < j {
        lemma_total_monotone(sections, i, j - 1);
        assert(sections.take(j).drop_last() =~= sections.take(j - 1));
    }
}

proof fn lemma_total_step(sections: Seq<PublishedAnalysisSectionInput>, i: int)
    requires
        0 <= i < sections.len(),
    ensures
        section_match_total(sections.take(i + 1)) == section_match_total(sections.take(i))
            + sections[i].matches.len(),
{
    assert(sections.take(i + 1).drop_last() =~= sections.take(i));
}

/// Checks that the section inputs cover exactly the batch's entries and cuts
/// the entries into the sections' ranges, in order.
pub fn published_section_bounds(sections: &[PublishedAnalysisSectionInput], entry_count: usize) -> (r:
    Result<Vec<(usize, usize)>, String>)
    requires
        section_match_total(sections@) <= usize::MAX,
    ensures
        match r {
            Ok(v) => section_bounds_spec(sections@, entry_count as nat) matches Ok(s) && v@.len()
                == s.len() && forall|i: int|
                0 <= i < s.len() ==> (#[trigger] v@[i]).0 == s[i].0 && v@[i].1 == s[i].1,
            Err(e) => section_bounds_spec(sections@, entry_count as nat) == Err::<Seq<(int, int)>, Seq<char>>(e@),
        },
{
    let mut expected: usize = 0;
    let mut i: usize = 0;
    while i < sections.len()
        invariant
            i <= sections.len(),
            section_match_total(sections@) <= usize::MAX,
            expected == section_match_total(sections@.take(i as int)),
        decreases sections.len() - i,
    {
        proof {
            lemma_total_step(sections@, i as int);
            lemma_total_monotone(sections@, i as int + 1, sections@.len() as int);
            assert(sections@.take(sections@.len() as int) =~= sections@);
        }
        expected = expected + sections[i].matches.len();
        i += 1;
    }
    assert(sections@.take(sections@.len() as int) =~= sections@);
    if expected != entry_count {
        let mut m = String::from_str("published analysis section inputs cover ");
        let c = crate::text::usize_to_string(expected);
        m.append(c.as_str());
        m.append(" entries, but batch contains ");
        let n = crate::text::usize_to_string(entry_count);
        m.append(n.as_str());
        return Err(m);
    }
    let ghost s = section_ranges_spec(sections@);
    let mut out: Vec<(usize, usize)> = Vec::new();
    let mut cursor: usize = 0;
    let mut k: usize = 0;
    while k < sections.len()
        invariant
            k <= sections.len(),
            s == section_ranges_spec(sections@),
            section_match_total(sections@) <= usize::MAX,
            cursor == section_match_total(sections@.take(k as int)),
            out@.len() == k,
            forall|j: int| 0 <= j < k ==> (#[trigger] out@[j]).0 == s[j].0 && out@[j].1 == s[j].1,
        decreases sections.len() - k,
    {
        proof {
            lemma_total_step(sections@, k as int);
            lemma_total_monotone(sections@, k as int + 1, sections@.len() as int);
            assert(sections@.take(sections@.len() as int) =~= sections@);
        }
        let end = cursor + sections[k].matches.len();
        out.push((cursor, end));
        cursor = end;
        k += 1;
    }
    Ok(out)
}

/// Law: when the section inputs are accepted, their ranges tile the batch:
/// the first starts at entry zero, each ends where the next starts, the last
/// ends at the batch's end, and each is as long as its section's game list.
pub proof fn law_section_ranges_tile_the_batch(sections: Seq<PublishedAnalysisSectionInput>, entry_count: nat)
    requires
        section_bounds_spec(sections, entry_count) is Ok,
    ensures
        ({
            let s = section_bounds_spec(sections, entry_count)->Ok_0;
            &&& s.len() == sections.len()
            &&& s.len() > 0 ==> s[0].0 == 0 && s[s.len() - 1].1 == entry_count
            &&& forall|i: int| 0 <= i < s.len() ==> (#[trigger] s[i]).1 - s[i].0 == sections[i].matches.len()
            &&& forall|i: int| 0 <= i < s.len() - 1 ==> (#[trigger] s[i]).1 == s[i + 1].0
        }),
{
    let s = section_bounds_spec(sections, entry_count)->Ok_0;
    assert(sections.take(0) =~= Seq::<PublishedAnalysisSectionInput>::empty());
    assert(sections.take(sections.len() as int) =~= sections);
    assert forall|i: int| 0 <= i < s.len() implies (#[trigger] s[i]).1 - s[i].0 == sections[i].matches.len() by {
        lemma_total_step(sections, i);
    }
}

} // verus!

verus! {

/// What the summary of a published section reads of one batch entry.
#[derive(Debug, Clone, Copy, PartialEq, Eq, Structural)]
pub struct SectionEntryFacts {
    pub status: AnalysisBatchEntryStatus,
    pub winner: Option<Color>,
    pub root_cause: Option<RootCause>,
}

/// The counts of a published section.
#[derive(Debug, Clone, Copy, PartialEq, Eq, Structural)]
pub struct PublishedSectionCounts {
    pub total: usize,
    pub analyzed: usize,
    pub failed: usize,
    pub summary: AnalysisBatchSummary,
}

/// The counts of a section over its entries, as (analysed, failed, unclear,
/// draw or ongoing): an analysed entry counts into the summary by its winner
/// and root cause, a failed one counts as an analysis error.
pub open spec fn section_tally_spec(es: Seq<SectionEntryFacts>) -> (int, int, int, int)
    decreases es.len(),
{
    if es.len() == 0 {
        (0, 0, 0, 0)
    } else {
        let p = section_tally_spec(es.drop_last());
        let e = es.last();
        if e.status == AnalysisBatchEntryStatus::Analyzed {
            let draw: int = if e.winner is None { 1 } else { 0 };
            let unclear: int = if e.winner is Some && (e.root_cause is None || e.root_cause == Some(
                RootCause::Unclear,
            )) {
                1
            } else {
                0
            };
            (p.0 + 1, p.1, p.2 + unclear, p.3 + draw)
        } else {
            (p.0, p.1 + 1, p.2, p.3)
        }
    }
}

proof fn lemma_tally_bounded(es: Seq<SectionEntryFacts>)
    ensures
        ({
            let t = section_tally_spec(es);
            &&& 0 <= t.0 && 0 <= t.1 && t.0 + t.1 == es.len()
            &&& 0 <= t.2 <= t.0 && 0 <= t.3 <= t.0
        }),
    decreases es.len(),
{
    if es.len() > 0 {
        lemma_tally_bounded(es.drop_last());
    }
}

/// Counts a section's entries: how many were analysed and how many failed,
/// with the section summary (failed entries count as analysis errors).
pub fn published_section_counts(entries: &[SectionEntryFacts]) -> (r: PublishedSectionCounts)
    ensures
        r.total == entries.len(),
        r.analyzed == section_tally_spec(entries@).0,
        r.failed == section_tally_spec(entries@).1,
        r.summary.analysis_error == section_tally_spec(entries@).1,
        r.summary.unclear == section_tally_spec(entries@).2,
        r.summary.ongoing_or_draw == section_tally_spec(entries@).3,
{
    let mut summary = AnalysisBatchSummary::default();
    let mut analyzed: usize = 0;
    let mut failed: usize = 0;
    let mut i: usize = 0;
    while i < entries.len()
        invariant
            i <= entries.len(),
            analyzed == section_tally_spec(entries@.take(i as int)).0,
            failed == section_tally_spec(entries@.take(i as int)).1,
            summary.analysis_error == failed,
            summary.unclear == section_tally_spec(entries@.take(i as int)).2,
            summary.ongoing_or_draw == section_tally_spec(entries@.take(i as int)).3,
        decreases entries.len() - i,
    {
        proof {
            lemma_tally_bounded(entries@.take(i as int));
            assert(entries@.take(i as int + 1).drop_last() =~= entries@.take(i as int));
        }
        let e = entries[i];
        if e.status == AnalysisBatchEntryStatus::Analyzed {
            analyzed = analyzed + 1;
            increment_summary_from_entry(&mut summary, e.winner, e.root_cause);
        } else {
            failed = failed + 1;
            summary.analysis_error = summary.analysis_error + 1;
        }
        i += 1;
    }
    assert(entries@.take(entries@.len() as int) =~= entries@);
    PublishedSectionCounts { total: entries.len(), analyzed, failed, summary }
}

/// Law: a section's analysed and failed entries add up to its total, and
/// its unclear and draw counts never exceed its analysed entries.
pub proof fn law_section_counts_add_up(es: Seq<SectionEntryFacts>)
    ensures
        ({
            let t = section_tally_spec(es);
            &&& t.0 + t.1 == es.len()
            &&& t.2 <= t.0 && t.3 <= t.0
            &&& t.2 + t.3 <= t.0
        }),
    decreases es.len(),
{
    lemma_tally_bounded(es);
    if es.len() > 0 {
        law_section_counts_add_up(es.drop_last());
    }
}

} // verus!
