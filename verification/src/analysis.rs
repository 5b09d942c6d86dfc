//! Replay analysis vocabulary and the classification rules applied to the
//! per-prefix proof results of a finished game: forced intervals, the final
//! forced interval, root cause, last chance, tactical notes and the reason
//! an analysis stays unclear.
use vstd::prelude::*;
use crate::board::{color_for_ply, color_for_ply_spec, copy_moves, variant_label, Color, Move, Variant};
use crate::text::{strings_view, usize_to_string, decimal};

verus! {

/// Outcome of a bounded proof search at one replay prefix.
#[derive(Debug, Clone, Copy, PartialEq, Eq, Structural)]
pub enum ProofStatus {
    ForcedWin,
    EscapeFound,
    Unknown,
}

/// Which defender replies a proof search considers.
#[derive(Debug, Clone, Copy, PartialEq, Eq, Structural)]
pub enum DefensePolicy {
    AllLegalDefense,
    TacticalDefense,
    HybridDefense,
}

/// Why the loser lost.
#[derive(Debug, Clone, Copy, PartialEq, Eq, Structural)]
pub enum RootCause {
    StrategicLoss,
    MissedDefense,
    MissedWin,
    Unclear,
}

/// Why a root cause stayed unclear.
#[derive(Debug, Clone, Copy, PartialEq, Eq, Structural)]
pub enum UnclearReason {
    PreviousPrefixUnknown,
    ScanWindowCutoff,
    ProofLimitHit,
    NoFinalForcedInterval,
    DrawOrOngoing,
}

/// What cut a proof short. Ordered as declared.
#[derive(Debug, Clone, Copy, PartialEq, Eq, Structural)]
pub enum ProofLimitCause {
    DepthCutoff,
    ForcedExtensionCutoff,
    AttackerChildUnknown,
    DefenderReplyUnknown,
    ModelScopeUnknown,
    OutsideScanWindow,
}

/// Notes attached to an analyzed game.
#[derive(Debug, Clone, Copy, PartialEq, Eq, Structural)]
pub enum TacticalNote {
    AccidentalBlunder,
    ConversionError,
    MissedWin,
    StrongAttack,
}

/// How a defender reply to a threat was classified.
#[derive(Debug, Clone, Copy, PartialEq, Eq, Structural)]
pub enum ReplyClassification {
    IgnoredSingleWin,
    BlockedButForced,
    Escaped,
    NoLegalBlock,
    Unknown,
}

/// Why a defender reply was considered.
#[derive(Debug, Clone, Copy, PartialEq, Eq, Structural)]
pub enum DefenderReplyRole {
    Actual,
    ImmediateDefense,
    ImminentDefense,
    OffensiveCounter,
}

/// What a defender reply leads to.
#[derive(Debug, Clone, Copy, PartialEq, Eq, Structural)]
pub enum DefenderReplyOutcome {
    ForcedLoss,
    Escape,
    ImmediateLoss,
    Unknown,
}

/// Kinds of local threats a player can hold on the board.
#[derive(Debug, Clone, Copy, PartialEq, Eq, Structural)]
pub enum LocalThreatKind {
    OpenFour,
    ClosedFour,
    BrokenFour,
    OpenThree,
    BrokenThree,
}

impl LocalThreatKind {
    /// Every local threat kind forces an answer.
    pub fn is_forcing(self) -> (r: bool)
        ensures
            r,
    {
        match self {
            LocalThreatKind::OpenFour | LocalThreatKind::ClosedFour | LocalThreatKind::BrokenFour
            | LocalThreatKind::OpenThree | LocalThreatKind::BrokenThree => true,
        }
    }

    /// Severity: open four 4, closed or broken four 3, open three 2, broken
    /// three 1.
    pub fn rank(self) -> (r: u8)
        ensures
            r == (match self {
                LocalThreatKind::OpenFour => 4u8,
                LocalThreatKind::ClosedFour | LocalThreatKind::BrokenFour => 3u8,
                LocalThreatKind::OpenThree => 2u8,
                LocalThreatKind::BrokenThree => 1u8,
            }),
    {
        match self {
            LocalThreatKind::OpenFour => 4,
            LocalThreatKind::ClosedFour | LocalThreatKind::BrokenFour => 3,
            LocalThreatKind::OpenThree => 2,
            LocalThreatKind::BrokenThree => 1,
        }
    }
}

/// Limits of a replay analysis.
#[derive(Debug, Clone, Copy, PartialEq, Eq, Structural)]
pub struct AnalysisOptions {
    pub defense_policy: DefensePolicy,
    pub max_depth: usize,
    pub max_forced_extensions: usize,
    pub max_backward_window: Option<usize>,
}

impl AnalysisOptions {
    /// All-legal defense, depth 2, 4 forced extensions, no backward window.
    pub fn default_options() -> (r: AnalysisOptions)
        ensures
            r == (AnalysisOptions {
                defense_policy: DefensePolicy::AllLegalDefense,
                max_depth: 2,
                max_forced_extensions: 4,
                max_backward_window: None,
            }),
    {
        AnalysisOptions {
            defense_policy: DefensePolicy::AllLegalDefense,
            max_depth: 2,
            max_forced_extensions: 4,
            max_backward_window: None,
        }
    }
}

impl Default for AnalysisOptions {
    fn default() -> (r: AnalysisOptions)
        ensures
            r == (AnalysisOptions {
                defense_policy: DefensePolicy::AllLegalDefense,
                max_depth: 2,
                max_forced_extensions: 4,
                max_backward_window: None,
            }),
    {
        AnalysisOptions::default_options()
    }
}

/// The proof model an analysis ran with, as reported.
#[derive(Debug, Clone, PartialEq, Eq)]
pub struct AnalysisModel {
    pub defense_policy: DefensePolicy,
    pub tactical_reply_coverage: Vec<String>,
    pub attacker_move_policy: String,
    pub rule_set: String,
    pub max_depth: usize,
    pub max_forced_extensions: usize,
    pub max_backward_window: Option<usize>,
}

/// A run of consecutive plies (inclusive) at which the winner had a proven
/// forced win.
#[derive(Debug, Clone, Copy, PartialEq, Eq, Structural)]
pub struct ForcedInterval {
    pub start_ply: usize,
    pub end_ply: usize,
}

/// Evidence of one threat sequence met by a proof search.
#[derive(Debug, Clone, PartialEq, Eq)]
pub struct ThreatSequenceEvidence {
    pub prefix_ply: Option<usize>,
    pub attacker: Color,
    pub defender: Color,
    pub winning_squares: Vec<Move>,
    pub raw_cost_squares: Vec<Move>,
    pub legal_cost_squares: Vec<Move>,
    pub illegal_cost_squares: Vec<Move>,
    pub defender_immediate_wins: Vec<Move>,
    pub actual_reply: Option<Move>,
    pub reply_classification: ReplyClassification,
    pub escape_replies: Vec<Move>,
    pub forced_replies: Vec<Move>,
    pub next_forcing_move: Option<Move>,
    pub proof_status: ProofStatus,
    pub limit_hit: bool,
    pub limit_causes: Vec<ProofLimitCause>,
}

/// The result of a bounded proof search at one replay prefix.
#[derive(Debug, Clone, PartialEq, Eq)]
pub struct ProofResult {
    pub status: ProofStatus,
    pub attacker: Color,
    pub side_to_move: Color,
    pub model: AnalysisModel,
    pub principal_line: Vec<Move>,
    pub escape_moves: Vec<Move>,
    pub threat_evidence: Vec<ThreatSequenceEvidence>,
    pub limit_hit: bool,
    pub limit_causes: Vec<ProofLimitCause>,
}

/// A replay move that could not be read or played.
#[derive(Debug, Clone, PartialEq, Eq)]
pub enum AnalysisError {
    InvalidReplayMove { ply: usize, message: String },
}

impl AnalysisError {
    /// The error's text: `invalid replay move at ply <ply>: <message>`.
    pub fn message_text(&self) -> (r: String)
        ensures
            r@ == (match self {
                AnalysisError::InvalidReplayMove { ply, message } => "invalid replay move at ply "@
                    + decimal(*ply as nat) + ": "@ + message@,
            }),
    {
        match self {
            AnalysisError::InvalidReplayMove { ply, message } => {
                let mut s = String::from_str("invalid replay move at ply ");
                let n = usize_to_string(*ply);
                s.append(n.as_str());
                s.append(": ");
                s.append(message.as_str());
                s
            },
        }
    }
}

// ---------------------------------------------------------------------
// Model labels
// ---------------------------------------------------------------------
/// How the depth search chooses attacker moves, by defense policy.
pub fn attacker_move_policy(policy: DefensePolicy) -> (r: &'static str)
    ensures
        r@ == (match policy {
            DefensePolicy::HybridDefense => "all_legal_depth_search; bounded_local_threat_forced_extensions"@,
            _ => "all_legal_depth_search; immediate_threat_forced_extensions"@,
        }),
{
    match policy {
        DefensePolicy::AllLegalDefense | DefensePolicy::TacticalDefense => {
            "all_legal_depth_search; immediate_threat_forced_extensions"
        },
        DefensePolicy::HybridDefense => {
            "all_legal_depth_search; bounded_local_threat_forced_extensions"
        },
    }
}

/// How the corridor replay chooses attacker moves, by defense policy.
pub fn corridor_attacker_move_policy(policy: DefensePolicy) -> (r: &'static str)
    ensures
        r@ == (match policy {
            DefensePolicy::HybridDefense => "actual_corridor_moves; immediate_wins; local_threat_materialization; bounded_local_threat_forced_extensions"@,
            _ => "actual_corridor_moves; immediate_wins; local_threat_materialization; immediate_threat_forced_extensions"@,
        }),
{
    match policy {
        DefensePolicy::AllLegalDefense | DefensePolicy::TacticalDefense => {
            "actual_corridor_moves; immediate_wins; local_threat_materialization; immediate_threat_forced_extensions"
        },
        DefensePolicy::HybridDefense => {
            "actual_corridor_moves; immediate_wins; local_threat_materialization; bounded_local_threat_forced_extensions"
        },
    }
}

/// The defender replies a depth search covers, by defense policy.
pub open spec fn tactical_reply_coverage_spec(policy: DefensePolicy) -> Seq<Seq<char>> {
    match policy {
        DefensePolicy::AllLegalDefense => seq!["all_legal"@],
        DefensePolicy::TacticalDefense => seq![
            "legal_cost_replies"@,
            "defender_immediate_wins"@,
            "counter_threats_not_yet_covered"@,
            "forbidden_cost_squares"@,
        ],
        DefensePolicy::HybridDefense => seq![
            "legal_cost_replies"@,
            "local_threat_replies"@,
            "defender_immediate_wins"@,
            "forbidden_cost_squares"@,
            "all_legal_fallback"@,
        ],
    }
}

fn push_str_item(v: &mut Vec<String>, s: &str)
    ensures
        strings_view(final(v)@) == strings_view(old(v)@).push(s@),
{
    let ghost before = v@;
    v.push(String::from_str(s));
    assert(strings_view(v@) =~= strings_view(before).push(s@));
}

/// The defender replies a depth search covers, by defense policy.
pub fn tactical_reply_coverage(policy: DefensePolicy) -> (r: Vec<String>)
    ensures
        strings_view(r@) == tactical_reply_coverage_spec(policy),
{
    let mut v: Vec<String> = Vec::new();
    match policy {
        DefensePolicy::AllLegalDefense => {
            push_str_item(&mut v, "all_legal");
        },
        DefensePolicy::TacticalDefense => {
            push_str_item(&mut v, "legal_cost_replies");
            push_str_item(&mut v, "defender_immediate_wins");
            push_str_item(&mut v, "counter_threats_not_yet_covered");
            push_str_item(&mut v, "forbidden_cost_squares");
        },
        DefensePolicy::HybridDefense => {
            push_str_item(&mut v, "legal_cost_replies");
            push_str_item(&mut v, "local_threat_replies");
            push_str_item(&mut v, "defender_immediate_wins");
            push_str_item(&mut v, "forbidden_cost_squares");
            push_str_item(&mut v, "all_legal_fallback");
        },
    }
    assert(strings_view(v@) =~= tactical_reply_coverage_spec(policy));
    v
}

/// The defender replies the corridor replay covers; the hybrid policy adds
/// local threat replies.
pub open spec fn corridor_tactical_reply_coverage_spec(policy: DefensePolicy) -> Seq<Seq<char>> {
    let base = seq![
        "corridor_exit_a_filter"@,
        "legal_cost_replies"@,
        "defender_immediate_wins"@,
        "next_actual_attacker_move"@,
        "forbidden_cost_squares"@,
    ];
    if policy == DefensePolicy::HybridDefense {
        base.push("local_threat_replies"@)
    } else {
        base
    }
}

/// The defender replies the corridor replay covers.
pub fn corridor_tactical_reply_coverage(policy: DefensePolicy) -> (r: Vec<String>)
    ensures
        strings_view(r@) == corridor_tactical_reply_coverage_spec(policy),
{
    let mut v: Vec<String> = Vec::new();
    push_str_item(&mut v, "corridor_exit_a_filter");
    push_str_item(&mut v, "legal_cost_replies");
    push_str_item(&mut v, "defender_immediate_wins");
    push_str_item(&mut v, "next_actual_attacker_move");
    push_str_item(&mut v, "forbidden_cost_squares");
    if policy == DefensePolicy::HybridDefense {
        push_str_item(&mut v, "local_threat_replies");
    }
    assert(strings_view(v@) =~= corridor_tactical_reply_coverage_spec(policy));
    v
}

/// The label of a rule variant.
pub fn rule_label(variant: &Variant) -> (r: &'static str)
    ensures
        r@ == (match variant {
            Variant::Freestyle => "freestyle"@,
            Variant::Renju => "renju"@,
        }),
{
    variant_label(variant)
}

/// The reported model of a depth-search analysis.
pub fn analysis_model(variant: &Variant, options: &AnalysisOptions) -> (r: AnalysisModel)
    ensures
        r.defense_policy == options.defense_policy,
        strings_view(r.tactical_reply_coverage@) == tactical_reply_coverage_spec(
            options.defense_policy,
        ),
        r.attacker_move_policy@ == (match options.defense_policy {
            DefensePolicy::HybridDefense => "all_legal_depth_search; bounded_local_threat_forced_extensions"@,
            _ => "all_legal_depth_search; immediate_threat_forced_extensions"@,
        }),
        r.rule_set@ == (match variant {
            Variant::Freestyle => "freestyle"@,
            Variant::Renju => "renju"@,
        }),
        r.max_depth == options.max_depth,
        r.max_forced_extensions == options.max_forced_extensions,
        r.max_backward_window == options.max_backward_window,
{
    AnalysisModel {
        defense_policy: options.defense_policy,
        tactical_reply_coverage: tactical_reply_coverage(options.defense_policy),
        attacker_move_policy: String::from_str(attacker_move_policy(options.defense_policy)),
        rule_set: String::from_str(rule_label(variant)),
        max_depth: options.max_depth,
        max_forced_extensions: options.max_forced_extensions,
        max_backward_window: options.max_backward_window,
    }
}

/// The reported model of a corridor replay analysis.
pub fn corridor_analysis_model(variant: &Variant, options: &AnalysisOptions) -> (r: AnalysisModel)
    ensures
        r.defense_policy == options.defense_policy,
        strings_view(r.tactical_reply_coverage@) == corridor_tactical_reply_coverage_spec(
            options.defense_policy,
        ),
        r.attacker_move_policy@ == (match options.defense_policy {
            DefensePolicy::HybridDefense => "actual_corridor_moves; immediate_wins; local_threat_materialization; bounded_local_threat_forced_extensions"@,
            _ => "actual_corridor_moves; immediate_wins; local_threat_materialization; immediate_threat_forced_extensions"@,
        }),
        r.rule_set@ == (match variant {
            Variant::Freestyle => "freestyle"@,
            Variant::Renju => "renju"@,
        }),
        r.max_depth == options.max_depth,
        r.max_forced_extensions == options.max_forced_extensions,
        r.max_backward_window == options.max_backward_window,
{
    AnalysisModel {
        defense_policy: options.defense_policy,
        tactical_reply_coverage: corridor_tactical_reply_coverage(options.defense_policy),
        attacker_move_policy: String::from_str(
            corridor_attacker_move_policy(options.defense_policy),
        ),
        rule_set: String::from_str(rule_label(variant)),
        max_depth: options.max_depth,
        max_forced_extensions: options.max_forced_extensions,
        max_backward_window: options.max_backward_window,
    }
}

// ---------------------------------------------------------------------
// Limit causes and notes
// ---------------------------------------------------------------------
/// Declaration order of a limit cause.
pub open spec fn cause_rank(c: ProofLimitCause) -> int {
    match c {
        ProofLimitCause::DepthCutoff => 0,
        ProofLimitCause::ForcedExtensionCutoff => 1,
        ProofLimitCause::AttackerChildUnknown => 2,
        ProofLimitCause::DefenderReplyUnknown => 3,
        ProofLimitCause::ModelScopeUnknown => 4,
        ProofLimitCause::OutsideScanWindow => 5,
    }
}

/// The cause of a given rank.
pub open spec fn cause_of_rank(r: int) -> ProofLimitCause {
    if r == 0 {
        ProofLimitCause::DepthCutoff
    } else if r == 1 {
        ProofLimitCause::ForcedExtensionCutoff
    } else if r == 2 {
        ProofLimitCause::AttackerChildUnknown
    } else if r == 3 {
        ProofLimitCause::DefenderReplyUnknown
    } else if r == 4 {
        ProofLimitCause::ModelScopeUnknown
    } else {
        ProofLimitCause::OutsideScanWindow
    }
}

/// `causes` with every element of `new` appended that is not already there
/// (checked against what was appended so far too).
pub open spec fn append_missing(causes: Seq<ProofLimitCause>, new: Seq<ProofLimitCause>) -> Seq<
    ProofLimitCause,
>
    decreases new.len(),
{
    if new.len() == 0 {
        causes
    } else {
        let prev = append_missing(causes, new.drop_last());
        if prev.contains(new.last()) {
            prev
        } else {
            prev.push(new.last())
        }
    }
}

/// The elements of `s` of rank `r`, in order.
pub open spec fn of_rank(s: Seq<ProofLimitCause>, r: int) -> Seq<ProofLimitCause>
    decreases s.len(),
{
    if s.len() == 0 {
        Seq::empty()
    } else if cause_rank(s.last()) == r {
        of_rank(s.drop_last(), r).push(s.last())
    } else {
        of_rank(s.drop_last(), r)
    }
}

/// `s` sorted by declaration order (stable): all causes of rank 0, then of
/// rank 1, and so on.
pub open spec fn sorted_causes(s: Seq<ProofLimitCause>) -> Seq<ProofLimitCause> {
    of_rank(s, 0) + of_rank(s, 1) + of_rank(s, 2) + of_rank(s, 3) + of_rank(s, 4) + of_rank(s, 5)
}

fn rank_of(c: ProofLimitCause) -> (r: u8)
    ensures
        r == cause_rank(c),
{
    match c {
        ProofLimitCause::DepthCutoff => 0,
        ProofLimitCause::ForcedExtensionCutoff => 1,
        ProofLimitCause::AttackerChildUnknown => 2,
        ProofLimitCause::DefenderReplyUnknown => 3,
        ProofLimitCause::ModelScopeUnknown => 4,
        ProofLimitCause::OutsideScanWindow => 5,
    }
}

fn contains_cause(v: &Vec<ProofLimitCause>, c: ProofLimitCause) -> (r: bool)
    ensures
        r == v@.contains(c),
{
    let mut i: usize = 0;
    while i < v.len()
        invariant
            i <= v.len(),
            forall|j: int| 0 <= j < i ==> v@[j] != c,
        decreases v.len() - i,
    {
        if v[i] == c {
            assert(v@[i as int] == c);
            return true;
        }
        i += 1;
    }
    false
}

fn append_of_rank(out: &mut Vec<ProofLimitCause>, s: &Vec<ProofLimitCause>, r: u8)
    ensures
        final(out)@ == old(out)@ + of_rank(s@, r as int),
{
    let mut i: usize = 0;
    let ghost start = out@;
    while i < s.len()
        invariant
            i <= s.len(),
            out@ == start + of_rank(s@.take(i as int), r as int),
        decreases s.len() - i,
    {
        assert(s@.take(i + 1).drop_last() =~= s@.take(i as int));
        assert(s@.take(i + 1).last() == s@[i as int]);
        if rank_of(s[i]) == r {
            out.push(s[i]);
        }
        i += 1;
    }
    assert(s@.take(s.len() as int) =~= s@);
}

/// Adds each new cause that is not present yet, then sorts the list by
/// declaration order.
pub fn extend_limit_causes(causes: &mut Vec<ProofLimitCause>, new_causes: &[ProofLimitCause])
    ensures
        final(causes)@ == sorted_causes(append_missing(old(causes)@, new_causes@)),
{
    let mut i: usize = 0;
    let ghost start = causes@;
    while i < new_causes.len()
        invariant
            i <= new_causes.len(),
            causes@ == append_missing(start, new_causes@.take(i as int)),
        decreases new_causes.len() - i,
    {
        assert(new_causes@.take(i + 1).drop_last() =~= new_causes@.take(i as int));
        assert(new_causes@.take(i + 1).last() == new_causes@[i as int]);
        let c = new_causes[i];
        if !contains_cause(causes, c) {
            causes.push(c);
        }
        i += 1;
    }
    assert(new_causes@.take(new_causes.len() as int) =~= new_causes@);
    let unsorted = causes.clone();
    let mut sorted: Vec<ProofLimitCause> = Vec::new();
    let mut r: u8 = 0;
    while r < 6
        invariant
            r <= 6,
            unsorted@ == append_missing(start, new_causes@),
            sorted@ == (if r == 0 {
                Seq::empty()
            } else if r == 1 {
                of_rank(unsorted@, 0)
            } else if r == 2 {
                of_rank(unsorted@, 0) + of_rank(unsorted@, 1)
            } else if r == 3 {
                of_rank(unsorted@, 0) + of_rank(unsorted@, 1) + of_rank(unsorted@, 2)
            } else if r == 4 {
                of_rank(unsorted@, 0) + of_rank(unsorted@, 1) + of_rank(unsorted@, 2) + of_rank(
                    unsorted@,
                    3,
                )
            } else if r == 5 {
                of_rank(unsorted@, 0) + of_rank(unsorted@, 1) + of_rank(unsorted@, 2) + of_rank(
                    unsorted@,
                    3,
                ) + of_rank(unsorted@, 4)
            } else {
                sorted_causes(unsorted@)
            }),
        decreases 6 - r,
    {
        append_of_rank(&mut sorted, &unsorted, r);
        r += 1;
    }
    *causes = sorted;
}

/// Adds a note unless it is already present.
pub fn push_note(notes: &mut Vec<TacticalNote>, note: TacticalNote)
    ensures
        final(notes)@ == (if old(notes)@.contains(note) {
            old(notes)@
        } else {
            old(notes)@.push(note)
        }),
{
    let mut i: usize = 0;
    while i < notes.len()
        invariant
            i <= notes.len(),
            forall|j: int| 0 <= j < i ==> notes@[j] != note,
        decreases notes.len() - i,
    {
        if notes[i] == note {
            assert(notes@[i as int] == note);
            return;
        }
        i += 1;
    }
    notes.push(note);
}

/// The proof with the causes added as `extend_limit_causes` adds them, and
/// its limit flag set exactly when some cause is recorded.
pub fn with_limit_causes(proof: ProofResult, causes: &[ProofLimitCause]) -> (r: ProofResult)
    ensures
        r.limit_causes@ == sorted_causes(append_missing(proof.limit_causes@, causes@)),
        r.limit_hit == (r.limit_causes@.len() > 0),
        r.status == proof.status,
        r.attacker == proof.attacker,
        r.side_to_move == proof.side_to_move,
        r.model == proof.model,
        r.principal_line == proof.principal_line,
        r.escape_moves == proof.escape_moves,
        r.threat_evidence == proof.threat_evidence,
{
    let mut proof = proof;
    extend_limit_causes(&mut proof.limit_causes, causes);
    proof.limit_hit = proof.limit_causes.len() > 0;
    proof
}

/// How many proofs of the summary have the given status.
pub open spec fn status_count(proofs: Seq<ProofResult>, status: ProofStatus) -> nat
    decreases proofs.len(),
{
    if proofs.len() == 0 {
        0
    } else {
        status_count(proofs.drop_last(), status) + if proofs.last().status == status {
            1nat
        } else {
            0nat
        }
    }
}

proof fn lemma_status_count_bounded(proofs: Seq<ProofResult>, status: ProofStatus)
    ensures
        status_count(proofs, status) <= proofs.len(),
    decreases proofs.len(),
{
    if proofs.len() > 0 {
        lemma_status_count_bounded(proofs.drop_last(), status);
    }
}

/// Counts the proofs of a summary whose status is `status`.
pub fn count_proof_status(proof_summary: &[ProofResult], status: ProofStatus) -> (r: usize)
    ensures
        r == status_count(proof_summary@, status),
{
    let mut count: usize = 0;
    let mut i: usize = 0;
    while i < proof_summary.len()
        invariant
            i <= proof_summary.len(),
            count == status_count(proof_summary@.take(i as int), status),
        decreases proof_summary.len() - i,
    {
        assert(proof_summary@.take(i + 1).drop_last() =~= proof_summary@.take(i as int));
        assert(proof_summary@.take(i + 1).last() == proof_summary@[i as int]);
        proof {
            lemma_status_count_bounded(proof_summary@.take(i as int), status);
        }
        if proof_summary[i].status == status {
            count += 1;
        }
        i += 1;
    }
    assert(proof_summary@.take(proof_summary.len() as int) =~= proof_summary@);
    count
}

/// The index of the first entry for `mv`, if any.
pub open spec fn reply_entry_index(replies: Seq<(Move, Vec<DefenderReplyRole>)>, mv: Move) -> Option<
    int,
>
    decreases replies.len(),
{
    if replies.len() == 0 {
        None
    } else {
        match reply_entry_index(replies.drop_last(), mv) {
            Some(i) => Some(i),
            None => if replies.last().0 == mv {
                Some(replies.len() - 1)
            } else {
                None
            },
        }
    }
}

proof fn lemma_reply_entry_index(replies: Seq<(Move, Vec<DefenderReplyRole>)>, mv: Move)
    ensures
        match reply_entry_index(replies, mv) {
            Some(i) => 0 <= i < replies.len() && replies[i].0 == mv && forall|j: int|
                0 <= j < i ==> (#[trigger] replies[j]).0 != mv,
            None => forall|j: int| 0 <= j < replies.len() ==> (#[trigger] replies[j]).0 != mv,
        },
    decreases replies.len(),
{
    if replies.len() > 0 {
        lemma_reply_entry_index(replies.drop_last(), mv);
        assert forall|j: int| 0 <= j < replies.len() - 1 implies replies.drop_last()[j]
            == #[trigger] replies[j] by {}
    }
}

/// The reply list after recording `role` for `mv`: the first entry for the
/// move gains the role unless it holds it already; with no entry for the
/// move, a new entry with just that role comes last.
pub open spec fn push_reply_role_spec(
    replies: Seq<(Move, Seq<DefenderReplyRole>)>,
    index: Option<int>,
    mv: Move,
    role: DefenderReplyRole,
) -> Seq<(Move, Seq<DefenderReplyRole>)> {
    match index {
        Some(i) => if replies[i].1.contains(role) {
            replies
        } else {
            replies.update(i, (mv, replies[i].1.push(role)))
        },
        None => replies.push((mv, seq![role])),
    }
}

/// The entries by their role lists' views.
pub open spec fn reply_entries_view(replies: Seq<(Move, Vec<DefenderReplyRole>)>) -> Seq<
    (Move, Seq<DefenderReplyRole>),
> {
    Seq::new(replies.len(), |i: int| (replies[i].0, replies[i].1@))
}

fn roles_contain(roles: &Vec<DefenderReplyRole>, role: DefenderReplyRole) -> (r: bool)
    ensures
        r == roles@.contains(role),
{
    let mut i: usize = 0;
    while i < roles.len()
        invariant
            i <= roles.len(),
            forall|j: int| 0 <= j < i ==> roles@[j] != role,
        decreases roles.len() - i,
    {
        if roles[i] == role {
            assert(roles@[i as int] == role);
            return true;
        }
        i += 1;
    }
    false
}

/// Records that `mv` is a defender reply in the given role.
pub fn push_reply_role(
    replies: &mut Vec<(Move, Vec<DefenderReplyRole>)>,
    mv: Move,
    role: DefenderReplyRole,
)
    ensures
        reply_entries_view(final(replies)@) == push_reply_role_spec(
            reply_entries_view(old(replies)@),
            reply_entry_index(old(replies)@, mv),
            mv,
            role,
        ),
{
    proof {
        lemma_reply_entry_index(replies@, mv);
    }
    let mut i: usize = 0;
    while i < replies.len()
        invariant
            i <= replies.len(),
            replies@ == old(replies)@,
            forall|j: int| 0 <= j < i ==> (#[trigger] replies@[j]).0 != mv,
            match reply_entry_index(replies@, mv) {
                Some(k) => 0 <= k < replies@.len() && replies@[k].0 == mv && forall|j: int|
                    0 <= j < k ==> (#[trigger] replies@[j]).0 != mv,
                None => forall|j: int| 0 <= j < replies@.len() ==> (#[trigger] replies@[j]).0 != mv,
            },
        decreases replies.len() - i,
    {
        if replies[i].0 == mv {
            let ghost k = reply_entry_index(replies@, mv);
            assert(k == Some(i as int));
            if roles_contain(&replies[i].1, role) {
                assert(reply_entries_view(replies@) =~= reply_entries_view(old(replies)@));
                return;
            }
            let mut roles: Vec<DefenderReplyRole> = Vec::new();
            let mut j: usize = 0;
            while j < replies[i].1.len()
                invariant
                    i < replies.len(),
                    j <= replies@[i as int].1.len(),
                    roles@ == replies@[i as int].1@.take(j as int),
                decreases replies@[i as int].1.len() - j,
            {
                roles.push(replies[i].1[j]);
                assert(roles@ =~= replies@[i as int].1@.take(j + 1));
                j += 1;
            }
            assert(roles@ =~= replies@[i as int].1@);
            roles.push(role);
            let ghost before = replies@;
            replies.set(i, (mv, roles));
            assert(reply_entries_view(replies@) =~= reply_entries_view(before).update(
                i as int,
                (mv, before[i as int].1@.push(role)),
            ));
            return;
        }
        i += 1;
    }
    assert(reply_entry_index(replies@, mv) is None);
    let ghost before = replies@;
    let mut roles: Vec<DefenderReplyRole> = Vec::new();
    roles.push(role);
    assert(roles@ =~= seq![role]);
    replies.push((mv, roles));
    assert(reply_entries_view(replies@) =~= reply_entries_view(before).push((mv, seq![role])));
}

/// No move has two entries.
pub open spec fn reply_moves_distinct(replies: Seq<(Move, Seq<DefenderReplyRole>)>) -> bool {
    forall|a: int, b: int|
        0 <= a < b < replies.len() ==> (#[trigger] replies[a]).0 != (#[trigger] replies[b]).0
}

/// Recording a role keeps one entry per move, and afterwards the move's
/// entry holds the role.
pub proof fn law_push_reply_role_keeps_one_entry_per_move(
    replies: Seq<(Move, Vec<DefenderReplyRole>)>,
    mv: Move,
    role: DefenderReplyRole,
)
    requires
        reply_moves_distinct(reply_entries_view(replies)),
    ensures
        ({
            let after = push_reply_role_spec(
                reply_entries_view(replies),
                reply_entry_index(replies, mv),
                mv,
                role,
            );
            &&& reply_moves_distinct(after)
            &&& exists|k: int| 0 <= k < after.len() && (#[trigger] after[k]).0 == mv && after[k].1.contains(role)
        }),
{
    lemma_reply_entry_index(replies, mv);
    let v = reply_entries_view(replies);
    let after = push_reply_role_spec(v, reply_entry_index(replies, mv), mv, role);
    match reply_entry_index(replies, mv) {
        Some(i) => {
            assert(v[i].0 == mv);
            if v[i].1.contains(role) {
                assert(after[i].0 == mv && after[i].1.contains(role));
            } else {
                assert(after[i].1 == v[i].1.push(role));
                assert(after[i].1[v[i].1.len() as int] == role);
                assert(after[i].0 == mv && after[i].1.contains(role));
                assert forall|a: int, b: int| 0 <= a < b < after.len() implies (#[trigger] after[a]).0
                    != (#[trigger] after[b]).0 by {
                    assert(after[a].0 == v[a].0);
                    assert(after[b].0 == v[b].0);
                }
            }
        },
        None => {
            let n = v.len() as int;
            assert(after[n] == (mv, seq![role]));
            assert(after[n].1[0] == role);
            assert(after[n].1.contains(role));
            assert forall|a: int, b: int| 0 <= a < b < after.len() implies (#[trigger] after[a]).0
                != (#[trigger] after[b]).0 by {
                if b == n {
                    assert(v[a].0 == replies[a].0);
                }
            }
        },
    }
}

/// What a defender reply inside a threat corridor came to.
#[derive(Debug, Clone, Copy, PartialEq, Eq, Structural)]
pub enum CorridorReplyStatus {
    Forced,
    Escape,
    Unknown,
}

/// A defender reply inside a corridor, what it came to, and the proof
/// behind that.
#[derive(Debug, Clone, PartialEq, Eq)]
pub struct CorridorReplyOutcome {
    pub mv: Move,
    pub status: CorridorReplyStatus,
    pub proof: ProofResult,
}

/// The moves of the forced replies, in order.
pub open spec fn forced_moves_spec(outcomes: Seq<CorridorReplyOutcome>) -> Seq<Move>
    decreases outcomes.len(),
{
    if outcomes.len() == 0 {
        Seq::empty()
    } else {
        let rest = forced_moves_spec(outcomes.drop_last());
        if outcomes.last().status == CorridorReplyStatus::Forced {
            rest.push(outcomes.last().mv)
        } else {
            rest
        }
    }
}

/// The replies that were forced, in the order tried.
pub fn forced_corridor_replies(outcomes: &[CorridorReplyOutcome]) -> (r: Vec<Move>)
    ensures
        r@ == forced_moves_spec(outcomes@),
{
    let mut out: Vec<Move> = Vec::new();
    let mut i: usize = 0;
    while i < outcomes.len()
        invariant
            i <= outcomes.len(),
            out@ == forced_moves_spec(outcomes@.take(i as int)),
        decreases outcomes.len() - i,
    {
        assert(outcomes@.take(i + 1).drop_last() =~= outcomes@.take(i as int));
        assert(outcomes@.take(i + 1).last() == outcomes@[i as int]);
        if outcomes[i].status == CorridorReplyStatus::Forced {
            out.push(outcomes[i].mv);
        }
        i += 1;
    }
    assert(outcomes@.take(outcomes.len() as int) =~= outcomes@);
    out
}

/// The first forced reply, if any.
pub open spec fn first_forced_index(outcomes: Seq<CorridorReplyOutcome>) -> Option<int>
    decreases outcomes.len(),
{
    if outcomes.len() == 0 {
        None
    } else {
        match first_forced_index(outcomes.drop_last()) {
            Some(i) => Some(i),
            None => if outcomes.last().status == CorridorReplyStatus::Forced {
                Some(outcomes.len() - 1)
            } else {
                None
            },
        }
    }
}

proof fn lemma_first_forced_index(outcomes: Seq<CorridorReplyOutcome>)
    ensures
        match first_forced_index(outcomes) {
            Some(i) => 0 <= i < outcomes.len() && outcomes[i].status == CorridorReplyStatus::Forced
                && forall|j: int| 0 <= j < i ==> (#[trigger] outcomes[j]).status != CorridorReplyStatus::Forced,
            None => forall|j: int| 0 <= j < outcomes.len() ==> (#[trigger] outcomes[j]).status != CorridorReplyStatus::Forced,
        },
    decreases outcomes.len(),
{
    if outcomes.len() > 0 {
        lemma_first_forced_index(outcomes.drop_last());
        assert forall|j: int| 0 <= j < outcomes.len() - 1 implies outcomes.drop_last()[j]
            == #[trigger] outcomes[j] by {}
    }
}

/// The line of the first forced reply: the reply, then its proof's
/// principal line; empty when no reply was forced.
pub open spec fn first_forced_line_spec(outcomes: Seq<CorridorReplyOutcome>) -> Seq<Move> {
    match first_forced_index(outcomes) {
        Some(i) => seq![outcomes[i].mv] + outcomes[i].proof.principal_line@,
        None => Seq::empty(),
    }
}

/// The principal line through the first forced reply.
pub fn first_forced_principal_line(outcomes: &[CorridorReplyOutcome]) -> (r: Vec<Move>)
    ensures
        r@ == first_forced_line_spec(outcomes@),
{
    proof {
        lemma_first_forced_index(outcomes@);
    }
    let mut i: usize = 0;
    while i < outcomes.len()
        invariant
            i <= outcomes.len(),
            forall|j: int| 0 <= j < i ==> (#[trigger] outcomes@[j]).status != CorridorReplyStatus::Forced,
            match first_forced_index(outcomes@) {
                Some(k) => 0 <= k < outcomes@.len() && outcomes@[k].status == CorridorReplyStatus::Forced
                    && forall|j: int| 0 <= j < k ==> (#[trigger] outcomes@[j]).status != CorridorReplyStatus::Forced,
                None => forall|j: int| 0 <= j < outcomes@.len() ==> (#[trigger] outcomes@[j]).status != CorridorReplyStatus::Forced,
            },
        decreases outcomes.len() - i,
    {
        if outcomes[i].status == CorridorReplyStatus::Forced {
            assert(first_forced_index(outcomes@) == Some(i as int));
            let mut line: Vec<Move> = Vec::new();
            line.push(outcomes[i].mv);
            let tail = &outcomes[i].proof.principal_line;
            let mut j: usize = 0;
            while j < tail.len()
                invariant
                    j <= tail.len(),
                    line@ == seq![outcomes@[i as int].mv] + tail@.take(j as int),
                decreases tail.len() - j,
            {
                line.push(tail[j]);
                assert(line@ =~= seq![outcomes@[i as int].mv] + tail@.take(j + 1));
                j += 1;
            }
            assert(tail@.take(tail.len() as int) =~= tail@);
            return line;
        }
        i += 1;
    }
    Vec::new()
}

/// Which replay prefix and which actual reply a piece of evidence is tied
/// to, when the search follows the moves actually played.
#[derive(Debug, Clone, Copy, PartialEq, Eq, Structural)]
pub struct EvidenceAttribution {
    pub prefix_ply: Option<usize>,
    pub actual_reply: Option<Move>,
}

impl EvidenceAttribution {
    /// Tied to no prefix and no reply.
    pub fn none() -> (r: Self)
        ensures
            r.prefix_ply is None,
            r.actual_reply is None,
    {
        EvidenceAttribution { prefix_ply: None, actual_reply: None }
    }
}

/// The moves actually played, and the prefix a search node stands at while
/// it follows them.
#[derive(Debug, Clone, Copy)]
pub struct ProofTrace<'a> {
    pub actual_moves: &'a [Move],
    pub prefix_ply: usize,
}

impl<'a> ProofTrace<'a> {
    /// The node's prefix, and the move played from it if the game went on.
    pub fn attribution(self) -> (r: EvidenceAttribution)
        ensures
            r.prefix_ply == Some(self.prefix_ply),
            r.actual_reply == (if self.prefix_ply < self.actual_moves@.len() {
                Some(self.actual_moves@[self.prefix_ply as int])
            } else {
                None
            }),
    {
        let actual_reply = if self.prefix_ply < self.actual_moves.len() {
            Some(self.actual_moves[self.prefix_ply])
        } else {
            None
        };
        EvidenceAttribution { prefix_ply: Some(self.prefix_ply), actual_reply }
    }

    /// The trace one ply on, when `mv` is the move actually played here;
    /// `None` once the search leaves the game.
    pub fn after_move(self, mv: Move) -> (r: Option<Self>)
        ensures
            r is Some <==> (self.prefix_ply < self.actual_moves@.len()
                && self.actual_moves@[self.prefix_ply as int] == mv),
            r is Some ==> r->0.actual_moves@ == self.actual_moves@ && r->0.prefix_ply
                == self.prefix_ply + 1,
    {
        if self.prefix_ply < self.actual_moves.len() && self.actual_moves[self.prefix_ply] == mv {
            Some(ProofTrace { actual_moves: self.actual_moves, prefix_ply: self.prefix_ply + 1 })
        } else {
            None
        }
    }
}

/// The squares of a threat that a proof node reads: the attacker's winning
/// squares, the defender's cost squares by legality, the defender's own
/// immediate wins, the local threats and the replies to try.
#[derive(Debug, Clone, PartialEq, Eq)]
pub struct ThreatReplySet {
    pub attacker: Color,
    pub defender: Color,
    pub winning_squares: Vec<Move>,
    pub raw_cost_squares: Vec<Move>,
    pub legal_cost_squares: Vec<Move>,
    pub illegal_cost_squares: Vec<Move>,
    pub defender_immediate_wins: Vec<Move>,
    pub local_threat_count: usize,
    pub local_threat_replies: Vec<Move>,
    pub reply_moves: Vec<Move>,
}

/// What a proof node adds to the threat when it records evidence.
#[derive(Debug, Clone, PartialEq, Eq)]
pub struct ThreatEvidenceInput {
    pub attribution: EvidenceAttribution,
    pub reply_classification: ReplyClassification,
    pub escape_replies: Vec<Move>,
    pub forced_replies: Vec<Move>,
    pub next_forcing_move: Option<Move>,
    pub proof_status: ProofStatus,
    pub limit_causes: Vec<ProofLimitCause>,
}

impl ThreatReplySet {
    /// The evidence record of this threat with the node's findings; a limit
    /// is marked hit exactly when some limit cause is given.
    pub fn evidence(&self, input: ThreatEvidenceInput) -> (r: ThreatSequenceEvidence)
        ensures
            r.prefix_ply == input.attribution.prefix_ply,
            r.attacker == self.attacker,
            r.defender == self.defender,
            r.winning_squares@ == self.winning_squares@,
            r.raw_cost_squares@ == self.raw_cost_squares@,
            r.legal_cost_squares@ == self.legal_cost_squares@,
            r.illegal_cost_squares@ == self.illegal_cost_squares@,
            r.defender_immediate_wins@ == self.defender_immediate_wins@,
            r.actual_reply == input.attribution.actual_reply,
            r.reply_classification == input.reply_classification,
            r.escape_replies@ == input.escape_replies@,
            r.forced_replies@ == input.forced_replies@,
            r.next_forcing_move == input.next_forcing_move,
            r.proof_status == input.proof_status,
            r.limit_hit == (input.limit_causes@.len() > 0),
            r.limit_causes@ == input.limit_causes@,
    {
        let limit_hit = input.limit_causes.len() > 0;
        ThreatSequenceEvidence {
            prefix_ply: input.attribution.prefix_ply,
            attacker: self.attacker,
            defender: self.defender,
            winning_squares: copy_moves(self.winning_squares.as_slice()),
            raw_cost_squares: copy_moves(self.raw_cost_squares.as_slice()),
            legal_cost_squares: copy_moves(self.legal_cost_squares.as_slice()),
            illegal_cost_squares: copy_moves(self.illegal_cost_squares.as_slice()),
            defender_immediate_wins: copy_moves(self.defender_immediate_wins.as_slice()),
            actual_reply: input.attribution.actual_reply,
            reply_classification: input.reply_classification,
            escape_replies: input.escape_replies,
            forced_replies: input.forced_replies,
            next_forcing_move: input.next_forcing_move,
            proof_status: input.proof_status,
            limit_hit,
            limit_causes: input.limit_causes,
        }
    }
}

/// The causes come in strictly increasing declaration order.
pub open spec fn causes_ascending(s: Seq<ProofLimitCause>) -> bool {
    forall|i: int, j: int| 0 <= i < j < s.len() ==> cause_rank(#[trigger] s[i]) < cause_rank(#[trigger] s[j])
}

proof fn lemma_rank_injective(a: ProofLimitCause, b: ProofLimitCause)
    ensures
        cause_rank(a) == cause_rank(b) ==> a == b,
{
}

proof fn lemma_append_missing(causes: Seq<ProofLimitCause>, new: Seq<ProofLimitCause>)
    requires
        causes.no_duplicates(),
    ensures
        append_missing(causes, new).no_duplicates(),
        forall|c: ProofLimitCause| #[trigger] append_missing(causes, new).contains(c) <==> (causes.contains(c)
            || new.contains(c)),
    decreases new.len(),
{
    if new.len() > 0 {
        lemma_append_missing(causes, new.drop_last());
        let prev = append_missing(causes, new.drop_last());
        assert forall|c: ProofLimitCause| new.contains(c) <==> (new.drop_last().contains(c) || c == new.last()) by {
            if new.contains(c) {
                let k = choose|k: int| 0 <= k < new.len() && new[k] == c;
                if k < new.len() - 1 {
                    assert(new.drop_last()[k] == c);
                }
            }
            if new.drop_last().contains(c) {
                let k = choose|k: int| 0 <= k < new.drop_last().len() && new.drop_last()[k] == c;
                assert(new[k] == c);
            }
            if c == new.last() {
                assert(new[new.len() - 1] == c);
            }
        }
        if !prev.contains(new.last()) {
            let q = prev.push(new.last());
            assert forall|c: ProofLimitCause| q.contains(c) <==> (prev.contains(c) || c == new.last()) by {
                if q.contains(c) {
                    let k = choose|k: int| 0 <= k < q.len() && q[k] == c;
                    if k < prev.len() {
                        assert(prev[k] == c);
                    }
                }
                if prev.contains(c) {
                    let k = choose|k: int| 0 <= k < prev.len() && prev[k] == c;
                    assert(q[k] == c);
                }
                if c == new.last() {
                    assert(q[prev.len() as int] == c);
                }
            }
            assert forall|i: int, j: int| 0 <= i < q.len() && 0 <= j < q.len() && i != j implies q[i] != q[j] by {
                if i < prev.len() && j < prev.len() {
                } else if i == prev.len() {
                    assert(prev.contains(q[j]));
                } else {
                    assert(prev.contains(q[i]));
                }
            }
        }
    }
}

proof fn lemma_of_rank(s: Seq<ProofLimitCause>, r: int)
    requires
        s.no_duplicates(),
    ensures
        of_rank(s, r).len() <= 1,
        forall|k: int| 0 <= k < of_rank(s, r).len() ==> cause_rank(#[trigger] of_rank(s, r)[k]) == r,
        forall|c: ProofLimitCause| #[trigger] of_rank(s, r).contains(c) <==> (s.contains(c) && cause_rank(c) == r),
    decreases s.len(),
{
    if s.len() > 0 {
        let d = s.drop_last();
        assert(d.no_duplicates()) by {
            assert forall|i: int, j: int| 0 <= i < d.len() && 0 <= j < d.len() && i != j implies d[i] != d[j] by {
                assert(d[i] == s[i] && d[j] == s[j]);
            }
        }
        lemma_of_rank(d, r);
        assert forall|c: ProofLimitCause| s.contains(c) <==> (d.contains(c) || c == s.last()) by {
            if s.contains(c) {
                let k = choose|k: int| 0 <= k < s.len() && s[k] == c;
                if k < s.len() - 1 {
                    assert(d[k] == c);
                }
            }
            if d.contains(c) {
                let k = choose|k: int| 0 <= k < d.len() && d[k] == c;
                assert(s[k] == c);
            }
            if c == s.last() {
                assert(s[s.len() - 1] == c);
            }
        }
        let prev = of_rank(d, r);
        if cause_rank(s.last()) == r {
            let q = prev.push(s.last());
            if prev.len() == 1 {
                lemma_rank_injective(prev[0], s.last());
                assert(prev.contains(prev[0]));
                assert(d.contains(prev[0]));
                let k = choose|k: int| 0 <= k < d.len() && d[k] == prev[0];
                assert(s[k] == s[s.len() - 1]);
                assert(false);
            }
            assert forall|c: ProofLimitCause| q.contains(c) <==> (prev.contains(c) || c == s.last()) by {
                if q.contains(c) {
                    let k = choose|k: int| 0 <= k < q.len() && q[k] == c;
                    if k < prev.len() {
                        assert(prev[k] == c);
                    }
                }
                if prev.contains(c) {
                    let k = choose|k: int| 0 <= k < prev.len() && prev[k] == c;
                    assert(q[k] == c);
                }
                if c == s.last() {
                    assert(q[prev.len() as int] == c);
                }
            }
        }
    }
}

proof fn lemma_concat_ascending(a: Seq<ProofLimitCause>, b: Seq<ProofLimitCause>, r: int)
    requires
        causes_ascending(a),
        causes_ascending(b),
        forall|k: int| 0 <= k < a.len() ==> cause_rank(#[trigger] a[k]) < r,
        forall|k: int| 0 <= k < b.len() ==> cause_rank(#[trigger] b[k]) >= r,
    ensures
        causes_ascending(a + b),
{
    let c = a + b;
    assert forall|i: int, j: int| 0 <= i < j < c.len() implies cause_rank(#[trigger] c[i]) < cause_rank(#[trigger] c[j]) by {
        if j < a.len() {
            assert(c[i] == a[i] && c[j] == a[j]);
        } else if i >= a.len() {
            assert(c[i] == b[i - a.len()] && c[j] == b[j - a.len()]);
        } else {
            assert(c[i] == a[i] && c[j] == b[j - a.len()]);
        }
    }
}

/// Law: extending a list of causes that holds each cause at most once gives
/// a list in strictly increasing declaration order holding exactly the
/// causes of both lists.
pub proof fn law_extend_limit_causes_ascending_union(causes: Seq<ProofLimitCause>, new_causes: Seq<ProofLimitCause>)
    requires
        causes.no_duplicates(),
    ensures
        causes_ascending(sorted_causes(append_missing(causes, new_causes))),
        forall|c: ProofLimitCause| #[trigger] sorted_causes(append_missing(causes, new_causes)).contains(c)
            <==> (causes.contains(c) || new_causes.contains(c)),
{
    let u = append_missing(causes, new_causes);
    lemma_append_missing(causes, new_causes);
    lemma_of_rank(u, 0);
    lemma_of_rank(u, 1);
    lemma_of_rank(u, 2);
    lemma_of_rank(u, 3);
    lemma_of_rank(u, 4);
    lemma_of_rank(u, 5);
    let p0 = of_rank(u, 0);
    let p1 = of_rank(u, 1);
    let p2 = of_rank(u, 2);
    let p3 = of_rank(u, 3);
    let p4 = of_rank(u, 4);
    let p5 = of_rank(u, 5);
    assert forall|k: int| 0 <= k < (p0 + p1).len() implies cause_rank(#[trigger] (p0 + p1)[k]) < 2 by {
        if k < p0.len() { assert((p0 + p1)[k] == p0[k]); } else { assert((p0 + p1)[k] == p1[k - p0.len()]); }
    }
    lemma_concat_ascending(p0, p1, 1);
    let a2 = p0 + p1;
    lemma_concat_ascending(a2, p2, 2);
    let a3 = a2 + p2;
    assert forall|k: int| 0 <= k < a3.len() implies cause_rank(#[trigger] a3[k]) < 3 by {
        if k < a2.len() { assert(a3[k] == a2[k]); } else { assert(a3[k] == p2[k - a2.len()]); }
    }
    lemma_concat_ascending(a3, p3, 3);
    let a4 = a3 + p3;
    assert forall|k: int| 0 <= k < a4.len() implies cause_rank(#[trigger] a4[k]) < 4 by {
        if k < a3.len() { assert(a4[k] == a3[k]); } else { assert(a4[k] == p3[k - a3.len()]); }
    }
    lemma_concat_ascending(a4, p4, 4);
    let a5 = a4 + p4;
    assert forall|k: int| 0 <= k < a5.len() implies cause_rank(#[trigger] a5[k]) < 5 by {
        if k < a4.len() { assert(a5[k] == a4[k]); } else { assert(a5[k] == p4[k - a4.len()]); }
    }
    lemma_concat_ascending(a5, p5, 5);
    let all = a5 + p5;
    assert(sorted_causes(u) == all);
    assert forall|c: ProofLimitCause| #[trigger] all.contains(c) <==> u.contains(c) by {
        let r = cause_rank(c);
        if all.contains(c) {
            let k = choose|k: int| 0 <= k < all.len() && all[k] == c;
            if k < a5.len() {
                if k < a4.len() {
                    if k < a3.len() {
                        if k < a2.len() {
                            if k < p0.len() { assert(p0.contains(p0[k])); } else { assert(p1.contains(p1[k - p0.len()])); }
                        } else { assert(p2.contains(p2[k - a2.len()])); }
                    } else { assert(p3.contains(p3[k - a3.len()])); }
                } else { assert(p4.contains(p4[k - a4.len()])); }
            } else { assert(p5.contains(p5[k - a5.len()])); }
        }
        if u.contains(c) {
            if r == 0 { assert(p0.contains(c)); let k = choose|k: int| 0 <= k < p0.len() && p0[k] == c; assert(all[k] == c); }
            else if r == 1 { assert(p1.contains(c)); let k = choose|k: int| 0 <= k < p1.len() && p1[k] == c; assert(all[p0.len() + k] == c); }
            else if r == 2 { assert(p2.contains(c)); let k = choose|k: int| 0 <= k < p2.len() && p2[k] == c; assert(all[a2.len() + k] == c); }
            else if r == 3 { assert(p3.contains(c)); let k = choose|k: int| 0 <= k < p3.len() && p3[k] == c; assert(all[a3.len() + k] == c); }
            else if r == 4 { assert(p4.contains(c)); let k = choose|k: int| 0 <= k < p4.len() && p4[k] == c; assert(all[a4.len() + k] == c); }
            else { assert(p5.contains(c)); let k = choose|k: int| 0 <= k < p5.len() && p5[k] == c; assert(all[a5.len() + k] == c); }
        }
    }
}

/// What the search found after one attacker move at an attacker node: the
/// move, the child's status, principal line and limit causes.
#[derive(Debug, Clone, PartialEq, Eq)]
pub struct ChildProof {
    pub mv: Move,
    pub status: ProofStatus,
    pub principal_line: Vec<Move>,
    pub limit_causes: Vec<ProofLimitCause>,
}

/// The verdict of a proof node: its status, principal line, and the limit
/// causes it adds to those of its evidence.
#[derive(Debug, Clone, PartialEq, Eq)]
pub struct NodeVerdict {
    pub status: ProofStatus,
    pub principal_line: Vec<Move>,
    pub limit_causes: Vec<ProofLimitCause>,
}

/// The first child that is a forced win, if any.
pub open spec fn first_forced_child(children: Seq<ChildProof>) -> Option<int>
    decreases children.len(),
{
    if children.len() == 0 {
        None
    } else {
        match first_forced_child(children.drop_last()) {
            Some(i) => Some(i),
            None => if children.last().status == ProofStatus::ForcedWin {
                Some(children.len() - 1)
            } else {
                None
            },
        }
    }
}

/// The causes of the unknown children, gathered in order as
/// `extend_limit_causes` gathers them.
pub open spec fn unknown_child_causes(children: Seq<ChildProof>) -> Seq<ProofLimitCause>
    decreases children.len(),
{
    if children.len() == 0 {
        Seq::empty()
    } else {
        let prev = unknown_child_causes(children.drop_last());
        if children.last().status == ProofStatus::Unknown {
            sorted_causes(append_missing(prev, children.last().limit_causes@))
        } else {
            prev
        }
    }
}

/// The rule of an attacker node: an immediate win is a forced win on its
/// own; otherwise the first child move that forces a win makes the node a
/// forced win along that move (its causes carried over); with none, the
/// node escapes when no child was unknown, and is unknown otherwise, with
/// the unknown children's causes and `AttackerChildUnknown`.
pub open spec fn attacker_verdict_spec(immediate_win: Option<Move>, children: Seq<ChildProof>) -> (
    ProofStatus,
    Seq<Move>,
    Seq<ProofLimitCause>,
) {
    match immediate_win {
        Some(m) => (ProofStatus::ForcedWin, seq![m], Seq::empty()),
        None => match first_forced_child(children) {
            Some(i) => (
                ProofStatus::ForcedWin,
                seq![children[i].mv] + children[i].principal_line@,
                children[i].limit_causes@,
            ),
            None => if unknown_child_causes(children).len() == 0 {
                (ProofStatus::EscapeFound, Seq::empty(), Seq::empty())
            } else {
                (
                    ProofStatus::Unknown,
                    Seq::empty(),
                    unknown_child_causes(children).push(ProofLimitCause::AttackerChildUnknown),
                )
            },
        },
    }
}

proof fn lemma_first_forced_child(children: Seq<ChildProof>)
    ensures
        match first_forced_child(children) {
            Some(i) => 0 <= i < children.len() && children[i].status == ProofStatus::ForcedWin
                && forall|j: int| 0 <= j < i ==> (#[trigger] children[j]).status != ProofStatus::ForcedWin,
            None => forall|j: int| 0 <= j < children.len() ==> (#[trigger] children[j]).status != ProofStatus::ForcedWin,
        },
    decreases children.len(),
{
    if children.len() > 0 {
        lemma_first_forced_child(children.drop_last());
        assert forall|j: int| 0 <= j < children.len() - 1 implies children.drop_last()[j] == #[trigger] children[j] by {}
    }
}

/// Decides an attacker node from its immediate win, if any, and the proofs
/// of its child moves in the order they were tried.
pub fn attacker_node_verdict(immediate_win: Option<Move>, children: &[ChildProof]) -> (r: NodeVerdict)
    ensures
        (r.status, r.principal_line@, r.limit_causes@) == attacker_verdict_spec(immediate_win, children@),
{
    match immediate_win {
        Some(m) => {
            let mut line: Vec<Move> = Vec::new();
            line.push(m);
            assert(line@ =~= seq![m]);
            return NodeVerdict { status: ProofStatus::ForcedWin, principal_line: line, limit_causes: Vec::new() };
        },
        None => {},
    }
    proof {
        lemma_first_forced_child(children@);
    }
    let mut causes: Vec<ProofLimitCause> = Vec::new();
    let mut i: usize = 0;
    while i < children.len()
        invariant
            i <= children.len(),
            immediate_win is None,
            forall|j: int| 0 <= j < i ==> (#[trigger] children@[j]).status != ProofStatus::ForcedWin,
            causes@ == unknown_child_causes(children@.take(i as int)),
            match first_forced_child(children@) {
                Some(k) => 0 <= k < children@.len() && children@[k].status == ProofStatus::ForcedWin
                    && forall|j: int| 0 <= j < k ==> (#[trigger] children@[j]).status != ProofStatus::ForcedWin,
                None => forall|j: int| 0 <= j < children@.len() ==> (#[trigger] children@[j]).status != ProofStatus::ForcedWin,
            },
        decreases children.len() - i,
    {
        assert(children@.take(i + 1).drop_last() =~= children@.take(i as int));
        assert(children@.take(i + 1).last() == children@[i as int]);
        let c = &children[i];
        if c.status == ProofStatus::ForcedWin {
            assert(first_forced_child(children@) == Some(i as int));
            let mut line: Vec<Move> = Vec::new();
            line.push(c.mv);
            let mut j: usize = 0;
            while j < c.principal_line.len()
                invariant
                    j <= c.principal_line.len(),
                    line@ == seq![c.mv] + c.principal_line@.take(j as int),
                decreases c.principal_line.len() - j,
            {
                line.push(c.principal_line[j]);
                assert(line@ =~= seq![c.mv] + c.principal_line@.take(j + 1));
                j += 1;
            }
            assert(c.principal_line@.take(c.principal_line.len() as int) =~= c.principal_line@);
            let mut added: Vec<ProofLimitCause> = Vec::new();
            extend_causes_copy(&mut added, c.limit_causes.as_slice());
            return NodeVerdict { status: ProofStatus::ForcedWin, principal_line: line, limit_causes: added };
        }
        if c.status == ProofStatus::Unknown {
            extend_limit_causes(&mut causes, c.limit_causes.as_slice());
        }
        i += 1;
    }
    assert(children@.take(children.len() as int) =~= children@);
    if causes.len() == 0 {
        NodeVerdict { status: ProofStatus::EscapeFound, principal_line: Vec::new(), limit_causes: Vec::new() }
    } else {
        causes.push(ProofLimitCause::AttackerChildUnknown);
        NodeVerdict { status: ProofStatus::Unknown, principal_line: Vec::new(), limit_causes: causes }
    }
}

fn extend_causes_copy(out: &mut Vec<ProofLimitCause>, v: &[ProofLimitCause])
    ensures
        final(out)@ == old(out)@ + v@,
{
    let mut k: usize = 0;
    let ghost start = out@;
    while k < v.len()
        invariant
            k <= v.len(),
            out@ == start + v@.take(k as int),
        decreases v.len() - k,
    {
        out.push(v[k]);
        assert(v@.take(k + 1) =~= v@.take(k as int).push(v@[k as int]));
        k += 1;
    }
    assert(v@.take(v.len() as int) =~= v@);
}

} // verus!
