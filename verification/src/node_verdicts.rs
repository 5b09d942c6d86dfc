//! The decisions of the proof search's nodes, taken apart from the board
//! work: given what the search found for each reply or move of a node, what
//! the node concludes, which line it reports, and which evidence and limit
//! causes it records.
use vstd::prelude::*;
use crate::analysis::{
    append_missing, extend_limit_causes, sorted_causes, CorridorReplyOutcome, CorridorReplyStatus,
    DefenderReplyOutcome, EvidenceAttribution, ProofLimitCause, ProofResult, ProofStatus,
    ReplyClassification, ThreatEvidenceInput, ThreatReplySet, ThreatSequenceEvidence,
};
use crate::board::{copy_moves, Color, GameResult, Move};
use crate::analysis::{first_forced_line_spec, first_forced_principal_line, forced_corridor_replies, forced_moves_spec};
use crate::proof_snapshots::{copy_evidence, evidence_same, first_branch_index, first_corridor_branch_evidence};

verus! {

/// `e` is the evidence record that `ThreatReplySet::evidence` makes of the
/// threat `t` with the given findings.
pub open spec fn evidence_of(
    e: ThreatSequenceEvidence,
    t: ThreatReplySet,
    att: EvidenceAttribution,
    class: ReplyClassification,
    escapes: Seq<Move>,
    forced: Seq<Move>,
    next: Option<Move>,
    status: ProofStatus,
    causes: Seq<ProofLimitCause>,
) -> bool {
    &&& e.prefix_ply == att.prefix_ply
    &&& e.attacker == t.attacker
    &&& e.defender == t.defender
    &&& e.winning_squares@ == t.winning_squares@
    &&& e.raw_cost_squares@ == t.raw_cost_squares@
    &&& e.legal_cost_squares@ == t.legal_cost_squares@
    &&& e.illegal_cost_squares@ == t.illegal_cost_squares@
    &&& e.defender_immediate_wins@ == t.defender_immediate_wins@
    &&& e.actual_reply == att.actual_reply
    &&& e.reply_classification == class
    &&& e.escape_replies@ == escapes
    &&& e.forced_replies@ == forced
    &&& e.next_forcing_move == next
    &&& e.proof_status == status
    &&& e.limit_hit == (causes.len() > 0)
    &&& e.limit_causes@ == causes
}

fn make_evidence(
    t: &ThreatReplySet,
    att: EvidenceAttribution,
    class: ReplyClassification,
    escapes: Vec<Move>,
    forced: Vec<Move>,
    next: Option<Move>,
    status: ProofStatus,
    causes: Vec<ProofLimitCause>,
) -> (r: ThreatSequenceEvidence)
    ensures
        evidence_of(r, *t, att, class, escapes@, forced@, next, status, causes@),
{
    t.evidence(
        ThreatEvidenceInput {
            attribution: att,
            reply_classification: class,
            escape_replies: escapes,
            forced_replies: forced,
            next_forcing_move: next,
            proof_status: status,
            limit_causes: causes,
        },
    )
}

/// The attacker's move after the defender's reply on a line: its second
/// move, if any.
pub open spec fn next_forcing_spec(line: Seq<Move>) -> Option<Move> {
    if line.len() >= 2 {
        Some(line[1])
    } else {
        None
    }
}

/// What the search made of one defender reply: it could not be played; it
/// leaves the attacker an immediate win (the first such square); or the
/// search below it gave this proof.
#[derive(Debug, Clone, PartialEq, Eq)]
pub enum DefenderReplyStep {
    Skipped,
    Refuted(Move),
    Searched(ProofResult),
}

/// A defender reply and what the search made of it.
#[derive(Debug, Clone, PartialEq, Eq)]
pub struct DefenderReplyResult {
    pub mv: Move,
    pub step: DefenderReplyStep,
}

/// The conclusion of a proof node: status, principal line, escape moves,
/// evidence records, and the limit causes it adds to those of its
/// evidence.
#[derive(Debug, Clone, PartialEq, Eq)]
pub struct NodeFindings {
    pub status: ProofStatus,
    pub principal_line: Vec<Move>,
    pub escape_moves: Vec<Move>,
    pub evidence: Vec<ThreatSequenceEvidence>,
    pub limit_causes: Vec<ProofLimitCause>,
}

/// The scan of a defender node's replies, in order: the position of the
/// first reply that escapes (after which nothing changes), the principal
/// line (that of the first forced reply), whether some reply was unknown,
/// the unknown replies' causes, and the forced replies.
pub open spec fn defender_scan(rs: Seq<DefenderReplyResult>) -> (
    Option<int>,
    Seq<Move>,
    bool,
    Seq<ProofLimitCause>,
    Seq<Move>,
)
    decreases rs.len(),
{
    if rs.len() == 0 {
        (None, Seq::empty(), false, Seq::empty(), Seq::empty())
    } else {
        let st = defender_scan(rs.drop_last());
        if st.0 is Some {
            st
        } else {
            let r = rs.last();
            match r.step {
                DefenderReplyStep::Skipped => st,
                DefenderReplyStep::Refuted(w) => (
                    None,
                    if st.1.len() == 0 {
                        seq![r.mv, w]
                    } else {
                        st.1
                    },
                    st.2,
                    st.3,
                    st.4.push(r.mv),
                ),
                DefenderReplyStep::Searched(p) => if p.status == ProofStatus::ForcedWin {
                    (
                        None,
                        if st.1.len() == 0 {
                            seq![r.mv] + p.principal_line@
                        } else {
                            st.1
                        },
                        st.2,
                        st.3,
                        st.4.push(r.mv),
                    )
                } else if p.status == ProofStatus::EscapeFound {
                    (Some(rs.len() - 1), st.1, st.2, st.3, st.4)
                } else {
                    (None, st.1, true, sorted_causes(append_missing(st.3, p.limit_causes@)), st.4)
                },
            }
        }
    }
}

/// The verdict of a defender node of threat `t`, given what the search made
/// of each of its replies.
/// - The attacker already wins and the defender has neither a legal block
///   nor a win of its own: a forced win along the winning square.
/// - No reply to try: unknown (model scope).
/// - The first reply that escapes: the node escapes by it, recording the
///   forced replies before it, then the escaping branch's evidence.
/// - Otherwise some unknown reply: unknown, with the first forced line and
///   the unknown replies' causes plus `DefenderReplyUnknown`.
/// - Otherwise a forced win along the first forced line: every reply that
///   could be played loses.
/// The node records its own evidence when the attacker had an immediate
/// win before the reply.
pub open spec fn defender_verdict_agrees(
    t: ThreatReplySet,
    att: EvidenceAttribution,
    rs: Seq<DefenderReplyResult>,
    r: NodeFindings,
) -> bool {
    let had_win = t.winning_squares@.len() > 0;
    if had_win && t.legal_cost_squares@.len() == 0 && t.defender_immediate_wins@.len() == 0 {
        &&& r.status == ProofStatus::ForcedWin
        &&& r.principal_line@ == seq![t.winning_squares@[0]]
        &&& r.escape_moves@.len() == 0
        &&& r.evidence@.len() == 1
        &&& evidence_of(r.evidence@[0], t, att, ReplyClassification::NoLegalBlock, Seq::empty(),
            Seq::empty(), Some(t.winning_squares@[0]), ProofStatus::ForcedWin, Seq::empty())
        &&& r.limit_causes@.len() == 0
    } else if rs.len() == 0 {
        &&& r.status == ProofStatus::Unknown
        &&& r.principal_line@.len() == 0
        &&& r.escape_moves@.len() == 0
        &&& r.evidence@.len() == 0
        &&& r.limit_causes@ == seq![ProofLimitCause::ModelScopeUnknown]
    } else {
        let st = defender_scan(rs);
        match st.0 {
            Some(i) => {
                let p = rs[i].step->Searched_0;
                &&& r.status == ProofStatus::EscapeFound
                &&& r.principal_line@.len() == 0
                &&& r.escape_moves@ == seq![rs[i].mv]
                &&& r.evidence@.len() == 1 + p.threat_evidence@.len()
                &&& evidence_of(r.evidence@[0], t, att, ReplyClassification::Escaped, seq![rs[i].mv],
                    st.4, None, ProofStatus::EscapeFound, Seq::empty())
                &&& forall|k: int| 0 <= k < p.threat_evidence@.len() ==> evidence_same(
                    #[trigger] r.evidence@[1 + k], p.threat_evidence@[k])
                &&& r.limit_causes@.len() == 0
            },
            None => if st.2 {
                &&& r.status == ProofStatus::Unknown
                &&& r.principal_line@ == st.1
                &&& r.escape_moves@.len() == 0
                &&& r.limit_causes@ == sorted_causes(append_missing(st.3, seq![ProofLimitCause::DefenderReplyUnknown]))
                &&& if had_win {
                    r.evidence@.len() == 1 && evidence_of(r.evidence@[0], t, att, ReplyClassification::Unknown,
                        Seq::empty(), st.4, next_forcing_spec(st.1), ProofStatus::Unknown,
                        seq![ProofLimitCause::DefenderReplyUnknown])
                } else {
                    r.evidence@.len() == 0
                }
            } else {
                &&& r.status == ProofStatus::ForcedWin
                &&& r.principal_line@ == st.1
                &&& r.escape_moves@.len() == 0
                &&& r.limit_causes@.len() == 0
                &&& if had_win {
                    r.evidence@.len() == 1 && evidence_of(r.evidence@[0], t, att,
                        ReplyClassification::BlockedButForced, Seq::empty(), st.4, next_forcing_spec(st.1),
                        ProofStatus::ForcedWin, Seq::empty())
                } else {
                    r.evidence@.len() == 0
                }
            },
        }
    }
}

proof fn lemma_scan_frozen(rs: Seq<DefenderReplyResult>, n: int)
    requires
        0 <= n <= rs.len(),
        defender_scan(rs.take(n)).0 is Some,
    ensures
        defender_scan(rs) == defender_scan(rs.take(n)),
    decreases rs.len() - n,
{
    if n < rs.len() {
        assert(rs.take(n + 1).drop_last() =~= rs.take(n));
        lemma_scan_frozen(rs, n + 1);
    } else {
        assert(rs.take(n) =~= rs);
    }
}

proof fn lemma_scan_escape_index(rs: Seq<DefenderReplyResult>)
    ensures
        defender_scan(rs).0 matches Some(i) ==> 0 <= i < rs.len() && rs[i].step is Searched
            && rs[i].step->Searched_0.status == ProofStatus::EscapeFound,
    decreases rs.len(),
{
    if rs.len() > 0 {
        lemma_scan_escape_index(rs.drop_last());
        if defender_scan(rs.drop_last()).0 is Some {
            let i = defender_scan(rs.drop_last()).0->0;
            assert(rs.drop_last()[i] == rs[i]);
        }
    }
}

fn copy_line(mv: Move, tail: &Vec<Move>) -> (r: Vec<Move>)
    ensures
        r@ == seq![mv] + tail@,
{
    let mut line: Vec<Move> = Vec::new();
    line.push(mv);
    let mut j: usize = 0;
    while j < tail.len()
        invariant
            j <= tail.len(),
            line@ == seq![mv] + tail@.take(j as int),
        decreases tail.len() - j,
    {
        line.push(tail[j]);
        assert(line@ =~= seq![mv] + tail@.take(j + 1));
        j += 1;
    }
    assert(tail@.take(tail.len() as int) =~= tail@);
    line
}

fn copy_causes(v: &[ProofLimitCause]) -> (r: Vec<ProofLimitCause>)
    ensures
        r@ == v@,
{
    let mut r: Vec<ProofLimitCause> = Vec::new();
    let mut k: usize = 0;
    while k < v.len()
        invariant
            k <= v.len(),
            r@ == v@.take(k as int),
        decreases v.len() - k,
    {
        r.push(v[k]);
        assert(v@.take(k + 1) =~= v@.take(k as int).push(v@[k as int]));
        k += 1;
    }
    assert(v@.take(v.len() as int) =~= v@);
    r
}

fn next_forcing(line: &Vec<Move>) -> (r: Option<Move>)
    ensures
        r == next_forcing_spec(line@),
{
    if line.len() >= 2 {
        Some(line[1])
    } else {
        None
    }
}

/// The evidence list: one head record, then copies of `tail`.
fn evidence_then(head: ThreatSequenceEvidence, tail: &Vec<ThreatSequenceEvidence>) -> (r: Vec<
    ThreatSequenceEvidence,
>)
    ensures
        r@.len() == 1 + tail@.len(),
        r@[0] == head,
        forall|k: int| 0 <= k < tail@.len() ==> evidence_same(#[trigger] r@[1 + k], tail@[k]),
{
    let mut out: Vec<ThreatSequenceEvidence> = Vec::new();
    out.push(head);
    let mut k: usize = 0;
    while k < tail.len()
        invariant
            k <= tail.len(),
            out@.len() == 1 + k,
            out@[0] == head,
            forall|j: int| 0 <= j < k ==> evidence_same(#[trigger] out@[1 + j], tail@[j]),
        decreases tail.len() - k,
    {
        let e = copy_evidence(&tail[k]);
        out.push(e);
        k += 1;
    }
    out
}

/// The verdict of a defender node, from the threat it faces, the evidence
/// attribution, and what the search made of each reply in the order tried.
pub fn defender_node_verdict(
    threat: &ThreatReplySet,
    attribution: EvidenceAttribution,
    replies: &[DefenderReplyResult],
) -> (r: NodeFindings)
    ensures
        defender_verdict_agrees(*threat, attribution, replies@, r),
{
    let had_win = threat.winning_squares.len() > 0;
    if had_win && threat.legal_cost_squares.len() == 0 && threat.defender_immediate_wins.len() == 0 {
        let w = threat.winning_squares[0];
        let mut line: Vec<Move> = Vec::new();
        line.push(w);
        assert(line@ =~= seq![w]);
        let e = make_evidence(threat, attribution, ReplyClassification::NoLegalBlock, Vec::new(),
            Vec::new(), Some(w), ProofStatus::ForcedWin, Vec::new());
        let mut evidence: Vec<ThreatSequenceEvidence> = Vec::new();
        evidence.push(e);
        return NodeFindings {
            status: ProofStatus::ForcedWin,
            principal_line: line,
            escape_moves: Vec::new(),
            evidence,
            limit_causes: Vec::new(),
        };
    }
    if replies.len() == 0 {
        let mut causes: Vec<ProofLimitCause> = Vec::new();
        causes.push(ProofLimitCause::ModelScopeUnknown);
        assert(causes@ =~= seq![ProofLimitCause::ModelScopeUnknown]);
        return NodeFindings {
            status: ProofStatus::Unknown,
            principal_line: Vec::new(),
            escape_moves: Vec::new(),
            evidence: Vec::new(),
            limit_causes: causes,
        };
    }
    let mut line: Vec<Move> = Vec::new();
    let mut saw_unknown = false;
    let mut causes: Vec<ProofLimitCause> = Vec::new();
    let mut forced: Vec<Move> = Vec::new();
    let mut i: usize = 0;
    while i < replies.len()
        invariant
            i <= replies.len(),
            replies.len() > 0,
            had_win == (threat.winning_squares@.len() > 0),
            !(had_win && threat.legal_cost_squares@.len() == 0 && threat.defender_immediate_wins@.len() == 0),
            defender_scan(replies@.take(i as int)) == (None::<int>, line@, saw_unknown, causes@, forced@),
        decreases replies.len() - i,
    {
        assert(replies@.take(i + 1).drop_last() =~= replies@.take(i as int));
        assert(replies@.take(i + 1).last() == replies@[i as int]);
        let r = &replies[i];
        match &r.step {
            DefenderReplyStep::Skipped => {},
            DefenderReplyStep::Refuted(w) => {
                if line.len() == 0 {
                    line.push(r.mv);
                    line.push(*w);
                    assert(line@ =~= seq![r.mv, *w]);
                }
                forced.push(r.mv);
            },
            DefenderReplyStep::Searched(p) => {
                if p.status == ProofStatus::ForcedWin {
                    if line.len() == 0 {
                        line = copy_line(r.mv, &p.principal_line);
                    }
                    forced.push(r.mv);
                } else if p.status == ProofStatus::EscapeFound {
                    assert(replies@[i as int].step == DefenderReplyStep::Searched(*p));
                    assert(defender_scan(replies@.take(i + 1)).0 == Some(i as int));
                    proof {
                        lemma_scan_frozen(replies@, i + 1);
                    }
                    let mut escapes: Vec<Move> = Vec::new();
                    escapes.push(r.mv);
                    assert(escapes@ =~= seq![r.mv]);
                    let mut escapes2: Vec<Move> = Vec::new();
                    escapes2.push(r.mv);
                    assert(escapes2@ =~= seq![r.mv]);
                    let head = make_evidence(threat, attribution, ReplyClassification::Escaped, escapes2,
                        forced, None, ProofStatus::EscapeFound, Vec::new());
                    let evidence = evidence_then(head, &p.threat_evidence);
                    return NodeFindings {
                        status: ProofStatus::EscapeFound,
                        principal_line: Vec::new(),
                        escape_moves: escapes,
                        evidence,
                        limit_causes: Vec::new(),
                    };
                } else {
                    saw_unknown = true;
                    extend_limit_causes(&mut causes, p.limit_causes.as_slice());
                }
            },
        }
        i += 1;
    }
    assert(replies@.take(replies.len() as int) =~= replies@);
    let next = next_forcing(&line);
    if saw_unknown {
        let mut added: Vec<ProofLimitCause> = Vec::new();
        added.push(ProofLimitCause::DefenderReplyUnknown);
        assert(added@ =~= seq![ProofLimitCause::DefenderReplyUnknown]);
        extend_limit_causes(&mut causes, added.as_slice());
        let mut evidence: Vec<ThreatSequenceEvidence> = Vec::new();
        if had_win {
            let mut own: Vec<ProofLimitCause> = Vec::new();
            own.push(ProofLimitCause::DefenderReplyUnknown);
            assert(own@ =~= seq![ProofLimitCause::DefenderReplyUnknown]);
            let e = make_evidence(threat, attribution, ReplyClassification::Unknown, Vec::new(), forced,
                next, ProofStatus::Unknown, own);
            evidence.push(e);
        }
        NodeFindings {
            status: ProofStatus::Unknown,
            principal_line: line,
            escape_moves: Vec::new(),
            evidence,
            limit_causes: causes,
        }
    } else {
        let mut evidence: Vec<ThreatSequenceEvidence> = Vec::new();
        if had_win {
            let e = make_evidence(threat, attribution, ReplyClassification::BlockedButForced, Vec::new(),
                forced, next, ProofStatus::ForcedWin, Vec::new());
            evidence.push(e);
        }
        NodeFindings {
            status: ProofStatus::ForcedWin,
            principal_line: line,
            escape_moves: Vec::new(),
            evidence,
            limit_causes: Vec::new(),
        }
    }
}

/// The verdict of a defender node inside a forced extension: without an
/// immediate win of the attacker there is nothing to extend (unknown, model
/// scope); otherwise as any defender node.
pub open spec fn extension_verdict_agrees(
    t: ThreatReplySet,
    att: EvidenceAttribution,
    rs: Seq<DefenderReplyResult>,
    r: NodeFindings,
) -> bool {
    if t.winning_squares@.len() == 0 {
        &&& r.status == ProofStatus::Unknown
        &&& r.principal_line@.len() == 0
        &&& r.escape_moves@.len() == 0
        &&& r.evidence@.len() == 0
        &&& r.limit_causes@ == seq![ProofLimitCause::ModelScopeUnknown]
    } else {
        defender_verdict_agrees(t, att, rs, r)
    }
}

/// The verdict of a defender node of a forced extension, from the threat's
/// reply moves and what the search made of each.
pub fn defender_extension_verdict(
    threat: &ThreatReplySet,
    attribution: EvidenceAttribution,
    replies: &[DefenderReplyResult],
) -> (r: NodeFindings)
    ensures
        extension_verdict_agrees(*threat, attribution, replies@, r),
{
    if threat.winning_squares.len() == 0 {
        let mut causes: Vec<ProofLimitCause> = Vec::new();
        causes.push(ProofLimitCause::ModelScopeUnknown);
        assert(causes@ =~= seq![ProofLimitCause::ModelScopeUnknown]);
        return NodeFindings {
            status: ProofStatus::Unknown,
            principal_line: Vec::new(),
            escape_moves: Vec::new(),
            evidence: Vec::new(),
            limit_causes: causes,
        };
    }
    defender_node_verdict(threat, attribution, replies)
}

proof fn lemma_scan_all_forced(rs: Seq<DefenderReplyResult>)
    ensures
        defender_scan(rs).0 is None && !defender_scan(rs).2 ==> forall|i: int|
            0 <= i < rs.len() && (#[trigger] rs[i]).step is Searched ==> rs[i].step->Searched_0.status
                == ProofStatus::ForcedWin,
    decreases rs.len(),
{
    if rs.len() > 0 {
        lemma_scan_all_forced(rs.drop_last());
        let st = defender_scan(rs.drop_last());
        if defender_scan(rs).0 is None && !defender_scan(rs).2 {
            assert(st.0 is None);
            assert(!st.2);
            assert forall|i: int| 0 <= i < rs.len() && (#[trigger] rs[i]).step is Searched implies
                rs[i].step->Searched_0.status == ProofStatus::ForcedWin by {
                if i < rs.len() - 1 {
                    assert(rs.drop_last()[i] == rs[i]);
                }
            }
        }
    }
}

/// Law: a defender node is a forced win only when no reply helps: every
/// reply that the search went below was itself a forced win for the
/// attacker (the others could not be played or lost at once), unless the
/// defender had no legal block at all.
pub proof fn law_defender_forced_win_needs_every_reply_forced(
    t: ThreatReplySet,
    att: EvidenceAttribution,
    rs: Seq<DefenderReplyResult>,
    r: NodeFindings,
)
    requires
        defender_verdict_agrees(t, att, rs, r),
        r.status == ProofStatus::ForcedWin,
    ensures
        (t.winning_squares@.len() > 0 && t.legal_cost_squares@.len() == 0
            && t.defender_immediate_wins@.len() == 0) || forall|i: int|
            0 <= i < rs.len() && (#[trigger] rs[i]).step is Searched ==> rs[i].step->Searched_0.status
                == ProofStatus::ForcedWin,
{
    lemma_scan_all_forced(rs);
    lemma_scan_escape_index(rs);
}

// ---------------------------------------------------------------------
// Corridor replay
// ---------------------------------------------------------------------

/// What a defender reply inside a corridor comes to: it cannot be played
/// (unknown); the defender wins or the game is drawn (an escape); the
/// attacker wins; or, the game going on, the attacker has an immediate win
/// (forced) or the forced-extension proof below decides (unknown when
/// there is none).
pub open spec fn corridor_reply_spec(
    applied: bool,
    result: GameResult,
    attacker: Color,
    immediate_win: Option<Move>,
    extension: Option<ProofStatus>,
) -> CorridorReplyStatus {
    if !applied {
        CorridorReplyStatus::Unknown
    } else {
        match result {
            GameResult::Winner(w) => if w == attacker {
                CorridorReplyStatus::Forced
            } else {
                CorridorReplyStatus::Escape
            },
            GameResult::Draw => CorridorReplyStatus::Escape,
            GameResult::Ongoing => if immediate_win is Some {
                CorridorReplyStatus::Forced
            } else {
                match extension {
                    Some(ProofStatus::ForcedWin) => CorridorReplyStatus::Forced,
                    Some(ProofStatus::EscapeFound) => CorridorReplyStatus::Escape,
                    _ => CorridorReplyStatus::Unknown,
                }
            },
        }
    }
}

/// Classifies a corridor reply from whether it could be played, the game
/// result after it, the attacker's first immediate win then, and the status
/// of the forced-extension proof below it.
pub fn corridor_reply_status(
    applied: bool,
    result: GameResult,
    attacker: Color,
    immediate_win: Option<Move>,
    extension: Option<ProofStatus>,
) -> (r: CorridorReplyStatus)
    ensures
        r == corridor_reply_spec(applied, result, attacker, immediate_win, extension),
{
    if !applied {
        return CorridorReplyStatus::Unknown;
    }
    match result {
        GameResult::Winner(w) => {
            if w == attacker {
                CorridorReplyStatus::Forced
            } else {
                CorridorReplyStatus::Escape
            }
        },
        GameResult::Draw => CorridorReplyStatus::Escape,
        GameResult::Ongoing => {
            if immediate_win.is_some() {
                CorridorReplyStatus::Forced
            } else {
                match extension {
                    Some(ProofStatus::ForcedWin) => CorridorReplyStatus::Forced,
                    Some(ProofStatus::EscapeFound) => CorridorReplyStatus::Escape,
                    _ => CorridorReplyStatus::Unknown,
                }
            }
        },
    }
}

/// The replies that escape, in order.
pub open spec fn escape_moves_spec(outcomes: Seq<CorridorReplyOutcome>) -> Seq<Move>
    decreases outcomes.len(),
{
    if outcomes.len() == 0 {
        Seq::empty()
    } else {
        let rest = escape_moves_spec(outcomes.drop_last());
        if outcomes.last().status == CorridorReplyStatus::Escape {
            rest.push(outcomes.last().mv)
        } else {
            rest
        }
    }
}

/// The causes of the unknown replies, gathered in order.
pub open spec fn unknown_outcome_causes(outcomes: Seq<CorridorReplyOutcome>) -> Seq<ProofLimitCause>
    decreases outcomes.len(),
{
    if outcomes.len() == 0 {
        Seq::empty()
    } else {
        let prev = unknown_outcome_causes(outcomes.drop_last());
        if outcomes.last().status == CorridorReplyStatus::Unknown {
            sorted_causes(append_missing(prev, outcomes.last().proof.limit_causes@))
        } else {
            prev
        }
    }
}

/// After the head record, `ev` holds copies of the evidence of the first
/// reply with the given status, if there is one.
pub open spec fn branch_evidence_follows(
    ev: Seq<ThreatSequenceEvidence>,
    outcomes: Seq<CorridorReplyOutcome>,
    status: CorridorReplyStatus,
) -> bool {
    match first_branch_index(outcomes, status) {
        Some(i) => ev.len() == 1 + outcomes[i].proof.threat_evidence@.len() && forall|k: int|
            0 <= k < outcomes[i].proof.threat_evidence@.len() ==> evidence_same(
                #[trigger] ev[1 + k], outcomes[i].proof.threat_evidence@[k]),
        None => ev.len() == 1,
    }
}

/// The verdict of a corridor defender node over its classified replies:
/// a forced win when the defender has no legal block nor win; unknown
/// (model scope) with no reply; an escape by every escaping reply when
/// some reply escapes; unknown, with the unknown replies' causes plus
/// `DefenderReplyUnknown`, when those causes are not empty; otherwise a
/// forced win along the first forced line. Each verdict records the
/// threat's evidence and then that of the first reply of its kind.
pub open spec fn corridor_defender_agrees(
    t: ThreatReplySet,
    att: EvidenceAttribution,
    outs: Seq<CorridorReplyOutcome>,
    r: NodeFindings,
) -> bool {
    if t.winning_squares@.len() > 0 && t.legal_cost_squares@.len() == 0
        && t.defender_immediate_wins@.len() == 0 {
        &&& r.status == ProofStatus::ForcedWin
        &&& r.principal_line@ == seq![t.winning_squares@[0]]
        &&& r.escape_moves@.len() == 0
        &&& r.evidence@.len() == 1
        &&& evidence_of(r.evidence@[0], t, att, ReplyClassification::NoLegalBlock, Seq::empty(),
            Seq::empty(), Some(t.winning_squares@[0]), ProofStatus::ForcedWin, Seq::empty())
        &&& r.limit_causes@.len() == 0
    } else if outs.len() == 0 {
        &&& r.status == ProofStatus::Unknown
        &&& r.principal_line@.len() == 0
        &&& r.escape_moves@.len() == 0
        &&& r.evidence@.len() == 0
        &&& r.limit_causes@ == seq![ProofLimitCause::ModelScopeUnknown]
    } else if escape_moves_spec(outs).len() > 0 {
        &&& r.status == ProofStatus::EscapeFound
        &&& r.principal_line@.len() == 0
        &&& r.escape_moves@ == escape_moves_spec(outs)
        &&& evidence_of(r.evidence@[0], t, att, ReplyClassification::Escaped, escape_moves_spec(outs),
            forced_moves_spec(outs), None, ProofStatus::EscapeFound, Seq::empty())
        &&& branch_evidence_follows(r.evidence@, outs, CorridorReplyStatus::Escape)
        &&& r.limit_causes@.len() == 0
    } else if unknown_outcome_causes(outs).len() > 0 {
        &&& r.status == ProofStatus::Unknown
        &&& r.principal_line@ == first_forced_line_spec(outs)
        &&& r.escape_moves@.len() == 0
        &&& evidence_of(r.evidence@[0], t, att, ReplyClassification::Unknown, Seq::empty(),
            forced_moves_spec(outs), next_forcing_spec(first_forced_line_spec(outs)), ProofStatus::Unknown,
            seq![ProofLimitCause::DefenderReplyUnknown])
        &&& branch_evidence_follows(r.evidence@, outs, CorridorReplyStatus::Unknown)
        &&& r.limit_causes@ == sorted_causes(append_missing(unknown_outcome_causes(outs),
            seq![ProofLimitCause::DefenderReplyUnknown]))
    } else {
        &&& r.status == ProofStatus::ForcedWin
        &&& r.principal_line@ == first_forced_line_spec(outs)
        &&& r.escape_moves@.len() == 0
        &&& evidence_of(r.evidence@[0], t, att, ReplyClassification::BlockedButForced, Seq::empty(),
            forced_moves_spec(outs), next_forcing_spec(first_forced_line_spec(outs)), ProofStatus::ForcedWin,
            Seq::empty())
        &&& branch_evidence_follows(r.evidence@, outs, CorridorReplyStatus::Forced)
        &&& r.limit_causes@.len() == 0
    }
}

fn escape_moves_of(outcomes: &[CorridorReplyOutcome]) -> (r: Vec<Move>)
    ensures
        r@ == escape_moves_spec(outcomes@),
{
    let mut out: Vec<Move> = Vec::new();
    let mut i: usize = 0;
    while i < outcomes.len()
        invariant
            i <= outcomes.len(),
            out@ == escape_moves_spec(outcomes@.take(i as int)),
        decreases outcomes.len() - i,
    {
        assert(outcomes@.take(i + 1).drop_last() =~= outcomes@.take(i as int));
        assert(outcomes@.take(i + 1).last() == outcomes@[i as int]);
        if outcomes[i].status == CorridorReplyStatus::Escape {
            out.push(outcomes[i].mv);
        }
        i += 1;
    }
    assert(outcomes@.take(outcomes.len() as int) =~= outcomes@);
    out
}

fn unknown_causes_of(outcomes: &[CorridorReplyOutcome]) -> (r: Vec<ProofLimitCause>)
    ensures
        r@ == unknown_outcome_causes(outcomes@),
{
    let mut out: Vec<ProofLimitCause> = Vec::new();
    let mut i: usize = 0;
    while i < outcomes.len()
        invariant
            i <= outcomes.len(),
            out@ == unknown_outcome_causes(outcomes@.take(i as int)),
        decreases outcomes.len() - i,
    {
        assert(outcomes@.take(i + 1).drop_last() =~= outcomes@.take(i as int));
        assert(outcomes@.take(i + 1).last() == outcomes@[i as int]);
        if outcomes[i].status == CorridorReplyStatus::Unknown {
            extend_limit_causes(&mut out, outcomes[i].proof.limit_causes.as_slice());
        }
        i += 1;
    }
    assert(outcomes@.take(outcomes.len() as int) =~= outcomes@);
    out
}

fn head_then_branch(
    head: ThreatSequenceEvidence,
    outcomes: &[CorridorReplyOutcome],
    status: CorridorReplyStatus,
) -> (r: Vec<ThreatSequenceEvidence>)
    ensures
        r@.len() >= 1,
        r@[0] == head,
        branch_evidence_follows(r@, outcomes@, status),
{
    let branch = first_corridor_branch_evidence(outcomes, status);
    let r = evidence_then(head, &branch);
    proof {
        match first_branch_index(outcomes@, status) {
            Some(i) => {
                assert forall|k: int| 0 <= k < outcomes@[i].proof.threat_evidence@.len() implies evidence_same(
                    #[trigger] r@[1 + k], outcomes@[i].proof.threat_evidence@[k]) by {
                    assert(evidence_same(r@[1 + k], branch@[k]));
                    assert(evidence_same(branch@[k], outcomes@[i].proof.threat_evidence@[k]));
                }
            },
            None => {},
        }
    }
    r
}

/// The verdict of a corridor defender node, from the threat, the evidence
/// attribution, and its replies' classified outcomes in the order tried.
pub fn corridor_defender_verdict(
    threat: &ThreatReplySet,
    attribution: EvidenceAttribution,
    outcomes: &[CorridorReplyOutcome],
) -> (r: NodeFindings)
    ensures
        corridor_defender_agrees(*threat, attribution, outcomes@, r),
{
    if threat.winning_squares.len() > 0 && threat.legal_cost_squares.len() == 0
        && threat.defender_immediate_wins.len() == 0 {
        let w = threat.winning_squares[0];
        let mut line: Vec<Move> = Vec::new();
        line.push(w);
        assert(line@ =~= seq![w]);
        let e = make_evidence(threat, attribution, ReplyClassification::NoLegalBlock, Vec::new(),
            Vec::new(), Some(w), ProofStatus::ForcedWin, Vec::new());
        let mut evidence: Vec<ThreatSequenceEvidence> = Vec::new();
        evidence.push(e);
        return NodeFindings {
            status: ProofStatus::ForcedWin,
            principal_line: line,
            escape_moves: Vec::new(),
            evidence,
            limit_causes: Vec::new(),
        };
    }
    if outcomes.len() == 0 {
        let mut causes: Vec<ProofLimitCause> = Vec::new();
        causes.push(ProofLimitCause::ModelScopeUnknown);
        assert(causes@ =~= seq![ProofLimitCause::ModelScopeUnknown]);
        return NodeFindings {
            status: ProofStatus::Unknown,
            principal_line: Vec::new(),
            escape_moves: Vec::new(),
            evidence: Vec::new(),
            limit_causes: causes,
        };
    }
    let escapes = escape_moves_of(outcomes);
    if escapes.len() > 0 {
        let escapes2 = copy_moves(escapes.as_slice());
        let head = make_evidence(threat, attribution, ReplyClassification::Escaped, escapes2,
            forced_corridor_replies(outcomes), None, ProofStatus::EscapeFound, Vec::new());
        let evidence = head_then_branch(head, outcomes, CorridorReplyStatus::Escape);
        return NodeFindings {
            status: ProofStatus::EscapeFound,
            principal_line: Vec::new(),
            escape_moves: escapes,
            evidence,
            limit_causes: Vec::new(),
        };
    }
    let mut causes = unknown_causes_of(outcomes);
    let line = first_forced_principal_line(outcomes);
    let next = next_forcing(&line);
    if causes.len() > 0 {
        let mut added: Vec<ProofLimitCause> = Vec::new();
        added.push(ProofLimitCause::DefenderReplyUnknown);
        assert(added@ =~= seq![ProofLimitCause::DefenderReplyUnknown]);
        extend_limit_causes(&mut causes, added.as_slice());
        let mut own: Vec<ProofLimitCause> = Vec::new();
        own.push(ProofLimitCause::DefenderReplyUnknown);
        assert(own@ =~= seq![ProofLimitCause::DefenderReplyUnknown]);
        let head = make_evidence(threat, attribution, ReplyClassification::Unknown, Vec::new(),
            forced_corridor_replies(outcomes), next, ProofStatus::Unknown, own);
        let evidence = head_then_branch(head, outcomes, CorridorReplyStatus::Unknown);
        NodeFindings {
            status: ProofStatus::Unknown,
            principal_line: line,
            escape_moves: Vec::new(),
            evidence,
            limit_causes: causes,
        }
    } else {
        let head = make_evidence(threat, attribution, ReplyClassification::BlockedButForced, Vec::new(),
            forced_corridor_replies(outcomes), next, ProofStatus::ForcedWin, Vec::new());
        let evidence = head_then_branch(head, outcomes, CorridorReplyStatus::Forced);
        NodeFindings {
            status: ProofStatus::ForcedWin,
            principal_line: line,
            escape_moves: Vec::new(),
            evidence,
            limit_causes: Vec::new(),
        }
    }
}

/// The verdict of the attacker's turn inside a replayed corridor: an
/// immediate win is forced; with no further actual move, or one that does
/// not continue the corridor, the attacker has escaped its duty (an
/// escape); an actual move that cannot be played leaves it unknown;
/// otherwise the proof `child` after the actual move decides: a forced win
/// along the actual move (its causes carried), an escape by the child's
/// escapes, or unknown with the child's causes plus `AttackerChildUnknown`.
/// The child's evidence is carried in each of those three cases.
pub open spec fn corridor_attacker_agrees(
    immediate_win: Option<Move>,
    actual: Option<Move>,
    is_corridor_move: bool,
    applied: bool,
    child: ProofResult,
    r: NodeFindings,
) -> bool {
    let carries = r.evidence@.len() == child.threat_evidence@.len() && forall|k: int|
        0 <= k < child.threat_evidence@.len() ==> evidence_same(#[trigger] r.evidence@[k], child.threat_evidence@[k]);
    if immediate_win is Some {
        &&& r.status == ProofStatus::ForcedWin
        &&& r.principal_line@ == seq![immediate_win->0]
        &&& r.escape_moves@.len() == 0 && r.evidence@.len() == 0 && r.limit_causes@.len() == 0
    } else if actual is None || !is_corridor_move {
        &&& r.status == ProofStatus::EscapeFound
        &&& r.principal_line@.len() == 0
        &&& r.escape_moves@.len() == 0 && r.evidence@.len() == 0 && r.limit_causes@.len() == 0
    } else if !applied {
        &&& r.status == ProofStatus::Unknown
        &&& r.principal_line@.len() == 0
        &&& r.escape_moves@.len() == 0 && r.evidence@.len() == 0 && r.limit_causes@.len() == 0
    } else if child.status == ProofStatus::ForcedWin {
        &&& r.status == ProofStatus::ForcedWin
        &&& r.principal_line@ == seq![actual->0] + child.principal_line@
        &&& r.escape_moves@.len() == 0
        &&& carries
        &&& r.limit_causes@ == child.limit_causes@
    } else if child.status == ProofStatus::EscapeFound {
        &&& r.status == ProofStatus::EscapeFound
        &&& r.principal_line@.len() == 0
        &&& r.escape_moves@ == child.escape_moves@
        &&& carries
        &&& r.limit_causes@.len() == 0
    } else {
        &&& r.status == ProofStatus::Unknown
        &&& r.principal_line@ == seq![actual->0]
        &&& r.escape_moves@.len() == 0
        &&& carries
        &&& r.limit_causes@ == sorted_causes(append_missing(child.limit_causes@,
            seq![ProofLimitCause::AttackerChildUnknown]))
    }
}

fn copy_all_evidence(v: &Vec<ThreatSequenceEvidence>) -> (r: Vec<ThreatSequenceEvidence>)
    ensures
        r@.len() == v@.len(),
        forall|k: int| 0 <= k < v@.len() ==> evidence_same(#[trigger] r@[k], v@[k]),
{
    let mut out: Vec<ThreatSequenceEvidence> = Vec::new();
    let mut k: usize = 0;
    while k < v.len()
        invariant
            k <= v.len(),
            out@.len() == k,
            forall|j: int| 0 <= j < k ==> evidence_same(#[trigger] out@[j], v@[j]),
        decreases v.len() - k,
    {
        let e = copy_evidence(&v[k]);
        out.push(e);
        k += 1;
    }
    out
}

/// The verdict of the attacker's turn inside a replayed corridor, from the
/// attacker's first immediate win, the next actual move, whether it
/// continues the corridor and could be played, and the proof after it
/// (read only when the actual move continues the corridor and was played).
pub fn corridor_attacker_verdict(
    immediate_win: Option<Move>,
    actual: Option<Move>,
    is_corridor_move: bool,
    applied: bool,
    child: &ProofResult,
) -> (r: NodeFindings)
    ensures
        corridor_attacker_agrees(immediate_win, actual, is_corridor_move, applied, *child, r),
{
    let empty = NodeFindings {
        status: ProofStatus::EscapeFound,
        principal_line: Vec::new(),
        escape_moves: Vec::new(),
        evidence: Vec::new(),
        limit_causes: Vec::new(),
    };
    match immediate_win {
        Some(w) => {
            let mut line: Vec<Move> = Vec::new();
            line.push(w);
            assert(line@ =~= seq![w]);
            return NodeFindings { status: ProofStatus::ForcedWin, principal_line: line, ..empty };
        },
        None => {},
    }
    let mv = match actual {
        None => {
            return empty;
        },
        Some(m) => m,
    };
    if !is_corridor_move {
        return empty;
    }
    if !applied {
        return NodeFindings { status: ProofStatus::Unknown, ..empty };
    }
    let evidence = copy_all_evidence(&child.threat_evidence);
    if child.status == ProofStatus::ForcedWin {
        NodeFindings {
            status: ProofStatus::ForcedWin,
            principal_line: copy_line(mv, &child.principal_line),
            escape_moves: Vec::new(),
            evidence,
            limit_causes: copy_causes(child.limit_causes.as_slice()),
        }
    } else if child.status == ProofStatus::EscapeFound {
        NodeFindings {
            status: ProofStatus::EscapeFound,
            principal_line: Vec::new(),
            escape_moves: copy_moves(child.escape_moves.as_slice()),
            evidence,
            limit_causes: Vec::new(),
        }
    } else {
        let mut causes = copy_causes(child.limit_causes.as_slice());
        let mut added: Vec<ProofLimitCause> = Vec::new();
        added.push(ProofLimitCause::AttackerChildUnknown);
        assert(added@ =~= seq![ProofLimitCause::AttackerChildUnknown]);
        extend_limit_causes(&mut causes, added.as_slice());
        let mut line: Vec<Move> = Vec::new();
        line.push(mv);
        assert(line@ =~= seq![mv]);
        NodeFindings {
            status: ProofStatus::Unknown,
            principal_line: line,
            escape_moves: Vec::new(),
            evidence,
            limit_causes: causes,
        }
    }
}

// ---------------------------------------------------------------------
// Reply outcomes for reports
// ---------------------------------------------------------------------

/// What a defender reply leads to in a report, with the line that shows it
/// and the limits met.
#[derive(Debug, Clone, PartialEq, Eq)]
pub struct DefenderReplyProof {
    pub outcome: DefenderReplyOutcome,
    pub principal_line: Vec<Move>,
    pub limit_causes: Vec<ProofLimitCause>,
}

/// What one attacker move of a report corridor came to: it was passed over
/// (not playable, the game ended otherwise, or the defender still wins at
/// once), it won the game for the attacker, or the narrow corridor below
/// it was probed with this result.
#[derive(Debug, Clone, PartialEq, Eq)]
pub enum ReportStep {
    Skipped,
    AttackerWins,
    Probed(DefenderReplyProof),
}

/// An attacker move of a report corridor and what it came to.
#[derive(Debug, Clone, PartialEq, Eq)]
pub struct ReportChild {
    pub mv: Move,
    pub step: ReportStep,
}

/// The child ends the scan: it wins, or its probe is a loss for the
/// defender.
pub open spec fn report_decisive(c: ReportChild) -> bool {
    match c.step {
        ReportStep::AttackerWins => true,
        ReportStep::Probed(p) => p.outcome == DefenderReplyOutcome::ForcedLoss || p.outcome
            == DefenderReplyOutcome::ImmediateLoss,
        ReportStep::Skipped => false,
    }
}

/// The scan of a report corridor's moves: the first decisive move, whether
/// a probe was unknown, and the unknown probes' causes gathered in order.
pub open spec fn report_scan(cs: Seq<ReportChild>) -> (Option<int>, bool, Seq<ProofLimitCause>)
    decreases cs.len(),
{
    if cs.len() == 0 {
        (None, false, Seq::empty())
    } else {
        let st = report_scan(cs.drop_last());
        if st.0 is Some {
            st
        } else if report_decisive(cs.last()) {
            (Some(cs.len() - 1), st.1, st.2)
        } else {
            match cs.last().step {
                ReportStep::Probed(p) => if p.outcome == DefenderReplyOutcome::Unknown {
                    (None, true, sorted_causes(append_missing(st.2, p.limit_causes@)))
                } else {
                    st
                },
                _ => st,
            }
        }
    }
}

/// The outcome of a defender reply from the corridor the attacker then
/// plays: out of corridor budget it is unknown (forced-extension cutoff);
/// when the attacker is not to move in a running game the defender escaped;
/// an immediate win of the attacker is a forced loss; otherwise the first
/// decisive attacker move is a forced loss along it (carrying its probe's
/// causes), and without one the reply is unknown if some probe was unknown,
/// with their causes, and an escape otherwise.
pub open spec fn report_verdict_spec(
    remaining: usize,
    attacker_turn_open: bool,
    immediate_win: Option<Move>,
    cs: Seq<ReportChild>,
) -> (DefenderReplyOutcome, Seq<Move>, Seq<ProofLimitCause>) {
    if remaining == 0 {
        (DefenderReplyOutcome::Unknown, Seq::empty(), seq![ProofLimitCause::ForcedExtensionCutoff])
    } else if !attacker_turn_open {
        (DefenderReplyOutcome::Escape, Seq::empty(), Seq::empty())
    } else if immediate_win is Some {
        (DefenderReplyOutcome::ForcedLoss, seq![immediate_win->0], Seq::empty())
    } else {
        let st = report_scan(cs);
        match st.0 {
            Some(i) => match cs[i].step {
                ReportStep::Probed(p) => (DefenderReplyOutcome::ForcedLoss, seq![cs[i].mv] + p.principal_line@,
                    p.limit_causes@),
                _ => (DefenderReplyOutcome::ForcedLoss, seq![cs[i].mv], Seq::empty()),
            },
            None => if st.1 {
                (DefenderReplyOutcome::Unknown, Seq::empty(), st.2)
            } else {
                (DefenderReplyOutcome::Escape, Seq::empty(), Seq::empty())
            },
        }
    }
}

proof fn lemma_report_scan_frozen(cs: Seq<ReportChild>, n: int)
    requires
        0 <= n <= cs.len(),
        report_scan(cs.take(n)).0 is Some,
    ensures
        report_scan(cs) == report_scan(cs.take(n)),
    decreases cs.len() - n,
{
    if n < cs.len() {
        assert(cs.take(n + 1).drop_last() =~= cs.take(n));
        lemma_report_scan_frozen(cs, n + 1);
    } else {
        assert(cs.take(n) =~= cs);
    }
}

/// Decides what a defender reply leads to, from the corridor budget left,
/// whether the attacker is to move in a running game, the attacker's first
/// immediate win, and what each attacker corridor move came to. The
/// counter-threat answers of a report are decided the same way, with the
/// turn open and no immediate win.
pub fn corridor_report_verdict(
    remaining: usize,
    attacker_turn_open: bool,
    immediate_win: Option<Move>,
    children: &[ReportChild],
) -> (r: DefenderReplyProof)
    ensures
        (r.outcome, r.principal_line@, r.limit_causes@) == report_verdict_spec(
            remaining,
            attacker_turn_open,
            immediate_win,
            children@,
        ),
{
    if remaining == 0 {
        let mut causes: Vec<ProofLimitCause> = Vec::new();
        causes.push(ProofLimitCause::ForcedExtensionCutoff);
        assert(causes@ =~= seq![ProofLimitCause::ForcedExtensionCutoff]);
        return DefenderReplyProof {
            outcome: DefenderReplyOutcome::Unknown,
            principal_line: Vec::new(),
            limit_causes: causes,
        };
    }
    if !attacker_turn_open {
        return DefenderReplyProof {
            outcome: DefenderReplyOutcome::Escape,
            principal_line: Vec::new(),
            limit_causes: Vec::new(),
        };
    }
    match immediate_win {
        Some(w) => {
            let mut line: Vec<Move> = Vec::new();
            line.push(w);
            assert(line@ =~= seq![w]);
            return DefenderReplyProof {
                outcome: DefenderReplyOutcome::ForcedLoss,
                principal_line: line,
                limit_causes: Vec::new(),
            };
        },
        None => {},
    }
    let mut saw_unknown = false;
    let mut causes: Vec<ProofLimitCause> = Vec::new();
    let mut i: usize = 0;
    while i < children.len()
        invariant
            i <= children.len(),
            remaining != 0,
            attacker_turn_open,
            immediate_win is None,
            report_scan(children@.take(i as int)) == (None::<int>, saw_unknown, causes@),
        decreases children.len() - i,
    {
        assert(children@.take(i + 1).drop_last() =~= children@.take(i as int));
        assert(children@.take(i + 1).last() == children@[i as int]);
        let c = &children[i];
        match &c.step {
            ReportStep::Skipped => {},
            ReportStep::AttackerWins => {
                proof {
                    lemma_report_scan_frozen(children@, i + 1);
                }
                let mut line: Vec<Move> = Vec::new();
                line.push(c.mv);
                assert(line@ =~= seq![c.mv]);
                return DefenderReplyProof {
                    outcome: DefenderReplyOutcome::ForcedLoss,
                    principal_line: line,
                    limit_causes: Vec::new(),
                };
            },
            ReportStep::Probed(p) => {
                match p.outcome {
                    DefenderReplyOutcome::ForcedLoss | DefenderReplyOutcome::ImmediateLoss => {
                        assert(children@[i as int].step == ReportStep::Probed(*p));
                        proof {
                            lemma_report_scan_frozen(children@, i + 1);
                        }
                        return DefenderReplyProof {
                            outcome: DefenderReplyOutcome::ForcedLoss,
                            principal_line: copy_line(c.mv, &p.principal_line),
                            limit_causes: copy_causes(p.limit_causes.as_slice()),
                        };
                    },
                    DefenderReplyOutcome::Escape => {},
                    DefenderReplyOutcome::Unknown => {
                        saw_unknown = true;
                        extend_limit_causes(&mut causes, p.limit_causes.as_slice());
                    },
                }
            },
        }
        i += 1;
    }
    assert(children@.take(children.len() as int) =~= children@);
    if saw_unknown {
        DefenderReplyProof { outcome: DefenderReplyOutcome::Unknown, principal_line: Vec::new(), limit_causes: causes }
    } else {
        DefenderReplyProof {
            outcome: DefenderReplyOutcome::Escape,
            principal_line: Vec::new(),
            limit_causes: Vec::new(),
        }
    }
}

proof fn lemma_no_escape_moves(outs: Seq<CorridorReplyOutcome>)
    ensures
        escape_moves_spec(outs).len() == 0 ==> forall|i: int|
            0 <= i < outs.len() ==> (#[trigger] outs[i]).status != CorridorReplyStatus::Escape,
    decreases outs.len(),
{
    if outs.len() > 0 {
        lemma_no_escape_moves(outs.drop_last());
        if escape_moves_spec(outs).len() == 0 {
            assert forall|i: int| 0 <= i < outs.len() implies (#[trigger] outs[i]).status
                != CorridorReplyStatus::Escape by {
                if i < outs.len() - 1 {
                    assert(outs.drop_last()[i] == outs[i]);
                }
            }
        }
    }
}

/// Law: a corridor defender node is a forced win only when no reply
/// escapes, unless the defender had no legal block at all.
pub proof fn law_corridor_forced_win_has_no_escape(
    t: ThreatReplySet,
    att: EvidenceAttribution,
    outs: Seq<CorridorReplyOutcome>,
    r: NodeFindings,
)
    requires
        corridor_defender_agrees(t, att, outs, r),
        r.status == ProofStatus::ForcedWin,
    ensures
        (t.winning_squares@.len() > 0 && t.legal_cost_squares@.len() == 0
            && t.defender_immediate_wins@.len() == 0) || forall|i: int|
            0 <= i < outs.len() ==> (#[trigger] outs[i]).status != CorridorReplyStatus::Escape,
{
    lemma_no_escape_moves(outs);
}

} // verus!

verus! {

/// Law: a corridor reply's status follows what happened after it. A reply
/// that cannot be played is unknown; a finished game is forced exactly when
/// the attacker won, and an escape otherwise; in a game that goes on, an
/// immediate attacker win makes it forced, and without one the status
/// mirrors the forced-extension proof: a forced win gives forced, an escape
/// gives escape, and an unknown proof or none gives unknown.
pub proof fn law_corridor_reply_follows_the_outcome(
    applied: bool,
    result: GameResult,
    attacker: Color,
    immediate_win: Option<Move>,
    extension: Option<ProofStatus>,
)
    ensures
        ({
            let r = corridor_reply_spec(applied, result, attacker, immediate_win, extension);
            &&& !applied ==> r == CorridorReplyStatus::Unknown
            &&& applied && result == GameResult::Winner(attacker) ==> r == CorridorReplyStatus::Forced
            &&& applied && result != GameResult::Ongoing && result != GameResult::Winner(attacker)
                ==> r == CorridorReplyStatus::Escape
            &&& applied && result == GameResult::Ongoing && immediate_win is Some ==> r
                == CorridorReplyStatus::Forced
            &&& applied && result == GameResult::Ongoing && immediate_win is None ==> {
                &&& (r == CorridorReplyStatus::Forced <==> extension == Some(ProofStatus::ForcedWin))
                &&& (r == CorridorReplyStatus::Escape <==> extension == Some(ProofStatus::EscapeFound))
                &&& (r == CorridorReplyStatus::Unknown <==> (extension is None || extension == Some(
                    ProofStatus::Unknown,
                )))
            }
        }),
{
}

} // verus!
