//! Which entrants and games of a tournament report get replayed for
//! analysis, and the labels those replays carry.
use vstd::prelude::*;
use crate::analysis_report::{
    select_report_matches, selection_matches, selection_spec, ReportReplayMatch,
    ReportReplaySelection, ReportReplaySource,
};
use crate::text::{
    concat3, decimal, pad_left, push_chars, replace_char, replace_char_spec, strings_view,
    usize_to_padded_string, chars_of, str_eq,
};

verus! {

/// How the games to replay are chosen.
#[derive(Debug, Clone, Copy, PartialEq, Eq, Structural)]
pub enum CliReportReplaySelector {
    HeadToHead,
    PresetTriangle,
}

/// The selector's display label.
pub open spec fn replay_selector_label_spec(s: CliReportReplaySelector) -> Seq<char> {
    match s {
        CliReportReplaySelector::HeadToHead => "Head-to-head"@,
        CliReportReplaySelector::PresetTriangle => "Preset triangle"@,
    }
}

impl CliReportReplaySelector {
    /// `Head-to-head` or `Preset triangle`.
    pub fn label(self) -> (r: &'static str)
        ensures
            r@ == replay_selector_label_spec(self),
    {
        match self {
            CliReportReplaySelector::HeadToHead => "Head-to-head",
            CliReportReplaySelector::PresetTriangle => "Preset triangle",
        }
    }
}

/// A string option by its characters.
pub open spec fn opt_string_view(o: Option<String>) -> Option<Seq<char>> {
    match o {
        Some(s) => Some(s@),
        None => None,
    }
}

/// The first standing that is not `entrant`.
pub open spec fn first_different(standings: Seq<Seq<char>>, entrant: Seq<char>) -> Option<Seq<char>>
    decreases standings.len(),
{
    if standings.len() == 0 {
        None
    } else if standings[0] != entrant {
        Some(standings[0])
    } else {
        first_different(standings.drop_first(), entrant)
    }
}

/// The best-placed bot of the standings other than `entrant`, if any.
pub fn highest_different_standing(standing_bots: &[String], entrant: &str) -> (r: Option<String>)
    ensures
        opt_string_view(r) == first_different(strings_view(standing_bots@), entrant@),
{
    let ghost all = strings_view(standing_bots@);
    let mut k: usize = 0;
    assert(all.skip(0) =~= all);
    while k < standing_bots.len()
        invariant
            k <= standing_bots.len(),
            all == strings_view(standing_bots@),
            first_different(all, entrant@) == first_different(all.skip(k as int), entrant@),
        decreases standing_bots.len() - k,
    {
        assert(all.skip(k as int).drop_first() =~= all.skip(k + 1));
        assert(all.skip(k as int)[0] == standing_bots@[k as int]@);
        if !str_eq(standing_bots[k].as_str(), entrant) {
            return Some(standing_bots[k].clone());
        }
        k += 1;
    }
    None
}

/// The two entrants to replay: both given (and different), one given and
/// the other the best-placed different standing, or the top two standings.
pub open spec fn resolve_entrants_spec(
    standings: Seq<Seq<char>>,
    a: Option<Seq<char>>,
    b: Option<Seq<char>>,
) -> Result<(Seq<char>, Seq<char>), Seq<char>> {
    match (a, b) {
        (Some(x), Some(y)) => if x == y {
            Err("report replay entrants must be different"@)
        } else {
            Ok((x, y))
        },
        (Some(x), None) => match first_different(standings, x) {
            Some(y) => Ok((x, y)),
            None => Err("Tournament report has no standing different from "@ + x + "."@),
        },
        (None, Some(y)) => match first_different(standings, y) {
            Some(x) => Ok((x, y)),
            None => Err("Tournament report has no standing different from "@ + y + "."@),
        },
        (None, None) => if standings.len() == 0 {
            Err("Tournament report has no standing #1."@)
        } else {
            match first_different(standings, standings[0]) {
                Some(y) => Ok((standings[0], y)),
                None => Err("Tournament report has no standing #2."@),
            }
        },
    }
}

/// Picks the two entrants whose games are replayed.
pub fn resolve_report_replay_entrants(
    standing_bots: &[String],
    entrant_a: Option<String>,
    entrant_b: Option<String>,
) -> (r: Result<(String, String), String>)
    ensures
        match r {
            Ok((x, y)) => resolve_entrants_spec(
                strings_view(standing_bots@),
                opt_string_view(entrant_a),
                opt_string_view(entrant_b),
            ) == Ok::<(Seq<char>, Seq<char>), Seq<char>>((x@, y@)),
            Err(e) => resolve_entrants_spec(
                strings_view(standing_bots@),
                opt_string_view(entrant_a),
                opt_string_view(entrant_b),
            ) == Err::<(Seq<char>, Seq<char>), Seq<char>>(e@),
        },
{
    match (entrant_a, entrant_b) {
        (Some(a), Some(b)) => {
            if str_eq(a.as_str(), b.as_str()) {
                Err(String::from_str("report replay entrants must be different"))
            } else {
                Ok((a, b))
            }
        },
        (Some(a), None) => match highest_different_standing(standing_bots, a.as_str()) {
            Some(b) => Ok((a, b)),
            None => Err(concat3(
                "Tournament report has no standing different from ",
                a.as_str(),
                ".",
            )),
        },
        (None, Some(b)) => match highest_different_standing(standing_bots, b.as_str()) {
            Some(a) => Ok((a, b)),
            None => Err(concat3(
                "Tournament report has no standing different from ",
                b.as_str(),
                ".",
            )),
        },
        (None, None) => {
            if standing_bots.len() == 0 {
                return Err(String::from_str("Tournament report has no standing #1."));
            }
            let a = standing_bots[0].clone();
            assert(strings_view(standing_bots@)[0] == a@);
            match highest_different_standing(standing_bots, a.as_str()) {
                Some(b) => Ok((a, b)),
                None => Err(String::from_str("Tournament report has no standing #2.")),
            }
        },
    }
}

proof fn lemma_first_different_differs(standings: Seq<Seq<char>>, entrant: Seq<char>)
    ensures
        first_different(standings, entrant) matches Some(y) ==> y != entrant,
    decreases standings.len(),
{
    if standings.len() > 0 {
        lemma_first_different_differs(standings.drop_first(), entrant);
    }
}

/// Whatever way they are chosen, the two resolved entrants are never the
/// same bot, so a replay never pits a bot against itself.
pub proof fn law_resolved_entrants_differ(
    standings: Seq<Seq<char>>,
    a: Option<Seq<char>>,
    b: Option<Seq<char>>,
)
    requires
        resolve_entrants_spec(standings, a, b) is Ok,
    ensures
        resolve_entrants_spec(standings, a, b)->Ok_0.0 != resolve_entrants_spec(
            standings,
            a,
            b,
        )->Ok_0.1,
{
    match (a, b) {
        (Some(x), None) => lemma_first_different_differs(standings, x),
        (None, Some(y)) => lemma_first_different_differs(standings, y),
        (None, None) => lemma_first_different_differs(standings, standings[0]),
        _ => {},
    }
}

/// `Top 2 entrants` for the default selection, else `a vs b`.
pub open spec fn selector_label_spec(a: Seq<char>, b: Seq<char>, default_top_two: bool) -> Seq<char> {
    if default_top_two {
        "Top 2 entrants"@
    } else {
        a + " vs "@ + b
    }
}

/// The label of the replayed pairing.
pub fn report_replay_selector_label(entrant_a: &str, entrant_b: &str, default_top_two: bool) -> (r:
    String)
    ensures
        r@ == selector_label_spec(entrant_a@, entrant_b@, default_top_two),
{
    if default_top_two {
        String::from_str("Top 2 entrants")
    } else {
        concat3(entrant_a, " vs ", entrant_b)
    }
}

/// The source label of a replay run: the report's path as displayed, a
/// colon, and the selector label.
pub fn report_replay_source_label(
    report: &str,
    entrant_a: &str,
    entrant_b: &str,
    default_top_two: bool,
) -> (r: String)
    ensures
        r@ == report@ + ":"@ + selector_label_spec(entrant_a@, entrant_b@, default_top_two),
{
    let sel = report_replay_selector_label(entrant_a, entrant_b, default_top_two);
    concat3(report, ":", sel.as_str())
}

/// `name` with each `+` turned into `_`.
pub open spec fn plus_free(name: Seq<char>) -> Seq<char> {
    replace_char_spec(name, '+', seq!['_'])
}

/// `match_NNNN__black__vs__white`, the match index zero-padded to four
/// digits and `+` in bot names turned into `_`.
pub open spec fn input_label_spec(m: ReportReplayMatch) -> Seq<char> {
    "match_"@ + pad_left(decimal(m.match_index as nat), 4, '0') + "__"@ + plus_free(m.black@)
        + "__vs__"@ + plus_free(m.white@)
}

/// The label under which a replayed game is analysed.
pub fn report_replay_input_label(match_report: &ReportReplayMatch) -> (r: String)
    ensures
        r@ == input_label_spec(*match_report),
{
    let underscore: [char; 1] = ['_'];
    let mut r = String::from_str("match_");
    let idx = usize_to_padded_string(match_report.match_index, 4);
    r.append(idx.as_str());
    r.append("__");
    let black = chars_of(match_report.black.as_str());
    let b = replace_char(black.as_slice(), '+', underscore.as_slice());
    push_chars(&mut r, b.as_slice());
    r.append("__vs__");
    let white = chars_of(match_report.white.as_str());
    let w = replace_char(white.as_slice(), '+', underscore.as_slice());
    push_chars(&mut r, w.as_slice());
    assert(underscore@ =~= seq!['_']);
    r
}

/// A pairing to replay: its label, its two entrants and the chosen games.
#[derive(Debug, Clone)]
pub struct ReportReplaySectionPlan<'a> {
    pub label: String,
    pub entrant_a: String,
    pub entrant_b: String,
    pub selections: Vec<ReportReplaySelection<'a>>,
}

/// What a section plan holds: label, entrants and the indices of its games.
pub type PlanSpec = (Seq<char>, Seq<char>, Seq<char>, Seq<int>);

/// A section of every head-to-head game between `a` and `b`.
pub open spec fn full_section_spec(all: Seq<ReportReplayMatch>, label: Seq<char>, a: Seq<char>, b: Seq<char>) -> Result<
    PlanSpec,
    Seq<char>,
> {
    match selection_spec(all, a, b, usize::MAX as int) {
        Ok(ids) => Ok((label, a, b, ids)),
        Err(e) => Err(e),
    }
}

/// The bot of the easy preset.
pub open spec fn preset_easy() -> Seq<char> {
    "search-d1"@
}

/// The bot of the normal preset.
pub open spec fn preset_normal() -> Seq<char> {
    "search-d3+pattern-eval"@
}

/// The bot of the hard preset.
pub open spec fn preset_hard() -> Seq<char> {
    "search-d7+tactical-cap-8+pattern-eval+corridor-proof-c16-d8-w4"@
}

/// The sections to replay for a selector: one head-to-head pairing (sampled
/// to `count` games), or every game of each pairing of the three presets.
pub open spec fn section_plans_spec(
    all: Seq<ReportReplayMatch>,
    standings: Seq<Seq<char>>,
    selector: CliReportReplaySelector,
    a: Option<Seq<char>>,
    b: Option<Seq<char>>,
    count: int,
) -> Result<Seq<PlanSpec>, Seq<char>> {
    match selector {
        CliReportReplaySelector::HeadToHead => match resolve_entrants_spec(standings, a, b) {
            Err(e) => Err(e),
            Ok((x, y)) => match selection_spec(all, x, y, count) {
                Ok(ids) => Ok(seq![(x + " vs "@ + y, x, y, ids)]),
                Err(e) => Err(e),
            },
        },
        CliReportReplaySelector::PresetTriangle => if a is Some || b is Some {
            Err("preset-triangle selector does not accept --entrant-a or --entrant-b"@)
        } else {
            let s1 = full_section_spec(all, "Easy vs Normal"@, preset_easy(), preset_normal());
            let s2 = full_section_spec(all, "Easy vs Hard"@, preset_easy(), preset_hard());
            let s3 = full_section_spec(all, "Normal vs Hard"@, preset_normal(), preset_hard());
            if s1 is Err {
                Err(s1->Err_0)
            } else if s2 is Err {
                Err(s2->Err_0)
            } else if s3 is Err {
                Err(s3->Err_0)
            } else {
                Ok(seq![s1->Ok_0, s2->Ok_0, s3->Ok_0])
            }
        },
    }
}

/// The plan holds what `spec` says.
pub open spec fn plan_agrees<'a>(all: Seq<ReportReplayMatch>, plan: ReportReplaySectionPlan<'a>, spec: PlanSpec) -> bool {
    &&& plan.label@ == spec.0
    &&& plan.entrant_a@ == spec.1
    &&& plan.entrant_b@ == spec.2
    &&& selection_matches(all, plan.selections@, spec.3)
}

/// Each plan holds what its spec says.
pub open spec fn plans_agree<'a>(all: Seq<ReportReplayMatch>, plans: Seq<ReportReplaySectionPlan<'a>>, spec: Seq<PlanSpec>) -> bool {
    plans.len() == spec.len() && forall|k: int|
        0 <= k < plans.len() ==> plan_agrees(all, #[trigger] plans[k], spec[k])
}

fn full_section<'a>(report: &'a ReportReplaySource, label: &str, a: &str, b: &str) -> (r: Result<
    ReportReplaySectionPlan<'a>,
    String,
>)
    ensures
        match r {
            Ok(p) => full_section_spec(report.matches@, label@, a@, b@) is Ok && plan_agrees(
                report.matches@,
                p,
                full_section_spec(report.matches@, label@, a@, b@)->Ok_0,
            ),
            Err(e) => full_section_spec(report.matches@, label@, a@, b@) == Err::<PlanSpec, Seq<char>>(
                e@,
            ),
        },
{
    match select_report_matches(report, a, b, usize::MAX) {
        Ok(selections) => Ok(
            ReportReplaySectionPlan {
                label: String::from_str(label),
                entrant_a: String::from_str(a),
                entrant_b: String::from_str(b),
                selections,
            },
        ),
        Err(e) => Err(e),
    }
}

/// The sections to replay for a selector: the head-to-head pairing of two
/// entrants, sampled to `sample_size` games, or every game of each pairing
/// of the easy, normal and hard presets.
pub fn report_replay_section_plans<'a>(
    report_source: &'a ReportReplaySource,
    selector: CliReportReplaySelector,
    entrant_a: Option<String>,
    entrant_b: Option<String>,
    sample_size: usize,
) -> (r: Result<Vec<ReportReplaySectionPlan<'a>>, String>)
    ensures
        match r {
            Ok(plans) => section_plans_spec(
                report_source.matches@,
                strings_view(report_source.standings@),
                selector,
                opt_string_view(entrant_a),
                opt_string_view(entrant_b),
                sample_size as int,
            ) is Ok && plans_agree(
                report_source.matches@,
                plans@,
                section_plans_spec(
                    report_source.matches@,
                    strings_view(report_source.standings@),
                    selector,
                    opt_string_view(entrant_a),
                    opt_string_view(entrant_b),
                    sample_size as int,
                )->Ok_0,
            ),
            Err(e) => section_plans_spec(
                report_source.matches@,
                strings_view(report_source.standings@),
                selector,
                opt_string_view(entrant_a),
                opt_string_view(entrant_b),
                sample_size as int,
            ) == Err::<Seq<PlanSpec>, Seq<char>>(e@),
        },
{
    match selector {
        CliReportReplaySelector::HeadToHead => {
            let (a, b) = match resolve_report_replay_entrants(
                report_source.standings.as_slice(),
                entrant_a,
                entrant_b,
            ) {
                Ok(pair) => pair,
                Err(e) => return Err(e),
            };
            let selections = match select_report_matches(
                report_source,
                a.as_str(),
                b.as_str(),
                sample_size,
            ) {
                Ok(v) => v,
                Err(e) => return Err(e),
            };
            let label = concat3(a.as_str(), " vs ", b.as_str());
            let mut plans: Vec<ReportReplaySectionPlan<'a>> = Vec::new();
            plans.push(ReportReplaySectionPlan { label, entrant_a: a, entrant_b: b, selections });
            Ok(plans)
        },
        CliReportReplaySelector::PresetTriangle => {
            if entrant_a.is_some() || entrant_b.is_some() {
                return Err(
                    String::from_str(
                        "preset-triangle selector does not accept --entrant-a or --entrant-b",
                    ),
                );
            }
            let s1 = match full_section(
                report_source,
                "Easy vs Normal",
                "search-d1",
                "search-d3+pattern-eval",
            ) {
                Ok(p) => p,
                Err(e) => return Err(e),
            };
            let s2 = match full_section(
                report_source,
                "Easy vs Hard",
                "search-d1",
                "search-d7+tactical-cap-8+pattern-eval+corridor-proof-c16-d8-w4",
            ) {
                Ok(p) => p,
                Err(e) => return Err(e),
            };
            let s3 = match full_section(
                report_source,
                "Normal vs Hard",
                "search-d3+pattern-eval",
                "search-d7+tactical-cap-8+pattern-eval+corridor-proof-c16-d8-w4",
            ) {
                Ok(p) => p,
                Err(e) => return Err(e),
            };
            let mut plans: Vec<ReportReplaySectionPlan<'a>> = Vec::new();
            plans.push(s1);
            plans.push(s2);
            plans.push(s3);
            Ok(plans)
        },
    }
}

} // verus!
