//! Curated analysis fixtures: the options a fixture overrides, how its
//! expected outcome is compared with the actual one, and the short labels
//! and tables a fixture report shows.
use vstd::prelude::*;
use crate::analysis::{
    AnalysisModel, AnalysisOptions, DefensePolicy, ForcedInterval, ProofStatus, RootCause,
    TacticalNote,
};
use crate::board::{notation_spec, Color, Move};
use crate::html::{
    escape, escape_spec, option_debug, option_debug_spec, option_variant_debug, option_variant_text,
    DebugText,
};
use crate::text::{decimal, join_spec, join_strings, strings_view, usize_to_string};

verus! {

/// What a fixture overrides of the base analysis options.
#[derive(Debug, Clone, Copy, PartialEq, Eq, Structural)]
pub struct AnalysisFixtureOptions {
    pub max_depth: Option<usize>,
    pub max_forced_extensions: Option<usize>,
    pub defense_policy: Option<DefensePolicy>,
    pub max_backward_window: Option<usize>,
}

impl Default for AnalysisFixtureOptions {
    /// Overrides nothing.
    fn default() -> (r: Self)
        ensures
            r.max_depth is None,
            r.max_forced_extensions is None,
            r.defense_policy is None,
            r.max_backward_window is None,
    {
        AnalysisFixtureOptions {
            max_depth: None,
            max_forced_extensions: None,
            defense_policy: None,
            max_backward_window: None,
        }
    }
}

/// The options of a fixture: each override where the fixture sets one,
/// else the base value; the backward window falls back to the base's.
pub open spec fn fixture_options_spec(base: AnalysisOptions, f: AnalysisFixtureOptions) -> AnalysisOptions {
    AnalysisOptions {
        defense_policy: match f.defense_policy {
            Some(p) => p,
            None => base.defense_policy,
        },
        max_depth: match f.max_depth {
            Some(d) => d,
            None => base.max_depth,
        },
        max_forced_extensions: match f.max_forced_extensions {
            Some(n) => n,
            None => base.max_forced_extensions,
        },
        max_backward_window: match f.max_backward_window {
            Some(w) => Some(w),
            None => base.max_backward_window,
        },
    }
}

/// The analysis options a fixture runs with.
pub fn fixture_options(base_options: &AnalysisOptions, overrides: &AnalysisFixtureOptions) -> (r:
    AnalysisOptions)
    ensures
        r == fixture_options_spec(*base_options, *overrides),
{
    AnalysisOptions {
        defense_policy: match overrides.defense_policy {
            Some(p) => p,
            None => base_options.defense_policy,
        },
        max_depth: match overrides.max_depth {
            Some(d) => d,
            None => base_options.max_depth,
        },
        max_forced_extensions: match overrides.max_forced_extensions {
            Some(n) => n,
            None => base_options.max_forced_extensions,
        },
        max_backward_window: match overrides.max_backward_window {
            Some(w) => Some(w),
            None => base_options.max_backward_window,
        },
    }
}

/// What a fixture expects of its analysis.
#[derive(Debug, Clone, PartialEq, Eq)]
pub struct AnalysisFixtureExpectationReport {
    pub winner: Option<Color>,
    pub root_cause: RootCause,
    pub final_forced_interval: ForcedInterval,
    pub last_chance_ply: Option<usize>,
    pub critical_mistake_ply: Option<usize>,
    pub tactical_notes: Vec<TacticalNote>,
    pub required_unknown_gaps: Vec<usize>,
}

/// What the analysis of a fixture found.
#[derive(Debug, Clone, PartialEq, Eq)]
pub struct AnalysisFixtureActualReport {
    pub winner: Option<Color>,
    pub root_cause: RootCause,
    pub final_forced_interval: ForcedInterval,
    pub last_chance_ply: Option<usize>,
    pub critical_mistake_ply: Option<usize>,
    pub tactical_notes: Vec<TacticalNote>,
    pub unknown_gaps: Vec<usize>,
    pub model: AnalysisModel,
}

/// What a curated fixture expects of the analysis of its replay.
#[derive(Debug, Clone, Copy)]
pub struct AnalysisFixtureExpected {
    pub winner: Option<Color>,
    pub root_cause: RootCause,
    pub final_forced_interval: ForcedInterval,
    pub last_chance_ply: Option<usize>,
    pub critical_mistake_ply: Option<usize>,
    pub tactical_notes: &'static [TacticalNote],
    pub required_unknown_gaps: &'static [usize],
}

fn notes_vec(v: &[TacticalNote]) -> (r: Vec<TacticalNote>)
    ensures
        r@ == v@,
{
    let mut r: Vec<TacticalNote> = Vec::new();
    let mut k: usize = 0;
    while k < v.len()
        invariant
            k <= v.len(),
            r@ == v@.take(k as int),
        decreases v.len() - k,
    {
        r.push(v[k]);
        assert(v@.take(k + 1) =~= v@.take(k as int).push(v@[k as int]));
        k += 1;
    }
    assert(v@.take(v.len() as int) =~= v@);
    r
}

fn usize_vec(v: &[usize]) -> (r: Vec<usize>)
    ensures
        r@ == v@,
{
    let mut r: Vec<usize> = Vec::new();
    let mut k: usize = 0;
    while k < v.len()
        invariant
            k <= v.len(),
            r@ == v@.take(k as int),
        decreases v.len() - k,
    {
        r.push(v[k]);
        assert(v@.take(k + 1) =~= v@.take(k as int).push(v@[k as int]));
        k += 1;
    }
    assert(v@.take(v.len() as int) =~= v@);
    r
}

/// The expectation of a fixture in report form.
pub fn expectation_report(expected: &AnalysisFixtureExpected) -> (r: AnalysisFixtureExpectationReport)
    ensures
        r.winner == expected.winner,
        r.root_cause == expected.root_cause,
        r.final_forced_interval == expected.final_forced_interval,
        r.last_chance_ply == expected.last_chance_ply,
        r.critical_mistake_ply == expected.critical_mistake_ply,
        r.tactical_notes@ == expected.tactical_notes@,
        r.required_unknown_gaps@ == expected.required_unknown_gaps@,
{
    AnalysisFixtureExpectationReport {
        winner: expected.winner,
        root_cause: expected.root_cause,
        final_forced_interval: expected.final_forced_interval,
        last_chance_ply: expected.last_chance_ply,
        critical_mistake_ply: expected.critical_mistake_ply,
        tactical_notes: notes_vec(expected.tactical_notes),
        required_unknown_gaps: usize_vec(expected.required_unknown_gaps),
    }
}

/// One proof of a fixture's replay, as the report lists it.
#[derive(Debug, Clone, PartialEq, Eq)]
pub struct AnalysisFixtureProofRow {
    pub ply: usize,
    pub side_to_move: Color,
    pub status: ProofStatus,
    pub principal_line: Vec<Move>,
    pub escape_moves: Vec<Move>,
}

/// The outcome of one fixture: what was expected, what was found, the
/// differences, and the proofs along the replay.
#[derive(Debug, Clone, PartialEq, Eq)]
pub struct AnalysisFixtureResult {
    pub case_id: String,
    pub description: String,
    pub passed: bool,
    pub variant: String,
    pub moves: Vec<String>,
    pub expected: AnalysisFixtureExpectationReport,
    pub actual: AnalysisFixtureActualReport,
    pub failures: Vec<String>,
    pub proof_rows: Vec<AnalysisFixtureProofRow>,
}

/// The outcomes of all fixtures with their counts.
#[derive(Debug, Clone, PartialEq, Eq)]
pub struct AnalysisFixtureReport {
    pub schema_version: u32,
    pub fixture_count: usize,
    pub total: usize,
    pub passed: usize,
    pub failed: usize,
    pub base_model: AnalysisModel,
    pub results: Vec<AnalysisFixtureResult>,
}

impl DebugText for ForcedInterval {
    open spec fn debug_view(&self) -> Seq<char> {
        "ForcedInterval { start_ply: "@ + decimal(self.start_ply as nat) + ", end_ply: "@ + decimal(
            self.end_ply as nat,
        ) + " }"@
    }

    fn debug_text(&self) -> (r: String) {
        let mut s = String::from_str("ForcedInterval { start_ply: ");
        let a = usize_to_string(self.start_ply);
        s.append(a.as_str());
        s.append(", end_ply: ");
        let b = usize_to_string(self.end_ply);
        s.append(b.as_str());
        s.append(" }");
        s
    }
}

/// `[a, b, c]`, the `{:?}` form of a list whose items read as `items`.
pub open spec fn list_debug_spec(items: Seq<Seq<char>>) -> Seq<char> {
    "["@ + join_spec(items, ", "@) + "]"@
}

/// The `{:?}` texts of the notes.
pub open spec fn note_texts(notes: Seq<TacticalNote>) -> Seq<Seq<char>> {
    Seq::new(notes.len(), |i: int| notes[i].debug_view())
}

/// The decimal texts of the values.
pub open spec fn usize_texts(values: Seq<usize>) -> Seq<Seq<char>> {
    Seq::new(values.len(), |i: int| decimal(values[i] as nat))
}

fn note_strings(notes: &[TacticalNote]) -> (r: Vec<String>)
    ensures
        strings_view(r@) == note_texts(notes@),
{
    let mut out: Vec<String> = Vec::new();
    let mut i: usize = 0;
    while i < notes.len()
        invariant
            i <= notes.len(),
            strings_view(out@) == note_texts(notes@.take(i as int)),
        decreases notes.len() - i,
    {
        let ghost before = out@;
        assert(strings_view(before).len() == i);
        let t = notes[i].debug_text();
        out.push(t);
        assert forall|j: int| 0 <= j < i + 1 implies #[trigger] strings_view(out@)[j] == note_texts(
            notes@.take(i + 1),
        )[j] by {
            if j < i {
                assert(out@[j] == before[j]);
                assert(strings_view(before)[j] == before[j]@);
            }
        }
        assert(strings_view(out@) =~= note_texts(notes@.take(i + 1)));
        i += 1;
    }
    assert(notes@.take(notes.len() as int) =~= notes@);
    out
}

fn usize_strings(values: &[usize]) -> (r: Vec<String>)
    ensures
        strings_view(r@) == usize_texts(values@),
{
    let mut out: Vec<String> = Vec::new();
    let mut i: usize = 0;
    while i < values.len()
        invariant
            i <= values.len(),
            strings_view(out@) == usize_texts(values@.take(i as int)),
        decreases values.len() - i,
    {
        let ghost before = out@;
        assert(strings_view(before).len() == i);
        let t = usize_to_string(values[i]);
        out.push(t);
        assert forall|j: int| 0 <= j < i + 1 implies #[trigger] strings_view(out@)[j]
            == usize_texts(values@.take(i + 1))[j] by {
            if j < i {
                assert(out@[j] == before[j]);
                assert(strings_view(before)[j] == before[j]@);
            }
        }
        assert(strings_view(out@) =~= usize_texts(values@.take(i + 1)));
        i += 1;
    }
    assert(values@.take(values.len() as int) =~= values@);
    out
}

fn list_debug(items: &Vec<String>) -> (r: String)
    ensures
        r@ == list_debug_spec(strings_view(items@)),
{
    let mut s = String::from_str("[");
    let body = join_strings(items, ", ");
    s.append(body.as_str());
    s.append("]");
    s
}

/// A failure line for each required unknown gap the analysis did not
/// report.
pub open spec fn gap_failures(required: Seq<usize>, actual: Seq<usize>) -> Seq<Seq<char>>
    decreases required.len(),
{
    if required.len() == 0 {
        Seq::empty()
    } else {
        let prev = gap_failures(required.drop_last(), actual);
        if actual.contains(required.last()) {
            prev
        } else {
            prev.push(
                "unknown_gaps expected to contain "@ + decimal(required.last() as nat) + ", got "@
                    + list_debug_spec(usize_texts(actual)),
            )
        }
    }
}

/// `field expected <e>, got <a>` when the two texts' values differ.
pub open spec fn mismatch(differs: bool, field: Seq<char>, e: Seq<char>, a: Seq<char>) -> Seq<Seq<char>> {
    if differs {
        seq![field + " expected "@ + e + ", got "@ + a]
    } else {
        Seq::empty()
    }
}

/// Every way the actual analysis differs from the fixture's expectation,
/// in a fixed order of fields, then the missing unknown gaps.
pub open spec fn fixture_failures_spec(e: AnalysisFixtureExpectationReport, a: AnalysisFixtureActualReport) -> Seq<Seq<char>> {
    mismatch(
        a.winner != e.winner,
        "winner"@,
        option_variant_text(e.winner),
        option_variant_text(a.winner),
    ) + mismatch(
        a.root_cause != e.root_cause,
        "root_cause"@,
        e.root_cause.debug_view(),
        a.root_cause.debug_view(),
    ) + mismatch(
        a.final_forced_interval != e.final_forced_interval,
        "final_forced_interval"@,
        e.final_forced_interval.debug_view(),
        a.final_forced_interval.debug_view(),
    ) + mismatch(
        a.last_chance_ply != e.last_chance_ply,
        "last_chance_ply"@,
        option_variant_text(e.last_chance_ply),
        option_variant_text(a.last_chance_ply),
    ) + mismatch(
        a.critical_mistake_ply != e.critical_mistake_ply,
        "critical_mistake_ply"@,
        option_variant_text(e.critical_mistake_ply),
        option_variant_text(a.critical_mistake_ply),
    ) + mismatch(
        a.tactical_notes@ != e.tactical_notes@,
        "tactical_notes"@,
        list_debug_spec(note_texts(e.tactical_notes@)),
        list_debug_spec(note_texts(a.tactical_notes@)),
    ) + gap_failures(e.required_unknown_gaps@, a.unknown_gaps@)
}

fn push_mismatch(
    out: &mut Vec<String>,
    differs: bool,
    field: &str,
    e: String,
    a: String,
)
    ensures
        strings_view(final(out)@) == strings_view(old(out)@) + mismatch(differs, field@, e@, a@),
{
    let ghost before = out@;
    if differs {
        let mut s = String::from_str(field);
        s.append(" expected ");
        s.append(e.as_str());
        s.append(", got ");
        s.append(a.as_str());
        out.push(s);
        assert(out@[before.len() as int] == s);
        assert forall|j: int| 0 <= j < before.len() implies #[trigger] strings_view(out@)[j]
            == strings_view(before)[j] by {
            assert(out@[j] == before[j]);
        }
    }
    assert(strings_view(out@) =~= strings_view(before) + mismatch(differs, field@, e@, a@));
}

fn opt_usize_eq(x: Option<usize>, y: Option<usize>) -> (r: bool)
    ensures
        r == (x == y),
{
    match (x, y) {
        (Some(a), Some(b)) => a == b,
        (None, None) => true,
        _ => false,
    }
}

fn notes_eq(x: &Vec<TacticalNote>, y: &Vec<TacticalNote>) -> (r: bool)
    ensures
        r == (x@ == y@),
{
    if x.len() != y.len() {
        return false;
    }
    let mut i: usize = 0;
    while i < x.len()
        invariant
            i <= x.len(),
            x.len() == y.len(),
            forall|j: int| 0 <= j < i ==> x@[j] == y@[j],
        decreases x.len() - i,
    {
        if x[i] != y[i] {
            return false;
        }
        i += 1;
    }
    assert(x@ =~= y@);
    true
}

fn contains_usize(v: &Vec<usize>, x: usize) -> (r: bool)
    ensures
        r == v@.contains(x),
{
    let mut i: usize = 0;
    while i < v.len()
        invariant
            i <= v.len(),
            forall|j: int| 0 <= j < i ==> v@[j] != x,
        decreases v.len() - i,
    {
        if v[i] == x {
            assert(v@[i as int] == x);
            return true;
        }
        i += 1;
    }
    false
}

/// The ways the actual analysis of a fixture differs from what it expects.
pub fn fixture_failures(
    expected: &AnalysisFixtureExpectationReport,
    actual: &AnalysisFixtureActualReport,
) -> (r: Vec<String>)
    ensures
        strings_view(r@) == fixture_failures_spec(*expected, *actual),
{
    let mut failures: Vec<String> = Vec::new();
    let winner_differs = match (actual.winner, expected.winner) {
        (Some(x), Some(y)) => x != y,
        (None, None) => false,
        _ => true,
    };
    push_mismatch(
        &mut failures,
        winner_differs,
        "winner",
        option_variant_debug(&expected.winner),
        option_variant_debug(&actual.winner),
    );
    push_mismatch(
        &mut failures,
        actual.root_cause != expected.root_cause,
        "root_cause",
        expected.root_cause.debug_text(),
        actual.root_cause.debug_text(),
    );
    let fi_differs = actual.final_forced_interval.start_ply
        != expected.final_forced_interval.start_ply || actual.final_forced_interval.end_ply
        != expected.final_forced_interval.end_ply;
    push_mismatch(
        &mut failures,
        fi_differs,
        "final_forced_interval",
        expected.final_forced_interval.debug_text(),
        actual.final_forced_interval.debug_text(),
    );
    push_mismatch(
        &mut failures,
        !opt_usize_eq(actual.last_chance_ply, expected.last_chance_ply),
        "last_chance_ply",
        option_variant_debug(&expected.last_chance_ply),
        option_variant_debug(&actual.last_chance_ply),
    );
    push_mismatch(
        &mut failures,
        !opt_usize_eq(actual.critical_mistake_ply, expected.critical_mistake_ply),
        "critical_mistake_ply",
        option_variant_debug(&expected.critical_mistake_ply),
        option_variant_debug(&actual.critical_mistake_ply),
    );
    let en = note_strings(expected.tactical_notes.as_slice());
    let an = note_strings(actual.tactical_notes.as_slice());
    push_mismatch(
        &mut failures,
        !notes_eq(&actual.tactical_notes, &expected.tactical_notes),
        "tactical_notes",
        list_debug(&en),
        list_debug(&an),
    );
    let ghost head = strings_view(failures@);
    let gaps_text = list_debug(&usize_strings(actual.unknown_gaps.as_slice()));
    let req = &expected.required_unknown_gaps;
    let mut i: usize = 0;
    while i < req.len()
        invariant
            i <= req.len(),
            gaps_text@ == list_debug_spec(usize_texts(actual.unknown_gaps@)),
            strings_view(failures@) == head + gap_failures(req@.take(i as int), actual.unknown_gaps@),
        decreases req.len() - i,
    {
        assert(req@.take(i + 1).drop_last() =~= req@.take(i as int));
        let gap = req[i];
        if !contains_usize(&actual.unknown_gaps, gap) {
            let ghost before = failures@;
            let mut s = String::from_str("unknown_gaps expected to contain ");
            let g = usize_to_string(gap);
            s.append(g.as_str());
            s.append(", got ");
            s.append(gaps_text.as_str());
            failures.push(s);
            assert(failures@[before.len() as int] == s);
            assert forall|j: int| 0 <= j < before.len() implies #[trigger] strings_view(failures@)[j]
                == strings_view(before)[j] by {
                assert(failures@[j] == before[j]);
            }
            assert(strings_view(failures@) =~= strings_view(before).push(s@));
        }
        i += 1;
    }
    assert(req@.take(req.len() as int) =~= req@);
    failures
}

/// A number, or `-` for none.
pub open spec fn option_usize_spec(value: Option<usize>) -> Seq<char> {
    match value {
        Some(v) => decimal(v as nat),
        None => "-"@,
    }
}

/// The number, or `-` when there is none.
pub fn option_usize(value: Option<usize>) -> (r: String)
    ensures
        r@ == option_usize_spec(value),
{
    match value {
        Some(v) => usize_to_string(v),
        None => String::from_str("-"),
    }
}

/// `start..end` of a forced interval.
pub open spec fn interval_label_spec(interval: ForcedInterval) -> Seq<char> {
    decimal(interval.start_ply as nat) + ".."@ + decimal(interval.end_ply as nat)
}

/// The forced interval as `start..end`.
pub fn interval_label(interval: &ForcedInterval) -> (r: String)
    ensures
        r@ == interval_label_spec(*interval),
{
    let mut s = usize_to_string(interval.start_ply);
    s.append("..");
    let e = usize_to_string(interval.end_ply);
    s.append(e.as_str());
    s
}

/// `-` for no items, else the items joined by `sep`.
pub open spec fn dash_or_join(items: Seq<Seq<char>>, sep: Seq<char>) -> Seq<char> {
    if items.len() == 0 {
        "-"@
    } else {
        join_spec(items, sep)
    }
}

/// The notes by name, comma separated, or `-`.
pub fn notes_label(notes: &[TacticalNote]) -> (r: String)
    ensures
        r@ == dash_or_join(note_texts(notes@), ", "@),
{
    if notes.len() == 0 {
        return String::from_str("-");
    }
    let v = note_strings(notes);
    join_strings(&v, ", ")
}

/// The numbers, comma separated, or `-`.
pub fn usize_list_label(values: &[usize]) -> (r: String)
    ensures
        r@ == dash_or_join(usize_texts(values@), ", "@),
{
    if values.len() == 0 {
        return String::from_str("-");
    }
    let v = usize_strings(values);
    join_strings(&v, ", ")
}

/// The notations of the moves.
pub open spec fn move_texts(moves: Seq<Move>) -> Seq<Seq<char>> {
    Seq::new(moves.len(), |i: int| notation_spec(moves[i]))
}

/// The moves in notation, space separated, or `-`.
pub fn moves_label(moves: &[Move]) -> (r: String)
    requires
        forall|i: int| 0 <= i < moves.len() ==> (#[trigger] moves@[i]).col < 26 && moves@[i].row < usize::MAX,
    ensures
        r@ == dash_or_join(move_texts(moves@), " "@),
{
    if moves.len() == 0 {
        return String::from_str("-");
    }
    let mut out: Vec<String> = Vec::new();
    let mut i: usize = 0;
    while i < moves.len()
        invariant
            i <= moves.len(),
            forall|j: int| 0 <= j < moves.len() ==> (#[trigger] moves@[j]).col < 26 && moves@[j].row < usize::MAX,
            strings_view(out@) == move_texts(moves@.take(i as int)),
        decreases moves.len() - i,
    {
        let ghost before = out@;
        assert(strings_view(before).len() == i);
        let t = moves[i].to_notation();
        out.push(t);
        assert forall|j: int| 0 <= j < i + 1 implies #[trigger] strings_view(out@)[j]
            == move_texts(moves@.take(i + 1))[j] by {
            if j < i {
                assert(out@[j] == before[j]);
                assert(strings_view(before)[j] == before[j]@);
            }
        }
        assert(strings_view(out@) =~= move_texts(moves@.take(i + 1)));
        i += 1;
    }
    assert(moves@.take(moves.len() as int) =~= moves@);
    join_strings(&out, " ")
}

/// One escaped table row per key and value.
pub open spec fn table_rows_spec(rows: Seq<(Seq<char>, Seq<char>)>) -> Seq<char>
    decreases rows.len(),
{
    if rows.len() == 0 {
        Seq::empty()
    } else {
        table_rows_spec(rows.drop_last()) + "<tr><th>"@ + escape_spec(rows.last().0)
            + "</th><td>"@ + escape_spec(rows.last().1) + "</td></tr>"@
    }
}

/// The rows by their characters.
pub open spec fn rows_view(rows: Seq<(&str, String)>) -> Seq<(Seq<char>, Seq<char>)> {
    Seq::new(rows.len(), |i: int| (rows[i].0@, rows[i].1@))
}

/// A two-column HTML table of keys and values, both escaped.
pub fn key_value_table(rows: &[(&str, String)]) -> (r: String)
    ensures
        r@ == "<table><tbody>"@ + table_rows_spec(rows_view(rows@)) + "</tbody></table>"@,
{
    let mut body = String::new();
    let mut i: usize = 0;
    while i < rows.len()
        invariant
            i <= rows.len(),
            body@ == table_rows_spec(rows_view(rows@).take(i as int)),
        decreases rows.len() - i,
    {
        assert(rows_view(rows@).take(i + 1).drop_last() =~= rows_view(rows@).take(i as int));
        let (key, value) = &rows[i];
        body.append("<tr><th>");
        let k = escape(key);
        body.append(k.as_str());
        body.append("</th><td>");
        let v = escape(value.as_str());
        body.append(v.as_str());
        body.append("</td></tr>");
        i += 1;
    }
    assert(rows_view(rows@).take(rows.len() as int) =~= rows_view(rows@));
    let mut s = String::from_str("<table><tbody>");
    s.append(body.as_str());
    s.append("</tbody></table>");
    s
}

/// The rows a fixture table shows for one outcome: winner, root cause,
/// forced interval, last chance, critical mistake, notes and unknown gaps.
pub open spec fn outcome_rows(
    winner: Option<Color>,
    root: RootCause,
    interval: ForcedInterval,
    last_chance: Option<usize>,
    critical: Option<usize>,
    notes: Seq<TacticalNote>,
    gaps: Seq<usize>,
) -> Seq<(Seq<char>, Seq<char>)> {
    seq![
        ("Winner"@, option_debug_spec(winner)),
        ("Root"@, root.debug_view()),
        ("Forced"@, interval_label_spec(interval)),
        ("Last Chance"@, option_usize_spec(last_chance)),
        ("Critical"@, option_usize_spec(critical)),
        ("Notes"@, dash_or_join(note_texts(notes), ", "@)),
        ("Unknown Gaps"@, dash_or_join(usize_texts(gaps), ", "@)),
    ]
}

/// The table of one outcome.
fn outcome_table(
    winner: Option<Color>,
    root: RootCause,
    interval: &ForcedInterval,
    last_chance: Option<usize>,
    critical: Option<usize>,
    notes: &[TacticalNote],
    gaps: &[usize],
) -> (r: String)
    ensures
        r@ == "<table><tbody>"@ + table_rows_spec(
            outcome_rows(winner, root, *interval, last_chance, critical, notes@, gaps@),
        ) + "</tbody></table>"@,
{
    let mut rows: Vec<(&str, String)> = Vec::new();
    rows.push(("Winner", option_debug(winner)));
    rows.push(("Root", root.debug_text()));
    rows.push(("Forced", interval_label(interval)));
    rows.push(("Last Chance", option_usize(last_chance)));
    rows.push(("Critical", option_usize(critical)));
    rows.push(("Notes", notes_label(notes)));
    rows.push(("Unknown Gaps", usize_list_label(gaps)));
    assert(rows_view(rows@) =~= outcome_rows(winner, root, *interval, last_chance, critical, notes@, gaps@));
    key_value_table(rows.as_slice())
}

/// The table of an expected outcome.
pub open spec fn expectation_table_spec(expected: AnalysisFixtureExpectationReport) -> Seq<char> {
    "<table><tbody>"@ + table_rows_spec(
        outcome_rows(
            expected.winner,
            expected.root_cause,
            expected.final_forced_interval,
            expected.last_chance_ply,
            expected.critical_mistake_ply,
            expected.tactical_notes@,
            expected.required_unknown_gaps@,
        ),
    ) + "</tbody></table>"@
}

/// The table of an actual outcome.
pub open spec fn actual_table_spec(actual: AnalysisFixtureActualReport) -> Seq<char> {
    "<table><tbody>"@ + table_rows_spec(
        outcome_rows(
            actual.winner,
            actual.root_cause,
            actual.final_forced_interval,
            actual.last_chance_ply,
            actual.critical_mistake_ply,
            actual.tactical_notes@,
            actual.unknown_gaps@,
        ),
    ) + "</tbody></table>"@
}

/// The table of what a fixture expects.
pub fn expectation_table(expected: &AnalysisFixtureExpectationReport) -> (r: String)
    ensures
        r@ == expectation_table_spec(*expected),
{
    outcome_table(
        expected.winner,
        expected.root_cause,
        &expected.final_forced_interval,
        expected.last_chance_ply,
        expected.critical_mistake_ply,
        expected.tactical_notes.as_slice(),
        expected.required_unknown_gaps.as_slice(),
    )
}

/// The table of what the analysis of a fixture found.
pub fn actual_table(actual: &AnalysisFixtureActualReport) -> (r: String)
    ensures
        r@ == actual_table_spec(*actual),
{
    outcome_table(
        actual.winner,
        actual.root_cause,
        &actual.final_forced_interval,
        actual.last_chance_ply,
        actual.critical_mistake_ply,
        actual.tactical_notes.as_slice(),
        actual.unknown_gaps.as_slice(),
    )
}

} // verus!
