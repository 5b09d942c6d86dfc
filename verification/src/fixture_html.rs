//! The HTML page of the analysis fixture report: one card per fixture with
//! its expected and actual outcome and its proof rows, under a summary.
use vstd::prelude::*;
use crate::analysis::AnalysisModel;
use crate::fixture::{
    actual_table, actual_table_spec, dash_or_join, expectation_table, expectation_table_spec,
    move_texts, moves_label, AnalysisFixtureProofRow, AnalysisFixtureReport, AnalysisFixtureResult,
};
use crate::html::{escape, escape_spec, option_variant_debug, option_variant_text, DebugText};
use crate::text::{decimal, join_spec, join_strings, strings_view, usize_to_string};

verus! {

/// The page up to the first summary value: document head, style sheet and
/// the page header.
pub const FIXTURE_PAGE_HEAD: &'static str = r#"<!doctype html>
<html lang="en">
<head>
<meta charset="utf-8">
<meta name="viewport" content="width=device-width, initial-scale=1">
<title>Gomoku2D Analysis Fixture Report</title>
<style>
:root {
  color-scheme: dark;
  --bg: #1e1e1e;
  --surface: #2a2a2a;
  --card: #232323;
  --border: #575756;
  --text: #f5f5f5;
  --muted: #a6a6a0;
  --accent: #fccb57;
  --green: #5ad17a;
  --red: #ff6b6b;
  --teal: #5fc7c2;
}
* { box-sizing: border-box; }
body {
  margin: 0;
  background: var(--bg);
  color: var(--text);
  font: 16px/1.45 ui-monospace, SFMono-Regular, Menlo, Consolas, monospace;
}
main {
  display: grid;
  gap: 20px;
  margin: 0 auto;
  max-width: 1120px;
  padding: 28px;
}
h1, h2, h3, p { margin: 0; }
a { color: inherit; }
.hero, .case, .summary-card {
  background: var(--surface);
  border: 2px solid var(--border);
  display: grid;
  gap: 14px;
  padding: 18px;
}
.top-links { display: flex; flex-wrap: wrap; gap: 8px; }
.top-links a {
  background: var(--card);
  border: 2px solid var(--border);
  padding: 8px 12px;
  text-decoration: none;
  text-transform: uppercase;
}
.top-links a:hover { border-color: var(--teal); }
.eyebrow {
  color: var(--accent);
  font-size: 12px;
  letter-spacing: .16em;
  text-transform: uppercase;
}
h1 { font-size: clamp(32px, 6vw, 56px); line-height: 1; }
.lede { color: var(--muted); max-width: 76ch; }
.summary-grid {
  display: grid;
  gap: 12px;
  grid-template-columns: repeat(auto-fit, minmax(170px, 1fr));
}
.summary-card span {
  color: var(--muted);
  font-size: 12px;
  letter-spacing: .1em;
  text-transform: uppercase;
}
.summary-card strong { color: var(--green); font-size: 1.35rem; }
.case { border-color: var(--border); }
.case.fail { border-color: var(--red); }
.case-head {
  align-items: start;
  display: grid;
  gap: 12px;
  grid-template-columns: auto 1fr auto;
}
.badge {
  border: 2px solid var(--border);
  color: var(--muted);
  padding: 4px 8px;
  text-transform: uppercase;
}
.badge.pass { border-color: var(--green); color: var(--green); }
.badge.fail { border-color: var(--red); color: var(--red); }
.case-id { color: var(--accent); font-size: 1.1rem; }
.desc { color: var(--muted); }
.meta-grid, .compare-grid {
  display: grid;
  gap: 10px;
  grid-template-columns: repeat(auto-fit, minmax(210px, 1fr));
}
.kv {
  background: var(--card);
  border: 1px solid var(--border);
  padding: 12px;
}
.kv span {
  color: var(--muted);
  display: block;
  font-size: 12px;
  letter-spacing: .08em;
  text-transform: uppercase;
}
.kv strong { color: var(--text); word-break: break-word; }
.compare { display: grid; gap: 8px; }
.compare h3 { color: var(--accent); font-size: 1rem; }
table { border-collapse: collapse; width: 100%; }
th, td {
  border-bottom: 1px solid var(--border);
  padding: 8px 10px;
  text-align: left;
  vertical-align: top;
}
th {
  color: var(--muted);
  font-size: 12px;
  letter-spacing: .08em;
  text-transform: uppercase;
}
code, .moves { color: var(--accent); }
.failures {
  color: var(--red);
  display: grid;
  gap: 6px;
}
@media (max-width: 720px) {
  main { padding: 18px; }
  .case-head { grid-template-columns: 1fr; }
  table { display: block; overflow-x: auto; }
}
</style>
</head>
<body>
<main>
<header class="hero">
  <nav class="top-links"><a href="/">Outputs</a></nav>
  <p class="eyebrow">Gomoku2D Bot Lab</p>
  <h1>Analysis Fixture Report</h1>
  <p class="lede">Curated replay fixtures for validating bounded replay analysis and narrow forced-chain search.</p>
</header>
<section class="summary-grid">
  <article class="summary-card"><span>Result</span><strong>"#;

/// Every square of the moves has a notation.
pub open spec fn moves_printable(moves: Seq<crate::board::Move>) -> bool {
    forall|i: int| 0 <= i < moves.len() ==> (#[trigger] moves[i]).col < 26 && moves[i].row < usize::MAX
}

/// Every square a proof row names has a notation.
pub open spec fn row_printable(row: AnalysisFixtureProofRow) -> bool {
    moves_printable(row.principal_line@) && moves_printable(row.escape_moves@)
}

/// One row of the proof table: ply, side, status, and the escaped
/// principal line and escapes.
pub open spec fn proof_row_spec(row: AnalysisFixtureProofRow) -> Seq<char> {
    "<tr><td>"@ + decimal(row.ply as nat) + "</td><td>"@ + row.side_to_move.debug_view()
        + "</td><td>"@ + row.status.debug_view() + "</td><td>"@ + escape_spec(
        dash_or_join(move_texts(row.principal_line@), " "@),
    ) + "</td><td>"@ + escape_spec(dash_or_join(move_texts(row.escape_moves@), " "@))
        + "</td></tr>"@
}

/// The rows of the proof table, one after another.
pub open spec fn proof_rows_spec(rows: Seq<AnalysisFixtureProofRow>) -> Seq<char>
    decreases rows.len(),
{
    if rows.len() == 0 {
        Seq::empty()
    } else {
        proof_rows_spec(rows.drop_last()) + proof_row_spec(rows.last())
    }
}

/// One row of the proof table.
pub fn proof_row_html(row: &AnalysisFixtureProofRow) -> (r: String)
    requires
        row_printable(*row),
    ensures
        r@ == proof_row_spec(*row),
{
    let mut s = String::from_str("<tr><td>");
    let ply = usize_to_string(row.ply);
    s.append(ply.as_str());
    s.append("</td><td>");
    let side = row.side_to_move.debug_text();
    s.append(side.as_str());
    s.append("</td><td>");
    let status = row.status.debug_text();
    s.append(status.as_str());
    s.append("</td><td>");
    let principal = moves_label(row.principal_line.as_slice());
    let principal = escape(principal.as_str());
    s.append(principal.as_str());
    s.append("</td><td>");
    let escapes = moves_label(row.escape_moves.as_slice());
    let escapes = escape(escapes.as_str());
    s.append(escapes.as_str());
    s.append("</td></tr>");
    s
}

/// The rows of the proof table.
pub fn proof_rows_html(rows: &[AnalysisFixtureProofRow]) -> (r: String)
    requires
        forall|i: int| 0 <= i < rows.len() ==> row_printable(#[trigger] rows@[i]),
    ensures
        r@ == proof_rows_spec(rows@),
{
    let mut s = String::new();
    let mut i: usize = 0;
    while i < rows.len()
        invariant
            i <= rows.len(),
            forall|j: int| 0 <= j < rows.len() ==> row_printable(#[trigger] rows@[j]),
            s@ == proof_rows_spec(rows@.take(i as int)),
        decreases rows.len() - i,
    {
        assert(rows@.take(i + 1).drop_last() =~= rows@.take(i as int));
        assert(rows@.take(i + 1).last() == rows@[i as int]);
        assert(row_printable(rows@[i as int]));
        let row = proof_row_html(&rows[i]);
        s.append(row.as_str());
        i += 1;
    }
    assert(rows@.take(rows.len() as int) =~= rows@);
    s
}

/// The failures as escaped paragraphs.
pub open spec fn failure_paragraphs(failures: Seq<Seq<char>>) -> Seq<char>
    decreases failures.len(),
{
    if failures.len() == 0 {
        Seq::empty()
    } else {
        failure_paragraphs(failures.drop_last()) + "<p>"@ + escape_spec(failures.last()) + "</p>"@
    }
}

/// The failures block: nothing when the fixture passed its checks, else
/// the failures as paragraphs in a `failures` box.
pub open spec fn failures_block_spec(failures: Seq<Seq<char>>) -> Seq<char> {
    if failures.len() == 0 {
        Seq::empty()
    } else {
        "<div class=\"failures\">"@ + failure_paragraphs(failures) + "</div>"@
    }
}

/// The failures block of a fixture card.
pub fn failures_block(failures: &Vec<String>) -> (r: String)
    ensures
        r@ == failures_block_spec(strings_view(failures@)),
{
    if failures.len() == 0 {
        return String::new();
    }
    let mut body = String::new();
    let mut i: usize = 0;
    while i < failures.len()
        invariant
            i <= failures.len(),
            body@ == failure_paragraphs(strings_view(failures@).take(i as int)),
        decreases failures.len() - i,
    {
        assert(strings_view(failures@).take(i + 1).drop_last() =~= strings_view(failures@).take(
            i as int,
        ));
        assert(strings_view(failures@).take(i + 1).last() == failures@[i as int]@);
        body.append("<p>");
        let e = escape(failures[i].as_str());
        body.append(e.as_str());
        body.append("</p>");
        i += 1;
    }
    assert(strings_view(failures@).take(failures.len() as int) =~= strings_view(failures@));
    let mut s = String::from_str("<div class=\"failures\">");
    s.append(body.as_str());
    s.append("</div>");
    s
}

/// The model line of a card: defense policy, depth, forced extensions and
/// backward window.
pub open spec fn model_text_spec(m: AnalysisModel) -> Seq<char> {
    m.defense_policy.debug_view() + ", depth "@ + decimal(m.max_depth as nat)
        + ", forced extensions "@ + decimal(m.max_forced_extensions as nat) + ", window "@
        + option_variant_text(m.max_backward_window)
}

/// The model line of a card.
pub fn model_text(m: &AnalysisModel) -> (r: String)
    ensures
        r@ == model_text_spec(*m),
{
    let mut s = m.defense_policy.debug_text();
    s.append(", depth ");
    let d = usize_to_string(m.max_depth);
    s.append(d.as_str());
    s.append(", forced extensions ");
    let f = usize_to_string(m.max_forced_extensions);
    s.append(f.as_str());
    s.append(", window ");
    let w = option_variant_debug(&m.max_backward_window);
    s.append(w.as_str());
    s
}

/// `pass` or `fail`.
pub open spec fn pass_class_spec(passed: bool) -> Seq<char> {
    if passed {
        "pass"@
    } else {
        "fail"@
    }
}

/// `PASS` or `FAIL`.
pub open spec fn status_text_spec(passed: bool) -> Seq<char> {
    if passed {
        "PASS"@
    } else {
        "FAIL"@
    }
}

/// The opening of a card up to its status badge.
pub open spec fn card_open_spec(r: AnalysisFixtureResult) -> Seq<char> {
    "<section class=\"case "@ + pass_class_spec(r.passed) + "\">\n  <div class=\"case-head\">\n    <span class=\"badge "@
        + pass_class_spec(r.passed) + "\">"@ + status_text_spec(r.passed)
}

/// The card's title block: id, description and variant, escaped.
pub open spec fn card_title_spec(r: AnalysisFixtureResult) -> Seq<char> {
    "</span>\n    <div>\n      <h2 class=\"case-id\">"@ + escape_spec(r.case_id@)
        + "</h2>\n      <p class=\"desc\">"@ + escape_spec(r.description@)
        + "</p>\n    </div>\n    <span class=\"badge\">"@ + escape_spec(r.variant@)
        + "</span>\n  </div>\n  "@
}

/// The card's moves and model.
pub open spec fn card_meta_spec(r: AnalysisFixtureResult) -> Seq<char> {
    "\n  <div class=\"meta-grid\">\n    <div class=\"kv\"><span>Moves</span><strong class=\"moves\">"@
        + escape_spec(join_spec(strings_view(r.moves@), " "@))
        + "</strong></div>\n    <div class=\"kv\"><span>Model</span><strong>"@
        + escape_spec(model_text_spec(r.actual.model))
        + "</strong></div>\n  </div>\n  <div class=\"compare-grid\">\n    <div class=\"compare\">\n      <h3>Expected</h3>\n      "@
}

/// The card's comparison of expected and actual outcome, then its proof
/// table.
pub open spec fn card_compare_spec(r: AnalysisFixtureResult) -> Seq<char> {
    expectation_table_spec(r.expected) + "\n    </div>\n    <div class=\"compare\">\n      <h3>Actual</h3>\n      "@
        + actual_table_spec(r.actual) + "\n    </div>\n  </div>\n  <div>\n    <h3>Proof Rows</h3>\n    <table>\n      <thead><tr><th>Ply</th><th>Side</th><th>Status</th><th>Principal</th><th>Escapes</th></tr></thead>\n      <tbody>"@
        + proof_rows_spec(r.proof_rows@) + "</tbody>\n    </table>\n  </div>\n</section>"@
}

/// The card of one fixture.
pub open spec fn fixture_case_spec(r: AnalysisFixtureResult) -> Seq<char> {
    card_open_spec(r) + card_title_spec(r) + failures_block_spec(strings_view(r.failures@))
        + card_meta_spec(r) + card_compare_spec(r)
}

/// Every proof row of the result names squares with notations.
pub open spec fn result_printable(r: AnalysisFixtureResult) -> bool {
    forall|i: int| 0 <= i < r.proof_rows@.len() ==> row_printable(#[trigger] r.proof_rows@[i])
}

fn card_open(result: &AnalysisFixtureResult) -> (r: String)
    ensures
        r@ == card_open_spec(*result),
{
    let pass_class = if result.passed {
        "pass"
    } else {
        "fail"
    };
    let mut s = String::from_str("<section class=\"case ");
    s.append(pass_class);
    s.append("\">\n  <div class=\"case-head\">\n    <span class=\"badge ");
    s.append(pass_class);
    s.append("\">");
    s.append(if result.passed {
        "PASS"
    } else {
        "FAIL"
    });
    s
}

fn card_title(result: &AnalysisFixtureResult) -> (r: String)
    ensures
        r@ == card_title_spec(*result),
{
    let mut s = String::from_str("</span>\n    <div>\n      <h2 class=\"case-id\">");
    let id = escape(result.case_id.as_str());
    s.append(id.as_str());
    s.append("</h2>\n      <p class=\"desc\">");
    let desc = escape(result.description.as_str());
    s.append(desc.as_str());
    s.append("</p>\n    </div>\n    <span class=\"badge\">");
    let variant = escape(result.variant.as_str());
    s.append(variant.as_str());
    s.append("</span>\n  </div>\n  ");
    s
}

fn card_meta(result: &AnalysisFixtureResult) -> (r: String)
    ensures
        r@ == card_meta_spec(*result),
{
    let mut s = String::from_str("\n  <div class=\"meta-grid\">\n    <div class=\"kv\"><span>Moves</span><strong class=\"moves\">");
    let moves = join_strings(&result.moves, " ");
    let moves = escape(moves.as_str());
    s.append(moves.as_str());
    s.append("</strong></div>\n    <div class=\"kv\"><span>Model</span><strong>");
    let model = model_text(&result.actual.model);
    let model = escape(model.as_str());
    s.append(model.as_str());
    s.append("</strong></div>\n  </div>\n  <div class=\"compare-grid\">\n    <div class=\"compare\">\n      <h3>Expected</h3>\n      ");
    s
}

fn card_compare(result: &AnalysisFixtureResult) -> (r: String)
    requires
        result_printable(*result),
    ensures
        r@ == card_compare_spec(*result),
{
    let mut s = expectation_table(&result.expected);
    s.append("\n    </div>\n    <div class=\"compare\">\n      <h3>Actual</h3>\n      ");
    let actual = actual_table(&result.actual);
    s.append(actual.as_str());
    s.append("\n    </div>\n  </div>\n  <div>\n    <h3>Proof Rows</h3>\n    <table>\n      <thead><tr><th>Ply</th><th>Side</th><th>Status</th><th>Principal</th><th>Escapes</th></tr></thead>\n      <tbody>");
    let rows = proof_rows_html(result.proof_rows.as_slice());
    s.append(rows.as_str());
    s.append("</tbody>\n    </table>\n  </div>\n</section>");
    s
}

/// The card of one fixture: status badge, id, description, variant, the
/// failures, moves and model, the expected and actual tables and the proof
/// rows.
pub fn render_analysis_fixture_case_html(result: &AnalysisFixtureResult) -> (r: String)
    requires
        result_printable(*result),
    ensures
        r@ == fixture_case_spec(*result),
{
    let mut s = card_open(result);
    let title = card_title(result);
    s.append(title.as_str());
    let failures = failures_block(&result.failures);
    s.append(failures.as_str());
    let meta = card_meta(result);
    s.append(meta.as_str());
    let compare = card_compare(result);
    s.append(compare.as_str());
    s
}

/// The cards of the results, one after another.
pub open spec fn fixture_cases_spec(results: Seq<AnalysisFixtureResult>) -> Seq<char>
    decreases results.len(),
{
    if results.len() == 0 {
        Seq::empty()
    } else {
        fixture_cases_spec(results.drop_last()) + fixture_case_spec(results.last())
    }
}

/// The fixture report page: the page head, the summary of passed, total
/// and failed fixtures and of the base model, then the cards.
pub open spec fn fixture_report_spec(report: AnalysisFixtureReport) -> Seq<char> {
    FIXTURE_PAGE_HEAD@ + decimal(report.passed as nat) + " passed / "@
        + decimal(report.total as nat)
        + " total</strong></article>\n  <article class=\"summary-card\"><span>Failed</span><strong>"@
        + decimal(report.failed as nat)
        + "</strong></article>\n  <article class=\"summary-card\"><span>Defense</span><strong>"@
        + report.base_model.defense_policy.debug_view()
        + "</strong></article>\n  <article class=\"summary-card\"><span>Depth</span><strong>"@
        + decimal(report.base_model.max_depth as nat)
        + "</strong></article>\n  <article class=\"summary-card\"><span>Forced Ext.</span><strong>"@
        + decimal(report.base_model.max_forced_extensions as nat)
        + "</strong></article>\n</section>\n"@
        + fixture_cases_spec(report.results@) + "\n</main>\n</body>\n</html>\n"@
}

fn fixture_cases(results: &Vec<AnalysisFixtureResult>) -> (r: String)
    requires
        forall|i: int| 0 <= i < results.len() ==> result_printable(#[trigger] results@[i]),
    ensures
        r@ == fixture_cases_spec(results@),
{
    let mut s = String::new();
    let mut i: usize = 0;
    while i < results.len()
        invariant
            i <= results.len(),
            forall|j: int| 0 <= j < results.len() ==> result_printable(#[trigger] results@[j]),
            s@ == fixture_cases_spec(results@.take(i as int)),
        decreases results.len() - i,
    {
        assert(results@.take(i + 1).drop_last() =~= results@.take(i as int));
        assert(results@.take(i + 1).last() == results@[i as int]);
        assert(result_printable(results@[i as int]));
        let card = render_analysis_fixture_case_html(&results[i]);
        s.append(card.as_str());
        i += 1;
    }
    assert(results@.take(results.len() as int) =~= results@);
    s
}

/// The whole fixture report page.
pub fn render_analysis_fixture_report_html(report: &AnalysisFixtureReport) -> (r: String)
    requires
        forall|i: int| 0 <= i < report.results.len() ==> result_printable(#[trigger] report.results@[i]),
    ensures
        r@ == fixture_report_spec(*report),
{
    let cases = fixture_cases(&report.results);
    let mut s = String::from_str(FIXTURE_PAGE_HEAD);
    let passed = usize_to_string(report.passed);
    s.append(passed.as_str());
    s.append(" passed / ");
    let total = usize_to_string(report.total);
    s.append(total.as_str());
    s.append(" total</strong></article>\n  <article class=\"summary-card\"><span>Failed</span><strong>");
    let failed = usize_to_string(report.failed);
    s.append(failed.as_str());
    s.append("</strong></article>\n  <article class=\"summary-card\"><span>Defense</span><strong>");
    let defense = report.base_model.defense_policy.debug_text();
    s.append(defense.as_str());
    s.append("</strong></article>\n  <article class=\"summary-card\"><span>Depth</span><strong>");
    let depth = usize_to_string(report.base_model.max_depth);
    s.append(depth.as_str());
    s.append("</strong></article>\n  <article class=\"summary-card\"><span>Forced Ext.</span><strong>");
    let fe = usize_to_string(report.base_model.max_forced_extensions);
    s.append(fe.as_str());
    s.append("</strong></article>\n</section>\n");
    s.append(cases.as_str());
    s.append("\n</main>\n</body>\n</html>\n");
    s
}

} // verus!
