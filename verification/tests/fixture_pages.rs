use gomoku_eval::analysis::{
    AnalysisModel, DefensePolicy, ForcedInterval, ProofStatus, RootCause, TacticalNote,
};
use gomoku_eval::board::{Color, Move};
use gomoku_eval::fixture::{
    AnalysisFixtureActualReport, AnalysisFixtureExpectationReport, AnalysisFixtureProofRow,
    AnalysisFixtureReport, AnalysisFixtureResult,
};
use gomoku_eval::fixture_html::{
    failures_block, model_text, proof_row_html, render_analysis_fixture_case_html,
    render_analysis_fixture_report_html,
};

fn mv(notation: &str) -> Move {
    let chars: Vec<char> = notation.chars().collect();
    Move::from_notation(&chars).expect("test move notation should parse")
}

fn model() -> AnalysisModel {
    AnalysisModel {
        defense_policy: DefensePolicy::AllLegalDefense,
        tactical_reply_coverage: Vec::new(),
        attacker_move_policy: "all".to_string(),
        rule_set: "freestyle".to_string(),
        max_depth: 2,
        max_forced_extensions: 4,
        max_backward_window: Some(3),
    }
}

fn result(case_id: &str, passed: bool, failures: Vec<String>) -> AnalysisFixtureResult {
    AnalysisFixtureResult {
        case_id: case_id.to_string(),
        description: "White <misses> the block".to_string(),
        passed,
        variant: "freestyle".to_string(),
        moves: vec!["H8".to_string(), "G8".to_string()],
        expected: AnalysisFixtureExpectationReport {
            winner: Some(Color::Black),
            root_cause: RootCause::MissedDefense,
            final_forced_interval: ForcedInterval { start_ply: 8, end_ply: 9 },
            last_chance_ply: Some(7),
            critical_mistake_ply: Some(8),
            tactical_notes: vec![TacticalNote::AccidentalBlunder],
            required_unknown_gaps: Vec::new(),
        },
        actual: AnalysisFixtureActualReport {
            winner: Some(Color::Black),
            root_cause: RootCause::MissedDefense,
            final_forced_interval: ForcedInterval { start_ply: 8, end_ply: 9 },
            last_chance_ply: Some(7),
            critical_mistake_ply: Some(8),
            tactical_notes: vec![TacticalNote::AccidentalBlunder],
            unknown_gaps: Vec::new(),
            model: model(),
        },
        failures,
        proof_rows: vec![AnalysisFixtureProofRow {
            ply: 7,
            side_to_move: Color::White,
            status: ProofStatus::EscapeFound,
            principal_line: Vec::new(),
            escape_moves: vec![mv("L8")],
        }],
    }
}

#[test]
fn proof_rows_and_model_lines_read_as_the_report_shows_them() {
    let row = AnalysisFixtureProofRow {
        ply: 7,
        side_to_move: Color::White,
        status: ProofStatus::EscapeFound,
        principal_line: vec![mv("H8"), mv("I9")],
        escape_moves: Vec::new(),
    };
    assert_eq!(
        proof_row_html(&row),
        "<tr><td>7</td><td>White</td><td>EscapeFound</td><td>H8 I9</td><td>-</td></tr>"
    );
    assert_eq!(model_text(&model()), "AllLegalDefense, depth 2, forced extensions 4, window Some(3)");
    let mut m = model();
    m.max_backward_window = None;
    assert_eq!(model_text(&m), "AllLegalDefense, depth 2, forced extensions 4, window None");
    assert_eq!(failures_block(&Vec::new()), "");
    assert_eq!(
        failures_block(&vec!["a < b".to_string()]),
        "<div class=\"failures\"><p>a &lt; b</p></div>"
    );
}

#[test]
fn fixture_cards_show_status_escaped_text_and_tables() {
    let card = render_analysis_fixture_case_html(&result("missed_defense_closed_four", true, Vec::new()));
    assert!(card.starts_with("<section class=\"case pass\">\n  <div class=\"case-head\">\n    <span class=\"badge pass\">PASS</span>"));
    assert!(card.contains("<h2 class=\"case-id\">missed_defense_closed_four</h2>"));
    assert!(card.contains("<p class=\"desc\">White &lt;misses&gt; the block</p>"));
    assert!(card.contains("<strong class=\"moves\">H8 G8</strong>"));
    assert!(card.contains("<h3>Expected</h3>\n      <table><tbody><tr><th>Winner</th><td>Black</td></tr>"));
    assert!(card.contains("<tbody><tr><td>7</td><td>White</td><td>EscapeFound</td><td>-</td><td>L8</td></tr></tbody>"));
    assert!(card.ends_with("</table>\n  </div>\n</section>"));
    let failed = render_analysis_fixture_case_html(&result("x", false, vec!["root differs".to_string()]));
    assert!(failed.starts_with("<section class=\"case fail\">"));
    assert!(failed.contains("FAIL</span>"));
    assert!(failed.contains("</div>\n  <div class=\"failures\"><p>root differs</p></div>\n  <div class=\"meta-grid\">"));
}

#[test]
fn fixture_report_page_summarises_the_results() {
    let report = AnalysisFixtureReport {
        schema_version: 2,
        fixture_count: 2,
        total: 2,
        passed: 1,
        failed: 1,
        base_model: model(),
        results: vec![result("first_case", true, Vec::new()), result("second_case", false, vec!["x".to_string()])],
    };
    let html = render_analysis_fixture_report_html(&report);
    assert!(html.starts_with("<!doctype html>\n<html lang=\"en\">"));
    assert!(html.contains("<title>Gomoku2D Analysis Fixture Report</title>"));
    assert!(html.contains("1 passed / 2 total"));
    assert!(html.contains("<span>Failed</span><strong>1</strong>"));
    assert!(html.contains("<span>Defense</span><strong>AllLegalDefense</strong>"));
    assert!(html.contains("first_case"));
    assert!(html.contains("second_case"));
    assert!(html.contains("Proof Rows"));
    assert!(html.ends_with("</section>\n</main>\n</body>\n</html>\n"));
}
