use gomoku_eval::analysis::RootCause;
use gomoku_eval::board::Color;
use gomoku_eval::published::{
    published_section_bounds, published_section_counts, AnalysisBatchEntryStatus,
    PublishedAnalysisMatchSummary, PublishedAnalysisSectionInput, SectionEntryFacts,
};

fn game(index: usize) -> PublishedAnalysisMatchSummary {
    PublishedAnalysisMatchSummary {
        match_index: index,
        black: "a".to_string(),
        white: "b".to_string(),
        result: "black_won".to_string(),
        winner: Some("a".to_string()),
        end_reason: "natural".to_string(),
        move_cells: vec![112],
        move_count: 1,
    }
}

fn section(label: &str, games: usize) -> PublishedAnalysisSectionInput {
    PublishedAnalysisSectionInput {
        label: label.to_string(),
        entrant_a: "a".to_string(),
        entrant_b: "b".to_string(),
        matches: (0..games).map(game).collect(),
    }
}

#[test]
fn section_bounds_cut_the_batch_in_order() {
    let sections = vec![section("first", 2), section("empty", 0), section("last", 3)];
    let bounds = published_section_bounds(&sections, 5).unwrap();
    assert_eq!(bounds, vec![(0, 2), (2, 2), (2, 5)]);
}

#[test]
fn section_bounds_refuse_a_count_mismatch() {
    let sections = vec![section("first", 2), section("last", 3)];
    let err = published_section_bounds(&sections, 4).unwrap_err();
    assert_eq!(
        err,
        "published analysis section inputs cover 5 entries, but batch contains 4"
    );
}

#[test]
fn section_bounds_of_no_sections_need_an_empty_batch() {
    assert_eq!(published_section_bounds(&[], 0).unwrap(), vec![]);
    assert_eq!(
        published_section_bounds(&[], 1).unwrap_err(),
        "published analysis section inputs cover 0 entries, but batch contains 1"
    );
}

#[test]
fn section_counts_split_analysed_and_failed_entries() {
    let entries = vec![
        SectionEntryFacts {
            status: AnalysisBatchEntryStatus::Analyzed,
            winner: Some(Color::Black),
            root_cause: Some(RootCause::Unclear),
        },
        SectionEntryFacts {
            status: AnalysisBatchEntryStatus::Analyzed,
            winner: None,
            root_cause: None,
        },
        SectionEntryFacts {
            status: AnalysisBatchEntryStatus::Error,
            winner: Some(Color::White),
            root_cause: None,
        },
        SectionEntryFacts {
            status: AnalysisBatchEntryStatus::Analyzed,
            winner: Some(Color::White),
            root_cause: None,
        },
    ];
    let counts = published_section_counts(&entries);
    assert_eq!(counts.total, 4);
    assert_eq!(counts.analyzed, 3);
    assert_eq!(counts.failed, 1);
    assert_eq!(counts.summary.analysis_error, 1);
    assert_eq!(counts.summary.unclear, 2);
    assert_eq!(counts.summary.ongoing_or_draw, 1);
}
