use gomoku_eval::analysis::{ForcedInterval, UnclearReason};
use gomoku_eval::batch_labels::{
    bot_name_from_report_label, compact_bot_label_html, detail_html, forced_interval_length_label,
    forced_interval_range_label, match_label_for_display, ordered_player_columns_html, parse_usize,
    player_result_label, ply_count_label, provenance_selector_label, provenance_source_label,
    replay_entry_title, report_source_and_selector, source_kind_label, unclear_reason_label,
};
use gomoku_eval::board::Color;

#[test]
fn analysis_batch_report_splits_matchup_entry_titles() {
    let title = replay_entry_title(
        "match_1729__search-d5_tactical-cap-8_pattern-eval__vs__search-d7_tactical-cap-8_pattern-eval",
    );

    assert_eq!(title.match_label, "#1729");
    assert_eq!(title.black.as_deref(), Some("search-d5+tactical-cap-8+pattern-eval"));
    assert_eq!(title.white.as_deref(), Some("search-d7+tactical-cap-8+pattern-eval"));
}

#[test]
fn analysis_batch_report_orders_players_by_result() {
    let title = replay_entry_title(
        "match_1731__search-d5_tactical-cap-8_pattern-eval__vs__search-d7_tactical-cap-8_pattern-eval",
    );

    let (winner, loser) = ordered_player_columns_html(&title, Some(Color::White));
    assert!(winner.contains("White"));
    assert!(winner.contains("player-result--win"));
    assert!(winner.contains("SearchBot_D7"));
    assert!(loser.contains("Black"));
    assert!(loser.contains("player-result--lose"));
    assert!(loser.contains("SearchBot_D5"));

    let (draw_black, draw_white) = ordered_player_columns_html(&title, None);
    assert!(draw_black.contains("Black"));
    assert!(draw_white.contains("White"));
}

#[test]
fn entry_titles_strip_directories_and_json() {
    let title = replay_entry_title("out/replays/match_0007__a_b__vs__c.json");
    assert_eq!(title.match_label, "#7");
    assert_eq!(title.black.as_deref(), Some("a+b"));
    assert_eq!(title.white.as_deref(), Some("c"));

    let title = replay_entry_title("dir/odd-name.json");
    assert_eq!(title.match_label, "odd-name");
    assert_eq!(title.black, None);
    assert_eq!(title.white, None);

    let title = replay_entry_title("match_x__vs__y");
    assert_eq!(title.match_label, "#x__vs__y");
    assert_eq!(title.black, None);
}

#[test]
fn match_labels_and_usize_parsing() {
    assert_eq!(match_label_for_display("match_0042"), "#42");
    assert_eq!(match_label_for_display("match_+5"), "#5");
    assert_eq!(match_label_for_display("match_abc"), "#abc");
    assert_eq!(match_label_for_display("game_1"), "game_1");
    let digits: Vec<char> = "18446744073709551616".chars().collect();
    assert_eq!(parse_usize(&digits), None);
    let digits: Vec<char> = "+".chars().collect();
    assert_eq!(parse_usize(&digits), None);
    let digits: Vec<char> = "-1".chars().collect();
    assert_eq!(parse_usize(&digits), None);
    let digits: Vec<char> = "0012".chars().collect();
    assert_eq!(parse_usize(&digits), Some(12));
}

#[test]
fn result_and_source_labels() {
    assert_eq!(player_result_label(Some(Color::Black), Color::Black), ("win", "player-result--win"));
    assert_eq!(player_result_label(Some(Color::Black), Color::White), ("lose", "player-result--lose"));
    assert_eq!(player_result_label(None, Color::White), ("draw", "player-result--draw"));
    assert_eq!(bot_name_from_report_label("search-d3_pattern-eval"), "search-d3+pattern-eval");
    assert_eq!(
        report_source_and_selector(" reports/a.json : Top 2 entrants "),
        ("reports/a.json".to_string(), "Top 2 entrants".to_string())
    );
    assert_eq!(
        report_source_and_selector("reports/a.json"),
        ("reports/a.json".to_string(), "all report replays".to_string())
    );
    assert_eq!(source_kind_label("replay_dir"), "replay dir");
    assert_eq!(provenance_source_label("report_replays", "r.json:x vs y"), "r.json");
    assert_eq!(provenance_selector_label("report_replays", "r.json:x vs y"), "x vs y");
    assert_eq!(provenance_source_label("replay_dir", "replays"), "replays");
    assert_eq!(provenance_selector_label("replay_dir", "replays"), "all replays");
    assert_eq!(provenance_selector_label("single_replay", "r"), "single replay");
}

#[test]
fn interval_and_ply_labels() {
    let interval = ForcedInterval { start_ply: 8, end_ply: 9 };
    assert_eq!(forced_interval_range_label(Some(&interval)), "8-9");
    assert_eq!(forced_interval_length_label(Some(&interval)), "2 ply");
    let backwards = ForcedInterval { start_ply: 9, end_ply: 3 };
    assert_eq!(forced_interval_length_label(Some(&backwards)), "1 ply");
    assert_eq!(forced_interval_range_label(None), "-");
    assert_eq!(forced_interval_length_label(None), "-");
    assert_eq!(ply_count_label(Some(3)), "3 ply");
    assert_eq!(ply_count_label(None), "-");
}

#[test]
fn small_html_pieces_escape_their_text() {
    assert_eq!(
        detail_html("A<B", "x&y"),
        "<div class=\"detail\"><span>A&lt;B</span><strong>x&amp;y</strong></div>"
    );
    assert_eq!(
        compact_bot_label_html("random"),
        "<span class=\"bot-label\"><span>RandomBot</span></span>"
    );
    assert_eq!(
        compact_bot_label_html("search-d3+pattern-eval"),
        "<span class=\"bot-label\"><span>SearchBot_D3</span><span>Pattern</span></span>"
    );
}

#[test]
fn unclear_reasons_have_short_labels() {
    assert_eq!(unclear_reason_label(None), "-");
    assert_eq!(unclear_reason_label(Some(UnclearReason::PreviousPrefixUnknown)), "previous prefix unknown");
    assert_eq!(unclear_reason_label(Some(UnclearReason::ScanWindowCutoff)), "scan cap cutoff");
    assert_eq!(unclear_reason_label(Some(UnclearReason::ProofLimitHit)), "proof limit hit");
    assert_eq!(unclear_reason_label(Some(UnclearReason::NoFinalForcedInterval)), "no final forced interval");
    assert_eq!(unclear_reason_label(Some(UnclearReason::DrawOrOngoing)), "draw or ongoing");
}
