use gomoku_eval::tournament::{
    gauntlet_pairs, parse_bot_list, round_robin_pairs, tournament_progress_interval,
    validate_unique_bot_names, TournamentPair,
};

#[test]
fn round_robin_pairs_cover_each_pair_once_in_order() {
    let pairs = round_robin_pairs(4);
    assert_eq!(pairs.len(), 6);
    assert_eq!(pairs[0], TournamentPair { bot_a_idx: 0, bot_b_idx: 1 });
    assert_eq!(pairs[5], TournamentPair { bot_a_idx: 2, bot_b_idx: 3 });
    for a in 0..4 {
        for b in (a + 1)..4 {
            let count = pairs.iter().filter(|p| p.bot_a_idx == a && p.bot_b_idx == b).count();
            assert_eq!(count, 1);
        }
    }
    assert!(round_robin_pairs(1).is_empty());
    assert!(round_robin_pairs(0).is_empty());
}

#[test]
fn gauntlet_pairs_match_candidates_against_anchors() {
    let pairs = gauntlet_pairs(2, 5);
    assert_eq!(pairs.len(), 6);
    assert_eq!(pairs[0], TournamentPair { bot_a_idx: 0, bot_b_idx: 2 });
    assert_eq!(pairs[3], TournamentPair { bot_a_idx: 1, bot_b_idx: 2 });
    assert_eq!(pairs[5], TournamentPair { bot_a_idx: 1, bot_b_idx: 4 });
}

#[test]
fn bot_lists_are_trimmed_and_skip_empty_names() {
    assert_eq!(parse_bot_list(" a , b,,c "), vec!["a", "b", "c"]);
    assert!(parse_bot_list("").is_empty());
    assert!(parse_bot_list(" , ").is_empty());
}

#[test]
fn unique_names_pass_and_the_first_repeat_is_named() {
    assert_eq!(validate_unique_bot_names(&["a".to_string(), "b".to_string()]), Ok(()));
    assert_eq!(
        validate_unique_bot_names(&["b".to_string(), "a".to_string(), "a".to_string(), "b".to_string()]),
        Err("Duplicate bot in tournament schedule: b".to_string())
    );
}

#[test]
fn progress_interval_is_a_twentieth_of_the_games() {
    assert_eq!(tournament_progress_interval(0), None);
    assert_eq!(tournament_progress_interval(7), Some(1));
    assert_eq!(tournament_progress_interval(100), Some(5));
    assert_eq!(tournament_progress_interval(39), Some(1));
}
