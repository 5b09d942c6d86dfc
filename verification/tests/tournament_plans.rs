use gomoku_eval::tournament::{tournament_plan, CliTournamentSchedule, TournamentPair};

#[test]
fn tests_tournament_plan_builds_round_robin_pairs() {
    let plan = tournament_plan(
        CliTournamentSchedule::RoundRobin,
        Some("a,b,c"),
        None,
        None,
        None,
        None,
    )
    .expect("round robin plan should parse");

    assert_eq!(plan.bot_names, vec!["a", "b", "c"]);
    assert!(plan.anchor_names.is_empty());
    assert_eq!(plan.anchor_report, None);
    assert_eq!(
        plan.pairs,
        vec![
            TournamentPair { bot_a_idx: 0, bot_b_idx: 1 },
            TournamentPair { bot_a_idx: 0, bot_b_idx: 2 },
            TournamentPair { bot_a_idx: 1, bot_b_idx: 2 },
        ]
    );
}

#[test]
fn tests_tournament_plan_requires_exactly_two_head_to_head_bots() {
    let plan = tournament_plan(
        CliTournamentSchedule::HeadToHead,
        Some("d5,d7"),
        None,
        None,
        None,
        None,
    )
    .expect("head-to-head plan should parse");

    assert_eq!(plan.bot_names, vec!["d5", "d7"]);
    assert_eq!(plan.pairs, vec![TournamentPair { bot_a_idx: 0, bot_b_idx: 1 }]);

    let err = tournament_plan(
        CliTournamentSchedule::HeadToHead,
        Some("d3,d5,d7"),
        None,
        None,
        None,
        None,
    )
    .unwrap_err();
    assert!(err.contains("exactly 2 bots"));
}

#[test]
fn tests_tournament_plan_builds_candidate_vs_anchor_gauntlet() {
    let plan = tournament_plan(
        CliTournamentSchedule::Gauntlet,
        None,
        Some("candidate"),
        None,
        Some("anchor-a,anchor-b"),
        Some("../reports/lab/bot-report.json"),
    )
    .expect("gauntlet plan should parse");

    assert_eq!(plan.bot_names, vec!["candidate", "anchor-a", "anchor-b"]);
    assert_eq!(plan.anchor_names, vec!["anchor-a", "anchor-b"]);
    assert_eq!(plan.anchor_report.as_deref(), Some("../reports/lab/bot-report.json"));
    assert_eq!(
        plan.pairs,
        vec![
            TournamentPair { bot_a_idx: 0, bot_b_idx: 1 },
            TournamentPair { bot_a_idx: 0, bot_b_idx: 2 },
        ]
    );
}

#[test]
fn tests_tournament_plan_builds_batch_candidate_gauntlet() {
    let plan = tournament_plan(
        CliTournamentSchedule::Gauntlet,
        None,
        None,
        Some("candidate-a,candidate-b"),
        Some("anchor-a,anchor-b"),
        Some("../reports/lab/bot-report.json"),
    )
    .expect("batch gauntlet plan should parse");

    assert_eq!(plan.bot_names, vec!["candidate-a", "candidate-b", "anchor-a", "anchor-b"]);
    assert_eq!(plan.anchor_names, vec!["anchor-a", "anchor-b"]);
    assert_eq!(plan.anchor_report.as_deref(), Some("../reports/lab/bot-report.json"));
    assert_eq!(
        plan.pairs,
        vec![
            TournamentPair { bot_a_idx: 0, bot_b_idx: 2 },
            TournamentPair { bot_a_idx: 0, bot_b_idx: 3 },
            TournamentPair { bot_a_idx: 1, bot_b_idx: 2 },
            TournamentPair { bot_a_idx: 1, bot_b_idx: 3 },
        ]
    );
}

#[test]
fn tests_tournament_plan_rejects_mixed_gauntlet_candidate_args() {
    let err = tournament_plan(
        CliTournamentSchedule::Gauntlet,
        None,
        Some("candidate-a"),
        Some("candidate-b"),
        Some("anchor-a"),
        None,
    )
    .unwrap_err();

    assert!(err.contains("either --candidate or --candidates"));
}

#[test]
fn tests_tournament_plan_rejects_candidates_outside_gauntlet() {
    let err = tournament_plan(
        CliTournamentSchedule::RoundRobin,
        Some("a,b"),
        None,
        Some("candidate-a,candidate-b"),
        None,
        None,
    )
    .unwrap_err();

    assert!(err.contains("--candidate/--candidates/--anchors"));
}

#[test]
fn tests_tournament_plan_rejects_anchor_report_outside_gauntlet() {
    let err = tournament_plan(
        CliTournamentSchedule::RoundRobin,
        Some("a,b"),
        None,
        None,
        None,
        Some("../reports/lab/bot-report.json"),
    )
    .unwrap_err();

    assert!(err.contains("--anchor-report"));
}

#[test]
fn main_tournament_plan_builds_round_robin_pairs() {
    let plan = tournament_plan(
        CliTournamentSchedule::RoundRobin,
        Some("a,b,c"),
        None,
        None,
        None,
        None,
    )
    .expect("round robin plan should parse");

    assert_eq!(plan.bot_names, vec!["a", "b", "c"]);
    assert!(plan.anchor_names.is_empty());
    assert_eq!(plan.anchor_report, None);
    assert_eq!(
        plan.pairs,
        vec![
            TournamentPair { bot_a_idx: 0, bot_b_idx: 1 },
            TournamentPair { bot_a_idx: 0, bot_b_idx: 2 },
            TournamentPair { bot_a_idx: 1, bot_b_idx: 2 },
        ]
    );
}

#[test]
fn main_tournament_plan_requires_exactly_two_head_to_head_bots() {
    let plan = tournament_plan(
        CliTournamentSchedule::HeadToHead,
        Some("d5,d7"),
        None,
        None,
        None,
        None,
    )
    .expect("head-to-head plan should parse");

    assert_eq!(plan.bot_names, vec!["d5", "d7"]);
    assert_eq!(plan.pairs, vec![TournamentPair { bot_a_idx: 0, bot_b_idx: 1 }]);

    let err = tournament_plan(
        CliTournamentSchedule::HeadToHead,
        Some("d3,d5,d7"),
        None,
        None,
        None,
        None,
    )
    .unwrap_err();
    assert!(err.contains("exactly 2 bots"));
}

#[test]
fn main_tournament_plan_builds_candidate_vs_anchor_gauntlet() {
    let plan = tournament_plan(
        CliTournamentSchedule::Gauntlet,
        None,
        Some("candidate"),
        None,
        Some("anchor-a,anchor-b"),
        Some("reports/latest.json"),
    )
    .expect("gauntlet plan should parse");

    assert_eq!(plan.bot_names, vec!["candidate", "anchor-a", "anchor-b"]);
    assert_eq!(plan.anchor_names, vec!["anchor-a", "anchor-b"]);
    assert_eq!(plan.anchor_report.as_deref(), Some("reports/latest.json"));
    assert_eq!(
        plan.pairs,
        vec![
            TournamentPair { bot_a_idx: 0, bot_b_idx: 1 },
            TournamentPair { bot_a_idx: 0, bot_b_idx: 2 },
        ]
    );
}

#[test]
fn main_tournament_plan_builds_batch_candidate_gauntlet() {
    let plan = tournament_plan(
        CliTournamentSchedule::Gauntlet,
        None,
        None,
        Some("candidate-a,candidate-b"),
        Some("anchor-a,anchor-b"),
        Some("reports/latest.json"),
    )
    .expect("batch gauntlet plan should parse");

    assert_eq!(plan.bot_names, vec!["candidate-a", "candidate-b", "anchor-a", "anchor-b"]);
    assert_eq!(plan.anchor_names, vec!["anchor-a", "anchor-b"]);
    assert_eq!(plan.anchor_report.as_deref(), Some("reports/latest.json"));
    assert_eq!(
        plan.pairs,
        vec![
            TournamentPair { bot_a_idx: 0, bot_b_idx: 2 },
            TournamentPair { bot_a_idx: 0, bot_b_idx: 3 },
            TournamentPair { bot_a_idx: 1, bot_b_idx: 2 },
            TournamentPair { bot_a_idx: 1, bot_b_idx: 3 },
        ]
    );
}

#[test]
fn main_tournament_plan_rejects_mixed_gauntlet_candidate_args() {
    let err = tournament_plan(
        CliTournamentSchedule::Gauntlet,
        None,
        Some("candidate-a"),
        Some("candidate-b"),
        Some("anchor-a"),
        None,
    )
    .unwrap_err();

    assert!(err.contains("either --candidate or --candidates"));
}

#[test]
fn main_tournament_plan_rejects_candidates_outside_gauntlet() {
    let err = tournament_plan(
        CliTournamentSchedule::RoundRobin,
        Some("a,b"),
        None,
        Some("candidate-a,candidate-b"),
        None,
        None,
    )
    .unwrap_err();

    assert!(err.contains("--candidate/--candidates/--anchors"));
}

#[test]
fn main_tournament_plan_rejects_anchor_report_outside_gauntlet() {
    let err = tournament_plan(
        CliTournamentSchedule::RoundRobin,
        Some("a,b"),
        None,
        None,
        None,
        Some("reports/latest.json"),
    )
    .unwrap_err();

    assert!(err.contains("--anchor-report"));
}

#[test]
fn round_robin_needs_two_bots_and_bots_flag() {
    let err = tournament_plan(CliTournamentSchedule::RoundRobin, Some("solo"), None, None, None, None)
        .unwrap_err();
    assert_eq!(err, "Round-robin tournament requires at least 2 bots.");
    let err = tournament_plan(CliTournamentSchedule::RoundRobin, None, None, None, None, None)
        .unwrap_err();
    assert_eq!(err, "Round-robin tournament requires --bots.");
    let err = tournament_plan(CliTournamentSchedule::RoundRobin, Some(" , ,"), None, None, None, None)
        .unwrap_err();
    assert_eq!(err, "Round-robin tournament requires --bots.");
}

#[test]
fn duplicate_bots_are_rejected_by_name() {
    let err = tournament_plan(CliTournamentSchedule::RoundRobin, Some("a, b ,a"), None, None, None, None)
        .unwrap_err();
    assert_eq!(err, "Duplicate bot in tournament schedule: a");
    let err = tournament_plan(
        CliTournamentSchedule::Gauntlet,
        None,
        Some("x"),
        None,
        Some("y,x"),
        None,
    )
    .unwrap_err();
    assert_eq!(err, "Duplicate bot in tournament schedule: x");
}

#[test]
fn gauntlet_errors_name_the_missing_flags() {
    let err = tournament_plan(CliTournamentSchedule::Gauntlet, Some("a,b"), None, None, None, None)
        .unwrap_err();
    assert_eq!(
        err,
        "Gauntlet tournament uses --candidate/--candidates and --anchors instead of --bots."
    );
    let err = tournament_plan(CliTournamentSchedule::Gauntlet, None, None, None, Some("a"), None)
        .unwrap_err();
    assert_eq!(err, "Gauntlet tournament requires --candidate or --candidates.");
    let err = tournament_plan(CliTournamentSchedule::Gauntlet, None, Some("c"), None, None, None)
        .unwrap_err();
    assert_eq!(err, "Gauntlet tournament requires --anchors.");
    let err = tournament_plan(CliTournamentSchedule::Gauntlet, None, Some("c,d"), None, Some("a"), None)
        .unwrap_err();
    assert_eq!(
        err,
        "Gauntlet --candidate accepts exactly 1 bot; use --candidates for batch gauntlets."
    );
}

#[test]
fn schedule_errors_carry_the_schedule_label() {
    let err = tournament_plan(
        CliTournamentSchedule::HeadToHead,
        Some("a,b"),
        None,
        None,
        Some("z"),
        None,
    )
    .unwrap_err();
    assert_eq!(err, "head-to-head tournament uses --bots, not --candidate/--candidates/--anchors.");
    let err = tournament_plan(CliTournamentSchedule::HeadToHead, Some("a,b"), None, None, None, Some("r"))
        .unwrap_err();
    assert_eq!(err, "head-to-head tournament does not use --anchor-report.");
}
