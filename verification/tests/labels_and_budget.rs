use gomoku_eval::bot_label::{compact_bot_label, compact_bot_label_parts, searchbot_base_depth};
use gomoku_eval::budget::{pooled_budget_config, PooledCpuBudget, PooledCpuBudgetConfig};
use gomoku_eval::html::{escape, option_debug, option_variant_debug};

#[test]
fn labels_current_searchbot_specs_compactly() {
    assert_eq!(
        compact_bot_label("search-d5+tactical-cap-16+pattern-eval+corridor-proof-c16-d8-w4", false),
        "SearchBot_D5+TCap16+Pattern+Corridor Proof"
    );
    assert_eq!(compact_bot_label("random", false), "RandomBot");
    assert_eq!(compact_bot_label("search", false), "SearchBot_D5");
    assert_eq!(compact_bot_label("search", true), "SearchBot_D20");
}

#[test]
fn bot_label_parts_split_primary_from_modifiers() {
    let (primary, modifiers) = compact_bot_label_parts("search-d7+tactical-cap-8+pattern-eval", false);
    assert_eq!(primary, "SearchBot_D7");
    assert_eq!(modifiers.as_deref(), Some("TCap8 + Pattern"));
    let (primary, modifiers) = compact_bot_label_parts("random", false);
    assert_eq!(primary, "RandomBot");
    assert_eq!(modifiers, None);
}

#[test]
fn searchbot_depth_reads_the_d_suffix() {
    let chars: Vec<char> = "search-d7".chars().collect();
    assert_eq!(searchbot_base_depth(&chars, false), Some(7));
    let chars: Vec<char> = "search".chars().collect();
    assert_eq!(searchbot_base_depth(&chars, false), Some(5));
    assert_eq!(searchbot_base_depth(&chars, true), Some(20));
}

#[test]
fn pooled_cpu_budget_banks_cheap_moves_and_spends_on_slow_moves() {
    let mut budget = PooledCpuBudget::new(PooledCpuBudgetConfig { base_ms: 1_000, reserve_cap_ms: 4_000, max_move_ms: None });

    assert_eq!(budget.next_budget_ms(), 1_000);

    let first = budget.record_move(250);
    assert_eq!(first.reserve_before_ms, 0);
    assert_eq!(first.reserve_after_ms, 750);
    assert!(!first.reserve_exhausted);
    assert_eq!(budget.next_budget_ms(), 1_750);

    let second = budget.record_move(1_500);
    assert_eq!(second.reserve_before_ms, 750);
    assert_eq!(second.reserve_after_ms, 250);
    assert!(!second.reserve_exhausted);
    assert_eq!(budget.next_budget_ms(), 1_250);
}

#[test]
fn pooled_cpu_budget_caps_reserve_and_reports_exhaustion() {
    let mut budget = PooledCpuBudget::new(PooledCpuBudgetConfig { base_ms: 1_000, reserve_cap_ms: 1_500, max_move_ms: None });

    budget.record_move(0);
    budget.record_move(0);
    assert_eq!(budget.reserve_ms(), 1_500);
    assert_eq!(budget.next_budget_ms(), 2_500);

    let slow = budget.record_move(3_000);
    assert_eq!(slow.reserve_before_ms, 1_500);
    assert_eq!(slow.reserve_after_ms, 0);
    assert!(slow.reserve_exhausted);
}

#[test]
fn pooled_budget_reserve_never_exceeds_cap_over_many_moves() {
    let mut budget = PooledCpuBudget::new(PooledCpuBudgetConfig { base_ms: 500, reserve_cap_ms: 700, max_move_ms: None });
    for consumed in [0u64, 10, 0, 900, 2_000, 100, 0, 0] {
        let snap = budget.record_move(consumed);
        assert!(snap.reserve_after_ms <= 700);
        assert_eq!(snap.move_budget_ms, 500 + snap.reserve_before_ms);
        assert_eq!(snap.consumed_ms, consumed);
        assert!(budget.reserve_ms() <= 700);
    }
}

#[test]
fn pooled_budget_zero_base_never_reports_exhaustion() {
    let mut budget = PooledCpuBudget::new(PooledCpuBudgetConfig { base_ms: 0, reserve_cap_ms: 100, max_move_ms: None });
    let snap = budget.record_move(50);
    assert!(!snap.reserve_exhausted);
    assert_eq!(snap.reserve_after_ms, 0);
}

#[test]
fn escape_handles_special_chars() {
    assert_eq!(escape("<bot & 'x'>"), "&lt;bot &amp; &#39;x&#39;&gt;");
}

#[test]
fn escape_keeps_plain_text_and_escapes_quotes() {
    assert_eq!(escape("plain text 123"), "plain text 123");
    assert_eq!(escape("\"q\""), "&quot;q&quot;");
    assert_eq!(escape(""), "");
}

#[test]
fn option_debug_formats_none_as_dash() {
    assert_eq!(option_debug(Some(7)), "7");
    assert_eq!(option_debug::<u8>(None), "-");
}

#[test]
fn option_variant_debug_shows_some_and_none() {
    assert_eq!(option_variant_debug(&Some(7usize)), "Some(7)");
    assert_eq!(option_variant_debug::<usize>(&None), "None");
}

#[test]
fn pooled_budget_never_exceeds_the_per_move_maximum() {
    let mut budget = PooledCpuBudget::new(PooledCpuBudgetConfig {
        base_ms: 1_000,
        reserve_cap_ms: 4_000,
        max_move_ms: Some(1_500),
    });
    assert_eq!(budget.next_budget_ms(), 1_000);
    let free = budget.record_move(0);
    assert_eq!(free.reserve_after_ms, 1_000);
    assert_eq!(budget.next_budget_ms(), 1_500);
    let slow = budget.record_move(1_500);
    assert_eq!(slow.move_budget_ms, 1_500);
    assert!(slow.reserve_exhausted);
    assert_eq!(budget.reserve_ms(), 500);
    assert_eq!(budget.next_budget_ms(), 1_500);
}

#[test]
fn pooled_budget_options_are_checked() {
    assert_eq!(
        pooled_budget_config(None, Some(2_000), 8_000, None),
        Ok(PooledCpuBudgetConfig { base_ms: 2_000, reserve_cap_ms: 8_000, max_move_ms: None })
    );
    assert_eq!(
        pooled_budget_config(None, Some(2_000), 8_000, Some(3_000)),
        Ok(PooledCpuBudgetConfig { base_ms: 2_000, reserve_cap_ms: 8_000, max_move_ms: Some(3_000) })
    );
    let err = pooled_budget_config(None, Some(2_000), 8_000, Some(1_000)).unwrap_err();
    assert!(err.contains("--search-cpu-max-move-ms"));
    assert_eq!(
        pooled_budget_config(None, None, 8_000, None).unwrap_err(),
        "Pooled search budgeting requires --search-cpu-time-ms."
    );
    assert!(pooled_budget_config(Some(10), Some(2_000), 8_000, None).unwrap_err().contains("--search-time-ms"));
}
