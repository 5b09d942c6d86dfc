//! The shared evaluation options of the lab's commands: the rule variant,
//! per-move search budgets and their pooling policy, and game limits, and
//! how they are checked and turned into an evaluation context.
use vstd::prelude::*;
use crate::board::{RuleConfig, Variant};
use crate::text::{concat3, str_eq, u64_to_string};

verus! {

/// How a search bot's per-move CPU budget is spent.
#[derive(Debug, Clone, Copy, PartialEq, Eq, Structural)]
pub enum CliSearchBudgetMode {
    Strict,
    Pooled,
}

/// The mode's label.
pub open spec fn budget_mode_label_spec(m: CliSearchBudgetMode) -> Seq<char> {
    match m {
        CliSearchBudgetMode::Strict => "strict"@,
        CliSearchBudgetMode::Pooled => "pooled"@,
    }
}

impl CliSearchBudgetMode {
    /// `strict` or `pooled`.
    pub fn label(self) -> (r: &'static str)
        ensures
            r@ == budget_mode_label_spec(self),
    {
        match self {
            CliSearchBudgetMode::Strict => "strict",
            CliSearchBudgetMode::Pooled => "pooled",
        }
    }
}

/// The options every evaluation command takes.
#[derive(Debug, Clone)]
pub struct EvalOptions {
    pub rule: String,
    pub search_time_ms: Option<u64>,
    pub search_cpu_time_ms: Option<u64>,
    pub search_budget_mode: CliSearchBudgetMode,
    pub search_cpu_reserve_ms: u64,
    pub search_cpu_max_move_ms: Option<u64>,
    pub max_moves: Option<usize>,
    pub max_game_ms: Option<u64>,
    pub seed: u64,
}

/// When a game is stopped early and scored a draw.
#[derive(Debug, Clone, Copy, PartialEq, Eq, Structural)]
pub struct MatchLimits {
    pub max_moves: Option<usize>,
    pub max_game_ms: Option<u64>,
}

/// The checked evaluation settings of a command.
#[derive(Debug, Clone, Copy, PartialEq, Eq)]
pub struct EvalContext {
    pub config: RuleConfig,
    pub rule_label: &'static str,
    pub limits: MatchLimits,
    pub search_time_ms: Option<u64>,
    pub search_cpu_time_ms: Option<u64>,
    pub search_budget_mode: CliSearchBudgetMode,
    pub search_cpu_reserve_ms: u64,
    pub search_cpu_max_move_ms: Option<u64>,
    pub seed: u64,
}

/// The variant a rule name selects.
pub open spec fn variant_of(rule: Seq<char>) -> Option<Variant> {
    if rule == "renju"@ {
        Some(Variant::Renju)
    } else if rule == "freestyle"@ {
        Some(Variant::Freestyle)
    } else {
        None
    }
}

/// Why the options are refused, if they are: a per-move cap without pooled
/// budgeting, or an unknown rule variant (checked in that order).
pub open spec fn eval_options_error(options: EvalOptions) -> Option<Seq<char>> {
    if options.search_budget_mode != CliSearchBudgetMode::Pooled
        && options.search_cpu_max_move_ms is Some {
        Some("--search-cpu-max-move-ms requires --search-budget-mode pooled."@)
    } else if variant_of(options.rule@) is None {
        Some("Unknown rule variant '"@ + options.rule@ + "'. Use 'renju' or 'freestyle'."@)
    } else {
        None
    }
}

/// The context the options give when they are accepted: the standard
/// 15-by-15 board with five in a row under the chosen variant, and every
/// budget and limit as given.
pub open spec fn eval_context_agrees(options: EvalOptions, c: EvalContext) -> bool {
    let v = variant_of(options.rule@)->0;
    &&& c.config == (RuleConfig { board_size: 15, win_length: 5, variant: v })
    &&& c.rule_label@ == (match v {
        Variant::Freestyle => "freestyle"@,
        Variant::Renju => "renju"@,
    })
    &&& c.limits == (MatchLimits { max_moves: options.max_moves, max_game_ms: options.max_game_ms })
    &&& c.search_time_ms == options.search_time_ms
    &&& c.search_cpu_time_ms == options.search_cpu_time_ms
    &&& c.search_budget_mode == options.search_budget_mode
    &&& c.search_cpu_reserve_ms == options.search_cpu_reserve_ms
    &&& c.search_cpu_max_move_ms == options.search_cpu_max_move_ms
    &&& c.seed == options.seed
}

/// Checks the evaluation options and builds the context the commands run
/// with; the error names what is wrong.
pub fn eval_context(options: &EvalOptions) -> (r: Result<EvalContext, String>)
    ensures
        match r {
            Ok(c) => eval_options_error(*options) is None && eval_context_agrees(*options, c),
            Err(e) => eval_options_error(*options) == Some(e@),
        },
{
    let pooled = match options.search_budget_mode {
        CliSearchBudgetMode::Pooled => true,
        CliSearchBudgetMode::Strict => false,
    };
    if !pooled && options.search_cpu_max_move_ms.is_some() {
        return Err(
            String::from_str("--search-cpu-max-move-ms requires --search-budget-mode pooled."),
        );
    }
    let variant = if str_eq(options.rule.as_str(), "renju") {
        Variant::Renju
    } else if str_eq(options.rule.as_str(), "freestyle") {
        Variant::Freestyle
    } else {
        return Err(
            concat3(
                "Unknown rule variant '",
                options.rule.as_str(),
                "'. Use 'renju' or 'freestyle'.",
            ),
        );
    };
    let rule_label = crate::board::variant_label(&variant);
    Ok(
        EvalContext {
            config: RuleConfig { board_size: 15, win_length: 5, variant },
            rule_label,
            limits: MatchLimits {
                max_moves: options.max_moves,
                max_game_ms: options.max_game_ms,
            },
            search_time_ms: options.search_time_ms,
            search_cpu_time_ms: options.search_cpu_time_ms,
            search_budget_mode: options.search_budget_mode,
            search_cpu_reserve_ms: options.search_cpu_reserve_ms,
            search_cpu_max_move_ms: options.search_cpu_max_move_ms,
            seed: options.seed,
        },
    )
}

/// The line describing pooled budgeting: its reserve cap and, when set,
/// its per-move cap, in milliseconds.
pub open spec fn pooled_budget_label_spec(reserve_cap_ms: u64, max_move_ms: Option<u64>) -> Seq<
    char,
> {
    match max_move_ms {
        Some(m) => "Search budget mode: pooled (reserve cap "@ + crate::text::decimal(
            reserve_cap_ms as nat,
        ) + " ms, max move "@ + crate::text::decimal(m as nat) + " ms)"@,
        None => "Search budget mode: pooled (reserve cap "@ + crate::text::decimal(
            reserve_cap_ms as nat,
        ) + " ms)"@,
    }
}

/// The description of pooled budgeting printed before a run.
pub fn pooled_budget_label(reserve_cap_ms: u64, max_move_ms: Option<u64>) -> (r: String)
    ensures
        r@ == pooled_budget_label_spec(reserve_cap_ms, max_move_ms),
{
    let mut s = String::from_str("Search budget mode: pooled (reserve cap ");
    let cap = u64_to_string(reserve_cap_ms);
    s.append(cap.as_str());
    match max_move_ms {
        Some(m) => {
            s.append(" ms, max move ");
            let mm = u64_to_string(m);
            s.append(mm.as_str());
            s.append(" ms)");
        },
        None => {
            s.append(" ms)");
        },
    }
    s
}

} // verus!
