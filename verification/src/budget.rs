//! Pooled CPU-time budgeting: a search bot gets a base budget per move, and
//! what a cheap move leaves unused is banked (up to a cap) for later moves;
//! an optional maximum bounds the budget of any single move.
use vstd::prelude::*;

verus! {

/// Base per-move budget, the cap on the banked reserve, and the optional
/// maximum budget of a single move, in milliseconds.
#[derive(Debug, Clone, Copy, PartialEq, Eq, Structural)]
pub struct PooledCpuBudgetConfig {
    pub base_ms: u64,
    pub reserve_cap_ms: u64,
    pub max_move_ms: Option<u64>,
}

/// What one recorded move did to the pool.
#[derive(Debug, Clone, Copy, PartialEq, Eq, Structural)]
pub struct PooledCpuBudgetSnapshot {
    pub base_ms: u64,
    pub move_budget_ms: u64,
    pub reserve_cap_ms: u64,
    pub reserve_before_ms: u64,
    pub reserve_after_ms: u64,
    pub consumed_ms: u64,
    pub reserve_exhausted: bool,
}

/// A pooled budget: the configuration and the banked reserve.
#[derive(Debug, Clone, Copy, PartialEq, Eq, Structural)]
pub struct PooledCpuBudget {
    config: PooledCpuBudgetConfig,
    reserve_ms: u64,
}

/// `a + b`, or `u64::MAX` when that overflows.
pub open spec fn sat_add(a: u64, b: u64) -> u64 {
    if a + b > u64::MAX {
        u64::MAX
    } else {
        (a + b) as u64
    }
}

/// `a - b`, or 0 when that is negative.
pub open spec fn sat_sub(a: u64, b: u64) -> u64 {
    if a < b {
        0
    } else {
        (a - b) as u64
    }
}

/// The budget of the next move: the base plus the whole reserve
/// (saturating), lowered to the per-move maximum when there is one.
pub open spec fn move_budget_spec(config: PooledCpuBudgetConfig, reserve: u64) -> u64 {
    let full = sat_add(config.base_ms, reserve);
    match config.max_move_ms {
        Some(m) => if full < m {
            full
        } else {
            m
        },
        None => full,
    }
}

/// The reserve after a move that consumed `consumed_ms`: an under-budget
/// move banks its savings up to the cap, an over-budget move draws the excess
/// from the reserve (down to zero).
pub open spec fn reserve_after_spec(config: PooledCpuBudgetConfig, reserve: u64, consumed_ms: u64) -> u64 {
    if consumed_ms <= config.base_ms {
        let banked = sat_add(reserve, (config.base_ms - consumed_ms) as u64);
        if banked < config.reserve_cap_ms {
            banked
        } else {
            config.reserve_cap_ms
        }
    } else {
        sat_sub(reserve, (consumed_ms - config.base_ms) as u64)
    }
}

impl PooledCpuBudget {
    /// The pool's configuration.
    pub closed spec fn config_spec(self) -> PooledCpuBudgetConfig {
        self.config
    }

    /// The banked reserve.
    pub closed spec fn reserve_spec(self) -> u64 {
        self.reserve_ms
    }

    /// The banked reserve never exceeds the cap.
    #[verifier::type_invariant]
    closed spec fn reserve_within_cap(self) -> bool {
        self.reserve_ms <= self.config.reserve_cap_ms
    }

    /// A pool with an empty reserve.
    pub fn new(config: PooledCpuBudgetConfig) -> (r: Self)
        ensures
            r.config_spec() == config,
            r.reserve_spec() == 0,
    {
        Self { config, reserve_ms: 0 }
    }

    /// The banked reserve, in milliseconds.
    pub fn reserve_ms(self) -> (r: u64)
        ensures
            r == self.reserve_spec(),
            r <= self.config_spec().reserve_cap_ms,
    {
        proof {
            use_type_invariant(&self);
        }
        self.reserve_ms
    }

    /// The budget for the next move: the base plus the whole reserve
    /// (saturating), never above the per-move maximum.
    pub fn next_budget_ms(self) -> (r: u64)
        ensures
            r == move_budget_spec(self.config_spec(), self.reserve_spec()),
    {
        let full = self.config.base_ms.saturating_add(self.reserve_ms);
        match self.config.max_move_ms {
            Some(m) => {
                if full < m {
                    full
                } else {
                    m
                }
            },
            None => full,
        }
    }

    /// Records a move that consumed `consumed_ms` and updates the reserve.
    pub fn record_move(&mut self, consumed_ms: u64) -> (r: PooledCpuBudgetSnapshot)
        ensures
            final(self).config_spec() == old(self).config_spec(),
            final(self).reserve_spec() == reserve_after_spec(
                old(self).config_spec(),
                old(self).reserve_spec(),
                consumed_ms,
            ),
            r.base_ms == old(self).config_spec().base_ms,
            r.move_budget_ms == move_budget_spec(old(self).config_spec(), old(self).reserve_spec()),
            r.reserve_cap_ms == old(self).config_spec().reserve_cap_ms,
            r.reserve_before_ms == old(self).reserve_spec(),
            r.reserve_after_ms == final(self).reserve_spec(),
            r.consumed_ms == consumed_ms,
            r.reserve_exhausted == (consumed_ms >= r.move_budget_ms && r.move_budget_ms > 0),
    {
        proof {
            use_type_invariant(&*self);
        }
        let reserve_before_ms = self.reserve_ms;
        let move_budget_ms = self.next_budget_ms();
        let reserve_after_ms = if consumed_ms <= self.config.base_ms {
            let banked = reserve_before_ms.saturating_add(self.config.base_ms - consumed_ms);
            if banked < self.config.reserve_cap_ms {
                banked
            } else {
                self.config.reserve_cap_ms
            }
        } else {
            reserve_before_ms.saturating_sub(consumed_ms - self.config.base_ms)
        };
        self.reserve_ms = reserve_after_ms;
        PooledCpuBudgetSnapshot {
            base_ms: self.config.base_ms,
            move_budget_ms,
            reserve_cap_ms: self.config.reserve_cap_ms,
            reserve_before_ms,
            reserve_after_ms,
            consumed_ms,
            reserve_exhausted: consumed_ms >= move_budget_ms && move_budget_ms > 0,
        }
    }
}

/// Law: whatever a move consumed, a reserve within the cap stays within the
/// cap.
pub proof fn law_reserve_stays_within_cap(config: PooledCpuBudgetConfig, reserve: u64, consumed_ms: u64)
    requires
        reserve <= config.reserve_cap_ms,
    ensures
        reserve_after_spec(config, reserve, consumed_ms) <= config.reserve_cap_ms,
{
}

/// Law: a move that stays within its base budget never shrinks the reserve,
/// and a move that goes over it never grows the reserve.
pub proof fn law_reserve_moves_with_savings(config: PooledCpuBudgetConfig, reserve: u64, consumed_ms: u64)
    requires
        reserve <= config.reserve_cap_ms,
    ensures
        consumed_ms <= config.base_ms ==> reserve_after_spec(config, reserve, consumed_ms) >= reserve,
        consumed_ms > config.base_ms ==> reserve_after_spec(config, reserve, consumed_ms) <= reserve,
{
}

/// Law: no single move is budgeted above the configured per-move maximum.
pub proof fn law_move_budget_within_max(config: PooledCpuBudgetConfig, reserve: u64, max_ms: u64)
    requires
        config.max_move_ms == Some(max_ms),
    ensures
        move_budget_spec(config, reserve) <= max_ms,
{
}

/// Law: the budget granted for a move is never below the base budget when
/// the per-move maximum (if any) is at least the base, so a move is then
/// only reported as exhausting its budget when it used at least the base
/// budget.
pub proof fn law_exhaustion_needs_base_budget(config: PooledCpuBudgetConfig, reserve: u64, consumed_ms: u64)
    requires
        match config.max_move_ms {
            Some(m) => m >= config.base_ms,
            None => true,
        },
    ensures
        move_budget_spec(config, reserve) >= config.base_ms,
        (consumed_ms >= move_budget_spec(config, reserve) && move_budget_spec(config, reserve) > 0)
            ==> consumed_ms >= config.base_ms,
{
}

/// The pooled budget configuration the options give, or why they cannot
/// give one: pooled budgeting needs a CPU-time base and no wall-clock
/// budget, and a per-move maximum must not be below the base.
pub open spec fn pooled_config_spec(
    search_time_ms: Option<u64>,
    search_cpu_time_ms: Option<u64>,
    search_cpu_reserve_ms: u64,
    search_cpu_max_move_ms: Option<u64>,
) -> Result<PooledCpuBudgetConfig, Seq<char>> {
    if search_time_ms is Some {
        Err("Pooled search budgeting currently supports --search-cpu-time-ms, not --search-time-ms."@)
    } else if search_cpu_time_ms is None {
        Err("Pooled search budgeting requires --search-cpu-time-ms."@)
    } else if search_cpu_max_move_ms is Some && search_cpu_max_move_ms->0 < search_cpu_time_ms->0 {
        Err("--search-cpu-max-move-ms must be greater than or equal to --search-cpu-time-ms."@)
    } else {
        Ok(
            PooledCpuBudgetConfig {
                base_ms: search_cpu_time_ms->0,
                reserve_cap_ms: search_cpu_reserve_ms,
                max_move_ms: search_cpu_max_move_ms,
            },
        )
    }
}

/// Checks the search options for pooled budgeting and builds the budget
/// configuration of a pooled search bot.
pub fn pooled_budget_config(
    search_time_ms: Option<u64>,
    search_cpu_time_ms: Option<u64>,
    search_cpu_reserve_ms: u64,
    search_cpu_max_move_ms: Option<u64>,
) -> (r: Result<PooledCpuBudgetConfig, String>)
    ensures
        match (r, pooled_config_spec(search_time_ms, search_cpu_time_ms, search_cpu_reserve_ms, search_cpu_max_move_ms)) {
            (Ok(c), Ok(e)) => c == e,
            (Err(m), Err(e)) => m@ == e,
            _ => false,
        },
{
    if search_time_ms.is_some() {
        return Err(
            String::from_str(
                "Pooled search budgeting currently supports --search-cpu-time-ms, not --search-time-ms.",
            ),
        );
    }
    let base_ms = match search_cpu_time_ms {
        Some(b) => b,
        None => {
            return Err(String::from_str("Pooled search budgeting requires --search-cpu-time-ms."));
        },
    };
    match search_cpu_max_move_ms {
        Some(m) => {
            if m < base_ms {
                return Err(
                    String::from_str(
                        "--search-cpu-max-move-ms must be greater than or equal to --search-cpu-time-ms.",
                    ),
                );
            }
        },
        None => {},
    }
    Ok(
        PooledCpuBudgetConfig {
            base_ms,
            reserve_cap_ms: search_cpu_reserve_ms,
            max_move_ms: search_cpu_max_move_ms,
        },
    )
}

} // verus!
