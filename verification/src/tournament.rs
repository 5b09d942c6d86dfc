//! Tournament planning: which bots take part and which pairs play, for the
//! round-robin, head-to-head and gauntlet schedules.
use vstd::prelude::*;
use crate::text::{
    chars_of, is_white_space, split_chars, split_spec, str_eq, string_from_chars, strings_view,
    trim_chars, trim_end_spec, trim_spec, trim_start_spec, vecs_view,
};

verus! {

/// Pairing workflow of a tournament.
#[derive(Debug, Clone, Copy, PartialEq, Eq, Structural)]
pub enum CliTournamentSchedule {
    RoundRobin,
    HeadToHead,
    Gauntlet,
}

/// The schedule's label.
pub open spec fn schedule_label_spec(s: CliTournamentSchedule) -> Seq<char> {
    match s {
        CliTournamentSchedule::RoundRobin => "round-robin"@,
        CliTournamentSchedule::HeadToHead => "head-to-head"@,
        CliTournamentSchedule::Gauntlet => "gauntlet"@,
    }
}

impl CliTournamentSchedule {
    /// `round-robin`, `head-to-head` or `gauntlet`.
    pub fn label(self) -> (r: &'static str)
        ensures
            r@ == schedule_label_spec(self),
    {
        match self {
            CliTournamentSchedule::RoundRobin => "round-robin",
            CliTournamentSchedule::HeadToHead => "head-to-head",
            CliTournamentSchedule::Gauntlet => "gauntlet",
        }
    }
}

/// How often to report progress: every twentieth of the games (at least
/// every game), or never when there are no games.
pub fn tournament_progress_interval(total_games: usize) -> (r: Option<usize>)
    ensures
        total_games == 0 ==> r is None,
        total_games > 0 ==> r == Some(if total_games / 20 >= 1 {
            total_games / 20
        } else {
            1
        }),
{
    if total_games == 0 {
        None
    } else {
        let n = total_games / 20;
        Some(if n >= 1 {
            n
        } else {
            1
        })
    }
}

/// One scheduled pairing, by index into the plan's bot names.
#[derive(Debug, Clone, Copy, PartialEq, Eq, Structural)]
pub struct TournamentPair {
    pub bot_a_idx: usize,
    pub bot_b_idx: usize,
}

/// Bots, anchors, anchor report and pairings of a tournament.
#[derive(Debug, Clone, PartialEq, Eq)]
pub struct TournamentPlan {
    pub bot_names: Vec<String>,
    pub anchor_names: Vec<String>,
    pub anchor_report: Option<String>,
    pub pairs: Vec<TournamentPair>,
}

/// The plan with its strings taken as character sequences.
pub struct PlanView {
    pub bot_names: Seq<Seq<char>>,
    pub anchor_names: Seq<Seq<char>>,
    pub anchor_report: Option<Seq<char>>,
    pub pairs: Seq<TournamentPair>,
}

impl TournamentPlan {
    /// The plan with its strings taken as character sequences.
    pub open spec fn view_spec(&self) -> PlanView {
        PlanView {
            bot_names: strings_view(self.bot_names@),
            anchor_names: strings_view(self.anchor_names@),
            anchor_report: match self.anchor_report {
                Some(s) => Some(s@),
                None => None,
            },
            pairs: self.pairs@,
        }
    }
}

/// The pairs `(i, j)` for `j` from `i + 1` to `n - 1`.
pub open spec fn rr_row(i: nat, n: nat) -> Seq<TournamentPair> {
    Seq::new(
        (if i + 1 <= n {
            n - i - 1
        } else {
            0
        }) as nat,
        |k: int| TournamentPair { bot_a_idx: i as usize, bot_b_idx: (i + 1 + k) as usize },
    )
}

/// The round-robin rows of the first `i` bots, in order.
pub open spec fn rr_rows(i: nat, n: nat) -> Seq<TournamentPair>
    decreases i,
{
    if i == 0 {
        Seq::empty()
    } else {
        rr_rows((i - 1) as nat, n) + rr_row((i - 1) as nat, n)
    }
}

/// Every pair `(i, j)` with `i < j < n`, ordered by `i` then `j`.
pub open spec fn round_robin_spec(n: nat) -> Seq<TournamentPair> {
    rr_rows(n, n)
}

/// All round-robin pairings of `n` bots: `(i, j)` for every `i < j`, ordered
/// by `i` then `j`.
pub fn round_robin_pairs(n: usize) -> (r: Vec<TournamentPair>)
    ensures
        r@ == round_robin_spec(n as nat),
{
    let mut pairs: Vec<TournamentPair> = Vec::new();
    let mut i: usize = 0;
    while i < n
        invariant
            i <= n,
            pairs@ == rr_rows(i as nat, n as nat),
        decreases n - i,
    {
        let ghost before = pairs@;
        let mut j: usize = i + 1;
        while j < n
            invariant
                i < n,
                i + 1 <= j <= n,
                pairs@ == before + rr_row(i as nat, n as nat).take(j - i - 1),
            decreases n - j,
        {
            pairs.push(TournamentPair { bot_a_idx: i, bot_b_idx: j });
            assert(rr_row(i as nat, n as nat).take(j - i) =~= rr_row(i as nat, n as nat).take(
                j - i - 1,
            ).push(TournamentPair { bot_a_idx: i, bot_b_idx: j }));
            j += 1;
        }
        assert(rr_row(i as nat, n as nat).take(n - i - 1) =~= rr_row(i as nat, n as nat));
        i += 1;
    }
    pairs
}

/// The pairs `(c, a)` for every anchor index `a` from `first_anchor` to `total - 1`.
pub open spec fn gauntlet_row(c: nat, first_anchor: nat, total: nat) -> Seq<TournamentPair> {
    Seq::new(
        (if first_anchor <= total {
            total - first_anchor
        } else {
            0
        }) as nat,
        |k: int| TournamentPair { bot_a_idx: c as usize, bot_b_idx: (first_anchor + k) as usize },
    )
}

/// The gauntlet rows of the first `c` candidates.
pub open spec fn gauntlet_rows(c: nat, first_anchor: nat, total: nat) -> Seq<TournamentPair>
    decreases c,
{
    if c == 0 {
        Seq::empty()
    } else {
        gauntlet_rows((c - 1) as nat, first_anchor, total) + gauntlet_row(
            (c - 1) as nat,
            first_anchor,
            total,
        )
    }
}

/// Each candidate (indices below `candidates`) against each anchor (the
/// indices from `candidates` to `total - 1`), candidate by candidate.
pub fn gauntlet_pairs(candidates: usize, total: usize) -> (r: Vec<TournamentPair>)
    requires
        candidates <= total,
    ensures
        r@ == gauntlet_rows(candidates as nat, candidates as nat, total as nat),
{
    let mut pairs: Vec<TournamentPair> = Vec::new();
    let mut c: usize = 0;
    while c < candidates
        invariant
            c <= candidates <= total,
            pairs@ == gauntlet_rows(c as nat, candidates as nat, total as nat),
        decreases candidates - c,
    {
        let ghost before = pairs@;
        let mut a: usize = candidates;
        while a < total
            invariant
                c < candidates <= a <= total,
                pairs@ == before + gauntlet_row(c as nat, candidates as nat, total as nat).take(
                    a - candidates,
                ),
            decreases total - a,
        {
            pairs.push(TournamentPair { bot_a_idx: c, bot_b_idx: a });
            assert(gauntlet_row(c as nat, candidates as nat, total as nat).take(
                a + 1 - candidates,
            ) =~= gauntlet_row(c as nat, candidates as nat, total as nat).take(
                a - candidates,
            ).push(TournamentPair { bot_a_idx: c, bot_b_idx: a }));
            a += 1;
        }
        assert(gauntlet_row(c as nat, candidates as nat, total as nat).take(total - candidates)
            =~= gauntlet_row(c as nat, candidates as nat, total as nat));
        c += 1;
    }
    pairs
}

// ---------------------------------------------------------------------
// Bot lists
// ---------------------------------------------------------------------
/// The trimmed pieces that are not empty.
pub open spec fn nonempty_trimmed(pieces: Seq<Seq<char>>) -> Seq<Seq<char>>
    decreases pieces.len(),
{
    if pieces.len() == 0 {
        Seq::empty()
    } else {
        let rest = nonempty_trimmed(pieces.drop_last());
        let t = trim_spec(pieces.last());
        if t.len() > 0 {
            rest.push(t)
        } else {
            rest
        }
    }
}

/// The comma-separated names of a bot list, trimmed, empty ones dropped.
pub open spec fn bot_list_spec(input: Seq<char>) -> Seq<Seq<char>> {
    nonempty_trimmed(split_spec(input, ','))
}

/// The names of a comma-separated bot list, trimmed, empty names dropped.
pub fn parse_bot_list(input: &str) -> (r: Vec<String>)
    ensures
        strings_view(r@) == bot_list_spec(input@),
{
    let chars = chars_of(input);
    let pieces = split_chars(chars.as_slice(), ',');
    let ghost pv = vecs_view(pieces@);
    let mut names: Vec<String> = Vec::new();
    let mut i: usize = 0;
    assert(pv.take(0) =~= Seq::<Seq<char>>::empty());
    while i < pieces.len()
        invariant
            i <= pieces.len(),
            pv == vecs_view(pieces@),
            strings_view(names@) == nonempty_trimmed(pv.take(i as int)),
        decreases pieces.len() - i,
    {
        assert(pv.take(i + 1).drop_last() =~= pv.take(i as int));
        assert(pv.take(i + 1).last() == pieces@[i as int]@);
        let t = trim_chars(pieces[i].as_slice());
        if t.len() > 0 {
            let ghost old_names = names@;
            names.push(string_from_chars(t.as_slice()));
            assert(strings_view(names@) =~= strings_view(old_names).push(t@));
        }
        i += 1;
    }
    assert(pv.take(pieces.len() as int) =~= pv);
    names
}

/// The optional text's characters.
pub open spec fn opt_view(o: Option<&str>) -> Option<Seq<char>> {
    match o {
        Some(s) => Some(s@),
        None => None,
    }
}

/// A required bot list: its names, or `message` when it is missing or empty.
#[verifier::opaque]
pub open spec fn required_list_spec(input: Option<Seq<char>>, message: Seq<char>) -> Result<
    Seq<Seq<char>>,
    Seq<char>,
> {
    match input {
        None => Err(message),
        Some(s) => if bot_list_spec(s).len() == 0 {
            Err(message)
        } else {
            Ok(bot_list_spec(s))
        },
    }
}

/// The names of a required bot list; `message` when it is missing or names
/// no bot.
pub fn parse_required_bot_list(input: Option<&str>, message: &str) -> (r: Result<
    Vec<String>,
    String,
>)
    ensures
        match r {
            Ok(v) => required_list_spec(opt_view(input), message@) == Ok::<
                Seq<Seq<char>>,
                Seq<char>,
            >(strings_view(v@)),
            Err(e) => required_list_spec(opt_view(input), message@) == Err::<
                Seq<Seq<char>>,
                Seq<char>,
            >(e@),
        },
{
    reveal(required_list_spec);
    match input {
        None => Err(String::from_str(message)),
        Some(s) => {
            let names = parse_bot_list(s);
            if names.len() == 0 {
                Err(String::from_str(message))
            } else {
                Ok(names)
            }
        },
    }
}

/// Gauntlet candidates from `--candidate` (exactly one bot) or
/// `--candidates` (a list), never both.
#[verifier::opaque]
pub open spec fn gauntlet_candidates_spec(
    candidate: Option<Seq<char>>,
    candidates: Option<Seq<char>>,
) -> Result<Seq<Seq<char>>, Seq<char>> {
    match (candidate, candidates) {
        (Some(_), Some(_)) => Err(
            "Gauntlet tournament uses either --candidate or --candidates, not both."@,
        ),
        (Some(c), None) => match required_list_spec(
            Some(c),
            "Gauntlet tournament requires --candidate or --candidates."@,
        ) {
            Err(m) => Err(m),
            Ok(names) => if names.len() != 1 {
                Err(
                    "Gauntlet --candidate accepts exactly 1 bot; use --candidates for batch gauntlets."@,
                )
            } else {
                Ok(names)
            },
        },
        (None, Some(cs)) => required_list_spec(
            Some(cs),
            "Gauntlet tournament requires --candidate or --candidates."@,
        ),
        (None, None) => Err("Gauntlet tournament requires --candidate or --candidates."@),
    }
}

/// The gauntlet candidates; an error when both or neither option is given,
/// or when `--candidate` does not name exactly one bot.
pub fn parse_gauntlet_candidates(candidate: Option<&str>, candidates: Option<&str>) -> (r: Result<
    Vec<String>,
    String,
>)
    ensures
        match r {
            Ok(v) => gauntlet_candidates_spec(opt_view(candidate), opt_view(candidates)) == Ok::<
                Seq<Seq<char>>,
                Seq<char>,
            >(strings_view(v@)),
            Err(e) => gauntlet_candidates_spec(opt_view(candidate), opt_view(candidates)) == Err::<
                Seq<Seq<char>>,
                Seq<char>,
            >(e@),
        },
{
    reveal(gauntlet_candidates_spec);
    reveal(required_list_spec);
    match (candidate, candidates) {
        (Some(_), Some(_)) => Err(
            String::from_str("Gauntlet tournament uses either --candidate or --candidates, not both."),
        ),
        (Some(c), None) => {
            match parse_required_bot_list(
                Some(c),
                "Gauntlet tournament requires --candidate or --candidates.",
            ) {
                Err(e) => Err(e),
                Ok(names) => {
                    if names.len() != 1 {
                        Err(
                            String::from_str(
                                "Gauntlet --candidate accepts exactly 1 bot; use --candidates for batch gauntlets.",
                            ),
                        )
                    } else {
                        Ok(names)
                    }
                },
            }
        },
        (None, Some(cs)) => parse_required_bot_list(
            Some(cs),
            "Gauntlet tournament requires --candidate or --candidates.",
        ),
        (None, None) => Err(
            String::from_str("Gauntlet tournament requires --candidate or --candidates."),
        ),
    }
}

/// The refusal of candidate/anchor options outside the gauntlet schedule.
#[verifier::opaque]
pub open spec fn reject_gauntlet_args_spec(
    schedule: CliTournamentSchedule,
    candidate: Option<Seq<char>>,
    candidates: Option<Seq<char>>,
    anchors: Option<Seq<char>>,
) -> Result<(), Seq<char>> {
    if candidate is Some || candidates is Some || anchors is Some {
        Err(
            schedule_label_spec(schedule)
                + " tournament uses --bots, not --candidate/--candidates/--anchors."@,
        )
    } else {
        Ok(())
    }
}

/// Refuses `--candidate`, `--candidates` and `--anchors` for a schedule that
/// takes `--bots`.
pub fn reject_gauntlet_args(
    schedule: CliTournamentSchedule,
    candidate: Option<&str>,
    candidates: Option<&str>,
    anchors: Option<&str>,
) -> (r: Result<(), String>)
    ensures
        match r {
            Ok(_) => reject_gauntlet_args_spec(
                schedule,
                opt_view(candidate),
                opt_view(candidates),
                opt_view(anchors),
            ) is Ok,
            Err(e) => reject_gauntlet_args_spec(
                schedule,
                opt_view(candidate),
                opt_view(candidates),
                opt_view(anchors),
            ) == Err::<(), Seq<char>>(e@),
        },
{
    reveal(reject_gauntlet_args_spec);
    if candidate.is_some() || candidates.is_some() || anchors.is_some() {
        let mut m = String::from_str(schedule.label());
        m.append(" tournament uses --bots, not --candidate/--candidates/--anchors.");
        Err(m)
    } else {
        Ok(())
    }
}

/// The refusal of `--anchor-report` outside the gauntlet schedule.
#[verifier::opaque]
pub open spec fn reject_anchor_report_spec(
    schedule: CliTournamentSchedule,
    anchor_report: Option<Seq<char>>,
) -> Result<(), Seq<char>> {
    if anchor_report is Some {
        Err(schedule_label_spec(schedule) + " tournament does not use --anchor-report."@)
    } else {
        Ok(())
    }
}

/// Refuses `--anchor-report` for a schedule other than the gauntlet.
pub fn reject_anchor_report_args(schedule: CliTournamentSchedule, anchor_report: Option<&str>) -> (r:
    Result<(), String>)
    ensures
        match r {
            Ok(_) => reject_anchor_report_spec(schedule, opt_view(anchor_report)) is Ok,
            Err(e) => reject_anchor_report_spec(schedule, opt_view(anchor_report)) == Err::<
                (),
                Seq<char>,
            >(e@),
        },
{
    reveal(reject_anchor_report_spec);
    if anchor_report.is_some() {
        let mut m = String::from_str(schedule.label());
        m.append(" tournament does not use --anchor-report.");
        Err(m)
    } else {
        Ok(())
    }
}

/// Some later name repeats the name at `idx`.
pub open spec fn repeated_later(names: Seq<Seq<char>>, idx: int) -> bool {
    exists|j: int| idx < j < names.len() && names[j] == names[idx]
}

/// Every name occurs once.
pub open spec fn all_distinct(names: Seq<Seq<char>>) -> bool {
    forall|i: int, j: int| 0 <= i < j < names.len() ==> names[i] != names[j]
}

/// The first name that occurs again later, if any.
#[verifier::opaque]
pub open spec fn first_duplicate(names: Seq<Seq<char>>) -> Option<Seq<char>> {
    if exists|idx: int| 0 <= idx < names.len() && repeated_later(names, idx) {
        let idx = choose|idx: int|
            0 <= idx < names.len() && repeated_later(names, idx) && forall|k: int|
                0 <= k < idx ==> !repeated_later(names, k);
        Some(names[idx])
    } else {
        None
    }
}

/// What the duplicate check returns: an error naming the first repeated name.
#[verifier::opaque]
pub open spec fn unique_names_spec(names: Seq<Seq<char>>) -> Result<(), Seq<char>> {
    match first_duplicate(names) {
        Some(n) => Err("Duplicate bot in tournament schedule: "@ + n),
        None => Ok(()),
    }
}

proof fn lemma_first_duplicate_at(names: Seq<Seq<char>>, idx: int)
    requires
        0 <= idx < names.len(),
        repeated_later(names, idx),
        forall|k: int| 0 <= k < idx ==> !repeated_later(names, k),
    ensures
        unique_names_spec(names) == Err::<(), Seq<char>>(
            "Duplicate bot in tournament schedule: "@ + names[idx],
        ),
{
    reveal(first_duplicate);
    reveal(unique_names_spec);
    let c = choose|c: int|
        0 <= c < names.len() && repeated_later(names, c) && forall|k: int|
            0 <= k < c ==> !repeated_later(names, k);
    assert(c == idx) by {
        if c < idx {
            assert(!repeated_later(names, c));
        } else if c > idx {
            assert(!repeated_later(names, idx));
        }
    }
}

proof fn lemma_duplicate_found(sv: Seq<Seq<char>>, idx: int, j: int)
    requires
        0 <= idx < j < sv.len(),
        sv[j] == sv[idx],
        forall|k: int| 0 <= k < idx ==> !repeated_later(sv, k),
    ensures
        unique_names_spec(sv) == Err::<(), Seq<char>>(
            "Duplicate bot in tournament schedule: "@ + sv[idx],
        ),
        !all_distinct(sv),
{
    assert(repeated_later(sv, idx));
    lemma_first_duplicate_at(sv, idx);
}

proof fn lemma_no_duplicate(sv: Seq<Seq<char>>)
    requires
        forall|k: int| 0 <= k < sv.len() ==> !repeated_later(sv, k),
    ensures
        unique_names_spec(sv) is Ok,
        all_distinct(sv),
{
    reveal(first_duplicate);
    reveal(unique_names_spec);
    assert forall|i: int, j: int| 0 <= i < j < sv.len() implies sv[i] != sv[j] by {
        assert(!repeated_later(sv, i));
    }
}

/// Refuses a list that names some bot twice, naming the first repeated bot.
pub fn validate_unique_bot_names(bot_names: &[String]) -> (r: Result<(), String>)
    ensures
        match r {
            Ok(_) => unique_names_spec(strings_view(bot_names@)) is Ok,
            Err(e) => unique_names_spec(strings_view(bot_names@)) == Err::<(), Seq<char>>(e@),
        },
        r is Ok <==> all_distinct(strings_view(bot_names@)),
{
    let ghost sv = strings_view(bot_names@);
    let n = bot_names.len();
    let mut idx: usize = 0;
    while idx < n
        invariant
            n == bot_names@.len(),
            sv == strings_view(bot_names@),
            idx <= n,
            forall|k: int| 0 <= k < idx ==> !repeated_later(sv, k),
        decreases n - idx,
    {
        let mut j: usize = idx + 1;
        while j < n
            invariant
                n == bot_names@.len(),
                sv == strings_view(bot_names@),
                idx < n,
                idx + 1 <= j <= n,
                forall|k: int| 0 <= k < idx ==> !repeated_later(sv, k),
                forall|m: int| idx < m < j ==> sv[m] != sv[idx as int],
            decreases n - j,
        {
            if str_eq(bot_names[j].as_str(), bot_names[idx].as_str()) {
                proof {
                    lemma_duplicate_found(sv, idx as int, j as int);
                }
                let mut m = String::from_str("Duplicate bot in tournament schedule: ");
                m.append(bot_names[idx].as_str());
                return Err(m);
            }
            j += 1;
        }
        assert(!repeated_later(sv, idx as int));
        idx += 1;
    }
    proof {
        lemma_no_duplicate(sv);
    }
    Ok(())
}

// ---------------------------------------------------------------------
// The plan
// ---------------------------------------------------------------------
/// The plan of a round-robin or head-to-head schedule, given its bot list.
pub open spec fn bots_schedule_spec(
    schedule: CliTournamentSchedule,
    bots: Option<Seq<char>>,
    candidate: Option<Seq<char>>,
    candidates: Option<Seq<char>>,
    anchors: Option<Seq<char>>,
    anchor_report: Option<Seq<char>>,
) -> Result<PlanView, Seq<char>> {
    let round_robin = schedule == CliTournamentSchedule::RoundRobin;
    let missing = if round_robin {
        "Round-robin tournament requires --bots."@
    } else {
        "Head-to-head tournament requires --bots."@
    };
    if reject_anchor_report_spec(schedule, anchor_report) is Err {
        Err(reject_anchor_report_spec(schedule, anchor_report)->Err_0)
    } else if reject_gauntlet_args_spec(schedule, candidate, candidates, anchors) is Err {
        Err(reject_gauntlet_args_spec(schedule, candidate, candidates, anchors)->Err_0)
    } else {
        match required_list_spec(bots, missing) {
            Err(m) => Err(m),
            Ok(names) => if round_robin && names.len() < 2 {
                Err("Round-robin tournament requires at least 2 bots."@)
            } else if !round_robin && names.len() != 2 {
                Err("Head-to-head tournament requires exactly 2 bots."@)
            } else {
                match unique_names_spec(names) {
                    Err(m) => Err(m),
                    Ok(_) => Ok(
                        PlanView {
                            bot_names: names,
                            anchor_names: Seq::empty(),
                            anchor_report: None,
                            pairs: if round_robin {
                                round_robin_spec(names.len())
                            } else {
                                seq![TournamentPair { bot_a_idx: 0, bot_b_idx: 1 }]
                            },
                        },
                    ),
                }
            },
        }
    }
}

/// The plan of a gauntlet schedule.
pub open spec fn gauntlet_schedule_spec(
    bots: Option<Seq<char>>,
    candidate: Option<Seq<char>>,
    candidates: Option<Seq<char>>,
    anchors: Option<Seq<char>>,
    anchor_report: Option<Seq<char>>,
) -> Result<PlanView, Seq<char>> {
    if bots is Some {
        Err(
            "Gauntlet tournament uses --candidate/--candidates and --anchors instead of --bots."@,
        )
    } else {
        match gauntlet_candidates_spec(candidate, candidates) {
            Err(m) => Err(m),
            Ok(cands) => match required_list_spec(
                anchors,
                "Gauntlet tournament requires --anchors."@,
            ) {
                Err(m) => Err(m),
                Ok(anch) => match unique_names_spec(cands + anch) {
                    Err(m) => Err(m),
                    Ok(_) => Ok(
                        PlanView {
                            bot_names: cands + anch,
                            anchor_names: anch,
                            anchor_report: anchor_report,
                            pairs: gauntlet_rows(
                                cands.len(),
                                cands.len(),
                                (cands.len() + anch.len()) as nat,
                            ),
                        },
                    ),
                },
            },
        }
    }
}

/// The plan a schedule and its options describe, or the error text.
pub open spec fn tournament_plan_spec(
    schedule: CliTournamentSchedule,
    bots: Option<Seq<char>>,
    candidate: Option<Seq<char>>,
    candidates: Option<Seq<char>>,
    anchors: Option<Seq<char>>,
    anchor_report: Option<Seq<char>>,
) -> Result<PlanView, Seq<char>> {
    match schedule {
        CliTournamentSchedule::Gauntlet => gauntlet_schedule_spec(
            bots,
            candidate,
            candidates,
            anchors,
            anchor_report,
        ),
        _ => bots_schedule_spec(schedule, bots, candidate, candidates, anchors, anchor_report),
    }
}

fn bots_schedule_plan(
    schedule: CliTournamentSchedule,
    bots: Option<&str>,
    candidate: Option<&str>,
    candidates: Option<&str>,
    anchors: Option<&str>,
    anchor_report: Option<&str>,
) -> (r: Result<TournamentPlan, String>)
    requires
        schedule != CliTournamentSchedule::Gauntlet,
    ensures
        match r {
            Ok(p) => bots_schedule_spec(
                schedule,
                opt_view(bots),
                opt_view(candidate),
                opt_view(candidates),
                opt_view(anchors),
                opt_view(anchor_report),
            ) == Ok::<PlanView, Seq<char>>(p.view_spec()),
            Err(e) => bots_schedule_spec(
                schedule,
                opt_view(bots),
                opt_view(candidate),
                opt_view(candidates),
                opt_view(anchors),
                opt_view(anchor_report),
            ) == Err::<PlanView, Seq<char>>(e@),
        },
{
    let round_robin = match schedule {
        CliTournamentSchedule::RoundRobin => true,
        _ => false,
    };
    if let Err(e) = reject_anchor_report_args(schedule, anchor_report) {
        return Err(e);
    }
    if let Err(e) = reject_gauntlet_args(schedule, candidate, candidates, anchors) {
        return Err(e);
    }
    let missing = if round_robin {
        "Round-robin tournament requires --bots."
    } else {
        "Head-to-head tournament requires --bots."
    };
    let bot_names = match parse_required_bot_list(bots, missing) {
        Err(e) => {
            return Err(e);
        },
        Ok(v) => v,
    };
    if round_robin && bot_names.len() < 2 {
        return Err(String::from_str("Round-robin tournament requires at least 2 bots."));
    }
    if !round_robin && bot_names.len() != 2 {
        return Err(String::from_str("Head-to-head tournament requires exactly 2 bots."));
    }
    if let Err(e) = validate_unique_bot_names(bot_names.as_slice()) {
        return Err(e);
    }
    let pairs = if round_robin {
        round_robin_pairs(bot_names.len())
    } else {
        let mut v: Vec<TournamentPair> = Vec::new();
        v.push(TournamentPair { bot_a_idx: 0, bot_b_idx: 1 });
        v
    };
    let plan = TournamentPlan {
        bot_names,
        anchor_names: Vec::new(),
        anchor_report: None,
        pairs,
    };
    assert(strings_view(plan.anchor_names@) =~= Seq::<Seq<char>>::empty());
    Ok(plan)
}

fn gauntlet_plan(
    bots: Option<&str>,
    candidate: Option<&str>,
    candidates: Option<&str>,
    anchors: Option<&str>,
    anchor_report: Option<&str>,
) -> (r: Result<TournamentPlan, String>)
    ensures
        match r {
            Ok(p) => gauntlet_schedule_spec(
                opt_view(bots),
                opt_view(candidate),
                opt_view(candidates),
                opt_view(anchors),
                opt_view(anchor_report),
            ) == Ok::<PlanView, Seq<char>>(p.view_spec()),
            Err(e) => gauntlet_schedule_spec(
                opt_view(bots),
                opt_view(candidate),
                opt_view(candidates),
                opt_view(anchors),
                opt_view(anchor_report),
            ) == Err::<PlanView, Seq<char>>(e@),
        },
{
    if bots.is_some() {
        return Err(
            String::from_str(
                "Gauntlet tournament uses --candidate/--candidates and --anchors instead of --bots.",
            ),
        );
    }
    let candidate_names = match parse_gauntlet_candidates(candidate, candidates) {
        Err(e) => {
            return Err(e);
        },
        Ok(v) => v,
    };
    let anchor_names = match parse_required_bot_list(
        anchors,
        "Gauntlet tournament requires --anchors.",
    ) {
        Err(e) => {
            return Err(e);
        },
        Ok(v) => v,
    };
    let candidate_count = candidate_names.len();
    let mut bot_names = candidate_names;
    let mut k: usize = 0;
    let ghost cands = strings_view(bot_names@);
    while k < anchor_names.len()
        invariant
            k <= anchor_names.len(),
            bot_names.len() == candidate_count + k,
            cands.len() == candidate_count,
            strings_view(bot_names@) == cands + strings_view(anchor_names@).take(k as int),
        decreases anchor_names.len() - k,
    {
        let ghost before = bot_names@;
        let name = anchor_names[k].clone();
        assert(name@ == anchor_names@[k as int]@);
        bot_names.push(name);
        assert(bot_names@ == before.push(name));
        assert forall|i: int| 0 <= i < bot_names@.len() implies #[trigger] strings_view(bot_names@)[i]
            == (cands + strings_view(anchor_names@).take(k + 1))[i] by {
            if i < before.len() {
                assert(strings_view(before)[i] == (cands + strings_view(anchor_names@).take(
                    k as int,
                ))[i]);
            }
        }
        assert(strings_view(bot_names@) =~= cands + strings_view(anchor_names@).take(k + 1));
        k += 1;
    }
    assert(strings_view(anchor_names@).take(anchor_names.len() as int) =~= strings_view(
        anchor_names@,
    ));
    if let Err(e) = validate_unique_bot_names(bot_names.as_slice()) {
        return Err(e);
    }
    let pairs = gauntlet_pairs(candidate_count, bot_names.len());
    let report = match anchor_report {
        Some(s) => Some(String::from_str(s)),
        None => None,
    };
    Ok(TournamentPlan { bot_names, anchor_names, anchor_report: report, pairs })
}

/// The tournament plan for a schedule: its bots, anchors, anchor report and
/// pairings, or the error message for options that do not fit the schedule.
pub fn tournament_plan(
    schedule: CliTournamentSchedule,
    bots: Option<&str>,
    candidate: Option<&str>,
    candidates: Option<&str>,
    anchors: Option<&str>,
    anchor_report: Option<&str>,
) -> (r: Result<TournamentPlan, String>)
    ensures
        match r {
            Ok(p) => tournament_plan_spec(
                schedule,
                opt_view(bots),
                opt_view(candidate),
                opt_view(candidates),
                opt_view(anchors),
                opt_view(anchor_report),
            ) == Ok::<PlanView, Seq<char>>(p.view_spec()),
            Err(e) => tournament_plan_spec(
                schedule,
                opt_view(bots),
                opt_view(candidate),
                opt_view(candidates),
                opt_view(anchors),
                opt_view(anchor_report),
            ) == Err::<PlanView, Seq<char>>(e@),
        },
{
    match schedule {
        CliTournamentSchedule::Gauntlet => gauntlet_plan(
            bots,
            candidate,
            candidates,
            anchors,
            anchor_report,
        ),
        _ => bots_schedule_plan(schedule, bots, candidate, candidates, anchors, anchor_report),
    }
}

// ---------------------------------------------------------------------
// Laws
// ---------------------------------------------------------------------
/// `p` comes strictly before `q`, by first index then second index.
pub open spec fn pair_before(p: TournamentPair, q: TournamentPair) -> bool {
    p.bot_a_idx < q.bot_a_idx || (p.bot_a_idx == q.bot_a_idx && p.bot_b_idx < q.bot_b_idx)
}

/// The pair `(a, b)` occurs in `pairs`.
pub open spec fn pair_listed(pairs: Seq<TournamentPair>, a: int, b: int) -> bool {
    exists|k: int|
        0 <= k < pairs.len() && #[trigger] pairs[k] == (TournamentPair {
            bot_a_idx: a as usize,
            bot_b_idx: b as usize,
        })
}

proof fn lemma_rr_rows(i: nat, n: nat)
    requires
        i <= n,
        n <= usize::MAX,
    ensures
        forall|k: int|
            0 <= k < rr_rows(i, n).len() ==> #[trigger] rr_rows(i, n)[k].bot_a_idx < i
                && rr_rows(i, n)[k].bot_a_idx < rr_rows(i, n)[k].bot_b_idx
                && rr_rows(i, n)[k].bot_b_idx < n,
        forall|a: int, b: int|
            0 <= a < i && a < b < n ==> #[trigger] pair_listed(rr_rows(i, n), a, b),
        forall|k1: int, k2: int|
            0 <= k1 < k2 < rr_rows(i, n).len() ==> pair_before(
                #[trigger] rr_rows(i, n)[k1],
                #[trigger] rr_rows(i, n)[k2],
            ),
    decreases i,
{
    if i > 0 {
        let prev = rr_rows((i - 1) as nat, n);
        let row = rr_row((i - 1) as nat, n);
        lemma_rr_rows((i - 1) as nat, n);
        assert(rr_rows(i, n) == prev + row);
        let all = rr_rows(i, n);
        assert forall|k: int| 0 <= k < all.len() implies #[trigger] all[k].bot_a_idx < i
            && all[k].bot_a_idx < all[k].bot_b_idx && all[k].bot_b_idx < n by {
            if k < prev.len() {
                assert(all[k] == prev[k]);
            } else {
                assert(all[k] == row[k - prev.len()]);
            }
        }
        assert forall|k1: int, k2: int| 0 <= k1 < k2 < all.len() implies pair_before(
            #[trigger] all[k1],
            #[trigger] all[k2],
        ) by {
            if k2 < prev.len() {
                assert(all[k1] == prev[k1]);
                assert(all[k2] == prev[k2]);
            } else if k1 < prev.len() {
                assert(all[k1] == prev[k1]);
                assert(prev[k1].bot_a_idx < i - 1);
                assert(all[k2] == row[k2 - prev.len()]);
            } else {
                assert(all[k1] == row[k1 - prev.len()]);
                assert(all[k2] == row[k2 - prev.len()]);
            }
        }
        assert forall|a: int, b: int| 0 <= a < i && a < b < n implies #[trigger] pair_listed(
            rr_rows(i, n),
            a,
            b,
        ) by {
            if a < i - 1 {
                assert(pair_listed(prev, a, b));
                let k = choose|k: int|
                    0 <= k < prev.len() && #[trigger] prev[k] == (TournamentPair {
                        bot_a_idx: a as usize,
                        bot_b_idx: b as usize,
                    });
                assert(rr_rows(i, n)[k] == prev[k]);
            } else {
                let k = prev.len() + (b - a - 1);
                assert(rr_rows(i, n)[k] == row[b - a - 1]);
            }
        }
    }
}

/// Law: a round robin of `n` bots pairs every two distinct bots exactly once:
/// each pair `(i, j)` has `i < j < n`, every such pair occurs, and the pairs
/// are strictly ordered, so none repeats.
pub proof fn law_round_robin_pairs_each_two_bots_once(n: nat)
    requires
        n <= usize::MAX,
    ensures
        forall|k: int|
            0 <= k < round_robin_spec(n).len() ==> #[trigger] round_robin_spec(n)[k].bot_a_idx
                < round_robin_spec(n)[k].bot_b_idx && round_robin_spec(n)[k].bot_b_idx < n,
        forall|a: int, b: int| 0 <= a < b < n ==> #[trigger] pair_listed(round_robin_spec(n), a, b),
        forall|k1: int, k2: int|
            0 <= k1 < k2 < round_robin_spec(n).len() ==> pair_before(
                #[trigger] round_robin_spec(n)[k1],
                #[trigger] round_robin_spec(n)[k2],
            ),
{
    lemma_rr_rows(n, n);
}

proof fn lemma_gauntlet_rows(c: nat, first_anchor: nat, total: nat)
    requires
        first_anchor <= total,
        c <= first_anchor,
        total <= usize::MAX,
    ensures
        forall|k: int|
            0 <= k < gauntlet_rows(c, first_anchor, total).len() ==> #[trigger] gauntlet_rows(
                c,
                first_anchor,
                total,
            )[k].bot_a_idx < c && first_anchor <= gauntlet_rows(c, first_anchor, total)[k].bot_b_idx
                && gauntlet_rows(c, first_anchor, total)[k].bot_b_idx < total,
        gauntlet_rows(c, first_anchor, total).len() == c * (total - first_anchor),
    decreases c,
{
    if c > 0 {
        lemma_gauntlet_rows((c - 1) as nat, first_anchor, total);
        let prev = gauntlet_rows((c - 1) as nat, first_anchor, total);
        let row = gauntlet_row((c - 1) as nat, first_anchor, total);
        let all = gauntlet_rows(c, first_anchor, total);
        assert(all == prev + row);
        assert(all.len() == prev.len() + row.len());
        assert(row.len() == total - first_anchor);
        assert forall|k: int| 0 <= k < all.len() implies #[trigger] all[k].bot_a_idx < c
            && first_anchor <= all[k].bot_b_idx && all[k].bot_b_idx < total by {
            if k < prev.len() {
                assert(all[k] == prev[k]);
            } else {
                assert(all[k] == row[k - prev.len()]);
            }
        }
        assert(c * (total - first_anchor) == (c - 1) * (total - first_anchor) + (total
            - first_anchor)) by (nonlinear_arith);
    } else {
        assert(c * (total - first_anchor) == 0) by (nonlinear_arith)
            requires
                c == 0,
        ;
    }
}

/// Unique-name verdict `Ok` means the names are distinct.
proof fn lemma_unique_ok(names: Seq<Seq<char>>)
    requires
        unique_names_spec(names) is Ok,
    ensures
        all_distinct(names),
{
    reveal(unique_names_spec);
    reveal(first_duplicate);
    assert forall|i: int, j: int| 0 <= i < j < names.len() implies names[i] != names[j] by {
        if names[i] == names[j] {
            assert(repeated_later(names, i));
        }
    }
}

/// Law: every plan that is accepted names each bot once and only pairs bots
/// it names, each pair with two different bots; a gauntlet pairs a
/// candidate (listed first) with an anchor (listed last), every candidate
/// with every anchor.
pub proof fn law_accepted_plan_is_consistent(
    schedule: CliTournamentSchedule,
    bots: Option<Seq<char>>,
    candidate: Option<Seq<char>>,
    candidates: Option<Seq<char>>,
    anchors: Option<Seq<char>>,
    anchor_report: Option<Seq<char>>,
)
    requires
        tournament_plan_spec(schedule, bots, candidate, candidates, anchors, anchor_report) is Ok,
        tournament_plan_spec(
            schedule,
            bots,
            candidate,
            candidates,
            anchors,
            anchor_report,
        )->Ok_0.bot_names.len() <= usize::MAX,
    ensures
        ({
            let p = tournament_plan_spec(
                schedule,
                bots,
                candidate,
                candidates,
                anchors,
                anchor_report,
            )->Ok_0;
            &&& all_distinct(p.bot_names)
            &&& forall|k: int|
                0 <= k < p.pairs.len() ==> #[trigger] p.pairs[k].bot_a_idx < p.pairs[k].bot_b_idx
                    && p.pairs[k].bot_b_idx < p.bot_names.len()
            &&& schedule == CliTournamentSchedule::Gauntlet ==> {
                &&& p.anchor_names.len() >= 1
                &&& p.bot_names.len() > p.anchor_names.len()
                &&& p.bot_names.skip(p.bot_names.len() - p.anchor_names.len()) == p.anchor_names
                &&& p.pairs.len() == (p.bot_names.len() - p.anchor_names.len())
                    * p.anchor_names.len()
                &&& forall|k: int|
                    0 <= k < p.pairs.len() ==> #[trigger] p.pairs[k].bot_a_idx < p.bot_names.len()
                        - p.anchor_names.len() && p.bot_names.len() - p.anchor_names.len()
                        <= p.pairs[k].bot_b_idx
            }
        }),
{
    let p = tournament_plan_spec(schedule, bots, candidate, candidates, anchors, anchor_report)->Ok_0;
    reveal(required_list_spec);
    reveal(gauntlet_candidates_spec);
    match schedule {
        CliTournamentSchedule::Gauntlet => {
            let cands = gauntlet_candidates_spec(candidate, candidates)->Ok_0;
            let anch = required_list_spec(anchors, "Gauntlet tournament requires --anchors."@)->Ok_0;
            lemma_unique_ok(cands + anch);
            assert(cands.len() >= 1);
            lemma_gauntlet_rows(cands.len(), cands.len(), (cands.len() + anch.len()) as nat);
            assert((cands + anch).skip(cands.len() as int) =~= anch);
        },
        CliTournamentSchedule::RoundRobin => {
            lemma_unique_ok(p.bot_names);
            lemma_rr_rows(p.bot_names.len(), p.bot_names.len());
        },
        CliTournamentSchedule::HeadToHead => {
            lemma_unique_ok(p.bot_names);
        },
    }
}

/// A bot name as a plan holds it: not empty, with no whitespace at either
/// end.
pub open spec fn clean_name(n: Seq<char>) -> bool {
    n.len() > 0 && !is_white_space(n[0]) && !is_white_space(n.last())
}

proof fn lemma_trim_end_prefix(s: Seq<char>)
    ensures
        trim_end_spec(s).len() <= s.len(),
        trim_end_spec(s) == s.take(trim_end_spec(s).len() as int),
        trim_end_spec(s).len() > 0 ==> !is_white_space(trim_end_spec(s).last()),
    decreases s.len(),
{
    if s.len() > 0 && is_white_space(s.last()) {
        lemma_trim_end_prefix(s.drop_last());
        let t = trim_end_spec(s.drop_last());
        assert(s.drop_last().take(t.len() as int) =~= s.take(t.len() as int));
    } else {
        assert(s.take(s.len() as int) =~= s);
    }
}

proof fn lemma_trim_start_first(s: Seq<char>)
    ensures
        trim_start_spec(s).len() > 0 ==> !is_white_space(trim_start_spec(s)[0]),
    decreases s.len(),
{
    if s.len() > 0 && is_white_space(s[0]) {
        lemma_trim_start_first(s.drop_first());
    }
}

proof fn lemma_trim_clean(s: Seq<char>)
    ensures
        trim_spec(s).len() > 0 ==> clean_name(trim_spec(s)),
{
    let a = trim_start_spec(s);
    lemma_trim_start_first(s);
    lemma_trim_end_prefix(a);
    let t = trim_end_spec(a);
    if t.len() > 0 {
        assert(t[0] == a.take(t.len() as int)[0]);
    }
}

proof fn lemma_nonempty_trimmed_clean(pieces: Seq<Seq<char>>)
    ensures
        forall|i: int| 0 <= i < nonempty_trimmed(pieces).len() ==> clean_name(#[trigger] nonempty_trimmed(pieces)[i]),
    decreases pieces.len(),
{
    if pieces.len() > 0 {
        lemma_nonempty_trimmed_clean(pieces.drop_last());
        lemma_trim_clean(pieces.last());
        let rest = nonempty_trimmed(pieces.drop_last());
        let t = trim_spec(pieces.last());
        let all = nonempty_trimmed(pieces);
        if t.len() > 0 {
            assert(all == rest.push(t));
            assert forall|i: int| 0 <= i < all.len() implies clean_name(#[trigger] all[i]) by {
                if i < rest.len() {
                    assert(all[i] == rest[i]);
                }
            }
        }
    }
}

proof fn lemma_required_list_clean(input: Option<Seq<char>>, message: Seq<char>)
    requires
        required_list_spec(input, message) is Ok,
    ensures
        forall|i: int| 0 <= i < required_list_spec(input, message)->Ok_0.len() ==> clean_name(
            #[trigger] required_list_spec(input, message)->Ok_0[i],
        ),
{
    reveal(required_list_spec);
    lemma_nonempty_trimmed_clean(split_spec(input->0, ','));
}

/// Law: an accepted plan names its bots trimmed and non-empty, and its
/// pairs are exactly those of the schedule: the one pair `(0, 1)` of two
/// bots head to head, every two bots once in row order for a round robin,
/// and for a gauntlet every candidate (listed first) against every anchor
/// (listed last), candidate by candidate.
pub proof fn law_accepted_plan_shape(
    schedule: CliTournamentSchedule,
    bots: Option<Seq<char>>,
    candidate: Option<Seq<char>>,
    candidates: Option<Seq<char>>,
    anchors: Option<Seq<char>>,
    anchor_report: Option<Seq<char>>,
)
    requires
        tournament_plan_spec(schedule, bots, candidate, candidates, anchors, anchor_report) is Ok,
    ensures
        ({
            let p = tournament_plan_spec(
                schedule,
                bots,
                candidate,
                candidates,
                anchors,
                anchor_report,
            )->Ok_0;
            &&& forall|i: int| 0 <= i < p.bot_names.len() ==> clean_name(#[trigger] p.bot_names[i])
            &&& schedule == CliTournamentSchedule::HeadToHead ==> p.bot_names.len() == 2 && p.pairs
                == seq![TournamentPair { bot_a_idx: 0, bot_b_idx: 1 }]
            &&& schedule == CliTournamentSchedule::RoundRobin ==> p.bot_names.len() >= 2 && p.pairs
                == round_robin_spec(p.bot_names.len())
            &&& schedule == CliTournamentSchedule::Gauntlet ==> p.bot_names.len() > p.anchor_names.len()
                && p.pairs == gauntlet_rows(
                (p.bot_names.len() - p.anchor_names.len()) as nat,
                (p.bot_names.len() - p.anchor_names.len()) as nat,
                p.bot_names.len(),
            )
        }),
{
    reveal(gauntlet_candidates_spec);
    match schedule {
        CliTournamentSchedule::Gauntlet => {
            let cands = gauntlet_candidates_spec(candidate, candidates)->Ok_0;
            let msg = "Gauntlet tournament requires --candidate or --candidates."@;
            let amsg = "Gauntlet tournament requires --anchors."@;
            let anch = required_list_spec(anchors, amsg)->Ok_0;
            lemma_required_list_clean(anchors, amsg);
            if candidate is Some {
                lemma_required_list_clean(candidate, msg);
            } else {
                lemma_required_list_clean(candidates, msg);
            }
            reveal(required_list_spec);
            let all = cands + anch;
            assert forall|i: int| 0 <= i < all.len() implies clean_name(#[trigger] all[i]) by {
                if i < cands.len() {
                    assert(all[i] == cands[i]);
                } else {
                    assert(all[i] == anch[i - cands.len()]);
                }
            }
        },
        CliTournamentSchedule::RoundRobin => {
            lemma_required_list_clean(bots, "Round-robin tournament requires --bots."@);
        },
        CliTournamentSchedule::HeadToHead => {
            lemma_required_list_clean(bots, "Head-to-head tournament requires --bots."@);
        },
    }
}

/// Law: when a round-robin or head-to-head bot list is otherwise fine but
/// names a bot twice, the plan is refused with the first repeated name.
pub proof fn law_repeated_bot_is_refused(
    schedule: CliTournamentSchedule,
    bots: Option<Seq<char>>,
    candidate: Option<Seq<char>>,
    candidates: Option<Seq<char>>,
    anchors: Option<Seq<char>>,
    anchor_report: Option<Seq<char>>,
    i: int,
    j: int,
)
    requires
        schedule != CliTournamentSchedule::Gauntlet,
        reject_anchor_report_spec(schedule, anchor_report) is Ok,
        reject_gauntlet_args_spec(schedule, candidate, candidates, anchors) is Ok,
        bots is Some,
        ({
            let names = bot_list_spec(bots->0);
            &&& (schedule == CliTournamentSchedule::RoundRobin ==> names.len() >= 2)
            &&& (schedule == CliTournamentSchedule::HeadToHead ==> names.len() == 2)
            &&& 0 <= i < j < names.len()
            &&& names[i] == names[j]
        }),
    ensures
        tournament_plan_spec(schedule, bots, candidate, candidates, anchors, anchor_report)
            == Err::<PlanView, Seq<char>>(
            "Duplicate bot in tournament schedule: "@ + first_duplicate(bot_list_spec(bots->0))->0,
        ),
        first_duplicate(bot_list_spec(bots->0)) is Some,
{
    let names = bot_list_spec(bots->0);
    lemma_repeat_gives_duplicate(names, i, j);
    let msg = if schedule == CliTournamentSchedule::RoundRobin {
        "Round-robin tournament requires --bots."@
    } else {
        "Head-to-head tournament requires --bots."@
    };
    assert(required_list_spec(bots, msg) == Ok::<Seq<Seq<char>>, Seq<char>>(names)) by {
        reveal(required_list_spec);
    }
}

proof fn lemma_repeat_gives_duplicate(names: Seq<Seq<char>>, i: int, j: int)
    requires
        0 <= i < j < names.len(),
        names[i] == names[j],
    ensures
        first_duplicate(names) is Some,
        unique_names_spec(names) == Err::<(), Seq<char>>(
            "Duplicate bot in tournament schedule: "@ + first_duplicate(names)->0,
        ),
{
    assert(repeated_later(names, i));
    reveal(first_duplicate);
    reveal(unique_names_spec);
}

} // verus!

verus! {

proof fn lemma_gauntlet_listing(c: nat, first_anchor: nat, total: nat)
    requires
        first_anchor <= total,
        c <= first_anchor,
        total <= usize::MAX,
    ensures
        forall|x: int, a: int|
            0 <= x < c && first_anchor <= a < total ==> #[trigger] pair_listed(
                gauntlet_rows(c, first_anchor, total),
                x,
                a,
            ),
        forall|k1: int, k2: int|
            0 <= k1 < k2 < gauntlet_rows(c, first_anchor, total).len() ==> pair_before(
                #[trigger] gauntlet_rows(c, first_anchor, total)[k1],
                #[trigger] gauntlet_rows(c, first_anchor, total)[k2],
            ),
    decreases c,
{
    lemma_gauntlet_rows(c, first_anchor, total);
    if c > 0 {
        let prev = gauntlet_rows((c - 1) as nat, first_anchor, total);
        let row = gauntlet_row((c - 1) as nat, first_anchor, total);
        lemma_gauntlet_listing((c - 1) as nat, first_anchor, total);
        lemma_gauntlet_rows((c - 1) as nat, first_anchor, total);
        let all = gauntlet_rows(c, first_anchor, total);
        assert(all == prev + row);
        assert forall|k1: int, k2: int| 0 <= k1 < k2 < all.len() implies pair_before(
            #[trigger] all[k1],
            #[trigger] all[k2],
        ) by {
            if k2 < prev.len() {
                assert(all[k1] == prev[k1]);
                assert(all[k2] == prev[k2]);
            } else if k1 < prev.len() {
                assert(all[k1] == prev[k1]);
                assert(prev[k1].bot_a_idx < c - 1);
                assert(all[k2] == row[k2 - prev.len()]);
            } else {
                assert(all[k1] == row[k1 - prev.len()]);
                assert(all[k2] == row[k2 - prev.len()]);
            }
        }
        assert forall|x: int, a: int| 0 <= x < c && first_anchor <= a < total implies #[trigger] pair_listed(
            all,
            x,
            a,
        ) by {
            if x < c - 1 {
                assert(pair_listed(prev, x, a));
                let k = choose|k: int|
                    0 <= k < prev.len() && #[trigger] prev[k] == (TournamentPair {
                        bot_a_idx: x as usize,
                        bot_b_idx: a as usize,
                    });
                assert(all[k] == prev[k]);
            } else {
                let k = prev.len() + (a - first_anchor);
                assert(all[k] == row[a - first_anchor]);
            }
        }
    }
}

/// Law: in a gauntlet every candidate meets every anchor exactly once: each
/// pair is a candidate (index below `candidates`) against an anchor (index
/// from `candidates` to `total - 1`), every such pair occurs, and the pairs
/// are strictly ordered, so none repeats.
pub proof fn law_gauntlet_pairs_each_candidate_with_each_anchor_once(candidates: nat, total: nat)
    requires
        candidates <= total <= usize::MAX,
    ensures
        ({
            let g = gauntlet_rows(candidates, candidates, total);
            &&& g.len() == candidates * (total - candidates)
            &&& forall|k: int| 0 <= k < g.len() ==> #[trigger] g[k].bot_a_idx < candidates
                && candidates <= g[k].bot_b_idx < total
            &&& forall|c: int, a: int| 0 <= c < candidates && candidates <= a < total ==> #[trigger] pair_listed(g, c, a)
            &&& forall|k1: int, k2: int| 0 <= k1 < k2 < g.len() ==> pair_before(#[trigger] g[k1], #[trigger] g[k2])
        }),
{
    lemma_gauntlet_rows(candidates, candidates, total);
    lemma_gauntlet_listing(candidates, candidates, total);
}

} // verus!
