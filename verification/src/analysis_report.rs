//! Sampling head-to-head games out of a tournament report for replay
//! analysis, and decoding the report's cell-index move codec.
use vstd::prelude::*;
use crate::board::{Move, RuleConfig};
use crate::text::{str_eq};

verus! {

/// One game of a tournament report, as replay analysis reads it.
#[derive(Debug, Clone, PartialEq, Eq)]
pub struct ReportReplayMatch {
    pub match_index: usize,
    pub black: String,
    pub white: String,
    pub result: String,
    pub winner: Option<String>,
    pub end_reason: String,
    pub duration_ms: Option<u64>,
    pub move_cells: Vec<usize>,
    pub move_count: usize,
}

/// A game chosen for analysis.
#[derive(Debug, Clone)]
pub struct ReportReplaySelection<'a> {
    pub match_report: &'a ReportReplayMatch,
}

/// The games and standings of a tournament report.
#[derive(Debug, Clone)]
pub struct ReportReplaySource {
    pub board_size: usize,
    pub move_codec: String,
    pub rules: RuleConfig,
    pub standings: Vec<String>,
    pub matches: Vec<ReportReplayMatch>,
}

/// The game was played between `a` and `b`, in either color order.
pub open spec fn is_head_to_head(m: ReportReplayMatch, a: Seq<char>, b: Seq<char>) -> bool {
    (m.black@ == a && m.white@ == b) || (m.black@ == b && m.white@ == a)
}

/// Indices (in order) of the head-to-head games among `all[..n]`.
pub open spec fn h2h_ids(all: Seq<ReportReplayMatch>, n: int, a: Seq<char>, b: Seq<char>) -> Seq<int>
    decreases n,
{
    if n <= 0 {
        Seq::empty()
    } else if is_head_to_head(all[n - 1], a, b) {
        h2h_ids(all, n - 1, a, b).push(n - 1)
    } else {
        h2h_ids(all, n - 1, a, b)
    }
}

/// How games are ordered: by match index, or by move count then match index.
#[derive(Clone, Copy, PartialEq, Eq, Structural)]
pub enum SampleOrder {
    ByIndex,
    ByLength,
}

/// Game `x` sorts strictly after game `y`.
pub open spec fn sorts_after(order: SampleOrder, x: ReportReplayMatch, y: ReportReplayMatch) -> bool {
    match order {
        SampleOrder::ByIndex => x.match_index > y.match_index,
        SampleOrder::ByLength => x.move_count > y.move_count || (x.move_count == y.move_count
            && x.match_index > y.match_index),
    }
}

/// The first position in `s` whose game sorts after game `x`.
pub open spec fn insert_pos(all: Seq<ReportReplayMatch>, s: Seq<int>, x: int, order: SampleOrder) -> int
    decreases s.len(),
{
    if s.len() == 0 {
        0
    } else if sorts_after(order, all[s[0]], all[x]) {
        0
    } else {
        1 + insert_pos(all, s.drop_first(), x, order)
    }
}

/// Stable insertion-sort order of the ids.
pub open spec fn sorted_ids(all: Seq<ReportReplayMatch>, ids: Seq<int>, order: SampleOrder) -> Seq<int>
    decreases ids.len(),
{
    if ids.len() == 0 {
        Seq::empty()
    } else {
        let s = sorted_ids(all, ids.drop_last(), order);
        let p = insert_pos(all, s, ids.last(), order);
        s.take(p).push(ids.last()) + s.skip(p)
    }
}

proof fn lemma_insert_pos_bounds(all: Seq<ReportReplayMatch>, s: Seq<int>, x: int, order: SampleOrder)
    ensures
        0 <= insert_pos(all, s, x, order) <= s.len(),
    decreases s.len(),
{
    if s.len() > 0 {
        lemma_insert_pos_bounds(all, s.drop_first(), x, order);
    }
}

proof fn lemma_sorted_ids_len(all: Seq<ReportReplayMatch>, ids: Seq<int>, order: SampleOrder)
    ensures
        sorted_ids(all, ids, order).len() == ids.len(),
        forall|k: int|
            0 <= k < ids.len() ==> #[trigger] ids.contains(sorted_ids(all, ids, order)[k]),
    decreases ids.len(),
{
    if ids.len() > 0 {
        let prev = sorted_ids(all, ids.drop_last(), order);
        lemma_sorted_ids_len(all, ids.drop_last(), order);
        let p = insert_pos(all, prev, ids.last(), order);
        lemma_insert_pos_bounds(all, prev, ids.last(), order);
        let r = sorted_ids(all, ids, order);
        assert(r == prev.take(p).push(ids.last()) + prev.skip(p));
        assert forall|k: int| 0 <= k < ids.len() implies #[trigger] ids.contains(r[k]) by {
            if k < p {
                assert(r[k] == prev[k]);
                assert(ids.drop_last().contains(prev[k]));
                let j = choose|j: int| 0 <= j < ids.drop_last().len() && ids.drop_last()[j] == prev[k];
                assert(ids[j] == prev[k]);
            } else if k == p {
                assert(r[k] == ids.last());
                assert(ids[ids.len() - 1] == ids.last());
            } else {
                assert(r[k] == prev[k - 1]);
                assert(ids.drop_last().contains(prev[k - 1]));
                let j = choose|j: int|
                    0 <= j < ids.drop_last().len() && ids.drop_last()[j] == prev[k - 1];
                assert(ids[j] == prev[k - 1]);
            }
        }
    }
}

/// The first id whose game is a draw or ended at the move cap.
pub open spec fn first_draw_like(all: Seq<ReportReplayMatch>, ids: Seq<int>) -> Option<int>
    decreases ids.len(),
{
    if ids.len() == 0 {
        None
    } else if all[ids[0]].result@ == "draw"@ || all[ids[0]].end_reason@ == "max_moves"@ {
        Some(ids[0])
    } else {
        first_draw_like(all, ids.drop_first())
    }
}

/// The first id whose game `winner` won with result `result`.
pub open spec fn first_win(all: Seq<ReportReplayMatch>, ids: Seq<int>, winner: Seq<char>, result: Seq<char>) -> Option<int>
    decreases ids.len(),
{
    if ids.len() == 0 {
        None
    } else if all[ids[0]].winner matches Some(w) && w@ == winner && all[ids[0]].result@ == result {
        Some(ids[0])
    } else {
        first_win(all, ids.drop_first(), winner, result)
    }
}

/// The first id of a game with the fewest moves (`ids` nonempty).
pub open spec fn shortest_id(all: Seq<ReportReplayMatch>, ids: Seq<int>) -> int
    decreases ids.len(),
{
    if ids.len() <= 1 {
        ids[0]
    } else {
        let b = shortest_id(all, ids.drop_last());
        if all[ids.last()].move_count < all[b].move_count {
            ids.last()
        } else {
            b
        }
    }
}

/// The last id of a game with the most moves (`ids` nonempty).
pub open spec fn longest_id(all: Seq<ReportReplayMatch>, ids: Seq<int>) -> int
    decreases ids.len(),
{
    if ids.len() <= 1 {
        ids[0]
    } else {
        let b = longest_id(all, ids.drop_last());
        if all[ids.last()].move_count >= all[b].move_count {
            ids.last()
        } else {
            b
        }
    }
}

/// The id of the median game by move count (ties by match index).
pub open spec fn median_id(all: Seq<ReportReplayMatch>, ids: Seq<int>) -> int {
    sorted_ids(all, ids, SampleOrder::ByLength)[(ids.len() / 2) as int]
}

/// `count` ids spread evenly over `ids`, first and last included.
pub open spec fn evenly_spaced_ids(ids: Seq<int>, count: int) -> Seq<int> {
    if ids.len() == 0 {
        Seq::empty()
    } else if count <= 1 {
        seq![ids[0]]
    } else {
        let last = ids.len() - 1;
        Seq::new(count as nat, |i: int| ids[i * last / (count - 1)])
    }
}

/// The id, if any, as a sequence of zero or one ids.
pub open spec fn opt_seq(o: Option<int>) -> Seq<int> {
    match o {
        Some(i) => seq![i],
        None => Seq::<int>::empty(),
    }
}

/// The ids worth a look, in priority order: a draw or capped game, a win of
/// each entrant with each color, the shortest, longest and median games,
/// evenly spaced games, then every game.
pub open spec fn candidate_ids(all: Seq<ReportReplayMatch>, ids: Seq<int>, a: Seq<char>, b: Seq<char>, count: int) -> Seq<int> {
    opt_seq(first_draw_like(all, ids)) + opt_seq(first_win(all, ids, a, "black_won"@)) + opt_seq(
        first_win(all, ids, a, "white_won"@),
    ) + opt_seq(first_win(all, ids, b, "black_won"@)) + opt_seq(first_win(all, ids, b, "white_won"@))
        + seq![shortest_id(all, ids), longest_id(all, ids), median_id(all, ids)]
        + evenly_spaced_ids(ids, count) + ids
}

/// Some chosen id has the same match index as `c`.
pub open spec fn index_taken(all: Seq<ReportReplayMatch>, chosen: Seq<int>, c: int) -> bool {
    exists|k: int| 0 <= k < chosen.len() && all[chosen[k]].match_index == all[c].match_index
}

/// The candidates kept in order, skipping repeated match indices, up to `count`.
pub open spec fn take_distinct(all: Seq<ReportReplayMatch>, cands: Seq<int>, count: int) -> Seq<int>
    decreases cands.len(),
{
    if cands.len() == 0 {
        Seq::empty()
    } else {
        let prev = take_distinct(all, cands.drop_last(), count);
        if prev.len() < count && !index_taken(all, prev, cands.last()) {
            prev.push(cands.last())
        } else {
            prev
        }
    }
}

/// What `select_report_matches` picks, as indices into the report's games.
pub open spec fn selection_spec(all: Seq<ReportReplayMatch>, a: Seq<char>, b: Seq<char>, count: int) -> Result<
    Seq<int>,
    Seq<char>,
> {
    let sorted = sorted_ids(all, h2h_ids(all, all.len() as int, a, b), SampleOrder::ByIndex);
    if count == 0 {
        Err("sample size must be greater than zero"@)
    } else if sorted.len() == 0 {
        Err("report has no head-to-head matches for "@ + a + " vs "@ + b)
    } else if count >= sorted.len() {
        Ok(sorted)
    } else {
        Ok(take_distinct(all, candidate_ids(all, sorted, a, b, count), count))
    }
}

fn match_is_h2h(m: &ReportReplayMatch, a: &str, b: &str) -> (r: bool)
    ensures
        r == is_head_to_head(*m, a@, b@),
{
    (str_eq(m.black.as_str(), a) && str_eq(m.white.as_str(), b)) || (str_eq(m.black.as_str(), b)
        && str_eq(m.white.as_str(), a))
}

fn sorts_after_exec(order: SampleOrder, x: &ReportReplayMatch, y: &ReportReplayMatch) -> (r: bool)
    ensures
        r == sorts_after(order, *x, *y),
{
    match order {
        SampleOrder::ByIndex => x.match_index > y.match_index,
        SampleOrder::ByLength => x.move_count > y.move_count || (x.move_count == y.move_count
            && x.match_index > y.match_index),
    }
}

/// The ids (valid indices into `all`) of `v`.
pub open spec fn ids_view(v: Seq<usize>) -> Seq<int> {
    Seq::new(v.len(), |i: int| v[i] as int)
}

fn sort_ids(all: &Vec<ReportReplayMatch>, ids: &Vec<usize>, order: SampleOrder) -> (r: Vec<usize>)
    requires
        forall|k: int| 0 <= k < ids.len() ==> #[trigger] ids@[k] < all.len(),
    ensures
        ids_view(r@) == sorted_ids(all@, ids_view(ids@), order),
        r.len() == ids.len(),
        forall|k: int| 0 <= k < r.len() ==> #[trigger] r@[k] < all.len(),
{
    let mut out: Vec<usize> = Vec::new();
    let mut i: usize = 0;
    while i < ids.len()
        invariant
            i <= ids.len(),
            forall|k: int| 0 <= k < ids.len() ==> #[trigger] ids@[k] < all.len(),
            ids_view(out@) == sorted_ids(all@, ids_view(ids@).take(i as int), order),
            out.len() == i,
            forall|k: int| 0 <= k < out.len() ==> #[trigger] out@[k] < all.len(),
        decreases ids.len() - i,
    {
        let x = ids[i];
        let ghost s = ids_view(out@);
        assert(ids_view(ids@).take(i + 1).drop_last() =~= ids_view(ids@).take(i as int));
        assert(ids_view(ids@).take(i + 1).last() == x as int);
        let mut p: usize = 0;
        assert(s.skip(0) =~= s);
        while p < out.len() && !sorts_after_exec(order, &all[out[p]], &all[x])
            invariant
                p <= out.len(),
                s == ids_view(out@),
                x < all.len(),
                forall|k: int| 0 <= k < out.len() ==> #[trigger] out@[k] < all.len(),
                insert_pos(all@, s, x as int, order) == p + insert_pos(
                    all@,
                    s.skip(p as int),
                    x as int,
                    order,
                ),
            decreases out.len() - p,
        {
            assert(s.skip(p as int).drop_first() =~= s.skip(p + 1));
            assert(s.skip(p as int)[0] == out@[p as int] as int);
            p += 1;
        }
        proof {
            if p < out.len() {
                assert(s.skip(p as int)[0] == out@[p as int] as int);
            } else {
                assert(s.skip(p as int).len() == 0);
            }
        }
        let ghost before = out@;
        out.insert(p, x);
        assert(ids_view(out@) =~= s.take(p as int).push(x as int) + s.skip(p as int));
        assert forall|k: int| 0 <= k < out.len() implies #[trigger] out@[k] < all.len() by {
            if k < p {
                assert(out@[k] == before[k]);
            } else if k > p {
                assert(out@[k] == before[k - 1]);
            }
        }
        i += 1;
    }
    assert(ids_view(ids@).take(ids.len() as int) =~= ids_view(ids@));
    out
}

fn contains_match_index(all: &Vec<ReportReplayMatch>, chosen: &Vec<usize>, c: usize) -> (r: bool)
    requires
        c < all.len(),
        forall|k: int| 0 <= k < chosen.len() ==> #[trigger] chosen@[k] < all.len(),
    ensures
        r == index_taken(all@, ids_view(chosen@), c as int),
{
    let mut k: usize = 0;
    while k < chosen.len()
        invariant
            k <= chosen.len(),
            c < all.len(),
            forall|j: int| 0 <= j < chosen.len() ==> #[trigger] chosen@[j] < all.len(),
            forall|j: int|
                0 <= j < k ==> all@[ids_view(chosen@)[j]].match_index != all@[c as int].match_index,
        decreases chosen.len() - k,
    {
        if all[chosen[k]].match_index == all[c].match_index {
            assert(ids_view(chosen@)[k as int] == chosen@[k as int]);
            return true;
        }
        k += 1;
    }
    false
}

fn push_distinct(
    all: &Vec<ReportReplayMatch>,
    chosen: &mut Vec<usize>,
    c: usize,
    count: usize,
)
    requires
        c < all.len(),
        forall|k: int| 0 <= k < old(chosen).len() ==> #[trigger] old(chosen)@[k] < all.len(),
    ensures
        forall|k: int| 0 <= k < final(chosen).len() ==> #[trigger] final(chosen)@[k] < all.len(),
        ids_view(final(chosen)@) == (if ids_view(old(chosen)@).len() < count && !index_taken(
            all@,
            ids_view(old(chosen)@),
            c as int,
        ) {
            ids_view(old(chosen)@).push(c as int)
        } else {
            ids_view(old(chosen)@)
        }),
{
    if chosen.len() < count && !contains_match_index(all, chosen, c) {
        let ghost before = chosen@;
        chosen.push(c);
        assert(ids_view(chosen@) =~= ids_view(before).push(c as int));
    }
}

/// The earliest game, sorted by match index, that was a draw or hit the
/// move cap.
fn find_draw_like(all: &Vec<ReportReplayMatch>, ids: &Vec<usize>) -> (r: Option<usize>)
    requires
        forall|k: int| 0 <= k < ids.len() ==> #[trigger] ids@[k] < all.len(),
    ensures
        opt_int(r) == first_draw_like(all@, ids_view(ids@)),
        r matches Some(i) ==> i < all.len(),
{
    let mut k: usize = 0;
    assert(ids_view(ids@).skip(0) =~= ids_view(ids@));
    while k < ids.len()
        invariant
            k <= ids.len(),
            forall|j: int| 0 <= j < ids.len() ==> #[trigger] ids@[j] < all.len(),
            first_draw_like(all@, ids_view(ids@)) == first_draw_like(
                all@,
                ids_view(ids@).skip(k as int),
            ),
        decreases ids.len() - k,
    {
        assert(ids_view(ids@).skip(k as int).drop_first() =~= ids_view(ids@).skip(k + 1));
        assert(ids_view(ids@).skip(k as int)[0] == ids@[k as int] as int);
        let m = &all[ids[k]];
        if str_eq(m.result.as_str(), "draw") || str_eq(m.end_reason.as_str(), "max_moves") {
            return Some(ids[k]);
        }
        k += 1;
    }
    None
}

fn find_win(all: &Vec<ReportReplayMatch>, ids: &Vec<usize>, winner: &str, result: &str) -> (r:
    Option<usize>)
    requires
        forall|k: int| 0 <= k < ids.len() ==> #[trigger] ids@[k] < all.len(),
    ensures
        opt_int(r) == first_win(all@, ids_view(ids@), winner@, result@),
        r matches Some(i) ==> i < all.len(),
{
    let mut k: usize = 0;
    assert(ids_view(ids@).skip(0) =~= ids_view(ids@));
    while k < ids.len()
        invariant
            k <= ids.len(),
            forall|j: int| 0 <= j < ids.len() ==> #[trigger] ids@[j] < all.len(),
            first_win(all@, ids_view(ids@), winner@, result@) == first_win(
                all@,
                ids_view(ids@).skip(k as int),
                winner@,
                result@,
            ),
        decreases ids.len() - k,
    {
        assert(ids_view(ids@).skip(k as int).drop_first() =~= ids_view(ids@).skip(k + 1));
        assert(ids_view(ids@).skip(k as int)[0] == ids@[k as int] as int);
        let m = &all[ids[k]];
        let hit = match &m.winner {
            Some(w) => str_eq(w.as_str(), winner) && str_eq(m.result.as_str(), result),
            None => false,
        };
        if hit {
            return Some(ids[k]);
        }
        k += 1;
    }
    None
}

fn find_extreme(all: &Vec<ReportReplayMatch>, ids: &Vec<usize>, longest: bool) -> (r: usize)
    requires
        ids.len() >= 1,
        forall|k: int| 0 <= k < ids.len() ==> #[trigger] ids@[k] < all.len(),
    ensures
        r < all.len(),
        r as int == (if longest {
            longest_id(all@, ids_view(ids@))
        } else {
            shortest_id(all@, ids_view(ids@))
        }),
{
    let mut best = ids[0];
    let mut k: usize = 1;
    assert(ids_view(ids@).take(1) =~= seq![ids@[0] as int]);
    while k < ids.len()
        invariant
            1 <= k <= ids.len(),
            forall|j: int| 0 <= j < ids.len() ==> #[trigger] ids@[j] < all.len(),
            best < all.len(),
            best as int == (if longest {
                longest_id(all@, ids_view(ids@).take(k as int))
            } else {
                shortest_id(all@, ids_view(ids@).take(k as int))
            }),
        decreases ids.len() - k,
    {
        assert(ids_view(ids@).take(k + 1).drop_last() =~= ids_view(ids@).take(k as int));
        assert(ids_view(ids@).take(k + 1).last() == ids@[k as int] as int);
        let c = ids[k];
        if longest {
            if all[c].move_count >= all[best].move_count {
                best = c;
            }
        } else {
            if all[c].move_count < all[best].move_count {
                best = c;
            }
        }
        k += 1;
    }
    assert(ids_view(ids@).take(ids.len() as int) =~= ids_view(ids@));
    best
}

/// The median game of `ids` by move count, ties broken by match index.
fn median_by_move_count(all: &Vec<ReportReplayMatch>, ids: &Vec<usize>) -> (r: Option<usize>)
    requires
        forall|k: int| 0 <= k < ids.len() ==> #[trigger] ids@[k] < all.len(),
    ensures
        ids.len() == 0 ==> r is None,
        ids.len() > 0 ==> opt_int(r) == Some(median_id(all@, ids_view(ids@))) && r->0 < all.len(),
{
    let sorted = sort_ids(all, ids, SampleOrder::ByLength);
    if sorted.len() == 0 {
        None
    } else {
        let m = sorted[sorted.len() / 2];
        assert(ids_view(sorted@)[(sorted.len() / 2) as int] == m as int);
        Some(m)
    }
}

/// `count` games spread evenly over `ids`: positions `i * last / (count - 1)`
/// for `i` below `count`; just the first game when `count <= 1`; none when
/// there are no games.
fn evenly_spaced_matches(ids: &Vec<usize>, count: usize) -> (r: Vec<usize>)
    ensures
        ids_view(r@) == evenly_spaced_ids(ids_view(ids@), count as int),
        forall|k: int| 0 <= k < r.len() ==> ids@.contains(#[trigger] r@[k]),
{
    let mut out: Vec<usize> = Vec::new();
    if ids.len() == 0 {
        assert(ids_view(out@) =~= evenly_spaced_ids(ids_view(ids@), count as int));
        return out;
    }
    if count <= 1 {
        out.push(ids[0]);
        assert(ids_view(out@) =~= evenly_spaced_ids(ids_view(ids@), count as int));
        return out;
    }
    let last = ids.len() - 1;
    let mut i: usize = 0;
    while i < count
        invariant
            i <= count,
            count > 1,
            ids.len() >= 1,
            last == ids.len() - 1,
            ids_view(out@) == evenly_spaced_ids(ids_view(ids@), count as int).take(i as int),
            forall|k: int| 0 <= k < out.len() ==> ids@.contains(#[trigger] out@[k]),
        decreases count - i,
    {
        proof {
            assert((i as int) * (last as int) <= (usize::MAX as int) * (usize::MAX as int))
                by (nonlinear_arith)
                requires
                    0 <= i <= usize::MAX,
                    0 <= last <= usize::MAX,
            ;
            assert((usize::MAX as int) * (usize::MAX as int) <= u128::MAX) by (nonlinear_arith)
                requires
                    usize::MAX <= u64::MAX,
            ;
        }
        let num: u128 = (i as u128) * (last as u128);
        let pos_wide: u128 = num / ((count - 1) as u128);
        assert(pos_wide as int == (i as int) * (last as int) / ((count - 1) as int));
        proof {
            assert(i * last <= (count - 1) * last) by (nonlinear_arith)
                requires
                    i < count,
            ;
            assert((i * last) / (count - 1) <= last) by (nonlinear_arith)
                requires
                    i * last <= (count - 1) * last,
                    count > 1,
            ;
        }
        let pos = pos_wide as usize;
        assert(evenly_spaced_ids(ids_view(ids@), count as int)[i as int] == ids_view(ids@)[pos as int]);
        let ghost before = out@;
        let ghost e = evenly_spaced_ids(ids_view(ids@), count as int);
        out.push(ids[pos]);
        assert(ids@.contains(ids@[pos as int]));
        assert(ids_view(out@) =~= ids_view(before).push(ids@[pos as int] as int));
        assert(e.take(i + 1) =~= e.take(i as int).push(e[i as int]));
        assert forall|k: int| 0 <= k < out.len() implies ids@.contains(#[trigger] out@[k]) by {
            if k < before.len() {
                assert(out@[k] == before[k]);
            }
        }
        assert(ids_view(out@) =~= evenly_spaced_ids(ids_view(ids@), count as int).take(i + 1));
        i += 1;
    }
    assert(evenly_spaced_ids(ids_view(ids@), count as int).take(count as int) =~= evenly_spaced_ids(
        ids_view(ids@),
        count as int,
    ));
    out
}

/// The id held by `o`, as an integer.
pub open spec fn opt_int(o: Option<usize>) -> Option<int> {
    match o {
        Some(i) => Some(i as int),
        None => None,
    }
}

fn push_opt(v: &mut Vec<usize>, o: Option<usize>, bound: usize)
    requires
        forall|k: int| 0 <= k < old(v).len() ==> #[trigger] old(v)@[k] < bound,
        o matches Some(i) ==> i < bound,
    ensures
        ids_view(final(v)@) == ids_view(old(v)@) + opt_seq(opt_int(o)),
        forall|k: int| 0 <= k < final(v).len() ==> #[trigger] final(v)@[k] < bound,
{
    let ghost before = v@;
    if let Some(i) = o {
        v.push(i);
        assert(v@[before.len() as int] == i);
    }
    assert(ids_view(v@) =~= ids_view(before) + opt_seq(opt_int(o)));
}

/// Appends all of `extra` to `v`.
fn append_ids(v: &mut Vec<usize>, extra: &Vec<usize>, bound: usize)
    requires
        forall|k: int| 0 <= k < old(v).len() ==> #[trigger] old(v)@[k] < bound,
        forall|k: int| 0 <= k < extra.len() ==> #[trigger] extra@[k] < bound,
    ensures
        ids_view(final(v)@) == ids_view(old(v)@) + ids_view(extra@),
        forall|k: int| 0 <= k < final(v).len() ==> #[trigger] final(v)@[k] < bound,
{
    let ghost head = v@;
    let mut k: usize = 0;
    while k < extra.len()
        invariant
            k <= extra.len(),
            v@ == head + extra@.take(k as int),
            forall|j: int| 0 <= j < head.len() ==> #[trigger] head[j] < bound,
            forall|j: int| 0 <= j < extra.len() ==> #[trigger] extra@[j] < bound,
        decreases extra.len() - k,
    {
        v.push(extra[k]);
        assert(extra@.take(k + 1) =~= extra@.take(k as int).push(extra@[k as int]));
        k += 1;
    }
    assert(extra@.take(extra.len() as int) =~= extra@);
    assert(ids_view(v@) =~= ids_view(head) + ids_view(extra@));
    assert forall|j: int| 0 <= j < v.len() implies #[trigger] v@[j] < bound by {
        if j >= head.len() {
            assert(v@[j] == extra@[j - head.len()]);
        }
    }
}

fn h2h_indices(all: &Vec<ReportReplayMatch>, a: &str, b: &str) -> (r: Vec<usize>)
    ensures
        ids_view(r@) == h2h_ids(all@, all.len() as int, a@, b@),
        forall|k: int| 0 <= k < r.len() ==> #[trigger] r@[k] < all.len(),
{
    let mut ids: Vec<usize> = Vec::new();
    let mut i: usize = 0;
    while i < all.len()
        invariant
            i <= all.len(),
            ids_view(ids@) == h2h_ids(all@, i as int, a@, b@),
            forall|k: int| 0 <= k < ids.len() ==> #[trigger] ids@[k] < all.len(),
        decreases all.len() - i,
    {
        if match_is_h2h(&all[i], a, b) {
            let ghost before = ids@;
            ids.push(i);
            assert(ids_view(ids@) =~= ids_view(before).push(i as int));
        }
        i += 1;
    }
    ids
}

/// The selections are the games at `ids`, in order.
pub open spec fn selection_matches<'a>(
    all: Seq<ReportReplayMatch>,
    v: Seq<ReportReplaySelection<'a>>,
    ids: Seq<int>,
) -> bool {
    v.len() == ids.len() && forall|k: int|
        0 <= k < v.len() ==> *(#[trigger] v[k]).match_report == all[ids[k]]
}

/// The candidate games of a stratified sample, in priority order.
fn build_candidates(
    all: &Vec<ReportReplayMatch>,
    sorted: &Vec<usize>,
    entrant_a: &str,
    entrant_b: &str,
    sample_size: usize,
) -> (r: Vec<usize>)
    requires
        sorted.len() >= 1,
        forall|k: int| 0 <= k < sorted.len() ==> #[trigger] sorted@[k] < all.len(),
    ensures
        ids_view(r@) == candidate_ids(
            all@,
            ids_view(sorted@),
            entrant_a@,
            entrant_b@,
            sample_size as int,
        ),
        forall|k: int| 0 <= k < r.len() ==> #[trigger] r@[k] < all.len(),
{
    let ghost sv = ids_view(sorted@);
    let n = all.len();
    let mut cands: Vec<usize> = Vec::new();
    push_opt(&mut cands, find_draw_like(all, sorted), n);
    push_opt(&mut cands, find_win(all, sorted, entrant_a, "black_won"), n);
    push_opt(&mut cands, find_win(all, sorted, entrant_a, "white_won"), n);
    push_opt(&mut cands, find_win(all, sorted, entrant_b, "black_won"), n);
    push_opt(&mut cands, find_win(all, sorted, entrant_b, "white_won"), n);
    let ghost wins = ids_view(cands@);
    assert(wins == opt_seq(first_draw_like(all@, sv)) + opt_seq(
        first_win(all@, sv, entrant_a@, "black_won"@),
    ) + opt_seq(first_win(all@, sv, entrant_a@, "white_won"@)) + opt_seq(
        first_win(all@, sv, entrant_b@, "black_won"@),
    ) + opt_seq(first_win(all@, sv, entrant_b@, "white_won"@)));
    let short = find_extreme(all, sorted, false);
    let long = find_extreme(all, sorted, true);
    let med = median_by_move_count(all, sorted);
    push_opt(&mut cands, Some(short), n);
    push_opt(&mut cands, Some(long), n);
    push_opt(&mut cands, med, n);
    assert(ids_view(cands@) =~= wins + seq![
        shortest_id(all@, sv),
        longest_id(all@, sv),
        median_id(all@, sv),
    ]);
    let spread = evenly_spaced_matches(sorted, sample_size);
    assert forall|k: int| 0 <= k < spread.len() implies #[trigger] spread@[k] < n by {
        assert(sorted@.contains(spread@[k]));
    }
    append_ids(&mut cands, &spread, n);
    append_ids(&mut cands, sorted, n);
    cands
}

/// The candidates kept in order, skipping games whose match index was
/// already kept, until `count` are kept.
fn take_distinct_ids(all: &Vec<ReportReplayMatch>, cands: &Vec<usize>, count: usize) -> (r: Vec<
    usize,
>)
    requires
        forall|j: int| 0 <= j < cands.len() ==> #[trigger] cands@[j] < all.len(),
    ensures
        ids_view(r@) == take_distinct(all@, ids_view(cands@), count as int),
        forall|j: int| 0 <= j < r.len() ==> #[trigger] r@[j] < all.len(),
{
    let mut chosen: Vec<usize> = Vec::new();
    let mut k: usize = 0;
    assert(ids_view(cands@).take(0) =~= Seq::<int>::empty());
    assert(ids_view(chosen@) =~= Seq::<int>::empty());
    while k < cands.len()
        invariant
            k <= cands.len(),
            forall|j: int| 0 <= j < cands.len() ==> #[trigger] cands@[j] < all.len(),
            forall|j: int| 0 <= j < chosen.len() ==> #[trigger] chosen@[j] < all.len(),
            ids_view(chosen@) == take_distinct(all@, ids_view(cands@).take(k as int), count as int),
        decreases cands.len() - k,
    {
        assert(ids_view(cands@).take(k + 1).drop_last() =~= ids_view(cands@).take(k as int));
        assert(ids_view(cands@).take(k + 1).last() == cands@[k as int] as int);
        push_distinct(all, &mut chosen, cands[k], count);
        k += 1;
    }
    assert(ids_view(cands@).take(cands.len() as int) =~= ids_view(cands@));
    chosen
}

/// Chooses up to `sample_size` head-to-head games between `entrant_a` and
/// `entrant_b` for analysis. When the sample covers every such game, all of
/// them are returned by match index; otherwise a stratified sample is
/// taken: a draw or capped game, a win of each entrant with each color, the
/// shortest, longest and median games, evenly spaced games, then the rest in
/// order, never two games with the same match index.
pub fn select_report_matches<'a>(
    report: &'a ReportReplaySource,
    entrant_a: &str,
    entrant_b: &str,
    sample_size: usize,
) -> (r: Result<Vec<ReportReplaySelection<'a>>, String>)
    ensures
        match r {
            Ok(v) => selection_spec(report.matches@, entrant_a@, entrant_b@, sample_size as int) is Ok
                && selection_matches(
                report.matches@,
                v@,
                selection_spec(report.matches@, entrant_a@, entrant_b@, sample_size as int)->Ok_0,
            ),
            Err(e) => selection_spec(report.matches@, entrant_a@, entrant_b@, sample_size as int)
                == Err::<Seq<int>, Seq<char>>(e@),
        },
{
    let all = &report.matches;
    if sample_size == 0 {
        return Err(String::from_str("sample size must be greater than zero"));
    }
    let h2h = h2h_indices(all, entrant_a, entrant_b);
    let sorted = sort_ids(all, &h2h, SampleOrder::ByIndex);
    if sorted.len() == 0 {
        let mut m = String::from_str("report has no head-to-head matches for ");
        m.append(entrant_a);
        m.append(" vs ");
        m.append(entrant_b);
        return Err(m);
    }
    let chosen: Vec<usize> = if sample_size >= sorted.len() {
        sorted
    } else {
        let cands = build_candidates(all, &sorted, entrant_a, entrant_b, sample_size);
        take_distinct_ids(all, &cands, sample_size)
    };
    let ghost spec_ids = selection_spec(all@, entrant_a@, entrant_b@, sample_size as int)->Ok_0;
    assert(ids_view(chosen@) == spec_ids);
    let mut out: Vec<ReportReplaySelection<'a>> = Vec::new();
    let mut k: usize = 0;
    while k < chosen.len()
        invariant
            k <= chosen.len(),
            ids_view(chosen@) == spec_ids,
            forall|j: int| 0 <= j < chosen.len() ==> #[trigger] chosen@[j] < report.matches.len(),
            out.len() == k,
            forall|j: int|
                0 <= j < k ==> *(#[trigger] out@[j]).match_report == report.matches@[spec_ids[j]],
        decreases chosen.len() - k,
    {
        let idx = chosen[k];
        assert(spec_ids[k as int] == idx as int);
        out.push(ReportReplaySelection { match_report: &report.matches[idx] });
        k += 1;
    }
    Ok(out)
}

/// The move at a cell of the report's codec: row `cell / size`, column
/// `cell % size`.
pub open spec fn decode_cell_spec(cell: nat, board_size: nat) -> Result<Move, Seq<char>> {
    if board_size == 0 {
        Err("board size must be greater than zero"@)
    } else if cell / board_size >= board_size {
        Err("move cell "@ + crate::text::decimal(cell) + " is outside "@ + crate::text::decimal(board_size)
            + "x"@ + crate::text::decimal(board_size) + " board"@)
    } else {
        Ok(Move { row: (cell / board_size) as usize, col: (cell % board_size) as usize })
    }
}

/// Decodes a cell index into a move; an error for a zero board size or a cell
/// outside the board.
pub fn decode_move_cell(cell: usize, board_size: usize) -> (r: Result<Move, String>)
    ensures
        match r {
            Ok(m) => decode_cell_spec(cell as nat, board_size as nat) == Ok::<Move, Seq<char>>(m),
            Err(e) => decode_cell_spec(cell as nat, board_size as nat) == Err::<Move, Seq<char>>(e@),
        },
{
    if board_size == 0 {
        return Err(String::from_str("board size must be greater than zero"));
    }
    let row = cell / board_size;
    let col = cell % board_size;
    if row >= board_size {
        let mut m = String::from_str("move cell ");
        let c = crate::text::usize_to_string(cell);
        m.append(c.as_str());
        m.append(" is outside ");
        let n = crate::text::usize_to_string(board_size);
        m.append(n.as_str());
        m.append("x");
        m.append(n.as_str());
        m.append(" board");
        return Err(m);
    }
    Ok(Move { row, col })
}

} // verus!

verus! {

/// Every id of `s` names a head-to-head game of `all` between `a` and `b`.
pub open spec fn all_head_to_head(all: Seq<ReportReplayMatch>, s: Seq<int>, a: Seq<char>, b: Seq<char>) -> bool {
    forall|k: int|
        0 <= k < s.len() ==> 0 <= #[trigger] s[k] < all.len() && is_head_to_head(all[s[k]], a, b)
}

proof fn lemma_h2h_ids_good(all: Seq<ReportReplayMatch>, n: int, a: Seq<char>, b: Seq<char>)
    requires
        n <= all.len(),
    ensures
        all_head_to_head(all, h2h_ids(all, n, a, b), a, b),
    decreases n,
{
    if n > 0 {
        lemma_h2h_ids_good(all, n - 1, a, b);
    }
}

proof fn lemma_contained_good(all: Seq<ReportReplayMatch>, big: Seq<int>, small: Seq<int>, a: Seq<char>, b: Seq<char>)
    requires
        all_head_to_head(all, big, a, b),
        forall|k: int| 0 <= k < small.len() ==> #[trigger] big.contains(small[k]),
    ensures
        all_head_to_head(all, small, a, b),
{
    assert forall|k: int| 0 <= k < small.len() implies 0 <= #[trigger] small[k] < all.len()
        && is_head_to_head(all[small[k]], a, b) by {
        assert(big.contains(small[k]));
        let j = choose|j: int| 0 <= j < big.len() && big[j] == small[k];
        assert(big[j] == small[k]);
    }
}

proof fn lemma_first_draw_like_in(all: Seq<ReportReplayMatch>, ids: Seq<int>)
    ensures
        first_draw_like(all, ids) matches Some(x) ==> ids.contains(x),
    decreases ids.len(),
{
    if ids.len() > 0 {
        lemma_first_draw_like_in(all, ids.drop_first());
        if let Some(x) = first_draw_like(all, ids.drop_first()) {
            if ids.drop_first().contains(x) {
                let j = choose|j: int| 0 <= j < ids.drop_first().len() && ids.drop_first()[j] == x;
                assert(ids[j + 1] == x);
            }
        }
        assert(ids[0] == ids[0]);
    }
}

proof fn lemma_first_win_in(all: Seq<ReportReplayMatch>, ids: Seq<int>, w: Seq<char>, res: Seq<char>)
    ensures
        first_win(all, ids, w, res) matches Some(x) ==> ids.contains(x),
    decreases ids.len(),
{
    if ids.len() > 0 {
        lemma_first_win_in(all, ids.drop_first(), w, res);
        if let Some(x) = first_win(all, ids.drop_first(), w, res) {
            if ids.drop_first().contains(x) {
                let j = choose|j: int| 0 <= j < ids.drop_first().len() && ids.drop_first()[j] == x;
                assert(ids[j + 1] == x);
            }
        }
        assert(ids[0] == ids[0]);
    }
}

proof fn lemma_extremes_in(all: Seq<ReportReplayMatch>, ids: Seq<int>)
    requires
        ids.len() >= 1,
    ensures
        ids.contains(shortest_id(all, ids)),
        ids.contains(longest_id(all, ids)),
    decreases ids.len(),
{
    if ids.len() <= 1 {
        assert(ids[0] == ids[0]);
    } else {
        lemma_extremes_in(all, ids.drop_last());
        let s = shortest_id(all, ids.drop_last());
        let l = longest_id(all, ids.drop_last());
        let j = choose|j: int| 0 <= j < ids.drop_last().len() && ids.drop_last()[j] == s;
        let i = choose|i: int| 0 <= i < ids.drop_last().len() && ids.drop_last()[i] == l;
        assert(ids[j] == s);
        assert(ids[i] == l);
        assert(ids[ids.len() - 1] == ids.last());
    }
}

proof fn lemma_evenly_spaced_in(ids: Seq<int>, count: int)
    requires
        ids.len() >= 1,
    ensures
        forall|k: int|
            0 <= k < evenly_spaced_ids(ids, count).len() ==> #[trigger] ids.contains(
                evenly_spaced_ids(ids, count)[k],
            ),
{
    let e = evenly_spaced_ids(ids, count);
    if count <= 1 {
        assert(e[0] == ids[0]);
    } else {
        let last = ids.len() - 1;
        assert forall|k: int| 0 <= k < e.len() implies #[trigger] ids.contains(e[k]) by {
            assert(0 <= k * last) by (nonlinear_arith)
                requires
                    0 <= k,
                    0 <= last,
            ;
            assert(k * last <= (count - 1) * last) by (nonlinear_arith)
                requires
                    0 <= k < count,
                    0 <= last,
            ;
            assert(k * last / (count - 1) <= last) by (nonlinear_arith)
                requires
                    0 <= k * last <= (count - 1) * last,
                    count > 1,
            ;
            assert(0 <= k * last / (count - 1)) by (nonlinear_arith)
                requires
                    0 <= k * last,
                    count > 1,
            ;
            let p = k * last / (count - 1);
            assert(e[k] == ids[p]);
        }
    }
}

proof fn lemma_take_distinct_in(all: Seq<ReportReplayMatch>, cands: Seq<int>, count: int)
    requires
        count >= 0,
    ensures
        take_distinct(all, cands, count).len() <= count,
        forall|k: int|
            0 <= k < take_distinct(all, cands, count).len() ==> #[trigger] cands.contains(
                take_distinct(all, cands, count)[k],
            ),
    decreases cands.len(),
{
    if cands.len() > 0 {
        let prev = take_distinct(all, cands.drop_last(), count);
        lemma_take_distinct_in(all, cands.drop_last(), count);
        let r = take_distinct(all, cands, count);
        assert forall|k: int| 0 <= k < r.len() implies #[trigger] cands.contains(r[k]) by {
            if k < prev.len() {
                assert(r[k] == prev[k]);
                assert(cands.drop_last().contains(prev[k]));
                let j = choose|j: int| 0 <= j < cands.drop_last().len() && cands.drop_last()[j] == prev[k];
                assert(cands[j] == prev[k]);
            } else {
                assert(r[k] == cands.last());
                assert(cands[cands.len() - 1] == cands.last());
            }
        }
    }
}

proof fn lemma_candidates_good(all: Seq<ReportReplayMatch>, ids: Seq<int>, a: Seq<char>, b: Seq<char>, count: int)
    requires
        ids.len() >= 1,
        all_head_to_head(all, ids, a, b),
    ensures
        all_head_to_head(all, candidate_ids(all, ids, a, b, count), a, b),
{
    let c = candidate_ids(all, ids, a, b, count);
    lemma_first_draw_like_in(all, ids);
    lemma_first_win_in(all, ids, a, "black_won"@);
    lemma_first_win_in(all, ids, a, "white_won"@);
    lemma_first_win_in(all, ids, b, "black_won"@);
    lemma_first_win_in(all, ids, b, "white_won"@);
    lemma_extremes_in(all, ids);
    lemma_sorted_ids_len(all, ids, SampleOrder::ByLength);
    assert(ids.contains(median_id(all, ids)));
    lemma_evenly_spaced_in(ids, count);
    let p1 = opt_seq(first_draw_like(all, ids));
    let p2 = opt_seq(first_win(all, ids, a, "black_won"@));
    let p3 = opt_seq(first_win(all, ids, a, "white_won"@));
    let p4 = opt_seq(first_win(all, ids, b, "black_won"@));
    let p5 = opt_seq(first_win(all, ids, b, "white_won"@));
    let mid = seq![shortest_id(all, ids), longest_id(all, ids), median_id(all, ids)];
    let e = evenly_spaced_ids(ids, count);
    let parts = p1 + p2 + p3 + p4 + p5 + mid + e;
    assert(c == parts + ids);
    assert forall|k: int| 0 <= k < c.len() implies #[trigger] ids.contains(c[k]) by {
        if k >= parts.len() {
            assert(c[k] == ids[k - parts.len()]);
        } else {
            let q = p1 + p2 + p3 + p4 + p5 + mid;
            if k >= q.len() {
                assert(c[k] == e[k - q.len()]);
            } else {
                let w = p1 + p2 + p3 + p4 + p5;
                if k >= w.len() {
                    assert(c[k] == mid[k - w.len()]);
                } else {
                    let w4 = p1 + p2 + p3 + p4;
                    let w3 = p1 + p2 + p3;
                    let w2 = p1 + p2;
                    if k >= w4.len() {
                        assert(c[k] == p5[k - w4.len()]);
                    } else if k >= w3.len() {
                        assert(c[k] == p4[k - w3.len()]);
                    } else if k >= w2.len() {
                        assert(c[k] == p3[k - w2.len()]);
                    } else if k >= p1.len() {
                        assert(c[k] == p2[k - p1.len()]);
                    } else {
                        assert(c[k] == p1[k]);
                    }
                }
            }
        }
    }
    lemma_contained_good(all, ids, c, a, b);
}

/// Every game that `select_report_matches` picks is a game between the two
/// entrants, and it never picks more games than the sample size asks for.
pub proof fn law_selection_is_head_to_head(
    all: Seq<ReportReplayMatch>,
    a: Seq<char>,
    b: Seq<char>,
    count: int,
)
    requires
        selection_spec(all, a, b, count) is Ok,
        count >= 0,
    ensures
        all_head_to_head(all, selection_spec(all, a, b, count)->Ok_0, a, b),
        selection_spec(all, a, b, count)->Ok_0.len() <= count,
{
    let h = h2h_ids(all, all.len() as int, a, b);
    let sorted = sorted_ids(all, h, SampleOrder::ByIndex);
    lemma_h2h_ids_good(all, all.len() as int, a, b);
    lemma_sorted_ids_len(all, h, SampleOrder::ByIndex);
    lemma_contained_good(all, h, sorted, a, b);
    if count < sorted.len() {
        let c = candidate_ids(all, sorted, a, b, count);
        lemma_candidates_good(all, sorted, a, b, count);
        lemma_take_distinct_in(all, c, count);
        lemma_contained_good(all, c, take_distinct(all, c, count), a, b);
    }
}

/// The match indices of the games `ids` names.
pub open spec fn match_indices(all: Seq<ReportReplayMatch>, ids: Seq<int>) -> Seq<usize> {
    Seq::new(ids.len(), |k: int| all[ids[k]].match_index)
}

/// The game is a draw or ended at the move cap.
pub open spec fn draw_like(m: ReportReplayMatch) -> bool {
    m.result@ == "draw"@ || m.end_reason@ == "max_moves"@
}

proof fn lemma_h2h_ids_empty(all: Seq<ReportReplayMatch>, n: int, a: Seq<char>, b: Seq<char>)
    requires
        0 <= n <= all.len(),
    ensures
        h2h_ids(all, n, a, b).len() == 0 <==> forall|i: int| 0 <= i < n ==> !is_head_to_head(#[trigger] all[i], a, b),
        forall|i: int| 0 <= i < n && is_head_to_head(all[i], a, b) ==> #[trigger] h2h_ids(all, n, a, b).contains(i),
    decreases n,
{
    if n > 0 {
        lemma_h2h_ids_empty(all, n - 1, a, b);
        let prev = h2h_ids(all, n - 1, a, b);
        if is_head_to_head(all[n - 1], a, b) {
            let r = prev.push(n - 1);
            assert(r[prev.len() as int] == n - 1);
            assert forall|i: int| 0 <= i < n && is_head_to_head(all[i], a, b) implies #[trigger] r.contains(i) by {
                if i < n - 1 {
                    assert(prev.contains(i));
                    let k = choose|k: int| 0 <= k < prev.len() && prev[k] == i;
                    assert(r[k] == i);
                }
            }
        }
    }
}

proof fn lemma_sorted_ids_keeps_all(all: Seq<ReportReplayMatch>, ids: Seq<int>, order: SampleOrder)
    ensures
        forall|k: int| 0 <= k < ids.len() ==> #[trigger] sorted_ids(all, ids, order).contains(ids[k]),
    decreases ids.len(),
{
    if ids.len() > 0 {
        let d = ids.drop_last();
        lemma_sorted_ids_keeps_all(all, d, order);
        let prev = sorted_ids(all, d, order);
        let p = insert_pos(all, prev, ids.last(), order);
        lemma_insert_pos_bounds(all, prev, ids.last(), order);
        let r = sorted_ids(all, ids, order);
        assert(r == prev.take(p).push(ids.last()) + prev.skip(p));
        assert forall|k: int| 0 <= k < ids.len() implies #[trigger] r.contains(ids[k]) by {
            if k == ids.len() - 1 {
                assert(r[p] == ids.last());
            } else {
                assert(d[k] == ids[k]);
                assert(prev.contains(d[k]));
                let j = choose|j: int| 0 <= j < prev.len() && prev[j] == d[k];
                if j < p {
                    assert(r[j] == prev[j]);
                } else {
                    assert(r[j + 1] == prev[j]);
                }
            }
        }
    }
}

proof fn lemma_sorted_ids_distinct(all: Seq<ReportReplayMatch>, ids: Seq<int>, order: SampleOrder)
    requires
        match_indices(all, ids).no_duplicates(),
    ensures
        match_indices(all, sorted_ids(all, ids, order)).no_duplicates(),
    decreases ids.len(),
{
    if ids.len() > 0 {
        let d = ids.drop_last();
        assert(match_indices(all, d).no_duplicates()) by {
            assert forall|i: int, j: int| 0 <= i < d.len() && 0 <= j < d.len() && i != j implies
                match_indices(all, d)[i] != match_indices(all, d)[j] by {
                assert(match_indices(all, d)[i] == match_indices(all, ids)[i]);
                assert(match_indices(all, d)[j] == match_indices(all, ids)[j]);
            }
        }
        lemma_sorted_ids_distinct(all, d, order);
        lemma_sorted_ids_len(all, d, order);
        let prev = sorted_ids(all, d, order);
        let x = ids.last();
        let p = insert_pos(all, prev, x, order);
        lemma_insert_pos_bounds(all, prev, x, order);
        let r = sorted_ids(all, ids, order);
        assert(r == prev.take(p).push(x) + prev.skip(p));
        assert forall|k: int| 0 <= k < prev.len() implies all[#[trigger] prev[k]].match_index != all[x].match_index by {
            assert(d.contains(prev[k]));
            let j = choose|j: int| 0 <= j < d.len() && d[j] == prev[k];
            assert(match_indices(all, ids)[j] == all[prev[k]].match_index);
            assert(match_indices(all, ids)[ids.len() - 1] == all[x].match_index);
        }
        let mr = match_indices(all, r);
        let mp = match_indices(all, prev);
        assert forall|i: int, j: int| 0 <= i < mr.len() && 0 <= j < mr.len() && i != j implies mr[i] != mr[j] by {
            let pi = if i < p { i } else { i - 1 };
            let pj = if j < p { j } else { j - 1 };
            if i == p {
                assert(r[j] == prev[pj]);
                assert(all[prev[pj]].match_index != all[x].match_index);
            } else if j == p {
                assert(r[i] == prev[pi]);
                assert(all[prev[pi]].match_index != all[x].match_index);
            } else {
                assert(r[i] == prev[pi] && r[j] == prev[pj]);
                assert(mp[pi] != mp[pj]);
            }
        }
    }
}

proof fn lemma_take_distinct_full(all: Seq<ReportReplayMatch>, cands: Seq<int>, count: int)
    requires
        count >= 0,
    ensures
        match_indices(all, take_distinct(all, cands, count)).no_duplicates(),
        forall|k: int| 0 <= k < cands.len() ==> take_distinct(all, cands, count).len() == count
            || index_taken(all, take_distinct(all, cands, count), #[trigger] cands[k]),
        cands.len() > 0 && count > 0 ==> take_distinct(all, cands, count).len() > 0 && take_distinct(
            all,
            cands,
            count,
        )[0] == cands[0],
    decreases cands.len(),
{
    lemma_take_distinct_in(all, cands, count);
    if cands.len() > 0 {
        let d = cands.drop_last();
        lemma_take_distinct_full(all, d, count);
        lemma_take_distinct_in(all, d, count);
        let prev = take_distinct(all, d, count);
        let r = take_distinct(all, cands, count);
        let x = cands.last();
        if prev.len() < count && !index_taken(all, prev, x) {
            assert(r == prev.push(x));
            let mr = match_indices(all, r);
            let mp = match_indices(all, prev);
            assert forall|i: int, j: int| 0 <= i < mr.len() && 0 <= j < mr.len() && i != j implies mr[i] != mr[j] by {
                if i == prev.len() {
                    assert(r[j] == prev[j]);
                    if all[prev[j]].match_index == all[x].match_index {
                        assert(index_taken(all, prev, x));
                    }
                } else if j == prev.len() {
                    assert(r[i] == prev[i]);
                    if all[prev[i]].match_index == all[x].match_index {
                        assert(index_taken(all, prev, x));
                    }
                } else {
                    assert(r[i] == prev[i] && r[j] == prev[j]);
                    assert(mp[i] != mp[j]);
                }
            }
            assert forall|k: int| 0 <= k < cands.len() implies r.len() == count
                || index_taken(all, r, #[trigger] cands[k]) by {
                if k == cands.len() - 1 {
                    assert(r[prev.len() as int] == x);
                } else {
                    assert(d[k] == cands[k]);
                    if index_taken(all, prev, d[k]) {
                        let w = choose|w: int| 0 <= w < prev.len() && all[prev[w]].match_index == all[d[k]].match_index;
                        assert(r[w] == prev[w]);
                    }
                }
            }
            if count > 0 && d.len() > 0 {
                assert(d[0] == cands[0]);
                assert(r[0] == prev[0]);
            }
        } else {
            assert(r == prev);
            assert forall|k: int| 0 <= k < cands.len() implies r.len() == count
                || index_taken(all, r, #[trigger] cands[k]) by {
                if k < cands.len() - 1 {
                    assert(d[k] == cands[k]);
                }
            }
            if count > 0 && d.len() == 0 {
                assert(prev.len() == 0);
                assert(!index_taken(all, prev, x));
            }
            if count > 0 && d.len() > 0 {
                assert(d[0] == cands[0]);
            }
        }
    }
}

proof fn lemma_first_draw_like_some(all: Seq<ReportReplayMatch>, ids: Seq<int>, k: int)
    requires
        0 <= k < ids.len(),
        draw_like(all[ids[k]]),
    ensures
        first_draw_like(all, ids) is Some,
    decreases ids.len(),
{
    if k > 0 && !draw_like(all[ids[0]]) {
        assert(ids.drop_first()[k - 1] == ids[k]);
        lemma_first_draw_like_some(all, ids.drop_first(), k - 1);
    }
}

/// Law: with a positive sample size and head-to-head games of distinct match
/// indices, the selection is refused exactly when the entrants played no
/// game; otherwise it picks `min(sample size, games)` head-to-head games with
/// distinct match indices, all of them when the sample covers every game,
/// and always includes the first draw or move-capped game in match-index
/// order when there is one.
pub proof fn law_selection_size_and_draws(
    all: Seq<ReportReplayMatch>,
    a: Seq<char>,
    b: Seq<char>,
    count: int,
)
    requires
        count > 0,
        match_indices(all, h2h_ids(all, all.len() as int, a, b)).no_duplicates(),
    ensures
        ({
            let h = h2h_ids(all, all.len() as int, a, b);
            let sorted = sorted_ids(all, h, SampleOrder::ByIndex);
            &&& selection_spec(all, a, b, count) is Err <==> forall|i: int|
                0 <= i < all.len() ==> !is_head_to_head(#[trigger] all[i], a, b)
            &&& selection_spec(all, a, b, count) is Err ==> selection_spec(all, a, b, count)->Err_0
                == "report has no head-to-head matches for "@ + a + " vs "@ + b
            &&& selection_spec(all, a, b, count) matches Ok(sel) ==> {
                &&& sel.len() == if count < h.len() { count } else { h.len() as int }
                &&& match_indices(all, sel).no_duplicates()
                &&& all_head_to_head(all, sel, a, b)
                &&& (count >= h.len() ==> sel == sorted)
                &&& (forall|i: int| 0 <= i < all.len() && is_head_to_head(all[i], a, b) && draw_like(all[i])
                    ==> #[trigger] sel.contains(first_draw_like(all, sorted)->0) && first_draw_like(all, sorted) is Some)
            }
        }),
{
    let h = h2h_ids(all, all.len() as int, a, b);
    let sorted = sorted_ids(all, h, SampleOrder::ByIndex);
    lemma_h2h_ids_empty(all, all.len() as int, a, b);
    lemma_h2h_ids_good(all, all.len() as int, a, b);
    lemma_sorted_ids_len(all, h, SampleOrder::ByIndex);
    lemma_sorted_ids_keeps_all(all, h, SampleOrder::ByIndex);
    lemma_sorted_ids_distinct(all, h, SampleOrder::ByIndex);
    lemma_contained_good(all, h, sorted, a, b);
    if selection_spec(all, a, b, count) is Ok {
        law_selection_is_head_to_head(all, a, b, count);
    }
    lemma_first_draw_like_in(all, sorted);
    assert forall|i: int| 0 <= i < all.len() && is_head_to_head(all[i], a, b) && draw_like(all[i])
        implies first_draw_like(all, sorted) is Some by {
        assert(h.contains(i));
        let k = choose|k: int| 0 <= k < h.len() && h[k] == i;
        assert(sorted.contains(h[k]));
        let j = choose|j: int| 0 <= j < sorted.len() && sorted[j] == h[k];
        lemma_first_draw_like_some(all, sorted, j);
    }
    if sorted.len() > 0 && count < sorted.len() {
        let c = candidate_ids(all, sorted, a, b, count);
        let sel = take_distinct(all, c, count);
        lemma_take_distinct_full(all, c, count);
        lemma_take_distinct_in(all, c, count);
        let off = c.len() - sorted.len();
        assert forall|k: int| 0 <= k < sorted.len() implies c[off + k] == #[trigger] sorted[k] by {}
        if sel.len() < count {
            let ma = match_indices(all, sorted);
            let mb = match_indices(all, sel);
            assert forall|m: usize| ma.to_set().contains(m) implies mb.to_set().contains(m) by {
                let k = choose|k: int| 0 <= k < ma.len() && ma[k] == m;
                assert(c[off + k] == sorted[k]);
                assert(index_taken(all, sel, c[off + k]));
                let w = choose|w: int| 0 <= w < sel.len() && all[sel[w]].match_index == all[c[off + k]].match_index;
                assert(mb[w] == m);
            }
            ma.unique_seq_to_set();
            mb.lemma_cardinality_of_set();
            vstd::set_lib::lemma_len_subset(ma.to_set(), mb.to_set());
            assert(false);
        }
        if first_draw_like(all, sorted) is Some {
            assert(c[0] == first_draw_like(all, sorted)->0);
            assert(sel[0] == c[0]);
        }
    }
}

/// The games come in non-decreasing match-index order.
pub open spec fn index_ascending(all: Seq<ReportReplayMatch>, s: Seq<int>) -> bool {
    forall|i: int, j: int| 0 <= i < j < s.len() ==> all[#[trigger] s[i]].match_index <= all[#[trigger] s[j]].match_index
}

proof fn lemma_insert_pos_by_index(all: Seq<ReportReplayMatch>, s: Seq<int>, x: int)
    requires
        index_ascending(all, s),
    ensures
        forall|k: int| 0 <= k < insert_pos(all, s, x, SampleOrder::ByIndex) ==> all[#[trigger] s[k]].match_index <= all[x].match_index,
        forall|k: int| insert_pos(all, s, x, SampleOrder::ByIndex) <= k < s.len() ==> all[#[trigger] s[k]].match_index > all[x].match_index,
    decreases s.len(),
{
    lemma_insert_pos_bounds(all, s, x, SampleOrder::ByIndex);
    if s.len() > 0 {
        let t = s.drop_first();
        assert(index_ascending(all, t)) by {
            assert forall|i: int, j: int| 0 <= i < j < t.len() implies all[#[trigger] t[i]].match_index <= all[#[trigger] t[j]].match_index by {
                assert(t[i] == s[i + 1] && t[j] == s[j + 1]);
            }
        }
        lemma_insert_pos_by_index(all, t, x);
        if !sorts_after(SampleOrder::ByIndex, all[s[0]], all[x]) {
            assert forall|k: int| 0 <= k < insert_pos(all, s, x, SampleOrder::ByIndex) implies all[#[trigger] s[k]].match_index <= all[x].match_index by {
                if k > 0 {
                    assert(s[k] == t[k - 1]);
                }
            }
            assert forall|k: int| insert_pos(all, s, x, SampleOrder::ByIndex) <= k < s.len() implies all[#[trigger] s[k]].match_index > all[x].match_index by {
                assert(s[k] == t[k - 1]);
            }
        } else {
            assert forall|k: int| 0 <= k < s.len() implies all[#[trigger] s[k]].match_index > all[x].match_index by {
                if k > 0 {
                    assert(all[s[0]].match_index <= all[s[k]].match_index);
                }
            }
        }
    }
}

proof fn lemma_sorted_by_index(all: Seq<ReportReplayMatch>, ids: Seq<int>)
    ensures
        index_ascending(all, sorted_ids(all, ids, SampleOrder::ByIndex)),
    decreases ids.len(),
{
    if ids.len() > 0 {
        let d = ids.drop_last();
        lemma_sorted_by_index(all, d);
        let prev = sorted_ids(all, d, SampleOrder::ByIndex);
        let x = ids.last();
        let p = insert_pos(all, prev, x, SampleOrder::ByIndex);
        lemma_insert_pos_by_index(all, prev, x);
        lemma_insert_pos_bounds(all, prev, x, SampleOrder::ByIndex);
        let r = sorted_ids(all, ids, SampleOrder::ByIndex);
        assert(r == prev.take(p).push(x) + prev.skip(p));
        assert forall|i: int, j: int| 0 <= i < j < r.len() implies all[#[trigger] r[i]].match_index <= all[#[trigger] r[j]].match_index by {
            let pi = if i < p { i } else { i - 1 };
            let pj = if j < p { j } else { j - 1 };
            if i == p {
                assert(r[j] == prev[pj]);
            } else if j == p {
                assert(r[i] == prev[pi]);
            } else {
                assert(r[i] == prev[pi] && r[j] == prev[pj]);
            }
        }
    }
}

/// Law: the head-to-head games are taken in match-index order, so the first
/// draw-like game a selection keeps is the one with the lowest match index.
pub proof fn law_head_to_head_games_in_index_order(all: Seq<ReportReplayMatch>, a: Seq<char>, b: Seq<char>)
    ensures
        index_ascending(all, sorted_ids(all, h2h_ids(all, all.len() as int, a, b), SampleOrder::ByIndex)),
        first_draw_like(all, sorted_ids(all, h2h_ids(all, all.len() as int, a, b), SampleOrder::ByIndex))
            matches Some(x) ==> forall|k: int|
            0 <= k < sorted_ids(all, h2h_ids(all, all.len() as int, a, b), SampleOrder::ByIndex).len()
                && draw_like(all[sorted_ids(all, h2h_ids(all, all.len() as int, a, b), SampleOrder::ByIndex)[k]])
                ==> all[x].match_index <= all[#[trigger] sorted_ids(all, h2h_ids(all, all.len() as int, a, b), SampleOrder::ByIndex)[k]].match_index,
{
    let sorted = sorted_ids(all, h2h_ids(all, all.len() as int, a, b), SampleOrder::ByIndex);
    lemma_sorted_by_index(all, h2h_ids(all, all.len() as int, a, b));
    lemma_first_draw_like_earliest(all, sorted);
}

proof fn lemma_first_draw_like_earliest(all: Seq<ReportReplayMatch>, ids: Seq<int>)
    requires
        index_ascending(all, ids),
    ensures
        first_draw_like(all, ids) matches Some(x) ==> forall|k: int|
            0 <= k < ids.len() && draw_like(all[ids[k]]) ==> all[x].match_index <= all[#[trigger] ids[k]].match_index,
    decreases ids.len(),
{
    if ids.len() > 0 {
        let t = ids.drop_first();
        assert(index_ascending(all, t)) by {
            assert forall|i: int, j: int| 0 <= i < j < t.len() implies all[#[trigger] t[i]].match_index <= all[#[trigger] t[j]].match_index by {
                assert(t[i] == ids[i + 1] && t[j] == ids[j + 1]);
            }
        }
        lemma_first_draw_like_earliest(all, t);
        if let Some(x) = first_draw_like(all, ids) {
            assert forall|k: int| 0 <= k < ids.len() && draw_like(all[ids[k]]) implies all[x].match_index <= all[#[trigger] ids[k]].match_index by {
                if draw_like(all[ids[0]]) {
                    assert(x == ids[0]);
                } else {
                    assert(k > 0);
                    assert(ids[k] == t[k - 1]);
                }
            }
        }
    }
}

} // verus!
