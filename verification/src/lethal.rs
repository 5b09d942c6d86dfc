//! Lethal-threat scenarios: expected one-step replies written as notation,
//! their normalised result form, move-list normalisation, and the printed
//! board of a scenario.
use vstd::prelude::*;
use crate::board::{
    column_char_spec, column_label, notation_spec, parse_notation_spec, row_chars_spec,
    cell_char_spec, BoardGrid, Move,
};
use crate::fixture::move_texts;
use crate::text::{chars_of, decimal, pad_left, push_char, push_chars, strings_view, decimal_chars};

verus! {

/// An expected defender reply of a one-step lethal scenario and the lethal
/// follow-ups it allows, in notation.
#[derive(Debug, Clone, Copy)]
pub struct ExpectedOneStepReply {
    pub defender_reply: &'static str,
    pub lethal_entries: &'static [ExpectedOneStepEntry],
}

/// An expected lethal follow-up move and the terminal targets it creates.
#[derive(Debug, Clone, Copy)]
pub struct ExpectedOneStepEntry {
    pub mv: &'static str,
    pub terminal_targets: &'static [&'static str],
}

/// A lethal follow-up in result form: its notation and sorted targets.
#[derive(Debug, Clone, PartialEq, Eq)]
pub struct LethalScenarioOneStepEntryResult {
    pub mv: String,
    pub terminal_targets: Vec<String>,
}

/// A defender reply in result form, with its follow-ups sorted by square.
#[derive(Debug, Clone, PartialEq, Eq)]
pub struct LethalScenarioOneStepReplyResult {
    pub defender_reply: String,
    pub lethal_entries: Vec<LethalScenarioOneStepEntryResult>,
}

/// `a` comes before `b` in board order: by row, then by column.
pub open spec fn move_before(a: Move, b: Move) -> bool {
    a.row < b.row || (a.row == b.row && a.col < b.col)
}

/// Strictly increasing in board order, hence without repeats.
pub open spec fn strictly_sorted(s: Seq<Move>) -> bool {
    forall|i: int, j: int| 0 <= i < j < s.len() ==> move_before(#[trigger] s[i], #[trigger] s[j])
}

/// The same moves, ignoring order and repeats.
pub open spec fn same_moves(a: Seq<Move>, b: Seq<Move>) -> bool {
    forall|m: Move| #[trigger] a.contains(m) <==> b.contains(m)
}

/// Sorts the moves by row then column and drops repeats.
pub fn normalize_moves(moves: &mut Vec<Move>)
    ensures
        strictly_sorted(final(moves)@),
        same_moves(final(moves)@, old(moves)@),
{
    let mut out: Vec<Move> = Vec::new();
    let mut i: usize = 0;
    while i < moves.len()
        invariant
            i <= moves.len(),
            moves@ == old(moves)@,
            strictly_sorted(out@),
            same_moves(out@, moves@.take(i as int)),
        decreases moves.len() - i,
    {
        let m = moves[i];
        let mut p: usize = 0;
        while p < out.len() && (out[p].row < m.row || (out[p].row == m.row && out[p].col < m.col))
            invariant
                p <= out.len(),
                forall|j: int| 0 <= j < p ==> move_before(#[trigger] out@[j], m),
            decreases out.len() - p,
        {
            p += 1;
        }
        let ghost before = out@;
        if p < out.len() && out[p] == m {
            assert(before[p as int] == m);
        } else {
            out.insert(p, m);
            assert forall|a: int, b: int| 0 <= a < b < out.len() implies move_before(
                #[trigger] out@[a],
                #[trigger] out@[b],
            ) by {
                if b < p {
                    assert(out@[a] == before[a] && out@[b] == before[b]);
                } else if b == p {
                    assert(out@[a] == before[a]);
                } else if a == p {
                    assert(out@[b] == before[b - 1]);
                    assert(!move_before(before[p as int], m));
                    if b - 1 > p {
                        assert(move_before(before[p as int], before[b - 1]));
                    }
                } else if a < p {
                    assert(out@[a] == before[a] && out@[b] == before[b - 1]);
                } else {
                    assert(out@[a] == before[a - 1] && out@[b] == before[b - 1]);
                }
            }
        }
        assert forall|x: Move| #[trigger] out@.contains(x) <==> moves@.take(i + 1).contains(x) by {
            assert(moves@.take(i + 1) =~= moves@.take(i as int).push(m));
            if out@.contains(x) {
                let a = choose|a: int| 0 <= a < out@.len() && out@[a] == x;
                if out@.len() != before.len() {
                    if a < p {
                        assert(before[a] == x);
                    } else if a > p {
                        assert(before[a - 1] == x);
                    }
                }
                if x != m {
                    if out@.len() == before.len() {
                        assert(before.contains(x));
                    } else if a < p {
                        assert(before.contains(x));
                    } else {
                        assert(before[a - 1] == x);
                        assert(before.contains(x));
                    }
                    assert(moves@.take(i as int).contains(x));
                    let b = choose|b: int| 0 <= b < i && #[trigger] moves@.take(i as int)[b] == x;
                    assert(moves@.take(i + 1)[b] == x);
                } else {
                    assert(moves@.take(i + 1)[i as int] == m);
                }
            }
            if moves@.take(i + 1).contains(x) {
                let b = choose|b: int| 0 <= b < i + 1 && #[trigger] moves@.take(i + 1)[b] == x;
                if b < i {
                    assert(moves@.take(i as int)[b] == x);
                    assert(before.contains(x));
                    let a = choose|a: int| 0 <= a < before.len() && before[a] == x;
                    if out@.len() == before.len() {
                        assert(out@[a] == x);
                    } else if a < p {
                        assert(out@[a] == x);
                    } else {
                        assert(out@[a + 1] == x);
                    }
                } else {
                    if out@.len() == before.len() {
                        assert(out@[p as int] == m);
                    } else {
                        assert(out@[p as int] == m);
                    }
                }
            }
        }
        i += 1;
    }
    assert(moves@.take(moves.len() as int) =~= moves@);
    *moves = out;
}

/// The notations of the moves, in order.
pub fn notation_list(moves: &[Move]) -> (r: Vec<String>)
    requires
        forall|i: int| 0 <= i < moves.len() ==> (#[trigger] moves@[i]).col < 26 && moves@[i].row < usize::MAX,
    ensures
        strings_view(r@) == move_texts(moves@),
{
    let mut out: Vec<String> = Vec::new();
    let mut i: usize = 0;
    while i < moves.len()
        invariant
            i <= moves.len(),
            forall|j: int| 0 <= j < moves.len() ==> (#[trigger] moves@[j]).col < 26 && moves@[j].row < usize::MAX,
            strings_view(out@) == move_texts(moves@.take(i as int)),
        decreases moves.len() - i,
    {
        let ghost before = out@;
        assert(strings_view(before).len() == i);
        let t = moves[i].to_notation();
        out.push(t);
        assert forall|j: int| 0 <= j < i + 1 implies #[trigger] strings_view(out@)[j]
            == move_texts(moves@.take(i + 1))[j] by {
            if j < i {
                assert(out@[j] == before[j]);
                assert(strings_view(before)[j] == before[j]@);
            }
        }
        assert(strings_view(out@) =~= move_texts(moves@.take(i + 1)));
        i += 1;
    }
    assert(moves@.take(moves.len() as int) =~= moves@);
    out
}

/// Every notation names a square.
pub open spec fn all_parse(notations: Seq<&str>) -> bool {
    forall|i: int| 0 <= i < notations.len() ==> (#[trigger] parse_notation_spec(notations[i]@)) is Some
}

/// The squares the notations name.
pub open spec fn parsed_moves(notations: Seq<&str>) -> Seq<Move> {
    Seq::new(notations.len(), |i: int| parse_notation_spec(notations[i]@)->0)
}

fn parse_move(notation: &str) -> (r: Move)
    requires
        parse_notation_spec(notation@) is Some,
    ensures
        r == parse_notation_spec(notation@)->0,
        r.col < 26,
        r.row < usize::MAX,
{
    let chars = chars_of(notation);
    match Move::from_notation(chars.as_slice()) {
        Some(m) => m,
        None => {
            assert(false);
            Move { row: 0, col: 0 }
        },
    }
}

/// The squares named by the notations, sorted by row then column, without
/// repeats, in notation.
pub fn notation_list_from_strs(moves: &[&str]) -> (r: Vec<String>)
    requires
        all_parse(moves@),
    ensures
        exists|ms: Seq<Move>|
            strictly_sorted(ms) && same_moves(ms, parsed_moves(moves@)) && strings_view(r@)
                == move_texts(ms),
{
    let mut parsed: Vec<Move> = Vec::new();
    let mut i: usize = 0;
    while i < moves.len()
        invariant
            i <= moves.len(),
            all_parse(moves@),
            parsed@ == parsed_moves(moves@).take(i as int),
            forall|j: int| 0 <= j < parsed.len() ==> (#[trigger] parsed@[j]).col < 26 && parsed@[j].row < usize::MAX,
        decreases moves.len() - i,
    {
        assert(parse_notation_spec(moves@[i as int]@) is Some);
        let m = parse_move(moves[i]);
        parsed.push(m);
        assert(parsed@ =~= parsed_moves(moves@).take(i + 1));
        i += 1;
    }
    assert(parsed_moves(moves@).take(moves.len() as int) =~= parsed_moves(moves@));
    let ghost all = parsed@;
    normalize_moves(&mut parsed);
    assert forall|j: int| 0 <= j < parsed.len() implies (#[trigger] parsed@[j]).col < 26
        && parsed@[j].row < usize::MAX by {
        assert(parsed@.contains(parsed@[j]));
        assert(all.contains(parsed@[j]));
    }
    let r = notation_list(parsed.as_slice());
    assert(strictly_sorted(parsed@) && same_moves(parsed@, parsed_moves(moves@)) && strings_view(r@)
        == move_texts(parsed@));
    r
}

/// `key(a)` comes strictly after `key(b)`.
pub open spec fn key_after(a: (usize, usize), b: (usize, usize)) -> bool {
    a.0 > b.0 || (a.0 == b.0 && a.1 > b.1)
}

/// The first position of `s` whose key comes after that of `x`.
pub open spec fn key_insert_pos(keys: Seq<(usize, usize)>, s: Seq<int>, x: int) -> int
    decreases s.len(),
{
    if s.len() == 0 {
        0
    } else if key_after(keys[s[0]], keys[x]) {
        0
    } else {
        1 + key_insert_pos(keys, s.drop_first(), x)
    }
}

/// The positions `0..n` in the stable order of their keys.
pub open spec fn key_order(keys: Seq<(usize, usize)>, n: int) -> Seq<int>
    decreases n,
{
    if n <= 0 {
        Seq::empty()
    } else {
        let s = key_order(keys, n - 1);
        let p = key_insert_pos(keys, s, n - 1);
        s.take(p).push(n - 1) + s.skip(p)
    }
}

proof fn lemma_key_insert_pos_bounds(keys: Seq<(usize, usize)>, s: Seq<int>, x: int)
    ensures
        0 <= key_insert_pos(keys, s, x) <= s.len(),
    decreases s.len(),
{
    if s.len() > 0 {
        lemma_key_insert_pos_bounds(keys, s.drop_first(), x);
    }
}

proof fn lemma_key_order_range(keys: Seq<(usize, usize)>, n: int)
    requires
        n >= 0,
    ensures
        key_order(keys, n).len() == n,
        forall|k: int| 0 <= k < n ==> 0 <= #[trigger] key_order(keys, n)[k] < n,
    decreases n,
{
    if n > 0 {
        let s = key_order(keys, n - 1);
        lemma_key_order_range(keys, n - 1);
        let p = key_insert_pos(keys, s, n - 1);
        lemma_key_insert_pos_bounds(keys, s, n - 1);
        let r = key_order(keys, n);
        assert(r == s.take(p).push(n - 1) + s.skip(p));
        assert forall|k: int| 0 <= k < n implies 0 <= #[trigger] r[k] < n by {
            if k < p {
                assert(r[k] == s[k]);
            } else if k > p {
                assert(r[k] == s[k - 1]);
            }
        }
    }
}

/// The stable sort order of `keys`: the positions, ordered by key.
fn sorted_key_order(keys: &Vec<(usize, usize)>) -> (r: Vec<usize>)
    ensures
        r@.len() == keys.len(),
        forall|k: int| 0 <= k < r.len() ==> #[trigger] r@[k] as int == key_order(keys@, keys.len() as int)[k],
        forall|k: int| 0 <= k < r.len() ==> #[trigger] r@[k] < keys.len(),
{
    let mut out: Vec<usize> = Vec::new();
    let mut i: usize = 0;
    while i < keys.len()
        invariant
            i <= keys.len(),
            out.len() == i,
            forall|k: int| 0 <= k < i ==> #[trigger] out@[k] as int == key_order(keys@, i as int)[k],
        decreases keys.len() - i,
    {
        let ghost s = key_order(keys@, i as int);
        proof {
            lemma_key_order_range(keys@, i as int);
        }
        let mut p: usize = 0;
        assert(s.skip(0) =~= s);
        while p < out.len() && !(keys[out[p]].0 > keys[i].0 || (keys[out[p]].0 == keys[i].0
            && keys[out[p]].1 > keys[i].1))
            invariant
                p <= out.len(),
                out.len() == i,
                i < keys.len(),
                s.len() == i,
                forall|k: int| 0 <= k < i ==> 0 <= #[trigger] s[k] < i,
                forall|k: int| 0 <= k < i ==> #[trigger] out@[k] as int == s[k],
                key_insert_pos(keys@, s, i as int) == p + key_insert_pos(
                    keys@,
                    s.skip(p as int),
                    i as int,
                ),
            decreases out.len() - p,
        {
            assert(s.skip(p as int).drop_first() =~= s.skip(p + 1));
            assert(s.skip(p as int)[0] == s[p as int]);
            p += 1;
        }
        proof {
            if p < out.len() {
                assert(s.skip(p as int)[0] == s[p as int]);
            } else {
                assert(s.skip(p as int).len() == 0);
            }
        }
        let ghost before = out@;
        out.insert(p, i);
        assert forall|k: int| 0 <= k < i + 1 implies #[trigger] out@[k] as int == key_order(
            keys@,
            i + 1,
        )[k] by {
            let r = key_order(keys@, i + 1);
            assert(r == s.take(p as int).push(i as int) + s.skip(p as int));
            if k < p {
                assert(out@[k] == before[k]);
            } else if k > p {
                assert(out@[k] == before[k - 1]);
            }
        }
        i += 1;
    }
    proof {
        lemma_key_order_range(keys@, keys.len() as int);
    }
    out
}

/// The notation a square names, in its normal form.
pub open spec fn normal_notation(n: &str) -> Seq<char> {
    notation_spec(parse_notation_spec(n@)->0)
}

/// The square key of an expected notation.
pub open spec fn square_key(n: &str) -> (usize, usize) {
    (parse_notation_spec(n@)->0.row, parse_notation_spec(n@)->0.col)
}

/// Every notation an expected entry holds names a square.
pub open spec fn entry_parses(e: ExpectedOneStepEntry) -> bool {
    parse_notation_spec(e.mv@) is Some && all_parse(e.terminal_targets@)
}

/// `r` is the result form of `e`: the move's normal notation and the
/// targets sorted without repeats.
pub open spec fn entry_agrees(e: ExpectedOneStepEntry, r: LethalScenarioOneStepEntryResult) -> bool {
    &&& r.mv@ == normal_notation(e.mv)
    &&& exists|ms: Seq<Move>|
        strictly_sorted(ms) && same_moves(ms, parsed_moves(e.terminal_targets@)) && strings_view(
            r.terminal_targets@,
        ) == move_texts(ms)
}

/// The square keys of the entries' moves.
pub open spec fn entry_keys(entries: Seq<ExpectedOneStepEntry>) -> Seq<(usize, usize)> {
    Seq::new(entries.len(), |i: int| square_key(entries[i].mv))
}

fn normal_notation_of(n: &str) -> (r: String)
    requires
        parse_notation_spec(n@) is Some,
    ensures
        r@ == normal_notation(n),
{
    parse_move(n).to_notation()
}

/// The expected follow-ups in result form, sorted by square (stable).
pub fn one_step_entry_list_from_expected(entries: &[ExpectedOneStepEntry]) -> (r: Vec<
    LethalScenarioOneStepEntryResult,
>)
    requires
        forall|i: int| 0 <= i < entries.len() ==> entry_parses(#[trigger] entries@[i]),
    ensures
        r.len() == entries.len(),
        forall|k: int|
            0 <= k < r.len() ==> entry_agrees(
                entries@[key_order(entry_keys(entries@), entries.len() as int)[k]],
                #[trigger] r@[k],
            ),
{
    let mut keys: Vec<(usize, usize)> = Vec::new();
    let mut i: usize = 0;
    while i < entries.len()
        invariant
            i <= entries.len(),
            forall|j: int| 0 <= j < entries.len() ==> entry_parses(#[trigger] entries@[j]),
            keys@ == entry_keys(entries@).take(i as int),
        decreases entries.len() - i,
    {
        assert(entry_parses(entries@[i as int]));
        let m = parse_move(entries[i].mv);
        keys.push((m.row, m.col));
        assert(keys@ =~= entry_keys(entries@).take(i + 1));
        i += 1;
    }
    assert(entry_keys(entries@).take(entries.len() as int) =~= entry_keys(entries@));
    let order = sorted_key_order(&keys);
    let mut out: Vec<LethalScenarioOneStepEntryResult> = Vec::new();
    let mut k: usize = 0;
    while k < order.len()
        invariant
            k <= order.len(),
            order.len() == entries.len(),
            keys@ == entry_keys(entries@),
            forall|j: int| 0 <= j < entries.len() ==> entry_parses(#[trigger] entries@[j]),
            forall|j: int| 0 <= j < order.len() ==> #[trigger] order@[j] < entries.len(),
            forall|j: int|
                0 <= j < order.len() ==> #[trigger] order@[j] as int == key_order(
                    keys@,
                    entries.len() as int,
                )[j],
            out.len() == k,
            forall|j: int|
                0 <= j < k ==> entry_agrees(
                    entries@[key_order(entry_keys(entries@), entries.len() as int)[j]],
                    #[trigger] out@[j],
                ),
        decreases order.len() - k,
    {
        let e = entries[order[k]];
        assert(entry_parses(entries@[order@[k as int] as int]));
        let mv = normal_notation_of(e.mv);
        let targets = notation_list_from_strs(e.terminal_targets);
        out.push(LethalScenarioOneStepEntryResult { mv, terminal_targets: targets });
        k += 1;
    }
    out
}

/// Every notation an expected reply holds names a square.
pub open spec fn reply_parses(r: ExpectedOneStepReply) -> bool {
    parse_notation_spec(r.defender_reply@) is Some && forall|i: int|
        0 <= i < r.lethal_entries@.len() ==> entry_parses(#[trigger] r.lethal_entries@[i])
}

/// `r` is the result form of `e`.
pub open spec fn reply_agrees(e: ExpectedOneStepReply, r: LethalScenarioOneStepReplyResult) -> bool {
    &&& r.defender_reply@ == normal_notation(e.defender_reply)
    &&& r.lethal_entries@.len() == e.lethal_entries@.len()
    &&& forall|k: int|
        0 <= k < r.lethal_entries@.len() ==> entry_agrees(
            e.lethal_entries@[key_order(
                entry_keys(e.lethal_entries@),
                e.lethal_entries@.len() as int,
            )[k]],
            #[trigger] r.lethal_entries@[k],
        )
}

/// The square keys of the replies.
pub open spec fn reply_keys(replies: Seq<ExpectedOneStepReply>) -> Seq<(usize, usize)> {
    Seq::new(replies.len(), |i: int| square_key(replies[i].defender_reply))
}

/// The expected defender replies in result form, sorted by square (stable).
pub fn one_step_reply_list_from_expected(replies: &[ExpectedOneStepReply]) -> (r: Vec<
    LethalScenarioOneStepReplyResult,
>)
    requires
        forall|i: int| 0 <= i < replies.len() ==> reply_parses(#[trigger] replies@[i]),
    ensures
        r.len() == replies.len(),
        forall|k: int|
            0 <= k < r.len() ==> reply_agrees(
                replies@[key_order(reply_keys(replies@), replies.len() as int)[k]],
                #[trigger] r@[k],
            ),
{
    let mut keys: Vec<(usize, usize)> = Vec::new();
    let mut i: usize = 0;
    while i < replies.len()
        invariant
            i <= replies.len(),
            forall|j: int| 0 <= j < replies.len() ==> reply_parses(#[trigger] replies@[j]),
            keys@ == reply_keys(replies@).take(i as int),
        decreases replies.len() - i,
    {
        assert(reply_parses(replies@[i as int]));
        let m = parse_move(replies[i].defender_reply);
        keys.push((m.row, m.col));
        assert(keys@ =~= reply_keys(replies@).take(i + 1));
        i += 1;
    }
    assert(reply_keys(replies@).take(replies.len() as int) =~= reply_keys(replies@));
    let order = sorted_key_order(&keys);
    let mut out: Vec<LethalScenarioOneStepReplyResult> = Vec::new();
    let mut k: usize = 0;
    while k < order.len()
        invariant
            k <= order.len(),
            order.len() == replies.len(),
            keys@ == reply_keys(replies@),
            forall|j: int| 0 <= j < replies.len() ==> reply_parses(#[trigger] replies@[j]),
            forall|j: int| 0 <= j < order.len() ==> #[trigger] order@[j] < replies.len(),
            forall|j: int|
                0 <= j < order.len() ==> #[trigger] order@[j] as int == key_order(
                    keys@,
                    replies.len() as int,
                )[j],
            out.len() == k,
            forall|j: int|
                0 <= j < k ==> reply_agrees(
                    replies@[key_order(reply_keys(replies@), replies.len() as int)[j]],
                    #[trigger] out@[j],
                ),
        decreases order.len() - k,
    {
        let rep = replies[order[k]];
        assert(reply_parses(replies@[order@[k as int] as int]));
        let defender_reply = normal_notation_of(rep.defender_reply);
        let lethal_entries = one_step_entry_list_from_expected(rep.lethal_entries);
        out.push(LethalScenarioOneStepReplyResult { defender_reply, lethal_entries });
        k += 1;
    }
    out
}

/// A lethal follow-up that the one-step analysis found: the move and the
/// terminal targets it creates.
#[derive(Debug, Clone, PartialEq, Eq)]
pub struct OneStepLethalEntry {
    pub mv: Move,
    pub terminal_targets: Vec<Move>,
}

/// A defender reply that the one-step analysis examined, with the lethal
/// follow-ups it leaves.
#[derive(Debug, Clone, PartialEq, Eq)]
pub struct OneStepDefenderReply {
    pub reply: Move,
    pub lethal_entries: Vec<OneStepLethalEntry>,
}

/// A square that has a notation: a column letter and a row below the cap.
pub open spec fn printable(m: Move) -> bool {
    m.col < 26 && m.row < usize::MAX
}

/// Every square of the entry has a notation.
pub open spec fn found_entry_printable(e: OneStepLethalEntry) -> bool {
    printable(e.mv) && forall|i: int|
        0 <= i < e.terminal_targets@.len() ==> printable(#[trigger] e.terminal_targets@[i])
}

/// `r` is the result form of a found entry: the move's notation and the
/// targets' notations in the order found.
pub open spec fn found_entry_agrees(e: OneStepLethalEntry, r: LethalScenarioOneStepEntryResult) -> bool {
    &&& r.mv@ == notation_spec(e.mv)
    &&& strings_view(r.terminal_targets@) == move_texts(e.terminal_targets@)
}

/// The square keys of the found entries' moves.
pub open spec fn found_entry_keys(entries: Seq<OneStepLethalEntry>) -> Seq<(usize, usize)> {
    Seq::new(entries.len(), |i: int| (entries[i].mv.row, entries[i].mv.col))
}

/// The found follow-ups in result form, sorted by square (stable).
pub fn one_step_entry_list(entries: &[OneStepLethalEntry]) -> (r: Vec<
    LethalScenarioOneStepEntryResult,
>)
    requires
        forall|i: int| 0 <= i < entries.len() ==> found_entry_printable(#[trigger] entries@[i]),
    ensures
        r.len() == entries.len(),
        forall|k: int|
            0 <= k < r.len() ==> found_entry_agrees(
                entries@[key_order(found_entry_keys(entries@), entries.len() as int)[k]],
                #[trigger] r@[k],
            ),
{
    let mut keys: Vec<(usize, usize)> = Vec::new();
    let mut i: usize = 0;
    while i < entries.len()
        invariant
            i <= entries.len(),
            keys@ == found_entry_keys(entries@).take(i as int),
        decreases entries.len() - i,
    {
        keys.push((entries[i].mv.row, entries[i].mv.col));
        assert(keys@ =~= found_entry_keys(entries@).take(i + 1));
        i += 1;
    }
    assert(found_entry_keys(entries@).take(entries.len() as int) =~= found_entry_keys(entries@));
    let order = sorted_key_order(&keys);
    let mut out: Vec<LethalScenarioOneStepEntryResult> = Vec::new();
    let mut k: usize = 0;
    while k < order.len()
        invariant
            k <= order.len(),
            order.len() == entries.len(),
            keys@ == found_entry_keys(entries@),
            forall|j: int| 0 <= j < entries.len() ==> found_entry_printable(#[trigger] entries@[j]),
            forall|j: int| 0 <= j < order.len() ==> #[trigger] order@[j] < entries.len(),
            forall|j: int|
                0 <= j < order.len() ==> #[trigger] order@[j] as int == key_order(
                    keys@,
                    entries.len() as int,
                )[j],
            out.len() == k,
            forall|j: int|
                0 <= j < k ==> found_entry_agrees(
                    entries@[key_order(found_entry_keys(entries@), entries.len() as int)[j]],
                    #[trigger] out@[j],
                ),
        decreases order.len() - k,
    {
        let e = &entries[order[k]];
        assert(found_entry_printable(entries@[order@[k as int] as int]));
        let mv = e.mv.to_notation();
        let targets = notation_list(e.terminal_targets.as_slice());
        out.push(LethalScenarioOneStepEntryResult { mv, terminal_targets: targets });
        k += 1;
    }
    out
}

/// Every square of the reply has a notation.
pub open spec fn found_reply_printable(r: OneStepDefenderReply) -> bool {
    printable(r.reply) && forall|i: int|
        0 <= i < r.lethal_entries@.len() ==> found_entry_printable(#[trigger] r.lethal_entries@[i])
}

/// `r` is the result form of a found reply.
pub open spec fn found_reply_agrees(e: OneStepDefenderReply, r: LethalScenarioOneStepReplyResult) -> bool {
    &&& r.defender_reply@ == notation_spec(e.reply)
    &&& r.lethal_entries@.len() == e.lethal_entries@.len()
    &&& forall|k: int|
        0 <= k < r.lethal_entries@.len() ==> found_entry_agrees(
            e.lethal_entries@[key_order(
                found_entry_keys(e.lethal_entries@),
                e.lethal_entries@.len() as int,
            )[k]],
            #[trigger] r.lethal_entries@[k],
        )
}

/// The square keys of the found replies.
pub open spec fn found_reply_keys(replies: Seq<OneStepDefenderReply>) -> Seq<(usize, usize)> {
    Seq::new(replies.len(), |i: int| (replies[i].reply.row, replies[i].reply.col))
}

/// The defender replies the analysis examined, in result form, sorted by
/// square (stable).
pub fn one_step_reply_list(replies: &[OneStepDefenderReply]) -> (r: Vec<
    LethalScenarioOneStepReplyResult,
>)
    requires
        forall|i: int| 0 <= i < replies.len() ==> found_reply_printable(#[trigger] replies@[i]),
    ensures
        r.len() == replies.len(),
        forall|k: int|
            0 <= k < r.len() ==> found_reply_agrees(
                replies@[key_order(found_reply_keys(replies@), replies.len() as int)[k]],
                #[trigger] r@[k],
            ),
{
    let mut keys: Vec<(usize, usize)> = Vec::new();
    let mut i: usize = 0;
    while i < replies.len()
        invariant
            i <= replies.len(),
            keys@ == found_reply_keys(replies@).take(i as int),
        decreases replies.len() - i,
    {
        keys.push((replies[i].reply.row, replies[i].reply.col));
        assert(keys@ =~= found_reply_keys(replies@).take(i + 1));
        i += 1;
    }
    assert(found_reply_keys(replies@).take(replies.len() as int) =~= found_reply_keys(replies@));
    let order = sorted_key_order(&keys);
    let mut out: Vec<LethalScenarioOneStepReplyResult> = Vec::new();
    let mut k: usize = 0;
    while k < order.len()
        invariant
            k <= order.len(),
            order.len() == replies.len(),
            keys@ == found_reply_keys(replies@),
            forall|j: int| 0 <= j < replies.len() ==> found_reply_printable(#[trigger] replies@[j]),
            forall|j: int| 0 <= j < order.len() ==> #[trigger] order@[j] < replies.len(),
            forall|j: int|
                0 <= j < order.len() ==> #[trigger] order@[j] as int == key_order(
                    keys@,
                    replies.len() as int,
                )[j],
            out.len() == k,
            forall|j: int|
                0 <= j < k ==> found_reply_agrees(
                    replies@[key_order(found_reply_keys(replies@), replies.len() as int)[j]],
                    #[trigger] out@[j],
                ),
        decreases order.len() - k,
    {
        let rep = &replies[order[k]];
        assert(found_reply_printable(replies@[order@[k as int] as int]));
        let defender_reply = rep.reply.to_notation();
        let lethal_entries = one_step_entry_list(rep.lethal_entries.as_slice());
        out.push(LethalScenarioOneStepReplyResult { defender_reply, lethal_entries });
        k += 1;
    }
    out
}

proof fn lemma_decimal_nonempty(n: nat)
    ensures
        decimal(n).len() >= 1,
    decreases n,
{
    if n >= 10 {
        lemma_decimal_nonempty(n / 10);
    }
}

proof fn lemma_decimal_len_two(n: nat)
    requires
        n >= 10,
    ensures
        decimal(n).len() >= 2,
{
    lemma_decimal_nonempty(n / 10);
}

/// The characters of `s` separated by single spaces.
pub open spec fn spaced(s: Seq<char>) -> Seq<char>
    decreases s.len(),
{
    if s.len() == 0 {
        Seq::empty()
    } else if s.len() == 1 {
        s
    } else {
        spaced(s.drop_last()) + seq![' '] + seq![s.last()]
    }
}

/// The column letters of a board of `size` columns.
pub open spec fn letters_spec(size: nat) -> Seq<char> {
    Seq::new(size, |c: int| column_char_spec(c))
}

/// One printed row: the row number right-aligned in two places, the
/// squares, and the row number again.
pub open spec fn ascii_row_spec(grid: BoardGrid, row: int) -> Seq<char> {
    pad_left(decimal((row + 1) as nat), 2, ' ') + "  "@ + spaced(row_chars_spec(grid, row)) + "  "@
        + decimal((row + 1) as nat) + seq!['\n']
}

/// The rows `n - 1` down to `0`, printed.
pub open spec fn ascii_rows_spec(grid: BoardGrid, n: int) -> Seq<char>
    decreases n,
{
    if n <= 0 {
        Seq::empty()
    } else {
        ascii_row_spec(grid, n - 1) + ascii_rows_spec(grid, n - 1)
    }
}

/// The printed board: column letters above and below, the top row first.
pub open spec fn board_ascii_spec(grid: BoardGrid) -> Seq<char> {
    "    "@ + spaced(letters_spec(grid.size as nat)) + seq!['\n'] + ascii_rows_spec(
        grid,
        grid.size as int,
    ) + "    "@ + spaced(letters_spec(grid.size as nat))
}

fn push_spaced(out: &mut String, s: &Vec<char>)
    ensures
        final(out)@ == old(out)@ + spaced(s@),
{
    let ghost start = out@;
    let mut i: usize = 0;
    while i < s.len()
        invariant
            i <= s.len(),
            out@ == start + spaced(s@.take(i as int)),
        decreases s.len() - i,
    {
        assert(s@.take(i + 1).drop_last() =~= s@.take(i as int));
        if i > 0 {
            push_char(out, ' ');
        }
        push_char(out, s[i]);
        proof {
            if i == 0 {
                assert(s@.take(1) =~= seq![s@[0]]);
            }
        }
        assert(out@ =~= start + spaced(s@.take(i + 1)));
        i += 1;
    }
    assert(s@.take(s.len() as int) =~= s@);
}

fn letters(size: usize) -> (r: Vec<char>)
    requires
        size <= 26,
    ensures
        r@ == letters_spec(size as nat),
{
    let mut v: Vec<char> = Vec::new();
    let mut c: usize = 0;
    while c < size
        invariant
            c <= size,
            size <= 26,
            v@ == letters_spec(c as nat),
        decreases size - c,
    {
        v.push(column_label(c));
        assert(v@ =~= letters_spec((c + 1) as nat));
        c += 1;
    }
    v
}

fn row_cells(grid: &BoardGrid, row: usize) -> (r: Vec<char>)
    requires
        grid.wf(),
        row < grid.size,
    ensures
        r@ == row_chars_spec(*grid, row as int),
{
    let mut line: Vec<char> = Vec::new();
    let mut col: usize = 0;
    while col < grid.size
        invariant
            grid.wf(),
            row < grid.size,
            col <= grid.size,
            line@ == row_chars_spec(*grid, row as int).take(col as int),
        decreases grid.size - col,
    {
        let c = match grid.cell(row, col) {
            Some(color) => color.to_char(),
            None => '.',
        };
        line.push(c);
        assert(row_chars_spec(*grid, row as int).take(col + 1) =~= row_chars_spec(
            *grid,
            row as int,
        ).take(col as int).push(c));
        col += 1;
    }
    assert(row_chars_spec(*grid, row as int).take(grid.size as int) =~= row_chars_spec(
        *grid,
        row as int,
    ));
    line
}

/// Appends one printed row: its number padded to two places, the cells,
/// and the number again.
fn push_ascii_row(out: &mut String, board: &BoardGrid, row: usize)
    requires
        board.wf(),
        board.size <= 26,
        row < board.size,
    ensures
        final(out)@ == old(out)@ + ascii_row_spec(*board, row as int),
{
    let ghost before = out@;
    let num = decimal_chars((row + 1) as u64);
    if row + 1 < 10 {
        push_char(out, ' ');
    }
    push_chars(out, num.as_slice());
    proof {
        if row + 1 < 10 {
            assert(Seq::new((2 - decimal((row + 1) as nat).len()) as nat, |_i: int| ' ') =~= seq![
                ' ',
            ]);
        } else {
            lemma_decimal_len_two((row + 1) as nat);
        }
        assert(out@ =~= before + pad_left(decimal((row + 1) as nat), 2, ' '));
    }
    out.append("  ");
    let cells = row_cells(board, row);
    push_spaced(out, &cells);
    out.append("  ");
    push_chars(out, num.as_slice());
    push_char(out, '\n');
    assert(out@ =~= before + ascii_row_spec(*board, row as int));
}

/// The board as printed text: column letters, then each row from the top
/// (highest row number) down with its number on both sides, then the
/// letters again.
pub fn board_ascii(board: &BoardGrid) -> (r: String)
    requires
        board.wf(),
        board.size <= 26,
    ensures
        r@ == board_ascii_spec(*board),
{
    let ls = letters(board.size);
    let mut out = String::from_str("    ");
    push_spaced(&mut out, &ls);
    push_char(&mut out, '\n');
    let ghost head = out@;
    let mut r: usize = board.size;
    while r > 0
        invariant
            board.wf(),
            board.size <= 26,
            r <= board.size,
            head + ascii_rows_spec(*board, board.size as int) == out@ + ascii_rows_spec(
                *board,
                r as int,
            ),
        decreases r,
    {
        let row = r - 1;
        push_ascii_row(&mut out, board, row);
        r = row;
    }
    assert(ascii_rows_spec(*board, 0) =~= Seq::<char>::empty());
    out.append("    ");
    push_spaced(&mut out, &ls);
    out
}

} // verus!
