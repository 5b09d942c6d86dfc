//! The short labels of an analysis batch report: entry titles taken apart
//! from replay file names, result and source labels, interval labels, and
//! the small HTML pieces they sit in.
use vstd::prelude::*;
use crate::analysis::{ForcedInterval, UnclearReason};
use crate::board::Color;
use crate::bot_label::{compact_bot_label_parts, compact_bot_label_parts_spec};
use crate::html::{escape, escape_spec};
use crate::text::{
    all_ascii_digits, chars_of, decimal, digits_value, find_char, find_sub, find_sub_spec,
    first_index_of, occurs_at, push_chars, replace_char, replace_char_spec, skip_chars,
    string_from_chars, take_chars, trim_chars, trim_spec, usize_to_string,
};

verus! {

/// The part of `s` after its last `c` (all of `s` when there is none).
pub open spec fn after_last(s: Seq<char>, c: char) -> Seq<char>
    decreases s.len(),
{
    if s.len() == 0 {
        s
    } else if s.last() == c {
        Seq::empty()
    } else {
        after_last(s.drop_last(), c).push(s.last())
    }
}

/// `s` without the suffix `p` when it ends with it.
pub open spec fn strip_suffix_or_keep(s: Seq<char>, p: Seq<char>) -> Seq<char> {
    if s.len() >= p.len() && s.skip(s.len() - p.len()) == p {
        s.take(s.len() - p.len())
    } else {
        s
    }
}

/// `s` split around the first occurrence of `p`, like `str::split_once`.
pub open spec fn split_once_spec(s: Seq<char>, p: Seq<char>) -> Option<(Seq<char>, Seq<char>)> {
    match find_sub_spec(s, p) {
        Some(i) => Some((s.take(i), s.skip(i + p.len()))),
        None => None,
    }
}

/// What `s.parse::<usize>()` gives: an optional `+`, then one or more ASCII
/// digits whose value fits in a `usize`.
pub open spec fn parse_usize_spec(s: Seq<char>) -> Option<nat> {
    let body = if s.len() > 0 && s[0] == '+' {
        s.drop_first()
    } else {
        s
    };
    if body.len() > 0 && all_ascii_digits(body) && digits_value(body) <= usize::MAX {
        Some(digits_value(body) as nat)
    } else {
        None
    }
}

proof fn lemma_digits_prefix_le(s: Seq<char>, k: int)
    requires
        all_ascii_digits(s),
        0 <= k <= s.len(),
    ensures
        0 <= digits_value(s.take(k)) <= digits_value(s),
    decreases s.len() - k,
{
    if k < s.len() {
        lemma_digits_prefix_le(s, k + 1);
        let t = s.take(k + 1);
        assert(t.drop_last() =~= s.take(k));
        assert('0' <= s[k] && s[k] <= '9');
        lemma_digits_nonneg(s.take(k));
    } else {
        assert(s.take(k) =~= s);
        lemma_digits_nonneg(s);
    }
}

proof fn lemma_digits_nonneg(s: Seq<char>)
    requires
        forall|i: int| 0 <= i < s.len() ==> '0' <= #[trigger] s[i] && s[i] <= '9',
    ensures
        digits_value(s) >= 0,
    decreases s.len(),
{
    if s.len() > 0 {
        assert forall|i: int| 0 <= i < s.drop_last().len() implies '0' <= #[trigger] s.drop_last()[i]
            && s.drop_last()[i] <= '9' by {
            assert(s.drop_last()[i] == s[i]);
        }
        lemma_digits_nonneg(s.drop_last());
        assert('0' <= s[s.len() - 1]);
    }
}

/// Parses a `usize` the way `str::parse::<usize>` does.
pub fn parse_usize(s: &[char]) -> (r: Option<usize>)
    ensures
        match r {
            Some(v) => parse_usize_spec(s@) == Some(v as nat),
            None => parse_usize_spec(s@) is None,
        },
{
    let start: usize = if s.len() > 0 && s[0] == '+' {
        1
    } else {
        0
    };
    let ghost body = s@.skip(start as int);
    assert(body == (if s@.len() > 0 && s@[0] == '+' {
        s@.drop_first()
    } else {
        s@
    }));
    if start >= s.len() {
        return None;
    }
    let mut acc: usize = 0;
    let mut i: usize = start;
    assert(body.take(0) =~= Seq::<char>::empty());
    while i < s.len()
        invariant
            start <= i <= s.len(),
            start < s.len(),
            body == s@.skip(start as int),
            body == (if s@.len() > 0 && s@[0] == '+' {
                s@.drop_first()
            } else {
                s@
            }),
            all_ascii_digits(body.take(i - start)),
            acc as int == digits_value(body.take(i - start)),
        decreases s.len() - i,
    {
        let c = s[i];
        if !('0' <= c && c <= '9') {
            assert(body[i - start] == c);
            assert(!all_ascii_digits(body));
            assert(parse_usize_spec(s@) is None);
            return None;
        }
        let ghost prev = body.take(i - start);
        let ghost next = body.take(i + 1 - start);
        assert(next.drop_last() =~= prev);
        assert(next.last() == c);
        assert(all_ascii_digits(next)) by {
            assert forall|j: int| 0 <= j < next.len() implies '0' <= #[trigger] next[j] && next[j]
                <= '9' by {
                if j < prev.len() {
                    assert(next[j] == prev[j]);
                }
            }
        }
        let d: usize = (c as u32 - 48u32) as usize;
        assert(digits_value(next) == acc * 10 + d);
        let over = match acc.checked_mul(10) {
            Some(t) => match t.checked_add(d) {
                Some(u) => {
                    acc = u;
                    false
                },
                None => true,
            },
            None => true,
        };
        if over {
            proof {
                let rest_all = forall|j: int|
                    i - start <= j < body.len() ==> '0' <= #[trigger] body[j] && body[j] <= '9';
                if rest_all {
                    assert forall|j: int| 0 <= j < body.len() implies '0' <= #[trigger] body[j]
                        && body[j] <= '9' by {
                        if j < i - start {
                            assert(prev[j] == body[j]);
                        }
                    }
                    assert(all_ascii_digits(body));
                    lemma_digits_prefix_le(body, i + 1 - start);
                    assert(digits_value(next) > usize::MAX) by (nonlinear_arith)
                        requires
                            digits_value(next) == acc * 10 + d,
                            acc * 10 + d > usize::MAX || acc * 10 > usize::MAX,
                            d >= 0,
                    ;
                } else {
                    let j = choose|j: int|
                        i - start <= j < body.len() && !('0' <= #[trigger] body[j] && body[j]
                            <= '9');
                    assert(!all_ascii_digits(body));
                }
                assert(parse_usize_spec(s@) is None);
            }
            return None;
        }
        i += 1;
    }
    assert(body.take(s.len() - start) =~= body);
    Some(acc)
}

/// The display form of a replay's match label: `#N` for `match_N` (the
/// number parsed when it is one), else the label itself.
pub open spec fn match_display_spec(label: Seq<char>) -> Seq<char> {
    if label.len() >= 6 && label.take(6) == "match_"@ {
        let rest = label.skip(6);
        match parse_usize_spec(rest) {
            Some(n) => seq!['#'] + decimal(n),
            None => seq!['#'] + rest,
        }
    } else {
        label
    }
}

/// `#7` for `match_0007`; other labels unchanged.
pub fn match_label_for_display(label: &str) -> (r: String)
    ensures
        r@ == match_display_spec(label@),
{
    let chars = chars_of(label);
    let prefix = chars_of("match_");
    proof {
        reveal_strlit("match_");
    }
    if !crate::text::starts_with_chars(chars.as_slice(), prefix.as_slice()) {
        return String::from_str(label);
    }
    let rest = skip_chars(chars.as_slice(), 6);
    let mut s = String::new();
    crate::text::push_char(&mut s, '#');
    match parse_usize(rest.as_slice()) {
        Some(n) => {
            let t = usize_to_string(n);
            s.append(t.as_str());
        },
        None => {
            push_chars(&mut s, rest.as_slice());
        },
    }
    s
}

/// A bot name from its form in a replay label: `_` back to `+`.
pub open spec fn bot_name_spec(label: Seq<char>) -> Seq<char> {
    replace_char_spec(label, '_', seq!['+'])
}

/// The bot name a replay label encodes.
pub fn bot_name_from_report_label(label: &str) -> (r: String)
    ensures
        r@ == bot_name_spec(label@),
{
    let plus: [char; 1] = ['+'];
    let chars = chars_of(label);
    let v = replace_char(chars.as_slice(), '_', plus.as_slice());
    assert(plus@ =~= seq!['+']);
    string_from_chars(v.as_slice())
}

/// The title of a batch entry: its match label and, when the file name
/// names them, the two bots.
#[derive(Debug, Clone, PartialEq, Eq)]
pub struct ReplayEntryTitle {
    pub match_label: String,
    pub black: Option<String>,
    pub white: Option<String>,
}

/// The file name of a replay path without its directory and `.json`.
pub open spec fn entry_label_spec(path: Seq<char>) -> Seq<char> {
    strip_suffix_or_keep(after_last(path, '/'), ".json"@)
}

/// The title a replay path gives: `match_N__black__vs__white` read apart,
/// or just the label when it is not of that form.
pub open spec fn entry_title_spec(path: Seq<char>) -> (Seq<char>, Option<Seq<char>>, Option<Seq<char>>) {
    let label = entry_label_spec(path);
    match split_once_spec(label, "__vs__"@) {
        None => (match_display_spec(label), None, None),
        Some((left, bot_b)) => match split_once_spec(left, "__"@) {
            None => (match_display_spec(label), None, None),
            Some((m, bot_a)) => (
                match_display_spec(m),
                Some(bot_name_spec(bot_a)),
                Some(bot_name_spec(bot_b)),
            ),
        },
    }
}

fn after_last_slash(s: &[char]) -> (r: Vec<char>)
    ensures
        r@ == after_last(s@, '/'),
{
    let mut k: usize = s.len();
    assert(s@.take(k as int) =~= s@);
    assert(s@.skip(k as int) =~= Seq::<char>::empty());
    while k > 0 && s[k - 1] != '/'
        invariant
            k <= s.len(),
            after_last(s@, '/') == after_last(s@.take(k as int), '/') + s@.skip(k as int),
        decreases k,
    {
        let ghost t = s@.take(k as int);
        assert(t.drop_last() =~= s@.take(k - 1));
        assert(t.last() == s@[k - 1]);
        assert(s@.skip(k - 1) =~= seq![s@[k - 1]] + s@.skip(k as int));
        k -= 1;
    }
    proof {
        if k > 0 {
            let t = s@.take(k as int);
            assert(t.last() == s@[k - 1]);
        } else {
            assert(s@.take(0) =~= Seq::<char>::empty());
        }
    }
    assert(after_last(s@.take(k as int), '/') =~= Seq::<char>::empty());
    skip_chars(s, k)
}

fn strip_json(s: &Vec<char>) -> (r: Vec<char>)
    ensures
        r@ == strip_suffix_or_keep(s@, ".json"@),
{
    let suffix = chars_of(".json");
    proof {
        reveal_strlit(".json");
    }
    if s.len() >= suffix.len() {
        let tail = skip_chars(s.as_slice(), s.len() - suffix.len());
        if crate::text::chars_eq(tail.as_slice(), suffix.as_slice()) {
            return take_chars(s.as_slice(), s.len() - suffix.len());
        }
    }
    skip_chars(s.as_slice(), 0)
}

fn split_once_chars(s: &Vec<char>, p: &str) -> (r: Option<(Vec<char>, Vec<char>)>)
    ensures
        match r {
            Some((a, b)) => split_once_spec(s@, p@) == Some((a@, b@)),
            None => split_once_spec(s@, p@) is None,
        },
{
    let pc = chars_of(p);
    match find_sub(s.as_slice(), pc.as_slice()) {
        Some(i) => {
            assert(occurs_at(s@, pc@, i as int));
            let plen = pc.len();
            let slen = s.len();
            assert(i + plen <= slen);
            let a = take_chars(s.as_slice(), i);
            let b = skip_chars(s.as_slice(), i + plen);
            Some((a, b))
        },
        None => None,
    }
}

fn string_of(v: &Vec<char>) -> (r: String)
    ensures
        r@ == v@,
{
    string_from_chars(v.as_slice())
}

/// Reads the title of a batch entry out of its replay path.
pub fn replay_entry_title(path: &str) -> (r: ReplayEntryTitle)
    ensures
        (r.match_label@, crate::report_replay::opt_string_view(r.black),
            crate::report_replay::opt_string_view(r.white)) == entry_title_spec(path@),
{
    let chars = chars_of(path);
    let file = after_last_slash(chars.as_slice());
    let label = strip_json(&file);
    let label_str = string_of(&label);
    match split_once_chars(&label, "__vs__") {
        None => ReplayEntryTitle {
            match_label: match_label_for_display(label_str.as_str()),
            black: None,
            white: None,
        },
        Some((left, bot_b)) => match split_once_chars(&left, "__") {
            None => ReplayEntryTitle {
                match_label: match_label_for_display(label_str.as_str()),
                black: None,
                white: None,
            },
            Some((m, bot_a)) => {
                let ms = string_of(&m);
                let a = string_of(&bot_a);
                let b = string_of(&bot_b);
                ReplayEntryTitle {
                    match_label: match_label_for_display(ms.as_str()),
                    black: Some(bot_name_from_report_label(a.as_str())),
                    white: Some(bot_name_from_report_label(b.as_str())),
                }
            },
        },
    }
}

/// The result word and its class for a player of `color`.
pub open spec fn player_result_spec(winner: Option<Color>, color: Color) -> (Seq<char>, Seq<char>) {
    match winner {
        Some(w) => if w == color {
            ("win"@, "player-result--win"@)
        } else {
            ("lose"@, "player-result--lose"@)
        },
        None => ("draw"@, "player-result--draw"@),
    }
}

/// Win, lose or draw for the player of `color`, with its style class.
pub fn player_result_label(winner: Option<Color>, color: Color) -> (r: (&'static str, &'static str))
    ensures
        (r.0@, r.1@) == player_result_spec(winner, color),
{
    match winner {
        Some(w) => if w == color {
            ("win", "player-result--win")
        } else {
            ("lose", "player-result--lose")
        },
        None => ("draw", "player-result--draw"),
    }
}

/// A report's source split at its first `:` into path and selector, both
/// trimmed; without a `:`, the whole source and `all report replays`.
pub open spec fn source_and_selector_spec(source: Seq<char>) -> (Seq<char>, Seq<char>) {
    match crate::text::first_index_of(source, ':') {
        Some(i) => (trim_spec(source.take(i)), trim_spec(source.skip(i + 1))),
        None => (source, "all report replays"@),
    }
}

/// The report path and selector of a report-replays source.
pub fn report_source_and_selector(source: &str) -> (r: (String, String))
    ensures
        (r.0@, r.1@) == source_and_selector_spec(source@),
{
    let chars = chars_of(source);
    match find_char(chars.as_slice(), ':') {
        Some(i) => {
            proof {
                let s = source@;
                assert(exists|k: int| 0 <= k < s.len() && s[k] == ':') by {
                    assert(s[i as int] == ':');
                }
                let k = choose|k: int| 0 <= k < s.len() && s[k] == ':' && forall|j: int|
                    0 <= j < k ==> s[j] != ':';
                assert(k == i as int) by {
                    if k < i {
                        assert(s[k] != ':');
                    } else if k > i {
                        assert(s[i as int] != ':');
                    }
                }
            }
            let a = take_chars(chars.as_slice(), i);
            let b = skip_chars(chars.as_slice(), i + 1);
            let ta = trim_chars(a.as_slice());
            let tb = trim_chars(b.as_slice());
            (string_of(&ta), string_of(&tb))
        },
        None => {
            assert(!(exists|k: int| 0 <= k < source@.len() && source@[k] == ':'));
            (String::from_str(source), String::from_str("all report replays"))
        },
    }
}

/// A source kind for display: `_` read as a space.
pub fn source_kind_label(source_kind: &str) -> (r: String)
    ensures
        r@ == replace_char_spec(source_kind@, '_', seq![' ']),
{
    let space: [char; 1] = [' '];
    let chars = chars_of(source_kind);
    let v = replace_char(chars.as_slice(), '_', space.as_slice());
    assert(space@ =~= seq![' ']);
    string_from_chars(v.as_slice())
}

/// The source shown in a batch report: the report path for report replays,
/// else the source as given.
pub open spec fn provenance_source_spec(source_kind: Seq<char>, source: Seq<char>) -> Seq<char> {
    if source_kind == "report_replays"@ {
        source_and_selector_spec(source).0
    } else {
        source
    }
}

/// The source label of a batch report's provenance.
pub fn provenance_source_label(source_kind: &str, source: &str) -> (r: String)
    ensures
        r@ == provenance_source_spec(source_kind@, source@),
{
    if crate::text::str_eq(source_kind, "report_replays") {
        report_source_and_selector(source).0
    } else {
        String::from_str(source)
    }
}

/// The selector shown in a batch report: the report selector for report
/// replays, `all replays` for a replay directory, else the source kind.
pub open spec fn provenance_selector_spec(source_kind: Seq<char>, source: Seq<char>) -> Seq<char> {
    if source_kind == "report_replays"@ {
        source_and_selector_spec(source).1
    } else if source_kind == "replay_dir"@ {
        "all replays"@
    } else {
        replace_char_spec(source_kind, '_', seq![' '])
    }
}

/// The selector label of a batch report's provenance.
pub fn provenance_selector_label(source_kind: &str, source: &str) -> (r: String)
    ensures
        r@ == provenance_selector_spec(source_kind@, source@),
{
    if crate::text::str_eq(source_kind, "report_replays") {
        report_source_and_selector(source).1
    } else if crate::text::str_eq(source_kind, "replay_dir") {
        String::from_str("all replays")
    } else {
        source_kind_label(source_kind)
    }
}

/// `N ply`, or `-` when there is no count.
pub open spec fn ply_count_spec(value: Option<usize>) -> Seq<char> {
    match value {
        Some(v) => decimal(v as nat) + " ply"@,
        None => "-"@,
    }
}

/// A ply count label.
pub fn ply_count_label(value: Option<usize>) -> (r: String)
    ensures
        r@ == ply_count_spec(value),
{
    match value {
        Some(v) => {
            let mut s = usize_to_string(v);
            s.append(" ply");
            s
        },
        None => String::from_str("-"),
    }
}

/// `start-end` of an interval, or `-`.
pub open spec fn interval_range_spec(interval: Option<ForcedInterval>) -> Seq<char> {
    match interval {
        Some(i) => decimal(i.start_ply as nat) + "-"@ + decimal(i.end_ply as nat),
        None => "-"@,
    }
}

/// The plies a forced interval spans, as `start-end`.
pub fn forced_interval_range_label(interval: Option<&ForcedInterval>) -> (r: String)
    ensures
        r@ == interval_range_spec(match interval {
            Some(i) => Some(*i),
            None => None,
        }),
{
    match interval {
        Some(i) => {
            let mut s = usize_to_string(i.start_ply);
            s.append("-");
            let e = usize_to_string(i.end_ply);
            s.append(e.as_str());
            s
        },
        None => String::from_str("-"),
    }
}

/// The number of plies in an interval, both ends included (saturating),
/// as a ply count.
pub open spec fn interval_length_spec(interval: Option<ForcedInterval>) -> Seq<char> {
    match interval {
        Some(i) => {
            let d: int = if i.end_ply >= i.start_ply {
                i.end_ply - i.start_ply
            } else {
                0
            };
            let n: int = if d + 1 > usize::MAX {
                usize::MAX as int
            } else {
                d + 1
            };
            decimal(n as nat) + " ply"@
        },
        None => "-"@,
    }
}

/// The length of a forced interval, as a ply count.
pub fn forced_interval_length_label(interval: Option<&ForcedInterval>) -> (r: String)
    ensures
        r@ == interval_length_spec(match interval {
            Some(i) => Some(*i),
            None => None,
        }),
{
    match interval {
        Some(i) => ply_count_label(Some(i.end_ply.saturating_sub(i.start_ply).saturating_add(1))),
        None => String::from_str("-"),
    }
}

/// A detail cell: the escaped label over the escaped value.
pub open spec fn detail_html_spec(label: Seq<char>, value: Seq<char>) -> Seq<char> {
    "<div class=\"detail\"><span>"@ + escape_spec(label) + "</span><strong>"@ + escape_spec(value)
        + "</strong></div>"@
}

/// A detail cell of an entry card.
pub fn detail_html(label: &str, value: &str) -> (r: String)
    ensures
        r@ == detail_html_spec(label@, value@),
{
    let mut s = String::from_str("<div class=\"detail\"><span>");
    let l = escape(label);
    s.append(l.as_str());
    s.append("</span><strong>");
    let v = escape(value);
    s.append(v.as_str());
    s.append("</strong></div>");
    s
}

/// A bot label in HTML: its escaped primary part, then its escaped
/// modifiers in a span of their own when there are any.
pub open spec fn bot_label_html_spec(bot: Seq<char>) -> Seq<char> {
    let (primary, modifiers) = compact_bot_label_parts_spec(bot, false);
    "<span class=\"bot-label\"><span>"@ + escape_spec(primary) + "</span>"@ + (match modifiers {
        Some(m) => "<span>"@ + escape_spec(m) + "</span>"@,
        None => Seq::empty(),
    }) + "</span>"@
}

/// The compact label of a bot, as HTML.
pub fn compact_bot_label_html(bot: &str) -> (r: String)
    ensures
        r@ == bot_label_html_spec(bot@),
{
    let (primary, modifiers) = compact_bot_label_parts(bot, false);
    let mut s = String::from_str("<span class=\"bot-label\"><span>");
    let p = escape(primary.as_str());
    s.append(p.as_str());
    s.append("</span>");
    match modifiers {
        Some(m) => {
            s.append("<span>");
            let e = escape(m.as_str());
            s.append(e.as_str());
            s.append("</span>");
        },
        None => {},
    }
    s.append("</span>");
    s
}

/// A player column of an entry card: the color, the player's result with
/// its class, and the bot's label (or a dash).
pub open spec fn player_column_spec(
    color_label: Seq<char>,
    bot: Option<Seq<char>>,
    winner: Option<Color>,
    color: Color,
) -> Seq<char> {
    let (result, result_class) = player_result_spec(winner, color);
    let bot_html = match bot {
        Some(b) => bot_label_html_spec(b),
        None => "<span class=\"bot-label\"><span>-</span></span>"@,
    };
    "<span class=\"entry-player\"><span class=\"entry-player-head\"><span class=\"entry-player-color\">"@
        + escape_spec(color_label) + "</span><span class=\"player-result "@ + result_class
        + "\">"@ + escape_spec(result) + "</span></span><span class=\"entry-bots\">"@ + bot_html
        + "</span></span>"@
}

/// The column of one player on an entry card.
pub fn player_column_html(color_label: &str, bot: Option<&str>, winner: Option<Color>, color: Color) -> (r:
    String)
    ensures
        r@ == player_column_spec(
            color_label@,
            match bot {
                Some(b) => Some(b@),
                None => None,
            },
            winner,
            color,
        ),
{
    let (result, result_class) = player_result_label(winner, color);
    let bot_html = match bot {
        Some(b) => compact_bot_label_html(b),
        None => String::from_str("<span class=\"bot-label\"><span>-</span></span>"),
    };
    let mut s = String::from_str(
        "<span class=\"entry-player\"><span class=\"entry-player-head\"><span class=\"entry-player-color\">",
    );
    let c = escape(color_label);
    s.append(c.as_str());
    s.append("</span><span class=\"player-result ");
    s.append(result_class);
    s.append("\">");
    let e = escape(result);
    s.append(e.as_str());
    s.append("</span></span><span class=\"entry-bots\">");
    s.append(bot_html.as_str());
    s.append("</span></span>");
    s
}

/// The two player columns of an entry card, winner first; Black first
/// when Black won or nobody did.
pub open spec fn ordered_columns_spec(
    black: Option<Seq<char>>,
    white: Option<Seq<char>>,
    winner: Option<Color>,
) -> (Seq<char>, Seq<char>) {
    let b = player_column_spec("Black"@, black, winner, Color::Black);
    let w = player_column_spec("White"@, white, winner, Color::White);
    match winner {
        Some(Color::White) => (w, b),
        _ => (b, w),
    }
}

fn opt_as_str(o: &Option<String>) -> (r: Option<&str>)
    ensures
        match r {
            Some(s) => crate::report_replay::opt_string_view(*o) == Some(s@),
            None => o is None,
        },
{
    match o {
        Some(s) => Some(s.as_str()),
        None => None,
    }
}

/// The player columns of an entry, the winner's first.
pub fn ordered_player_columns_html(title: &ReplayEntryTitle, winner: Option<Color>) -> (r: (
    String,
    String,
))
    ensures
        (r.0@, r.1@) == ordered_columns_spec(
            crate::report_replay::opt_string_view(title.black),
            crate::report_replay::opt_string_view(title.white),
            winner,
        ),
{
    let black = player_column_html("Black", opt_as_str(&title.black), winner, Color::Black);
    let white = player_column_html("White", opt_as_str(&title.white), winner, Color::White);
    match winner {
        Some(Color::White) => (white, black),
        _ => (black, white),
    }
}

/// The label of the reason an analysis stayed unclear, `-` for none.
pub open spec fn unclear_reason_label_spec(reason: Option<UnclearReason>) -> Seq<char> {
    match reason {
        Some(UnclearReason::PreviousPrefixUnknown) => "previous prefix unknown"@,
        Some(UnclearReason::ScanWindowCutoff) => "scan cap cutoff"@,
        Some(UnclearReason::ProofLimitHit) => "proof limit hit"@,
        Some(UnclearReason::NoFinalForcedInterval) => "no final forced interval"@,
        Some(UnclearReason::DrawOrOngoing) => "draw or ongoing"@,
        None => "-"@,
    }
}

/// Names why an analysis stayed unclear.
pub fn unclear_reason_label(unclear_reason: Option<UnclearReason>) -> (r: String)
    ensures
        r@ == unclear_reason_label_spec(unclear_reason),
{
    let label = match unclear_reason {
        Some(UnclearReason::PreviousPrefixUnknown) => "previous prefix unknown",
        Some(UnclearReason::ScanWindowCutoff) => "scan cap cutoff",
        Some(UnclearReason::ProofLimitHit) => "proof limit hit",
        Some(UnclearReason::NoFinalForcedInterval) => "no final forced interval",
        Some(UnclearReason::DrawOrOngoing) => "draw or ongoing",
        None => "-",
    };
    String::from_str(label)
}

} // verus!
