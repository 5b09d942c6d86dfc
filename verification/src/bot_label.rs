//! Compact display labels for bot specs such as
//! `search-d5+tactical-cap-16+pattern-eval`.
use vstd::prelude::*;
use crate::text::{
    chars_eq_str, chars_of, find_char, find_sub, find_sub_spec, occurs_at, first_index_of, has_prefix,
    all_ascii_digits, decimal, digit_char, digits_value, i64_to_string, sign_stripped, join_char_vecs, join_spec, lemma_split_nonempty,
    lemma_split_pieces_lack_sep, parse_i32, parse_i32_spec,
    push_char, push_chars, signed_decimal, skip_chars, split_chars, split_spec, starts_with_chars,
    str_eq, string_from_chars, strip_prefix_chars, take_chars, vecs_view,
};

verus! {

/// The search depth that a base spec (the part before the first `+`) names.
pub open spec fn base_depth_spec(base: Seq<char>, budgeted_unqualified_search: bool) -> Option<i32> {
    if base == "fast"@ {
        Some(2)
    } else if base == "balanced"@ {
        Some(3)
    } else if base == "deep"@ {
        Some(5)
    } else if (base == "baseline"@ || base == "search"@) && budgeted_unqualified_search {
        Some(20)
    } else if base == "baseline"@ || base == "search"@ {
        Some(5)
    } else {
        let rest = if has_prefix(base, "baseline-"@) {
            Some(base.skip("baseline-"@.len() as int))
        } else if has_prefix(base, "search-"@) {
            Some(base.skip("search-"@.len() as int))
        } else {
            None
        };
        match rest {
            Some(depth) => parse_i32_spec(
                if has_prefix(depth, "d"@) {
                    depth.skip("d"@.len() as int)
                } else {
                    depth
                },
            ),
            None => None,
        }
    }
}

/// The label of a feature that carries a parameter after a known prefix.
pub open spec fn prefixed_feature_label_spec(f: Seq<char>) -> Option<Seq<char>> {
    let self_rest = f.skip("near-self-r"@.len() as int);
    if has_prefix(f, "tactical-cap-"@) {
        Some("TCap"@ + f.skip("tactical-cap-"@.len() as int))
    } else if has_prefix(f, "tactical-full-cap-"@) {
        Some("TFullCap"@ + f.skip("tactical-full-cap-"@.len() as int))
    } else if has_prefix(f, "child-cap-"@) {
        Some("Cap"@ + f.skip("child-cap-"@.len() as int))
    } else if has_prefix(f, "near-all-r"@) {
        Some("NearR"@ + f.skip("near-all-r"@.len() as int))
    } else if has_prefix(f, "near-self-r"@) && find_sub_spec(self_rest, "-opponent-r"@) is Some {
        let at = find_sub_spec(self_rest, "-opponent-r"@)->0;
        Some("SelfR"@ + self_rest.take(at) + "OppR"@ + self_rest.skip(at + "-opponent-r"@.len()))
    } else if has_prefix(f, "corridor-proof-"@) {
        Some("Corridor Proof"@)
    } else {
        None
    }
}

/// The label of a feature known by its whole name; other names are kept.
pub open spec fn named_feature_label_spec(f: Seq<char>) -> Seq<char> {
    if f == "pattern-eval"@ {
        "Pattern"@
    } else if f == "rolling-frontier"@ {
        "Rolling"@
    } else if f == "rolling-frontier-shadow"@ {
        "RollingShadow"@
    } else if f == "tactical-full"@ {
        "TFull"@
    } else if f == "no-safety"@ {
        "NoSafety"@
    } else {
        f
    }
}

/// The compact label of one `+`-separated feature of a search spec.
pub open spec fn feature_label_spec(f: Seq<char>) -> Seq<char> {
    match prefixed_feature_label_spec(f) {
        Some(l) => l,
        None => named_feature_label_spec(f),
    }
}

/// The labels of the features, each preceded by `+`.
pub open spec fn features_suffix_spec(features: Seq<Seq<char>>) -> Seq<char>
    decreases features.len(),
{
    if features.len() == 0 {
        Seq::empty()
    } else {
        features_suffix_spec(features.drop_last()) + seq!['+'] + feature_label_spec(features.last())
    }
}

/// The compact label of a bot spec.
pub open spec fn compact_bot_label_spec(bot: Seq<char>, budgeted_unqualified_search: bool) -> Seq<
    char,
> {
    let parts = split_spec(bot, '+');
    if bot == "random"@ {
        "RandomBot"@
    } else {
        match base_depth_spec(parts[0], budgeted_unqualified_search) {
            Some(depth) => "SearchBot_D"@ + signed_decimal(depth as int) + features_suffix_spec(
                parts.skip(1),
            ),
            None => bot,
        }
    }
}

/// The compact label split at its first `+`: the primary part, and the
/// modifiers rejoined with ` + `.
pub open spec fn compact_bot_label_parts_spec(bot: Seq<char>, budgeted_unqualified_search: bool) -> (
    Seq<char>,
    Option<Seq<char>>,
) {
    let label = compact_bot_label_spec(bot, budgeted_unqualified_search);
    match first_index_of(label, '+') {
        None => (label, None),
        Some(i) => (
            label.take(i),
            Some(join_spec(split_spec(label.skip(i + 1), '+'), " + "@)),
        ),
    }
}

/// The search depth that a base bot spec names: `fast`, `balanced`, `deep`,
/// `baseline`/`search` (20 when budgeted, else 5), or `search-dN`/`baseline-dN`
/// (the `d` optional).
pub fn searchbot_base_depth(bot: &[char], budgeted_unqualified_search: bool) -> (r: Option<i32>)
    ensures
        r == base_depth_spec(bot@, budgeted_unqualified_search),
{
    if chars_eq_str(bot, "fast") {
        Some(2)
    } else if chars_eq_str(bot, "balanced") {
        Some(3)
    } else if chars_eq_str(bot, "deep") {
        Some(5)
    } else if (chars_eq_str(bot, "baseline") || chars_eq_str(bot, "search"))
        && budgeted_unqualified_search {
        Some(20)
    } else if chars_eq_str(bot, "baseline") || chars_eq_str(bot, "search") {
        Some(5)
    } else {
        let p1 = chars_of("baseline-");
        let p2 = chars_of("search-");
        let rest = match strip_prefix_chars(bot, p1.as_slice()) {
            Some(r) => Some(r),
            None => strip_prefix_chars(bot, p2.as_slice()),
        };
        match rest {
            Some(depth) => {
                let d = chars_of("d");
                let digits = match strip_prefix_chars(depth.as_slice(), d.as_slice()) {
                    Some(x) => x,
                    None => depth,
                };
                parse_i32(digits.as_slice())
            },
            None => None,
        }
    }
}

fn prefixed_rest(f: &[char], prefix: &str, label: &str) -> (r: Option<String>)
    ensures
        match r {
            Some(s) => has_prefix(f@, prefix@) && s@ == label@ + f@.skip(prefix@.len() as int),
            None => !has_prefix(f@, prefix@),
        },
{
    let p = chars_of(prefix);
    match strip_prefix_chars(f, p.as_slice()) {
        Some(rest) => {
            let mut s = String::from_str(label);
            push_chars(&mut s, rest.as_slice());
            Some(s)
        },
        None => None,
    }
}

fn self_opponent_label(feature: &[char]) -> (r: Option<String>)
    ensures
        match r {
            Some(s) => has_prefix(feature@, "near-self-r"@) && find_sub_spec(
                feature@.skip("near-self-r"@.len() as int),
                "-opponent-r"@,
            ) is Some && s@ == ({
                let self_rest = feature@.skip("near-self-r"@.len() as int);
                let at = find_sub_spec(self_rest, "-opponent-r"@)->0;
                "SelfR"@ + self_rest.take(at) + "OppR"@ + self_rest.skip(at + "-opponent-r"@.len())
            }),
            None => !(has_prefix(feature@, "near-self-r"@) && find_sub_spec(
                feature@.skip("near-self-r"@.len() as int),
                "-opponent-r"@,
            ) is Some),
        },
{
    let self_prefix = chars_of("near-self-r");
    if let Some(rest) = strip_prefix_chars(feature, self_prefix.as_slice()) {
        let sep = chars_of("-opponent-r");
        if let Some(at) = find_sub(rest.as_slice(), sep.as_slice()) {
            assert(occurs_at(rest@, sep@, at as int));
            let rest_len = rest.len();
            assert(at + sep@.len() <= rest_len);
            let self_radius = take_chars(rest.as_slice(), at);
            let opponent_radius = skip_chars(rest.as_slice(), at + sep.len());
            let mut s = String::from_str("SelfR");
            push_chars(&mut s, self_radius.as_slice());
            s.append("OppR");
            push_chars(&mut s, opponent_radius.as_slice());
            return Some(s);
        }
    }
    None
}

fn prefixed_feature_label(feature: &[char]) -> (r: Option<String>)
    ensures
        match r {
            Some(s) => prefixed_feature_label_spec(feature@) == Some(s@),
            None => prefixed_feature_label_spec(feature@) is None,
        },
{
    if let Some(s) = prefixed_rest(feature, "tactical-cap-", "TCap") {
        return Some(s);
    }
    if let Some(s) = prefixed_rest(feature, "tactical-full-cap-", "TFullCap") {
        return Some(s);
    }
    if let Some(s) = prefixed_rest(feature, "child-cap-", "Cap") {
        return Some(s);
    }
    if let Some(s) = prefixed_rest(feature, "near-all-r", "NearR") {
        return Some(s);
    }
    if let Some(s) = self_opponent_label(feature) {
        return Some(s);
    }
    let corridor = chars_of("corridor-proof-");
    if starts_with_chars(feature, corridor.as_slice()) {
        return Some(String::from_str("Corridor Proof"));
    }
    None
}

fn named_feature_label(feature: &[char]) -> (r: String)
    ensures
        r@ == named_feature_label_spec(feature@),
{
    if chars_eq_str(feature, "pattern-eval") {
        String::from_str("Pattern")
    } else if chars_eq_str(feature, "rolling-frontier") {
        String::from_str("Rolling")
    } else if chars_eq_str(feature, "rolling-frontier-shadow") {
        String::from_str("RollingShadow")
    } else if chars_eq_str(feature, "tactical-full") {
        String::from_str("TFull")
    } else if chars_eq_str(feature, "no-safety") {
        String::from_str("NoSafety")
    } else {
        string_from_chars(feature)
    }
}

/// The compact label of one feature: `tactical-cap-N` becomes `TCapN`,
/// `pattern-eval` becomes `Pattern`, unknown features are kept as they are.
pub fn compact_searchbot_feature_label(feature: &[char]) -> (r: String)
    ensures
        r@ == feature_label_spec(feature@),
{
    match prefixed_feature_label(feature) {
        Some(s) => s,
        None => named_feature_label(feature),
    }
}

fn features_suffix(parts: &Vec<Vec<char>>) -> (r: String)
    requires
        parts.len() >= 1,
    ensures
        r@ == features_suffix_spec(vecs_view(parts@).skip(1)),
{
    let ghost pv = vecs_view(parts@);
    let mut label = String::new();
    let mut i: usize = 1;
    assert(pv.skip(1).take(0) =~= Seq::<Seq<char>>::empty());
    while i < parts.len()
        invariant
            1 <= i <= parts.len(),
            pv == vecs_view(parts@),
            label@ == features_suffix_spec(pv.skip(1).take(i - 1)),
        decreases parts.len() - i,
    {
        push_char(&mut label, '+');
        assert(pv[i as int] == parts@[i as int]@);
        let f = compact_searchbot_feature_label(parts[i].as_slice());
        label.append(f.as_str());
        assert(pv.skip(1).take(i as int).drop_last() =~= pv.skip(1).take(i - 1));
        assert(pv.skip(1).take(i as int).last() == pv[i as int]);
        i += 1;
    }
    assert(pv.skip(1).take(parts.len() - 1) =~= pv.skip(1));
    label
}

/// The compact label of a bot spec: `random` becomes `RandomBot`, a search
/// spec becomes `SearchBot_D<depth>` followed by `+<feature label>` for each
/// feature, and anything else is returned unchanged.
pub fn compact_bot_label(bot: &str, budgeted_unqualified_search: bool) -> (r: String)
    ensures
        r@ == compact_bot_label_spec(bot@, budgeted_unqualified_search),
{
    if str_eq(bot, "random") {
        return String::from_str("RandomBot");
    }
    let chars = chars_of(bot);
    let parts = split_chars(chars.as_slice(), '+');
    proof {
        lemma_split_nonempty(bot@, '+');
    }
    let ghost pv = split_spec(bot@, '+');
    assert(vecs_view(parts@)[0] == parts@[0]@);
    let depth = match searchbot_base_depth(parts[0].as_slice(), budgeted_unqualified_search) {
        Some(d) => d,
        None => {
            return String::from_str(bot);
        },
    };
    let mut label = String::from_str("SearchBot_D");
    let depth_text = i64_to_string(depth as i64);
    label.append(depth_text.as_str());
    let suffix = features_suffix(&parts);
    label.append(suffix.as_str());
    label
}

/// The compact label split into its primary part and its modifiers, the
/// modifiers joined with ` + `.
pub fn compact_bot_label_parts(bot: &str, budgeted_unqualified_search: bool) -> (r: (
    String,
    Option<String>,
))
    ensures
        r.0@ == compact_bot_label_parts_spec(bot@, budgeted_unqualified_search).0,
        match r.1 {
            Some(m) => compact_bot_label_parts_spec(bot@, budgeted_unqualified_search).1 == Some(
                m@,
            ),
            None => compact_bot_label_parts_spec(bot@, budgeted_unqualified_search).1 is None,
        },
{
    let label = compact_bot_label(bot, budgeted_unqualified_search);
    let chars = chars_of(label.as_str());
    match find_char(chars.as_slice(), '+') {
        None => (label, None),
        Some(i) => {
            let primary = take_chars(chars.as_slice(), i);
            let modifiers = skip_chars(chars.as_slice(), i + 1);
            let pieces = split_chars(modifiers.as_slice(), '+');
            let sep = chars_of(" + ");
            let joined = join_char_vecs(&pieces, sep.as_slice());
            (string_from_chars(primary.as_slice()), Some(string_from_chars(joined.as_slice())))
        },
    }
}

/// How often `c` occurs in `s`.
pub open spec fn count_char(s: Seq<char>, c: char) -> nat
    decreases s.len(),
{
    if s.len() == 0 {
        0
    } else {
        count_char(s.drop_last(), c) + if s.last() == c {
            1nat
        } else {
            0nat
        }
    }
}

/// `c` does not occur in `s`.
pub open spec fn lacks_char(s: Seq<char>, c: char) -> bool {
    forall|k: int| 0 <= k < s.len() ==> s[k] != c
}

proof fn lemma_count_concat(a: Seq<char>, b: Seq<char>, c: char)
    ensures
        count_char(a + b, c) == count_char(a, c) + count_char(b, c),
    decreases b.len(),
{
    if b.len() > 0 {
        lemma_count_concat(a, b.drop_last(), c);
        assert((a + b).drop_last() =~= a + b.drop_last());
        assert((a + b).last() == b.last());
    } else {
        assert(a + b =~= a);
    }
}

proof fn lemma_count_lacking(s: Seq<char>, c: char)
    requires
        lacks_char(s, c),
    ensures
        count_char(s, c) == 0,
    decreases s.len(),
{
    if s.len() > 0 {
        assert(s[s.len() - 1] == s.last());
        lemma_count_lacking(s.drop_last(), c);
    }
}

proof fn lemma_split_count(s: Seq<char>, sep: char)
    ensures
        split_spec(s, sep).len() == count_char(s, sep) + 1,
    decreases s.len(),
{
    if s.len() > 0 {
        lemma_split_count(s.drop_last(), sep);
        lemma_split_nonempty(s.drop_last(), sep);
    }
}

proof fn lemma_decimal_lacks_plus(n: nat)
    ensures
        lacks_char(decimal(n), '+'),
    decreases n,
{
    if n >= 10 {
        lemma_decimal_lacks_plus(n / 10);
        let d = (n % 10) as int;
        assert(digit_char(d) as u32 == 48 + d);
        let r = decimal(n);
        assert forall|k: int| 0 <= k < r.len() implies r[k] != '+' by {
            if k < r.len() - 1 {
                assert(r[k] == decimal(n / 10)[k]);
            }
        }
    } else {
        assert(digit_char(n as int) as u32 == 48 + n);
    }
}

proof fn lemma_signed_decimal_lacks_plus(v: int)
    ensures
        lacks_char(signed_decimal(v), '+'),
{
    if v < 0 {
        lemma_decimal_lacks_plus((-v) as nat);
        let r = signed_decimal(v);
        assert forall|k: int| 0 <= k < r.len() implies r[k] != '+' by {
            if k > 0 {
                assert(r[k] == decimal((-v) as nat)[k - 1]);
            }
        }
    } else {
        lemma_decimal_lacks_plus(v as nat);
    }
}

proof fn lemma_concat_lacks(a: Seq<char>, b: Seq<char>, c: char)
    requires
        lacks_char(a, c),
        lacks_char(b, c),
    ensures
        lacks_char(a + b, c),
{
    assert forall|k: int| 0 <= k < (a + b).len() implies (a + b)[k] != c by {
        if k < a.len() {
            assert((a + b)[k] == a[k]);
        } else {
            assert((a + b)[k] == b[k - a.len()]);
        }
    }
}

proof fn lemma_sub_lacks(f: Seq<char>, i: int, j: int, c: char)
    requires
        lacks_char(f, c),
        0 <= i <= j <= f.len(),
    ensures
        lacks_char(f.subrange(i, j), c),
{
    assert forall|k: int| 0 <= k < f.subrange(i, j).len() implies f.subrange(i, j)[k] != c by {
        assert(f.subrange(i, j)[k] == f[i + k]);
    }
}

proof fn lemma_feature_label_lacks_plus(f: Seq<char>)
    requires
        lacks_char(f, '+'),
    ensures
        lacks_char(feature_label_spec(f), '+'),
{
    reveal_strlit("TCap");
    reveal_strlit("TFullCap");
    reveal_strlit("Cap");
    reveal_strlit("NearR");
    reveal_strlit("SelfR");
    reveal_strlit("OppR");
    reveal_strlit("Corridor Proof");
    reveal_strlit("Pattern");
    reveal_strlit("Rolling");
    reveal_strlit("RollingShadow");
    reveal_strlit("TFull");
    reveal_strlit("NoSafety");
    reveal_strlit("tactical-cap-");
    reveal_strlit("tactical-full-cap-");
    reveal_strlit("child-cap-");
    reveal_strlit("near-all-r");
    reveal_strlit("near-self-r");
    reveal_strlit("-opponent-r");
    if has_prefix(f, "tactical-cap-"@) {
        lemma_sub_lacks(f, 13, f.len() as int, '+');
        assert(f.skip(13) =~= f.subrange(13, f.len() as int));
        lemma_concat_lacks("TCap"@, f.skip(13), '+');
    } else if has_prefix(f, "tactical-full-cap-"@) {
        lemma_sub_lacks(f, 18, f.len() as int, '+');
        assert(f.skip(18) =~= f.subrange(18, f.len() as int));
        lemma_concat_lacks("TFullCap"@, f.skip(18), '+');
    } else if has_prefix(f, "child-cap-"@) {
        lemma_sub_lacks(f, 10, f.len() as int, '+');
        assert(f.skip(10) =~= f.subrange(10, f.len() as int));
        lemma_concat_lacks("Cap"@, f.skip(10), '+');
    } else if has_prefix(f, "near-all-r"@) {
        lemma_sub_lacks(f, 10, f.len() as int, '+');
        assert(f.skip(10) =~= f.subrange(10, f.len() as int));
        lemma_concat_lacks("NearR"@, f.skip(10), '+');
    } else if has_prefix(f, "near-self-r"@) && find_sub_spec(f.skip(11), "-opponent-r"@) is Some {
        let rest = f.skip(11);
        let at = find_sub_spec(rest, "-opponent-r"@)->0;
        lemma_find_sub_occurs(rest, "-opponent-r"@);
        assert(occurs_at(rest, "-opponent-r"@, at));
        lemma_sub_lacks(f, 11, f.len() as int, '+');
        assert(rest =~= f.subrange(11, f.len() as int));
        lemma_sub_lacks(rest, 0, at, '+');
        assert(rest.take(at) =~= rest.subrange(0, at));
        lemma_sub_lacks(rest, at + 11, rest.len() as int, '+');
        assert(rest.skip(at + 11) =~= rest.subrange(at + 11, rest.len() as int));
        lemma_concat_lacks("SelfR"@, rest.take(at), '+');
        lemma_concat_lacks("SelfR"@ + rest.take(at), "OppR"@, '+');
        lemma_concat_lacks("SelfR"@ + rest.take(at) + "OppR"@, rest.skip(at + 11), '+');
    }
}

proof fn lemma_features_suffix_count(features: Seq<Seq<char>>)
    requires
        forall|i: int| 0 <= i < features.len() ==> lacks_char(#[trigger] features[i], '+'),
    ensures
        count_char(features_suffix_spec(features), '+') == features.len(),
    decreases features.len(),
{
    if features.len() > 0 {
        let d = features.drop_last();
        assert forall|i: int| 0 <= i < d.len() implies lacks_char(#[trigger] d[i], '+') by {
            assert(d[i] == features[i]);
        }
        lemma_features_suffix_count(d);
        assert(lacks_char(features[features.len() - 1], '+'));
        lemma_feature_label_lacks_plus(features.last());
        lemma_count_lacking(feature_label_spec(features.last()), '+');
        lemma_count_concat(features_suffix_spec(d), seq!['+'], '+');
        assert(seq!['+'].drop_last() =~= Seq::<char>::empty());
        let plus = seq!['+'];
        assert(plus.len() == 1);
        assert(plus.last() == '+');
        assert(count_char(plus.drop_last(), '+') == 0);
        assert(count_char(plus, '+') == 1);
        lemma_count_concat(features_suffix_spec(d) + seq!['+'], feature_label_spec(features.last()), '+');
    }
}

/// Law: `random` becomes `RandomBot`; a spec whose base (the text before
/// its first `+`) names no search depth is kept as it is; a search spec
/// becomes `SearchBot_D<depth>` followed by one `+`-separated label per
/// feature, so the label has exactly as many `+` as the spec. Budgeting only
/// changes the label of the bare bases `baseline` and `search`.
pub proof fn law_compact_bot_label_shape(bot: Seq<char>, budgeted_unqualified_search: bool)
    ensures
        bot == "random"@ ==> compact_bot_label_spec(bot, budgeted_unqualified_search) == "RandomBot"@,
        bot != "random"@ && base_depth_spec(split_spec(bot, '+')[0], budgeted_unqualified_search) is None
            ==> compact_bot_label_spec(bot, budgeted_unqualified_search) == bot,
        bot != "random"@ && base_depth_spec(split_spec(bot, '+')[0], budgeted_unqualified_search) is Some
            ==> has_prefix(compact_bot_label_spec(bot, budgeted_unqualified_search), "SearchBot_D"@)
            && count_char(compact_bot_label_spec(bot, budgeted_unqualified_search), '+') == count_char(bot, '+'),
        split_spec(bot, '+')[0] != "baseline"@ && split_spec(bot, '+')[0] != "search"@
            ==> compact_bot_label_spec(bot, true) == compact_bot_label_spec(bot, false),
{
    let parts = split_spec(bot, '+');
    lemma_split_nonempty(bot, '+');
    if bot != "random"@ && base_depth_spec(parts[0], budgeted_unqualified_search) is Some {
        let depth = base_depth_spec(parts[0], budgeted_unqualified_search)->0;
        let head = "SearchBot_D"@ + signed_decimal(depth as int);
        let feats = parts.skip(1);
        lemma_split_pieces_lack_sep(bot, '+');
        assert forall|i: int| 0 <= i < feats.len() implies lacks_char(#[trigger] feats[i], '+') by {
            assert(feats[i] == parts[i + 1]);
            assert forall|k: int| 0 <= k < feats[i].len() implies feats[i][k] != '+' by {
                assert(parts[i + 1][k] != '+');
            }
        }
        lemma_features_suffix_count(feats);
        reveal_strlit("SearchBot_D");
        lemma_signed_decimal_lacks_plus(depth as int);
        lemma_concat_lacks("SearchBot_D"@, signed_decimal(depth as int), '+');
        lemma_count_lacking(head, '+');
        lemma_count_concat(head, features_suffix_spec(feats), '+');
        lemma_split_count(bot, '+');
        let l = head + features_suffix_spec(feats);
        assert(l.take(11) =~= "SearchBot_D"@);
    }
}

proof fn lemma_first_index_of(s: Seq<char>, c: char)
    ensures
        match first_index_of(s, c) {
            Some(i) => 0 <= i < s.len() && s[i] == c && forall|j: int| 0 <= j < i ==> s[j] != c,
            None => lacks_char(s, c),
        },
    decreases s.len(),
{
    if exists|i: int| 0 <= i < s.len() && s[i] == c {
        lemma_first_index_exists(s, c);
    }
}

proof fn lemma_first_index_exists(s: Seq<char>, c: char)
    requires
        exists|i: int| 0 <= i < s.len() && s[i] == c,
    ensures
        exists|i: int| 0 <= i < s.len() && s[i] == c && forall|j: int| 0 <= j < i ==> s[j] != c,
    decreases s.len(),
{
    if s[0] != c {
        let t = s.drop_first();
        let w = choose|i: int| 0 <= i < s.len() && s[i] == c;
        assert(t[w - 1] == c);
        lemma_first_index_exists(t, c);
        let v = choose|i: int| 0 <= i < t.len() && t[i] == c && forall|j: int| 0 <= j < i ==> t[j] != c;
        assert(s[v + 1] == c);
        assert forall|j: int| 0 <= j < v + 1 implies s[j] != c by {
            if j > 0 {
                assert(s[j] == t[j - 1]);
            }
        }
    } else {
        assert(s[0] == c);
    }
}

/// Law: the parts of a label: without a `+` the label stands alone; with
/// one, the primary part holds no `+` and the label is the primary part, a
/// `+`, and the rest, whose `+`-separated pieces the modifiers list joined
/// by ` + `.
#[verifier::spinoff_prover]
pub proof fn law_compact_bot_label_parts(bot: Seq<char>, budgeted_unqualified_search: bool)
    ensures
        ({
            let l = compact_bot_label_spec(bot, budgeted_unqualified_search);
            let (p, m) = compact_bot_label_parts_spec(bot, budgeted_unqualified_search);
            &&& (m is None <==> lacks_char(l, '+'))
            &&& (m is None ==> p == l)
            &&& (m matches Some(x) ==> lacks_char(p, '+') && exists|rest: Seq<char>|
                l == p + seq!['+'] + rest && x == join_spec(split_spec(rest, '+'), " + "@))
        }),
{
    let l = compact_bot_label_spec(bot, budgeted_unqualified_search);
    lemma_first_index_of(l, '+');
    match first_index_of(l, '+') {
        Some(i) => {
            let p = l.take(i);
            let rest = l.skip(i + 1);
            assert(l =~= p + seq!['+'] + rest);
            assert(lacks_char(p, '+'));
            assert(!lacks_char(l, '+'));
        },
        None => {},
    }
}

proof fn lemma_min_occurrence(s: Seq<char>, p: Seq<char>, i: int)
    requires
        occurs_at(s, p, i),
    ensures
        exists|k: int| occurs_at(s, p, k) && forall|j: int| 0 <= j < k ==> !occurs_at(s, p, j),
    decreases i,
{
    if exists|j: int| 0 <= j < i && occurs_at(s, p, j) {
        let j = choose|j: int| 0 <= j < i && occurs_at(s, p, j);
        lemma_min_occurrence(s, p, j);
    } else {
        assert(occurs_at(s, p, i) && forall|j: int| 0 <= j < i ==> !occurs_at(s, p, j));
    }
}

proof fn lemma_find_sub_occurs(s: Seq<char>, p: Seq<char>)
    ensures
        find_sub_spec(s, p) matches Some(k) ==> occurs_at(s, p, k),
{
    reveal(find_sub_spec);
    if exists|i: int| occurs_at(s, p, i) {
        let i = choose|i: int| occurs_at(s, p, i);
        lemma_min_occurrence(s, p, i);
    }
}

} // verus!

verus! {

/// `search-dN` for a single digit `N` names depth `N`.
proof fn lemma_search_digit_depth(d: char, budgeted_unqualified_search: bool)
    requires
        '0' <= d <= '9',
    ensures
        base_depth_spec("search-d"@.push(d), budgeted_unqualified_search) == Some((d as int - 48) as i32),
{
    reveal_strlit("fast");
    reveal_strlit("balanced");
    reveal_strlit("deep");
    reveal_strlit("baseline");
    reveal_strlit("search");
    reveal_strlit("baseline-");
    reveal_strlit("search-");
    reveal_strlit("search-d");
    reveal_strlit("d");
    let s = "search-d"@.push(d);
    assert(s.len() == 9);
    assert(s != "fast"@ && s != "balanced"@ && s != "deep"@ && s != "baseline"@ && s != "search"@);
    assert(s.take(9)[0] != "baseline-"@[0]);
    assert(!has_prefix(s, "baseline-"@));
    assert(s.take(7) =~= "search-"@);
    assert(has_prefix(s, "search-"@));
    let depth = s.skip(7);
    assert(depth =~= seq!['d', d]);
    assert(depth.take(1) =~= "d"@);
    assert(has_prefix(depth, "d"@));
    let digits = depth.skip(1);
    assert(digits =~= seq![d]);
    assert(sign_stripped(digits) =~= digits);
    assert(digits.drop_last() =~= Seq::<char>::empty());
    assert(digits_value(Seq::<char>::empty()) == 0);
    assert(digits.last() == d);
    assert(digits_value(digits) == digits_value(digits.drop_last()) * 10 + (d as int - 48));
    assert(all_ascii_digits(digits));
}

/// Law: the named presets are shorthands for explicit search depths:
/// `fast`, `balanced` and `deep` name depths 2, 3 and 5, the same depths as
/// `search-d2`, `search-d3` and `search-d5`, whatever the budget mode; so no
/// two presets share a depth.
pub proof fn law_presets_name_their_depths(budgeted_unqualified_search: bool)
    ensures
        base_depth_spec("fast"@, budgeted_unqualified_search) == Some(2i32),
        base_depth_spec("balanced"@, budgeted_unqualified_search) == Some(3i32),
        base_depth_spec("deep"@, budgeted_unqualified_search) == Some(5i32),
        base_depth_spec("fast"@, budgeted_unqualified_search) == base_depth_spec(
            "search-d2"@,
            budgeted_unqualified_search,
        ),
        base_depth_spec("balanced"@, budgeted_unqualified_search) == base_depth_spec(
            "search-d3"@,
            budgeted_unqualified_search,
        ),
        base_depth_spec("deep"@, budgeted_unqualified_search) == base_depth_spec(
            "search-d5"@,
            budgeted_unqualified_search,
        ),
        base_depth_spec("fast"@, budgeted_unqualified_search) != base_depth_spec(
            "balanced"@,
            budgeted_unqualified_search,
        ),
        base_depth_spec("balanced"@, budgeted_unqualified_search) != base_depth_spec(
            "deep"@,
            budgeted_unqualified_search,
        ),
        base_depth_spec("fast"@, budgeted_unqualified_search) != base_depth_spec(
            "deep"@,
            budgeted_unqualified_search,
        ),
{
    reveal_strlit("fast");
    reveal_strlit("balanced");
    reveal_strlit("deep");
    reveal_strlit("search-d");
    reveal_strlit("search-d2");
    reveal_strlit("search-d3");
    reveal_strlit("search-d5");
    assert("deep"@[0] != "fast"@[0]);
    assert("deep"@ != "fast"@);
    assert("deep"@ != "balanced"@);
    assert("search-d2"@ =~= "search-d"@.push('2'));
    assert("search-d3"@ =~= "search-d"@.push('3'));
    assert("search-d5"@ =~= "search-d"@.push('5'));
    lemma_search_digit_depth('2', budgeted_unqualified_search);
    lemma_search_digit_depth('3', budgeted_unqualified_search);
    lemma_search_digit_depth('5', budgeted_unqualified_search);
}

} // verus!
