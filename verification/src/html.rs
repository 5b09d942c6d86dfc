//! HTML escaping and the short value texts used in reports.
use vstd::prelude::*;
use crate::analysis::{DefensePolicy, ProofStatus, RootCause, TacticalNote};
use crate::board::Color;
use crate::text::{chars_of, decimal, i64_to_string, push_char, signed_decimal, u64_to_string};

verus! {

/// The escape of one character: `&`, `<`, `>`, `"` and `'` become
/// entities, anything else stays.
pub open spec fn escape_char_spec(c: char) -> Seq<char> {
    if c == '&' {
        seq!['&', 'a', 'm', 'p', ';']
    } else if c == '<' {
        seq!['&', 'l', 't', ';']
    } else if c == '>' {
        seq!['&', 'g', 't', ';']
    } else if c == '"' {
        seq!['&', 'q', 'u', 'o', 't', ';']
    } else if c == '\'' {
        seq!['&', '#', '3', '9', ';']
    } else {
        seq![c]
    }
}

/// `s` with each character escaped.
pub open spec fn escape_spec(s: Seq<char>) -> Seq<char>
    decreases s.len(),
{
    if s.len() == 0 {
        Seq::empty()
    } else {
        escape_spec(s.drop_last()) + escape_char_spec(s.last())
    }
}

fn push_escaped(out: &mut String, c: char)
    ensures
        final(out)@ == old(out)@ + escape_char_spec(c),
{
    let ghost start = out@;
    if c == '&' {
        push_char(out, '&');
        push_char(out, 'a');
        push_char(out, 'm');
        push_char(out, 'p');
        push_char(out, ';');
    } else if c == '<' {
        push_char(out, '&');
        push_char(out, 'l');
        push_char(out, 't');
        push_char(out, ';');
    } else if c == '>' {
        push_char(out, '&');
        push_char(out, 'g');
        push_char(out, 't');
        push_char(out, ';');
    } else if c == '"' {
        push_char(out, '&');
        push_char(out, 'q');
        push_char(out, 'u');
        push_char(out, 'o');
        push_char(out, 't');
        push_char(out, ';');
    } else if c == '\'' {
        push_char(out, '&');
        push_char(out, '#');
        push_char(out, '3');
        push_char(out, '9');
        push_char(out, ';');
    } else {
        push_char(out, c);
    }
    assert(out@ =~= start + escape_char_spec(c));
}

/// `input` with `&`, `<`, `>`, `"` and `'` replaced by HTML entities.
pub fn escape(input: &str) -> (r: String)
    ensures
        r@ == escape_spec(input@),
{
    let chars = chars_of(input);
    let mut out = String::new();
    let mut i: usize = 0;
    while i < chars.len()
        invariant
            i <= chars.len(),
            chars@ == input@,
            out@ == escape_spec(chars@.take(i as int)),
        decreases chars.len() - i,
    {
        assert(chars@.take(i + 1).drop_last() =~= chars@.take(i as int));
        push_escaped(&mut out, chars[i]);
        i += 1;
    }
    assert(chars@.take(chars.len() as int) =~= chars@);
    out
}

/// The same escape, under the name the fixture report uses.
pub fn html_escape(input: &str) -> (r: String)
    ensures
        r@ == escape_spec(input@),
{
    escape(input)
}

/// Law: escaped text holds none of `<`, `>`, `"` and `'`, so it cannot open
/// a tag or close an attribute value.
pub proof fn law_escape_removes_markup(s: Seq<char>)
    ensures
        forall|i: int|
            0 <= i < escape_spec(s).len() ==> #[trigger] escape_spec(s)[i] != '<' && escape_spec(
                s,
            )[i] != '>' && escape_spec(s)[i] != '"' && escape_spec(s)[i] != '\'',
    decreases s.len(),
{
    if s.len() > 0 {
        law_escape_removes_markup(s.drop_last());
        let prev = escape_spec(s.drop_last());
        let e = escape_char_spec(s.last());
        assert(escape_spec(s) == prev + e);
        assert forall|i: int| 0 <= i < escape_spec(s).len() implies #[trigger] escape_spec(s)[i]
            != '<' && escape_spec(s)[i] != '>' && escape_spec(s)[i] != '"' && escape_spec(s)[i]
            != '\'' by {
            if i < prev.len() {
                assert(escape_spec(s)[i] == prev[i]);
            } else {
                assert(escape_spec(s)[i] == e[i - prev.len()]);
            }
        }
    }
}

/// Law: text without special characters is left as it is.
pub proof fn law_escape_keeps_plain_text(s: Seq<char>)
    requires
        forall|i: int|
            0 <= i < s.len() ==> #[trigger] s[i] != '&' && s[i] != '<' && s[i] != '>' && s[i]
                != '"' && s[i] != '\'',
    ensures
        escape_spec(s) == s,
    decreases s.len(),
{
    if s.len() > 0 {
        assert forall|i: int| 0 <= i < s.drop_last().len() implies #[trigger] s.drop_last()[i]
            != '&' && s.drop_last()[i] != '<' && s.drop_last()[i] != '>' && s.drop_last()[i] != '"'
            && s.drop_last()[i] != '\'' by {
            assert(s.drop_last()[i] == s[i]);
        }
        law_escape_keeps_plain_text(s.drop_last());
        assert(s.last() == s[s.len() - 1]);
        assert(escape_spec(s) =~= s);
    }
}

/// A value with a short text, as `{:?}` shows it.
pub trait DebugText {
    /// The text.
    spec fn debug_view(&self) -> Seq<char>;

    /// The text.
    fn debug_text(&self) -> (r: String)
        ensures
            r@ == self.debug_view(),
    ;
}

impl DebugText for i32 {
    open spec fn debug_view(&self) -> Seq<char> {
        signed_decimal(*self as int)
    }

    fn debug_text(&self) -> (r: String) {
        i64_to_string(*self as i64)
    }
}

impl DebugText for u8 {
    open spec fn debug_view(&self) -> Seq<char> {
        decimal(*self as nat)
    }

    fn debug_text(&self) -> (r: String) {
        u64_to_string(*self as u64)
    }
}

impl DebugText for u32 {
    open spec fn debug_view(&self) -> Seq<char> {
        decimal(*self as nat)
    }

    fn debug_text(&self) -> (r: String) {
        u64_to_string(*self as u64)
    }
}

impl DebugText for u64 {
    open spec fn debug_view(&self) -> Seq<char> {
        decimal(*self as nat)
    }

    fn debug_text(&self) -> (r: String) {
        u64_to_string(*self)
    }
}

impl DebugText for usize {
    open spec fn debug_view(&self) -> Seq<char> {
        decimal(*self as nat)
    }

    fn debug_text(&self) -> (r: String) {
        u64_to_string(*self as u64)
    }
}

impl DebugText for Color {
    open spec fn debug_view(&self) -> Seq<char> {
        match self {
            Color::Black => "Black"@,
            Color::White => "White"@,
        }
    }

    fn debug_text(&self) -> (r: String) {
        match self {
            Color::Black => String::from_str("Black"),
            Color::White => String::from_str("White"),
        }
    }
}

impl DebugText for RootCause {
    open spec fn debug_view(&self) -> Seq<char> {
        match self {
            RootCause::StrategicLoss => "StrategicLoss"@,
            RootCause::MissedDefense => "MissedDefense"@,
            RootCause::MissedWin => "MissedWin"@,
            RootCause::Unclear => "Unclear"@,
        }
    }

    fn debug_text(&self) -> (r: String) {
        match self {
            RootCause::StrategicLoss => String::from_str("StrategicLoss"),
            RootCause::MissedDefense => String::from_str("MissedDefense"),
            RootCause::MissedWin => String::from_str("MissedWin"),
            RootCause::Unclear => String::from_str("Unclear"),
        }
    }
}

impl DebugText for TacticalNote {
    open spec fn debug_view(&self) -> Seq<char> {
        match self {
            TacticalNote::AccidentalBlunder => "AccidentalBlunder"@,
            TacticalNote::ConversionError => "ConversionError"@,
            TacticalNote::MissedWin => "MissedWin"@,
            TacticalNote::StrongAttack => "StrongAttack"@,
        }
    }

    fn debug_text(&self) -> (r: String) {
        match self {
            TacticalNote::AccidentalBlunder => String::from_str("AccidentalBlunder"),
            TacticalNote::ConversionError => String::from_str("ConversionError"),
            TacticalNote::MissedWin => String::from_str("MissedWin"),
            TacticalNote::StrongAttack => String::from_str("StrongAttack"),
        }
    }
}

impl DebugText for ProofStatus {
    open spec fn debug_view(&self) -> Seq<char> {
        match self {
            ProofStatus::ForcedWin => "ForcedWin"@,
            ProofStatus::EscapeFound => "EscapeFound"@,
            ProofStatus::Unknown => "Unknown"@,
        }
    }

    fn debug_text(&self) -> (r: String) {
        match self {
            ProofStatus::ForcedWin => String::from_str("ForcedWin"),
            ProofStatus::EscapeFound => String::from_str("EscapeFound"),
            ProofStatus::Unknown => String::from_str("Unknown"),
        }
    }
}

impl DebugText for DefensePolicy {
    open spec fn debug_view(&self) -> Seq<char> {
        match self {
            DefensePolicy::AllLegalDefense => "AllLegalDefense"@,
            DefensePolicy::TacticalDefense => "TacticalDefense"@,
            DefensePolicy::HybridDefense => "HybridDefense"@,
        }
    }

    fn debug_text(&self) -> (r: String) {
        match self {
            DefensePolicy::AllLegalDefense => String::from_str("AllLegalDefense"),
            DefensePolicy::TacticalDefense => String::from_str("TacticalDefense"),
            DefensePolicy::HybridDefense => String::from_str("HybridDefense"),
        }
    }
}

/// The `{:?}` text of an optional value as a report shows it: `Some(v)` as
/// the value's own text, `None` as `-`.
pub open spec fn option_debug_spec<T: DebugText>(value: Option<T>) -> Seq<char> {
    match value {
        Some(v) => v.debug_view(),
        None => "-"@,
    }
}

/// The value's text, or `-` for none.
pub fn option_debug<T: DebugText>(value: Option<T>) -> (r: String)
    ensures
        r@ == option_debug_spec(value),
{
    match value {
        Some(v) => v.debug_text(),
        None => String::from_str("-"),
    }
}

/// The `{:?}` text of an `Option` itself: `Some(<text>)` or `None`.
pub open spec fn option_variant_text<T: DebugText>(value: Option<T>) -> Seq<char> {
    match value {
        Some(v) => "Some("@ + v.debug_view() + ")"@,
        None => "None"@,
    }
}

/// The `{:?}` text of an `Option`: `Some(<text>)` or `None`.
pub fn option_variant_debug<T: DebugText>(value: &Option<T>) -> (r: String)
    ensures
        r@ == option_variant_text(*value),
{
    match value {
        Some(v) => {
            let mut s = String::from_str("Some(");
            let t = v.debug_text();
            s.append(t.as_str());
            s.append(")");
            s
        },
        None => String::from_str("None"),
    }
}

} // verus!
