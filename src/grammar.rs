use vstd::prelude::*;
use crate::lshow::{
    ActionView, EntityView, ErrorView, VariableType, directive_type_of, variable_type_of,
};

verus! {

/// The classes of characters that the grammar skips over or collects.
#[derive(Debug, Clone, Copy, PartialEq, Eq, Structural)]
pub enum CharClass {
    /// Space and tab.
    Space,
    /// Space, tab, carriage return and line feed.
    Multispace,
    /// Line feed.
    Newline,
    /// `0` to `9`.
    Digit,
    /// `0` to `9`, `a` to `f`, `A` to `F`.
    HexDigit,
    /// ASCII letters and digits.
    Alphanumeric,
}

/// A decimal digit.
pub open spec fn is_digit(c: char) -> bool {
    '0' <= c && c <= '9'
}

/// A hexadecimal digit, in either case.
pub open spec fn is_hex_digit(c: char) -> bool {
    is_digit(c) || ('a' <= c && c <= 'f') || ('A' <= c && c <= 'F')
}

/// Whether `c` belongs to the class `k`.
pub open spec fn in_class(c: char, k: CharClass) -> bool {
    match k {
        CharClass::Space => c == ' ' || c == '\t',
        CharClass::Multispace => c == ' ' || c == '\t' || c == '\r' || c == '\n',
        CharClass::Newline => c == '\n',
        CharClass::Digit => is_digit(c),
        CharClass::HexDigit => is_hex_digit(c),
        CharClass::Alphanumeric => is_digit(c) || ('a' <= c && c <= 'z') || ('A' <= c && c <= 'Z'),
    }
}

/// The end of the longest run of characters of class `k` that starts at `i`.
pub open spec fn run_end(s: Seq<char>, i: int, k: CharClass) -> int
    decreases s.len() - i,
{
    if 0 <= i < s.len() && in_class(s[i], k) {
        run_end(s, i + 1, k)
    } else {
        i
    }
}

/// Whether `w` stands in `s` at `i`.
pub open spec fn lit_at(s: Seq<char>, i: int, w: Seq<char>) -> bool {
    0 <= i && i + w.len() <= s.len() && s.subrange(i, i + w.len()) == w
}

/// A keyword followed by at least one space or tab: the position after them.
pub open spec fn keyword_end(s: Seq<char>, i: int, w: Seq<char>) -> Option<int> {
    let k = i + w.len();
    if lit_at(s, i, w) && run_end(s, k, CharClass::Space) > k {
        Some(run_end(s, k, CharClass::Space))
    } else {
        None
    }
}

/// A `;` and the whitespace after it: the position after them.
pub open spec fn semicolon_end(s: Seq<char>, i: int) -> Option<int> {
    if 0 <= i < s.len() && s[i] == ';' {
        Some(run_end(s, i + 1, CharClass::Multispace))
    } else {
        None
    }
}

/// The value of a decimal digit.
pub open spec fn digit_value(c: char) -> nat {
    ((c as u32) as int - ('0' as u32) as int) as nat
}

/// The value of a run of decimal digits.
pub open spec fn digits_value(d: Seq<char>) -> nat
    decreases d.len(),
{
    if d.len() == 0 {
        0
    } else {
        digits_value(d.drop_last()) * 10 + digit_value(d.last())
    }
}

/// A run of digits whose value fits in 16 bits, and the position after it.
pub open spec fn number_at(s: Seq<char>, i: int) -> Option<(u16, int)> {
    let j = run_end(s, i, CharClass::Digit);
    if j > i && digits_value(s.subrange(i, j)) <= 65535 {
        Some((digits_value(s.subrange(i, j)) as u16, j))
    } else {
        None
    }
}

/// A number followed by at least one space or tab.
pub open spec fn number_sp_at(s: Seq<char>, i: int) -> Option<(u16, int)> {
    match number_at(s, i) {
        Some((n, j)) => if run_end(s, j, CharClass::Space) > j {
            Some((n, run_end(s, j, CharClass::Space)))
        } else {
            None
        },
        None => None,
    }
}

/// A non-empty run of characters of class `k`, and the position after it.
pub open spec fn token_at(s: Seq<char>, i: int, k: CharClass) -> Option<(Seq<char>, int)> {
    let j = run_end(s, i, k);
    if j > i {
        Some((s.subrange(i, j), j))
    } else {
        None
    }
}

/// The keyword of a wait.
pub open spec fn kw_wait() -> Seq<char> {
    seq!['w', 'a', 'i', 't']
}

/// The keyword of a blink.
pub open spec fn kw_blink() -> Seq<char> {
    seq!['b', 'l', 'i', 'n', 'k']
}

/// The keyword of a colour change.
pub open spec fn kw_color() -> Seq<char> {
    seq!['c', 'o', 'l', 'o', 'r']
}

/// The keyword of a trigger statement.
pub open spec fn kw_trigger() -> Seq<char> {
    seq!['t', 'r', 'i', 'g', 'g', 'e', 'r']
}

/// The keyword of a directive.
pub open spec fn kw_directive() -> Seq<char> {
    seq!['d', 'i', 'r', 'e', 'c', 't', 'i', 'v', 'e']
}

/// `wait N;`
pub open spec fn wait_at(s: Seq<char>, i: int) -> Option<(ActionView, int)> {
    match keyword_end(s, i, kw_wait()) {
        Some(k) => match number_at(s, k) {
            Some((n, j)) => match semicolon_end(s, j) {
                Some(e) => Some((ActionView::Wait(n), e)),
                None => None,
            },
            None => None,
        },
        None => None,
    }
}

/// `blink N P HEX;`
pub open spec fn blink_at(s: Seq<char>, i: int) -> Option<(ActionView, int)> {
    match keyword_end(s, i, kw_blink()) {
        Some(k) => match number_sp_at(s, k) {
            Some((n, j1)) => match number_sp_at(s, j1) {
                Some((p, j2)) => match token_at(s, j2, CharClass::HexDigit) {
                    Some((hex, j3)) => match semicolon_end(s, j3) {
                        Some(e) => Some((ActionView::Blink(n, p, hex), e)),
                        None => None,
                    },
                    None => None,
                },
                None => None,
            },
            None => None,
        },
        None => None,
    }
}

/// `color HEX;`
pub open spec fn color_at(s: Seq<char>, i: int) -> Option<(ActionView, int)> {
    match keyword_end(s, i, kw_color()) {
        Some(k) => match token_at(s, k, CharClass::HexDigit) {
            Some((hex, j)) => match semicolon_end(s, j) {
                Some(e) => Some((ActionView::Color(hex), e)),
                None => None,
            },
            None => None,
        },
        None => None,
    }
}

/// Any action: a wait, a blink or a colour.
pub open spec fn action_at(s: Seq<char>, i: int) -> Option<(ActionView, int)> {
    if wait_at(s, i) is Some {
        wait_at(s, i)
    } else if blink_at(s, i) is Some {
        blink_at(s, i)
    } else {
        color_at(s, i)
    }
}

/// The actions of a sequence body from `i` on, each with the whitespace after
/// it, and the position where they stop.
pub open spec fn actions_from(s: Seq<char>, i: int) -> (Seq<ActionView>, int)
    decreases s.len() - i,
{
    match action_at(s, i) {
        Some((a, j)) => {
            let k = run_end(s, j, CharClass::Multispace);
            if i < k <= s.len() {
                let rest = actions_from(s, k);
                (seq![a] + rest.0, rest.1)
            } else {
                (seq![], i)
            }
        },
        None => (seq![], i),
    }
}

/// `{ ACTION* };`
pub open spec fn sequence_body_at(s: Seq<char>, i: int) -> Option<(Seq<ActionView>, int)> {
    if 0 <= i < s.len() && s[i] == '{' {
        let body = actions_from(s, run_end(s, i + 1, CharClass::Multispace));
        let q = body.1;
        if 0 <= q < s.len() && s[q] == '}' {
            match semicolon_end(s, q + 1) {
                Some(e) => Some((body.0, e)),
                None => None,
            }
        } else {
            None
        }
    } else {
        None
    }
}

/// `=` with optional spaces or tabs around it: the position after them.
pub open spec fn assign_at(s: Seq<char>, i: int) -> Option<int> {
    let a = run_end(s, i, CharClass::Space);
    if 0 <= a < s.len() && s[a] == '=' {
        Some(run_end(s, a + 1, CharClass::Space))
    } else {
        None
    }
}

/// The outcome of a production that can also fail for good.
pub enum Parsed<T> {
    Matched(T, int),
    NoMatch,
    Fatal(ErrorView),
}

/// `NAME: TYPE`, where an unknown `TYPE` is fatal.
pub open spec fn variable_at(s: Seq<char>, i: int) -> Parsed<(Seq<char>, VariableType)> {
    match token_at(s, i, CharClass::Alphanumeric) {
        Some((name, j)) => if 0 <= j < s.len() && s[j] == ':' {
            match token_at(s, run_end(s, j + 1, CharClass::Space), CharClass::Alphanumeric) {
                Some((word, t)) => match variable_type_of(word) {
                    Some(ty) => Parsed::Matched((name, ty), t),
                    None => Parsed::Fatal(ErrorView::UnknownKeyword(word)),
                },
                None => Parsed::NoMatch,
            }
        } else {
            Parsed::NoMatch
        },
        None => Parsed::NoMatch,
    }
}

/// `NAME: TYPE = { ... };`
pub open spec fn assigned_sequence_at(s: Seq<char>, i: int) -> Parsed<EntityView> {
    match variable_at(s, i) {
        Parsed::Matched((name, ty), j) => match assign_at(s, j) {
            Some(b) => match sequence_body_at(s, b) {
                Some((acts, e)) => Parsed::Matched(EntityView::AssignedSequence(name, ty, acts), e),
                None => Parsed::NoMatch,
            },
            None => Parsed::NoMatch,
        },
        Parsed::NoMatch => Parsed::NoMatch,
        Parsed::Fatal(err) => Parsed::Fatal(err),
    }
}

/// `NAME: TYPE = ACTION`
pub open spec fn assigned_action_at(s: Seq<char>, i: int) -> Parsed<EntityView> {
    match variable_at(s, i) {
        Parsed::Matched((name, ty), j) => match assign_at(s, j) {
            Some(b) => match action_at(s, b) {
                Some((a, e)) => Parsed::Matched(EntityView::AssignedAction(name, ty, a), e),
                None => Parsed::NoMatch,
            },
            None => Parsed::NoMatch,
        },
        Parsed::NoMatch => Parsed::NoMatch,
        Parsed::Fatal(err) => Parsed::Fatal(err),
    }
}

/// `trigger NAME;`
pub open spec fn trigger_at(s: Seq<char>, i: int) -> Option<(EntityView, int)> {
    match keyword_end(s, i, kw_trigger()) {
        Some(k) => match token_at(s, k, CharClass::Alphanumeric) {
            Some((name, j)) => match semicolon_end(s, j) {
                Some(e) => Some((EntityView::Trigger(name), e)),
                None => None,
            },
            None => None,
        },
        None => None,
    }
}

/// `directive NAME;`, where an unknown `NAME` is fatal.
pub open spec fn directive_at(s: Seq<char>, i: int) -> Parsed<EntityView> {
    match keyword_end(s, i, kw_directive()) {
        Some(k) => match token_at(s, k, CharClass::Alphanumeric) {
            Some((word, j)) => match directive_type_of(word) {
                Some(d) => match semicolon_end(s, j) {
                    Some(e) => Parsed::Matched(EntityView::Directive(d), e),
                    None => Parsed::NoMatch,
                },
                None => Parsed::Fatal(ErrorView::UnknownKeyword(word)),
            },
            None => Parsed::NoMatch,
        },
        None => Parsed::NoMatch,
    }
}

/// One statement: the first of trigger, directive, assigned sequence and
/// assigned action that applies.
pub open spec fn statement_at(s: Seq<char>, i: int) -> Parsed<EntityView> {
    match trigger_at(s, i) {
        Some((e, j)) => Parsed::Matched(e, j),
        None => match directive_at(s, i) {
            Parsed::NoMatch => match assigned_sequence_at(s, i) {
                Parsed::NoMatch => assigned_action_at(s, i),
                other => other,
            },
            other => other,
        },
    }
}

/// The statements from `i` to the end of `s`, each followed by any number of
/// line feeds; text that is no statement is a syntax error.
pub open spec fn program_from(s: Seq<char>, i: int) -> Result<Seq<EntityView>, ErrorView>
    decreases s.len() - i,
{
    if i >= s.len() {
        Ok(seq![])
    } else {
        match statement_at(s, i) {
            Parsed::Matched(e, j) => {
                let k = run_end(s, j, CharClass::Newline);
                if i < k <= s.len() {
                    match program_from(s, k) {
                        Ok(rest) => Ok(seq![e] + rest),
                        Err(err) => Err(err),
                    }
                } else {
                    Err(ErrorView::Syntax)
                }
            },
            Parsed::NoMatch => Err(ErrorView::Syntax),
            Parsed::Fatal(err) => Err(err),
        }
    }
}

/// What a whole script text denotes: its entities in file order, or the
/// first error.
pub open spec fn program(s: Seq<char>) -> Result<Seq<EntityView>, ErrorView> {
    program_from(s, 0)
}

/// A run stays inside the text, holds only characters of its class, and
/// stops at one outside it or at the end.
pub proof fn lemma_run_end(s: Seq<char>, i: int, k: CharClass)
    requires
        0 <= i <= s.len(),
    ensures
        i <= run_end(s, i, k) <= s.len(),
        forall|j: int| i <= j < run_end(s, i, k) ==> in_class(#[trigger] s[j], k),
        run_end(s, i, k) < s.len() ==> !in_class(s[run_end(s, i, k)], k),
    decreases s.len() - i,
{
    if i < s.len() && in_class(s[i], k) {
        lemma_run_end(s, i + 1, k);
    }
}

} // verus!
