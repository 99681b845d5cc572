use vstd::prelude::*;
use crate::engine::{
    ScriptView, bound_name, entity_effect, is_binding, run_from, step_spec,
};
use crate::grammar::{
    CharClass, Parsed, action_at, actions_from, assign_at, digit_value, digits_value, in_class,
    is_digit, is_hex_digit, keyword_end, kw_blink, kw_color, kw_directive, kw_trigger, kw_wait,
    lemma_run_end, number_at, number_sp_at, program, program_from, run_end, semicolon_end,
    sequence_body_at, statement_at, token_at, variable_at,
};
use crate::lshow::{ActionView, Command, EntityView, ErrorView};

verus! {

/// The character of a decimal digit.
pub open spec fn digit_char(d: nat) -> char {
    seq!['0', '1', '2', '3', '4', '5', '6', '7', '8', '9'][d as int]
}

/// `n` written in decimal, without leading zeros.
pub open spec fn decimal(n: nat) -> Seq<char>
    decreases n,
{
    if n < 10 {
        seq![digit_char(n)]
    } else {
        decimal(n / 10).push(digit_char(n % 10))
    }
}

proof fn lemma_digit_char(d: nat)
    requires
        d < 10,
    ensures
        is_digit(digit_char(d)),
        is_hex_digit(digit_char(d)),
        digit_value(digit_char(d)) == d,
{
    reveal_with_fuel(digit_char, 1);
}

proof fn lemma_decimal(n: nat)
    ensures
        decimal(n).len() >= 1,
        forall|i: int| 0 <= i < decimal(n).len() ==> is_digit(#[trigger] decimal(n)[i]),
        digits_value(decimal(n)) == n,
    decreases n,
{
    if n < 10 {
        lemma_digit_char(n);
        assert(decimal(n).drop_last() =~= Seq::<char>::empty());
        assert(digits_value(decimal(n)) == digits_value(Seq::<char>::empty()) * 10 + digit_value(
            digit_char(n),
        ));
    } else {
        lemma_decimal(n / 10);
        lemma_digit_char(n % 10);
        assert(decimal(n).drop_last() =~= decimal(n / 10));
        assert(decimal(n).last() == digit_char(n % 10));
        assert((n / 10) * 10 + n % 10 == n) by (nonlinear_arith);
        assert(digits_value(decimal(n)) == digits_value(decimal(n / 10)) * 10 + digit_value(
            digit_char(n % 10),
        ));
        assert forall|i: int| 0 <= i < decimal(n).len() implies is_digit(#[trigger] decimal(n)[i]) by {
            if i < decimal(n).len() - 1 {
                assert(decimal(n)[i] == decimal(n / 10)[i]);
            }
        }
    }
}

/// A run of characters of one class ends at the first character outside it.
proof fn lemma_run_end_block(s: Seq<char>, i: int, j: int, k: CharClass)
    requires
        0 <= i <= j <= s.len(),
        forall|x: int| i <= x < j ==> in_class(#[trigger] s[x], k),
        j == s.len() || !in_class(s[j], k),
    ensures
        run_end(s, i, k) == j,
    decreases j - i,
{
    if i < j {
        lemma_run_end_block(s, i + 1, j, k);
    }
}

/// The text `wait N;`.
pub open spec fn wait_text(n: nat) -> Seq<char> {
    kw_wait() + seq![' '] + decimal(n) + seq![';']
}

/// The text `blink N P HEX;`.
pub open spec fn blink_text(n: nat, p: nat, hex: Seq<char>) -> Seq<char> {
    kw_blink() + seq![' '] + decimal(n) + seq![' '] + decimal(p) + seq![' '] + hex + seq![';']
}

/// Reads a decimal number written at `i` and followed by a character that is
/// no digit.
proof fn lemma_number_in(s: Seq<char>, i: int, n: nat)
    requires
        0 <= i,
        i + decimal(n).len() < s.len(),
        s.subrange(i, i + decimal(n).len()) == decimal(n),
        !is_digit(s[i + decimal(n).len()]),
    ensures
        run_end(s, i, CharClass::Digit) == i + decimal(n).len(),
        digits_value(s.subrange(i, i + decimal(n).len())) == n,
{
    lemma_decimal(n);
    let l = decimal(n).len() as int;
    assert forall|x: int| i <= x < i + l implies in_class(#[trigger] s[x], CharClass::Digit) by {
        assert(s[x] == s.subrange(i, i + l)[x - i]);
    }
    lemma_run_end_block(s, i, i + l, CharClass::Digit);
}

/// Every number from 0 to 65535 written as `wait N;` reads as a wait of `N`
/// seconds, to the end of the text.
pub proof fn lemma_wait_parses(n: nat)
    requires
        n <= 65535,
    ensures
        action_at(wait_text(n), 0) == Some((ActionView::Wait(n as u16), wait_text(n).len() as int)),
{
    let s = wait_text(n);
    let l = decimal(n).len() as int;
    lemma_decimal(n);
    assert(s.subrange(0, 4) =~= kw_wait());
    assert(s[4] == ' ');
    assert(s[5] == decimal(n)[0]);
    lemma_run_end_block(s, 4, 5, CharClass::Space);
    assert(keyword_end(s, 0, kw_wait()) == Some(5int));
    assert(s.subrange(5, 5 + l) =~= decimal(n));
    assert(s[5 + l] == ';');
    lemma_number_in(s, 5, n);
    assert(number_at(s, 5) == Some((n as u16, 5 + l)));
    lemma_run_end_block(s, 6 + l, 6 + l, CharClass::Multispace);
    assert(semicolon_end(s, 5 + l) == Some(6 + l));
}

/// A number above 65535 in `wait N;` is no action: it is refused, not cut down.
pub proof fn lemma_wait_too_large(n: nat)
    requires
        n > 65535,
    ensures
        action_at(wait_text(n), 0) is None,
{
    let s = wait_text(n);
    let l = decimal(n).len() as int;
    lemma_decimal(n);
    assert(s.subrange(0, 4) =~= kw_wait());
    assert(s[5] == decimal(n)[0]);
    lemma_run_end_block(s, 4, 5, CharClass::Space);
    assert(s.subrange(5, 5 + l) =~= decimal(n));
    assert(s[5 + l] == ';');
    lemma_number_in(s, 5, n);
    assert(number_at(s, 5) is None);
    assert(s.subrange(0, 5)[0] != kw_blink()[0]);
    assert(s.subrange(0, 5)[0] != kw_color()[0]);
}

/// `wait` followed by a character that is neither a digit nor a space is no
/// action.
pub proof fn lemma_wait_needs_digits(c: char, rest: Seq<char>)
    requires
        !is_digit(c),
        c != ' ',
        c != '\t',
    ensures
        action_at(kw_wait() + seq![' ', c] + rest, 0) is None,
{
    let s = kw_wait() + seq![' ', c] + rest;
    assert(s.subrange(0, 4) =~= kw_wait());
    assert(s[4] == ' ');
    assert(s[5] == c);
    lemma_run_end_block(s, 4, 5, CharClass::Space);
    lemma_run_end_block(s, 5, 5, CharClass::Digit);
    assert(number_at(s, 5) is None);
    assert(s.subrange(0, 5)[0] != kw_blink()[0]);
    assert(s.subrange(0, 5)[0] != kw_color()[0]);
}

/// `blink N P HEX;` reads as a blink of `N` rounds with `P` seconds of pause,
/// in the colour `HEX` exactly as written.
pub proof fn lemma_blink_parses(n: nat, p: nat, hex: Seq<char>)
    requires
        n <= 65535,
        p <= 65535,
        hex.len() >= 1,
        forall|i: int| 0 <= i < hex.len() ==> is_hex_digit(#[trigger] hex[i]),
    ensures
        action_at(blink_text(n, p, hex), 0) == Some(
            (ActionView::Blink(n as u16, p as u16, hex), blink_text(n, p, hex).len() as int),
        ),
{
    let s = blink_text(n, p, hex);
    let ln = decimal(n).len() as int;
    let lp = decimal(p).len() as int;
    let lh = hex.len() as int;
    lemma_decimal(n);
    lemma_decimal(p);
    assert(s.subrange(0, 4)[0] != kw_wait()[0]);
    assert(s.subrange(0, 5) =~= kw_blink());
    assert(s[5] == ' ');
    assert(s[6] == decimal(n)[0]);
    lemma_run_end_block(s, 5, 6, CharClass::Space);
    assert(keyword_end(s, 0, kw_blink()) == Some(6int));
    assert(s.subrange(6, 6 + ln) =~= decimal(n));
    assert(s[6 + ln] == ' ');
    lemma_number_in(s, 6, n);
    assert(s[7 + ln] == decimal(p)[0]);
    lemma_run_end_block(s, 6 + ln, 7 + ln, CharClass::Space);
    assert(number_sp_at(s, 6) == Some((n as u16, 7 + ln)));
    assert(s.subrange(7 + ln, 7 + ln + lp) =~= decimal(p));
    assert(s[7 + ln + lp] == ' ');
    lemma_number_in(s, 7 + ln, p);
    assert(s[8 + ln + lp] == hex[0]);
    lemma_run_end_block(s, 7 + ln + lp, 8 + ln + lp, CharClass::Space);
    assert(number_sp_at(s, 7 + ln) == Some((p as u16, 8 + ln + lp)));
    let h0 = 8 + ln + lp;
    assert(s.subrange(h0, h0 + lh) =~= hex);
    assert forall|x: int| h0 <= x < h0 + lh implies in_class(#[trigger] s[x], CharClass::HexDigit) by {
        assert(s[x] == s.subrange(h0, h0 + lh)[x - h0]);
    }
    assert(s[h0 + lh] == ';');
    lemma_run_end_block(s, h0, h0 + lh, CharClass::HexDigit);
    assert(token_at(s, h0, CharClass::HexDigit) == Some((hex, h0 + lh)));
    lemma_run_end_block(s, h0 + lh + 1, h0 + lh + 1, CharClass::Multispace);
    assert(semicolon_end(s, h0 + lh) == Some(h0 + lh + 1));
}

/// Running `a` and then `b` is running `a`, and, unless it failed, `b` from
/// where `a` left the script.
pub proof fn lemma_run_append(s: ScriptView, a: Seq<EntityView>, b: Seq<EntityView>)
    ensures
        run_from(s, a + b) == (if run_from(s, a).2 is Some {
            run_from(s, a)
        } else {
            (
                run_from(run_from(s, a).0, b).0,
                run_from(s, a).1 + run_from(run_from(s, a).0, b).1,
                run_from(run_from(s, a).0, b).2,
            )
        }),
    decreases a.len(),
{
    if a.len() == 0 {
        assert(a + b =~= b);
        assert(Seq::<Command>::empty() + run_from(s, b).1 =~= run_from(s, b).1);
    } else {
        assert((a + b)[0] == a[0]);
        assert((a + b).drop_first() =~= a.drop_first() + b);
        let first = step_spec(s, a[0]);
        if first.2 is None {
            lemma_run_append(first.0, a.drop_first(), b);
            let m = run_from(first.0, a.drop_first());
            if m.2 is None {
                let r = run_from(m.0, b);
                assert(first.1 + (m.1 + r.1) =~= (first.1 + m.1) + r.1);
            }
        }
    }
}

/// A trigger of a name that is not bound at that point stops the run with an
/// undefined variable error, and nothing is performed for it or after it.
pub proof fn lemma_undefined_trigger(
    s: ScriptView,
    before: Seq<EntityView>,
    name: Seq<char>,
    after: Seq<EntityView>,
)
    requires
        run_from(s, before).2 is None,
        !run_from(s, before).0.variables.contains_key(name),
    ensures
        run_from(s, before + seq![EntityView::Trigger(name)] + after) == (
            run_from(s, before).0,
            run_from(s, before).1,
            Some(ErrorView::UndefinedVariable(name)),
        ),
{
    let t = seq![EntityView::Trigger(name)] + after;
    assert(before + seq![EntityView::Trigger(name)] + after =~= before + t);
    lemma_run_append(s, before, t);
    assert(t[0] == EntityView::Trigger(name));
    assert(run_from(s, before).1 + Seq::<Command>::empty() =~= run_from(s, before).1);
}

/// Binding a name twice and then triggering it performs the second binding
/// only.
pub proof fn lemma_rebinding(s: ScriptView, first: EntityView, second: EntityView)
    requires
        is_binding(first),
        is_binding(second),
        bound_name(first) == bound_name(second),
    ensures
        run_from(s, seq![first, second, EntityView::Trigger(bound_name(second))]).1
            == entity_effect(second).0,
        run_from(s, seq![first, second, EntityView::Trigger(bound_name(second))]).2
            == entity_effect(second).1,
{
    let name = bound_name(second);
    let tr = seq![EntityView::Trigger(name)];
    let es = seq![first, second, EntityView::Trigger(name)];
    let s1 = step_spec(s, first).0;
    let s2 = step_spec(s1, second).0;
    let e = entity_effect(second);
    assert(step_spec(s, first).2 is None);
    assert(step_spec(s1, second).2 is None);
    assert(s2.variables.contains_key(name));
    assert(s2.variables[name] == second);
    assert(step_spec(s2, EntityView::Trigger(name)) == (s2, e.0, e.1));
    assert(tr.drop_first() =~= Seq::<EntityView>::empty());
    assert(tr[0] == EntityView::Trigger(name));
    let r3 = run_from(s2, tr);
    assert(run_from(s2, Seq::<EntityView>::empty()) == (s2, Seq::<Command>::empty(), None::<ErrorView>));
    assert(e.0 + Seq::<Command>::empty() =~= e.0);
    if e.1 is None {
        assert(r3 == (s2, e.0 + Seq::<Command>::empty(), e.1));
    }
    assert(r3.1 == e.0 && r3.2 == e.1);
    assert(es.drop_first() =~= seq![second, EntityView::Trigger(name)]);
    assert(es.drop_first().drop_first() =~= tr);
    let r2 = run_from(s1, es.drop_first());
    assert(r2 == (r3.0, Seq::<Command>::empty() + r3.1, r3.2));
    assert(Seq::<Command>::empty() + r3.1 =~= r3.1);
    let r1 = run_from(s, es);
    assert(r1 == (r2.0, Seq::<Command>::empty() + r2.1, r2.2));
    assert(Seq::<Command>::empty() + r2.1 =~= r2.1);
}

/// The characters that some production of the grammar reads.
pub open spec fn in_alphabet(c: char) -> bool {
    in_class(c, CharClass::Alphanumeric) || in_class(c, CharClass::Multispace) || c == ';' || c
        == ':' || c == '=' || c == '{' || c == '}'
}

/// Whether every character of `s[i..j]` is one that the grammar reads.
pub open spec fn readable(s: Seq<char>, i: int, j: int) -> bool {
    forall|x: int| i <= x < j ==> in_alphabet(#[trigger] s[x])
}

proof fn lemma_run_readable(s: Seq<char>, i: int, k: CharClass)
    requires
        0 <= i <= s.len(),
    ensures
        readable(s, i, run_end(s, i, k)),
        i <= run_end(s, i, k) <= s.len(),
{
    lemma_run_end(s, i, k);
}

proof fn lemma_keyword_readable(s: Seq<char>, i: int, w: Seq<char>)
    requires
        0 <= i <= s.len(),
        forall|t: int| 0 <= t < w.len() ==> in_alphabet(#[trigger] w[t]),
        keyword_end(s, i, w) is Some,
    ensures
        readable(s, i, keyword_end(s, i, w)->0),
        i <= keyword_end(s, i, w)->0 <= s.len(),
{
    let k = i + w.len();
    assert forall|x: int| i <= x < k implies in_alphabet(#[trigger] s[x]) by {
        assert(s[x] == s.subrange(i, k)[x - i]);
    }
    lemma_run_readable(s, k, CharClass::Space);
}

proof fn lemma_keywords()
    ensures
        forall|t: int| 0 <= t < kw_wait().len() ==> in_alphabet(#[trigger] kw_wait()[t]),
        forall|t: int| 0 <= t < kw_blink().len() ==> in_alphabet(#[trigger] kw_blink()[t]),
        forall|t: int| 0 <= t < kw_color().len() ==> in_alphabet(#[trigger] kw_color()[t]),
        forall|t: int| 0 <= t < kw_trigger().len() ==> in_alphabet(#[trigger] kw_trigger()[t]),
        forall|t: int| 0 <= t < kw_directive().len() ==> in_alphabet(#[trigger] kw_directive()[t]),
{
}

proof fn lemma_semicolon_readable(s: Seq<char>, i: int)
    requires
        0 <= i <= s.len(),
        semicolon_end(s, i) is Some,
    ensures
        readable(s, i, semicolon_end(s, i)->0),
        i < semicolon_end(s, i)->0 <= s.len(),
{
    lemma_run_readable(s, i + 1, CharClass::Multispace);
}

proof fn lemma_number_readable(s: Seq<char>, i: int)
    requires
        0 <= i <= s.len(),
    ensures
        number_at(s, i) matches Some((_, j)) ==> readable(s, i, j) && i <= j <= s.len(),
        number_sp_at(s, i) matches Some((_, j)) ==> readable(s, i, j) && i <= j <= s.len(),
{
    lemma_run_readable(s, i, CharClass::Digit);
    let j = run_end(s, i, CharClass::Digit);
    lemma_run_readable(s, j, CharClass::Space);
}

proof fn lemma_token_readable(s: Seq<char>, i: int, k: CharClass)
    requires
        0 <= i <= s.len(),
    ensures
        token_at(s, i, k) matches Some((_, j)) ==> readable(s, i, j) && i <= j <= s.len(),
{
    lemma_run_readable(s, i, k);
}

proof fn lemma_action_readable(s: Seq<char>, i: int)
    requires
        0 <= i <= s.len(),
    ensures
        action_at(s, i) matches Some((_, e)) ==> readable(s, i, e) && i < e <= s.len(),
{
    lemma_keywords();
    if let Some(k) = keyword_end(s, i, kw_wait()) {
        lemma_keyword_readable(s, i, kw_wait());
        lemma_number_readable(s, k);
        if let Some((_, j)) = number_at(s, k) {
            if semicolon_end(s, j) is Some {
                lemma_semicolon_readable(s, j);
            }
        }
    }
    if let Some(k) = keyword_end(s, i, kw_blink()) {
        lemma_keyword_readable(s, i, kw_blink());
        lemma_number_readable(s, k);
        if let Some((_, j1)) = number_sp_at(s, k) {
            lemma_number_readable(s, j1);
            if let Some((_, j2)) = number_sp_at(s, j1) {
                lemma_token_readable(s, j2, CharClass::HexDigit);
                if let Some((_, j3)) = token_at(s, j2, CharClass::HexDigit) {
                    if semicolon_end(s, j3) is Some {
                        lemma_semicolon_readable(s, j3);
                    }
                }
            }
        }
    }
    if let Some(k) = keyword_end(s, i, kw_color()) {
        lemma_keyword_readable(s, i, kw_color());
        lemma_token_readable(s, k, CharClass::HexDigit);
        if let Some((_, j)) = token_at(s, k, CharClass::HexDigit) {
            if semicolon_end(s, j) is Some {
                lemma_semicolon_readable(s, j);
            }
        }
    }
}

proof fn lemma_actions_readable(s: Seq<char>, i: int)
    requires
        0 <= i <= s.len(),
    ensures
        readable(s, i, actions_from(s, i).1),
        i <= actions_from(s, i).1 <= s.len(),
    decreases s.len() - i,
{
    lemma_action_readable(s, i);
    if let Some((_, j)) = action_at(s, i) {
        lemma_run_readable(s, j, CharClass::Multispace);
        let k = run_end(s, j, CharClass::Multispace);
        if i < k <= s.len() {
            lemma_actions_readable(s, k);
        }
    }
}

proof fn lemma_sequence_body_readable(s: Seq<char>, i: int)
    requires
        0 <= i <= s.len(),
    ensures
        sequence_body_at(s, i) matches Some((_, e)) ==> readable(s, i, e) && i < e <= s.len(),
{
    if 0 <= i < s.len() && s[i] == '{' {
        lemma_run_readable(s, i + 1, CharClass::Multispace);
        let p = run_end(s, i + 1, CharClass::Multispace);
        lemma_actions_readable(s, p);
        let q = actions_from(s, p).1;
        if 0 <= q < s.len() && s[q] == '}' && semicolon_end(s, q + 1) is Some {
            lemma_semicolon_readable(s, q + 1);
        }
    }
}

proof fn lemma_variable_readable(s: Seq<char>, i: int)
    requires
        0 <= i <= s.len(),
    ensures
        variable_at(s, i) matches Parsed::Matched(_, j) ==> readable(s, i, j) && i < j <= s.len(),
        assign_at(s, i) matches Some(j) ==> readable(s, i, j) && i < j <= s.len(),
{
    lemma_token_readable(s, i, CharClass::Alphanumeric);
    if let Some((_, j)) = token_at(s, i, CharClass::Alphanumeric) {
        if 0 <= j < s.len() && s[j] == ':' {
            lemma_run_readable(s, j + 1, CharClass::Space);
            lemma_token_readable(s, run_end(s, j + 1, CharClass::Space), CharClass::Alphanumeric);
        }
    }
    lemma_run_readable(s, i, CharClass::Space);
    let a = run_end(s, i, CharClass::Space);
    if 0 <= a < s.len() && s[a] == '=' {
        lemma_run_readable(s, a + 1, CharClass::Space);
    }
}

proof fn lemma_statement_readable(s: Seq<char>, i: int)
    requires
        0 <= i <= s.len(),
    ensures
        statement_at(s, i) matches Parsed::Matched(_, j) ==> readable(s, i, j) && i < j <= s.len(),
{
    lemma_keywords();
    if let Some(k) = keyword_end(s, i, kw_trigger()) {
        lemma_keyword_readable(s, i, kw_trigger());
        lemma_token_readable(s, k, CharClass::Alphanumeric);
        if let Some((_, j)) = token_at(s, k, CharClass::Alphanumeric) {
            if semicolon_end(s, j) is Some {
                lemma_semicolon_readable(s, j);
            }
        }
    }
    if let Some(k) = keyword_end(s, i, kw_directive()) {
        lemma_keyword_readable(s, i, kw_directive());
        lemma_token_readable(s, k, CharClass::Alphanumeric);
        if let Some((_, j)) = token_at(s, k, CharClass::Alphanumeric) {
            if semicolon_end(s, j) is Some {
                lemma_semicolon_readable(s, j);
            }
        }
    }
    lemma_variable_readable(s, i);
    if let Parsed::Matched(_, j) = variable_at(s, i) {
        lemma_variable_readable(s, j);
        if let Some(b) = assign_at(s, j) {
            lemma_sequence_body_readable(s, b);
            lemma_action_readable(s, b);
        }
    }
}

proof fn lemma_program_readable(s: Seq<char>, i: int)
    requires
        0 <= i <= s.len(),
        program_from(s, i) is Ok,
    ensures
        readable(s, i, s.len() as int),
    decreases s.len() - i,
{
    if i < s.len() {
        lemma_statement_readable(s, i);
        if let Parsed::Matched(_, j) = statement_at(s, i) {
            lemma_run_readable(s, j, CharClass::Newline);
            let k = run_end(s, j, CharClass::Newline);
            lemma_program_readable(s, k);
        }
    }
}

/// A text that holds a character that no part of the grammar reads is
/// refused as a whole: parsing never stops early and succeeds on a prefix.
pub proof fn lemma_unreadable_text_refused(s: Seq<char>, x: int)
    requires
        0 <= x < s.len(),
        !in_alphabet(s[x]),
    ensures
        program(s) is Err,
{
    if program(s) is Ok {
        lemma_program_readable(s, 0);
    }
}

} // verus!
