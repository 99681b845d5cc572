use vstd::prelude::*;
use crate::grammar::{
    CharClass, Parsed, action_at, actions_from, assign_at, assigned_action_at,
    assigned_sequence_at, blink_at, color_at, digit_value, digits_value, directive_at,
    in_class, keyword_end, lemma_run_end, lit_at, number_at, number_sp_at, program,
    program_from, run_end, semicolon_end, sequence_body_at, statement_at, token_at,
    trigger_at, variable_at, wait_at,
};
use crate::lshow::{
    Action, DirectiveType, Entities, Entity, ErrorView, LangError, StatementType, Variable,
    VariableType, actions_view, entities_view,
};
use crate::text::{chars_of, string_of};

verus! {

/// A position found by an executable production, as a spec position.
pub open spec fn position(r: Option<usize>) -> Option<int> {
    match r {
        Some(e) => Some(e as int),
        None => None,
    }
}

/// A number and position found by an executable production.
pub open spec fn number(r: Option<(u16, usize)>) -> Option<(u16, int)> {
    match r {
        Some((n, e)) => Some((n, e as int)),
        None => None,
    }
}

/// Whether `c` belongs to the class `k`.
pub fn class_has(c: char, k: CharClass) -> (r: bool)
    ensures
        r == in_class(c, k),
{
    match k {
        CharClass::Space => c == ' ' || c == '\t',
        CharClass::Multispace => c == ' ' || c == '\t' || c == '\r' || c == '\n',
        CharClass::Newline => c == '\n',
        CharClass::Digit => '0' <= c && c <= '9',
        CharClass::HexDigit => ('0' <= c && c <= '9') || ('a' <= c && c <= 'f') || ('A' <= c
            && c <= 'F'),
        CharClass::Alphanumeric => ('0' <= c && c <= '9') || ('a' <= c && c <= 'z') || ('A' <= c
            && c <= 'Z'),
    }
}

/// The end of the run of characters of class `k` that starts at `pos`.
pub fn skip(s: &Vec<char>, pos: usize, k: CharClass) -> (r: usize)
    requires
        pos <= s@.len(),
    ensures
        r == run_end(s@, pos as int, k),
        pos <= r <= s@.len(),
{
    proof {
        lemma_run_end(s@, pos as int, k);
    }
    let mut i: usize = pos;
    while i < s.len() && class_has(s[i], k)
        invariant
            pos <= i <= s@.len(),
            run_end(s@, i as int, k) == run_end(s@, pos as int, k),
        decreases s@.len() - i,
    {
        i = i + 1;
    }
    i
}

/// Whether `w` stands in `s` at `pos`.
fn lit(s: &Vec<char>, pos: usize, w: &[char]) -> (r: bool)
    requires
        pos <= s@.len(),
    ensures
        r == lit_at(s@, pos as int, w@),
        r ==> pos + w@.len() <= s.len(),
{
    if w.len() > s.len() - pos {
        return false;
    }
    let mut i: usize = 0;
    while i < w.len()
        invariant
            pos + w@.len() <= s@.len(),
            s@.len() <= usize::MAX,
            i <= w@.len(),
            forall|j: int| 0 <= j < i ==> s@[pos + j] == w@[j],
        decreases w@.len() - i,
    {
        if s[pos + i] != w[i] {
            assert(s@.subrange(pos as int, pos + w@.len())[i as int] != w@[i as int]);
            return false;
        }
        i = i + 1;
    }
    assert(s@.subrange(pos as int, pos + w@.len()) =~= w@);
    true
}

/// A keyword followed by at least one space or tab.
pub fn id(s: &Vec<char>, pos: usize, which: &[char]) -> (r: Option<usize>)
    requires
        pos <= s@.len(),
    ensures
        position(r) == keyword_end(s@, pos as int, which@),
        r matches Some(e) ==> pos < e <= s@.len(),
{
    if !lit(s, pos, which) {
        return None;
    }
    let k = pos + which.len();
    let e = skip(s, k, CharClass::Space);
    if e > k {
        Some(e)
    } else {
        None
    }
}

/// A `;` and the whitespace after it.
pub fn colon(s: &Vec<char>, pos: usize) -> (r: Option<usize>)
    requires
        pos <= s@.len(),
    ensures
        position(r) == semicolon_end(s@, pos as int),
        r matches Some(e) ==> pos < e <= s@.len(),
{
    if pos < s.len() && s[pos] == ';' {
        Some(skip(s, pos + 1, CharClass::Multispace))
    } else {
        None
    }
}

proof fn lemma_digits_step(s: Seq<char>, pos: int, i: int)
    requires
        0 <= pos <= i < s.len(),
    ensures
        digits_value(s.subrange(pos, i + 1)) == digits_value(s.subrange(pos, i)) * 10
            + digit_value(s[i]),
{
    assert(s.subrange(pos, i + 1).drop_last() =~= s.subrange(pos, i));
}

proof fn lemma_digits_grow(s: Seq<char>, pos: int, i: int, j: int)
    requires
        0 <= pos <= i <= j <= s.len(),
    ensures
        digits_value(s.subrange(pos, j)) >= digits_value(s.subrange(pos, i)),
    decreases j - i,
{
    if j > i {
        lemma_digits_grow(s, pos, i, j - 1);
        lemma_digits_step(s, pos, j - 1);
    }
}

/// A decimal number that fits in 16 bits; a longer run of digits is no match.
pub fn u16_digit(s: &Vec<char>, pos: usize) -> (r: Option<(u16, usize)>)
    requires
        pos <= s@.len(),
    ensures
        number(r) == number_at(s@, pos as int),
        r matches Some((_, e)) ==> pos < e <= s@.len(),
{
    let end = skip(s, pos, CharClass::Digit);
    if end == pos {
        return None;
    }
    proof {
        lemma_run_end(s@, pos as int, CharClass::Digit);
    }
    let mut v: u32 = 0;
    let mut i: usize = pos;
    while i < end
        invariant
            pos <= i <= end <= s@.len(),
            end == run_end(s@, pos as int, CharClass::Digit),
            forall|j: int| pos <= j < end ==> in_class(#[trigger] s@[j], CharClass::Digit),
            v <= 65535,
            v == digits_value(s@.subrange(pos as int, i as int)),
        decreases end - i,
    {
        assert(in_class(s@[i as int], CharClass::Digit));
        let d = (s[i] as u32) - ('0' as u32);
        proof {
            lemma_digits_step(s@, pos as int, i as int);
        }
        if v > 6553 || (v == 6553 && d > 5) {
            proof {
                lemma_digits_grow(s@, pos as int, i + 1, end as int);
            }
            return None;
        }
        v = v * 10 + d;
        i = i + 1;
    }
    Some((v as u16, end))
}

/// A number followed by at least one space or tab.
pub fn u16_digit_sp(s: &Vec<char>, pos: usize) -> (r: Option<(u16, usize)>)
    requires
        pos <= s@.len(),
    ensures
        number(r) == number_sp_at(s@, pos as int),
        r matches Some((_, e)) ==> pos < e <= s@.len(),
{
    match u16_digit(s, pos) {
        Some((n, j)) => {
            let e = skip(s, j, CharClass::Space);
            if e > j {
                Some((n, e))
            } else {
                None
            }
        },
        None => None,
    }
}

/// A non-empty run of characters of class `k`, as a string.
pub fn token(s: &Vec<char>, pos: usize, k: CharClass) -> (r: Option<(String, usize)>)
    requires
        pos <= s@.len(),
    ensures
        match r {
            Some((t, e)) => token_at(s@, pos as int, k) == Some((t@, e as int)),
            None => token_at(s@, pos as int, k) is None,
        },
        r matches Some((_, e)) ==> pos < e <= s@.len(),
{
    let e = skip(s, pos, k);
    if e > pos {
        Some((string_of(s, pos, e), e))
    } else {
        None
    }
}

/// The value of a parsed action, if any.
pub open spec fn action_result(r: Option<(Action, usize)>) -> Option<(crate::lshow::ActionView, int)> {
    match r {
        Some((a, e)) => Some((a@, e as int)),
        None => None,
    }
}

/// `wait N;`
pub fn wait(s: &Vec<char>, pos: usize) -> (r: Option<(Action, usize)>)
    requires
        pos <= s@.len(),
    ensures
        action_result(r) == wait_at(s@, pos as int),
        r matches Some((_, e)) ==> pos < e <= s@.len(),
{
    let k = id(s, pos, &['w', 'a', 'i', 't'])?;
    let (n, j) = u16_digit(s, k)?;
    let e = colon(s, j)?;
    Some((Action::Wait(n), e))
}

/// `blink N P HEX;`
pub fn blink(s: &Vec<char>, pos: usize) -> (r: Option<(Action, usize)>)
    requires
        pos <= s@.len(),
    ensures
        action_result(r) == blink_at(s@, pos as int),
        r matches Some((_, e)) ==> pos < e <= s@.len(),
{
    let k = id(s, pos, &['b', 'l', 'i', 'n', 'k'])?;
    let (n, j1) = u16_digit_sp(s, k)?;
    let (p, j2) = u16_digit_sp(s, j1)?;
    let (hex, j3) = token(s, j2, CharClass::HexDigit)?;
    let e = colon(s, j3)?;
    Some((Action::Blink(n, p, hex), e))
}

/// `color HEX;`
pub fn color(s: &Vec<char>, pos: usize) -> (r: Option<(Action, usize)>)
    requires
        pos <= s@.len(),
    ensures
        action_result(r) == color_at(s@, pos as int),
        r matches Some((_, e)) ==> pos < e <= s@.len(),
{
    let k = id(s, pos, &['c', 'o', 'l', 'o', 'r'])?;
    let (hex, j) = token(s, k, CharClass::HexDigit)?;
    let e = colon(s, j)?;
    Some((Action::Color(hex), e))
}

/// Any action.
pub fn generic_action(s: &Vec<char>, pos: usize) -> (r: Option<(Action, usize)>)
    requires
        pos <= s@.len(),
    ensures
        action_result(r) == action_at(s@, pos as int),
        r matches Some((_, e)) ==> pos < e <= s@.len(),
{
    let w = wait(s, pos);
    if w.is_some() {
        return w;
    }
    let b = blink(s, pos);
    if b.is_some() {
        return b;
    }
    color(s, pos)
}

/// `{ ACTION* };`: the actions of a sequence.
pub fn generic_sequence(s: &Vec<char>, pos: usize) -> (r: Option<(Vec<Action>, usize)>)
    requires
        pos <= s@.len(),
    ensures
        match r {
            Some((acts, e)) => sequence_body_at(s@, pos as int) == Some(
                (actions_view(acts@), e as int),
            ),
            None => sequence_body_at(s@, pos as int) is None,
        },
        r matches Some((_, e)) ==> pos < e <= s@.len(),
{
    if !(pos < s.len() && s[pos] == '{') {
        return None;
    }
    let start = skip(s, pos + 1, CharClass::Multispace);
    let mut p: usize = start;
    let mut acts: Vec<Action> = Vec::new();
    loop
        invariant
            pos < start <= p <= s@.len(),
            actions_from(s@, start as int) == (
                actions_view(acts@) + actions_from(s@, p as int).0,
                actions_from(s@, p as int).1,
            ),
        ensures
            pos < start <= p <= s@.len(),
            actions_from(s@, start as int) == (actions_view(acts@), p as int),
        decreases s@.len() - p,
    {
        match generic_action(s, p) {
            Some((a, j)) => {
                let k = skip(s, j, CharClass::Multispace);
                proof {
                    let rest = actions_from(s@, k as int);
                    assert(actions_from(s@, p as int) == (seq![a@] + rest.0, rest.1));
                    assert(actions_view(acts@.push(a)) =~= actions_view(acts@).push(a@));
                    assert(actions_view(acts@) + (seq![a@] + rest.0) =~= actions_view(
                        acts@,
                    ).push(a@) + rest.0);
                }
                acts.push(a);
                p = k;
            },
            None => {
                assert(actions_view(acts@) + Seq::<crate::lshow::ActionView>::empty()
                    =~= actions_view(acts@));
                break ;
            },
        }
    }
    if p < s.len() && s[p] == '}' {
        match colon(s, p + 1) {
            Some(e) => Some((acts, e)),
            None => None,
        }
    } else {
        None
    }
}

/// `=` with optional spaces or tabs around it.
pub fn assign(s: &Vec<char>, pos: usize) -> (r: Option<usize>)
    requires
        pos <= s@.len(),
    ensures
        position(r) == assign_at(s@, pos as int),
        r matches Some(e) ==> pos < e <= s@.len(),
{
    let a = skip(s, pos, CharClass::Space);
    if a < s.len() && s[a] == '=' {
        Some(skip(s, a + 1, CharClass::Space))
    } else {
        None
    }
}

/// A variable found by the executable parser, as a spec outcome.
pub open spec fn variable_result(r: Result<Option<(Variable, usize)>, LangError>) -> Parsed<
    (Seq<char>, VariableType),
> {
    match r {
        Ok(Some((v, e))) => Parsed::Matched((v.0@, v.1), e as int),
        Ok(None) => Parsed::NoMatch,
        Err(err) => Parsed::Fatal(err@),
    }
}

/// An entity found by the executable parser, as a spec outcome.
pub open spec fn entity_result(r: Result<Option<(Entity, usize)>, LangError>) -> Parsed<
    crate::lshow::EntityView,
> {
    match r {
        Ok(Some((ent, e))) => Parsed::Matched(ent@, e as int),
        Ok(None) => Parsed::NoMatch,
        Err(err) => Parsed::Fatal(err@),
    }
}

/// `NAME: TYPE`; a `TYPE` other than `seq` or `act` is an unknown keyword.
pub fn variable(s: &Vec<char>, pos: usize) -> (r: Result<Option<(Variable, usize)>, LangError>)
    requires
        pos <= s@.len(),
    ensures
        variable_result(r) == variable_at(s@, pos as int),
        r matches Ok(Some((_, e))) ==> pos < e <= s@.len(),
{
    let (name, j) = match token(s, pos, CharClass::Alphanumeric) {
        Some(t) => t,
        None => return Ok(None),
    };
    if !(j < s.len() && s[j] == ':') {
        return Ok(None);
    }
    let k = skip(s, j + 1, CharClass::Space);
    let t = skip(s, k, CharClass::Alphanumeric);
    if t == k {
        return Ok(None);
    }
    match VariableType::from_keyword(s, k, t) {
        Some(ty) => Ok(Some(((name, ty), t))),
        None => Err(LangError::UnknownKeyword(string_of(s, k, t))),
    }
}

/// `NAME: TYPE = { ... };`
pub fn sequence(s: &Vec<char>, pos: usize) -> (r: Result<Option<(Entity, usize)>, LangError>)
    requires
        pos <= s@.len(),
    ensures
        entity_result(r) == assigned_sequence_at(s@, pos as int),
        r matches Ok(Some((_, e))) ==> pos < e <= s@.len(),
{
    let (v, j) = match variable(s, pos)? {
        Some(x) => x,
        None => return Ok(None),
    };
    let b = match assign(s, j) {
        Some(b) => b,
        None => return Ok(None),
    };
    match generic_sequence(s, b) {
        Some((acts, e)) => Ok(Some((Entity::AssignedSequence(v, acts), e))),
        None => Ok(None),
    }
}

/// `NAME: TYPE = ACTION`
pub fn action(s: &Vec<char>, pos: usize) -> (r: Result<Option<(Entity, usize)>, LangError>)
    requires
        pos <= s@.len(),
    ensures
        entity_result(r) == assigned_action_at(s@, pos as int),
        r matches Ok(Some((_, e))) ==> pos < e <= s@.len(),
{
    let (v, j) = match variable(s, pos)? {
        Some(x) => x,
        None => return Ok(None),
    };
    let b = match assign(s, j) {
        Some(b) => b,
        None => return Ok(None),
    };
    match generic_action(s, b) {
        Some((a, e)) => Ok(Some((Entity::AssignedAction(v, a), e))),
        None => Ok(None),
    }
}

/// `trigger NAME;`
pub fn trigger(s: &Vec<char>, pos: usize) -> (r: Option<(Entity, usize)>)
    requires
        pos <= s@.len(),
    ensures
        match r {
            Some((ent, e)) => trigger_at(s@, pos as int) == Some((ent@, e as int)),
            None => trigger_at(s@, pos as int) is None,
        },
        r matches Some((_, e)) ==> pos < e <= s@.len(),
{
    let k = id(s, pos, &['t', 'r', 'i', 'g', 'g', 'e', 'r'])?;
    let (name, j) = token(s, k, CharClass::Alphanumeric)?;
    let e = colon(s, j)?;
    Some((Entity::Statement(StatementType::Trigger(name)), e))
}

/// `directive NAME;`; a `NAME` other than `midi` is an unknown keyword.
pub fn directive(s: &Vec<char>, pos: usize) -> (r: Result<Option<(Entity, usize)>, LangError>)
    requires
        pos <= s@.len(),
    ensures
        entity_result(r) == directive_at(s@, pos as int),
        r matches Ok(Some((_, e))) ==> pos < e <= s@.len(),
{
    let k = match id(s, pos, &['d', 'i', 'r', 'e', 'c', 't', 'i', 'v', 'e']) {
        Some(k) => k,
        None => return Ok(None),
    };
    let j = skip(s, k, CharClass::Alphanumeric);
    if j == k {
        return Ok(None);
    }
    match DirectiveType::from_keyword(s, k, j) {
        Some(d) => match colon(s, j) {
            Some(e) => Ok(Some((Entity::Directive(d), e))),
            None => Ok(None),
        },
        None => Err(LangError::UnknownKeyword(string_of(s, k, j))),
    }
}

/// One statement of any kind.
pub fn statement(s: &Vec<char>, pos: usize) -> (r: Result<Option<(Entity, usize)>, LangError>)
    requires
        pos <= s@.len(),
    ensures
        entity_result(r) == statement_at(s@, pos as int),
        r matches Ok(Some((_, e))) ==> pos < e <= s@.len(),
{
    if let Some(t) = trigger(s, pos) {
        return Ok(Some(t));
    }
    if let Some(d) = directive(s, pos)? {
        return Ok(Some(d));
    }
    if let Some(q) = sequence(s, pos)? {
        return Ok(Some(q));
    }
    action(s, pos)
}

/// A parse of a whole script, as a spec outcome.
pub open spec fn entities_result(r: Result<Entities, LangError>) -> Result<
    Seq<crate::lshow::EntityView>,
    ErrorView,
> {
    match r {
        Ok(es) => Ok(entities_view(es@)),
        Err(err) => Err(err@),
    }
}

/// `done` followed by what `rest` denotes.
pub open spec fn prepend(
    done: Seq<crate::lshow::EntityView>,
    rest: Result<Seq<crate::lshow::EntityView>, ErrorView>,
) -> Result<Seq<crate::lshow::EntityView>, ErrorView> {
    match rest {
        Ok(x) => Ok(done + x),
        Err(err) => Err(err),
    }
}

/// Parses a whole script into its entities, in file order. The whole text
/// must be statements, each followed by any number of line feeds.
pub fn root(i: &str) -> (r: Result<Entities, LangError>)
    ensures
        entities_result(r) == program(i@),
{
    let s = chars_of(i);
    let mut pos: usize = 0;
    let mut out: Vec<Entity> = Vec::new();
    assert(entities_view(out@) =~= Seq::<crate::lshow::EntityView>::empty());
    assert(prepend(entities_view(out@), program_from(s@, 0)) =~= program_from(s@, 0)) by {
        match program_from(s@, 0) {
            Ok(x) => {
                assert(Seq::<crate::lshow::EntityView>::empty() + x =~= x);
            },
            Err(_) => {},
        }
    }
    loop
        invariant
            pos <= s@.len(),
            s@ == i@,
            program(s@) == prepend(entities_view(out@), program_from(s@, pos as int)),
        decreases s@.len() - pos,
    {
        if pos >= s.len() {
            assert(entities_view(out@) + Seq::<crate::lshow::EntityView>::empty()
                =~= entities_view(out@));
            return Ok(out);
        }
        match statement(&s, pos) {
            Err(err) => {
                return Err(err);
            },
            Ok(None) => {
                return Err(LangError::Syntax);
            },
            Ok(Some((ent, j))) => {
                let k = skip(&s, j, CharClass::Newline);
                proof {
                    let v = entities_view(out@);
                    assert(entities_view(out@.push(ent)) =~= v.push(ent@));
                    match program_from(s@, k as int) {
                        Ok(rest) => {
                            assert(v + (seq![ent@] + rest) =~= v.push(ent@) + rest);
                        },
                        Err(_) => {},
                    }
                }
                out.push(ent);
                pos = k;
            },
        }
    }
}

} // verus!
