use vstd::prelude::*;
use crate::midi::Pad;

pub use crate::engine::{Engine, Script, structure};

verus! {

/// The name of a variable.
pub type VariableName = String;

/// A variable: its name and its declared type.
pub type Variable = (VariableName, VariableType);

/// Actions run one after the other.
pub type Sequence = Vec<Action>;

/// What a script file holds, in file order.
pub type Entities = Vec<Entity>;

/// The directives of a script, in file order, duplicates kept.
pub type Directives = Vec<DirectiveType>;

/// The statements of the language.
#[derive(Debug, Clone, PartialEq, Eq)]
pub enum StatementType {
    Trigger(String),
}

/// File-level directives that change the behaviour of a script.
#[derive(Debug, Clone, Copy, PartialEq, Eq, Structural)]
pub enum DirectiveType {
    Midi,
}

/// The declared type of a variable: a sequence or a single action. It is
/// recorded as written; it is not checked against the shape of the bound value.
#[derive(Debug, Clone, Copy, PartialEq, Eq, Structural)]
pub enum VariableType {
    Sequence,
    Action,
}

/// The commands that can be sent to the lights. A colour is kept as the
/// hexadecimal digits written in the script; it must be exactly six of them
/// when the action is performed.
#[derive(Debug, Clone, PartialEq, Eq)]
pub enum Action {
    /// Wait this many seconds.
    Wait(u16),
    /// Blink `count` times, `pause` seconds dark each time, in the colour `hex`.
    Blink(u16, u16, String),
    /// Set every light to the colour `hex`.
    Color(String),
}

/// One top-level construct of a script.
#[derive(Debug, PartialEq, Eq)]
pub enum Entity {
    AssignedSequence(Variable, Sequence),
    AssignedAction(Variable, Action),
    MidiBind(Pad, VariableName),
    Statement(StatementType),
    Directive(DirectiveType),
}

/// The ways a script can fail.
#[derive(Debug, Clone, PartialEq, Eq)]
pub enum LangError {
    /// The text does not follow the grammar, or text is left after the last statement.
    Syntax,
    /// A type or directive keyword outside the known set.
    UnknownKeyword(String),
    /// A trigger names a variable that is not bound at that point.
    UndefinedVariable(String),
    /// A colour that is not six hexadecimal digits.
    ColorConversion(String),
}

/// A state applied to every light: a colour as red, green and blue bytes, and
/// optionally the power.
#[derive(Debug, Clone, Copy, PartialEq, Eq, Structural)]
pub struct LightState {
    pub on: Option<bool>,
    pub red: u8,
    pub green: u8,
    pub blue: u8,
}

/// One thing for the runner of a script to do, in order.
#[derive(Debug, Clone, Copy, PartialEq, Eq, Structural)]
pub enum Command {
    /// Block for this many seconds.
    Sleep(u16),
    /// Apply this state to all lights.
    Send(LightState),
}

/// The mathematical value of an [`Action`].
pub enum ActionView {
    Wait(u16),
    Blink(u16, u16, Seq<char>),
    Color(Seq<char>),
}

/// The mathematical value of an [`Entity`]; a trigger statement is `Trigger`.
pub enum EntityView {
    AssignedSequence(Seq<char>, VariableType, Seq<ActionView>),
    AssignedAction(Seq<char>, VariableType, ActionView),
    MidiBind(u8, Seq<char>),
    Trigger(Seq<char>),
    Directive(DirectiveType),
}

/// The mathematical value of a [`LangError`].
pub enum ErrorView {
    Syntax,
    UnknownKeyword(Seq<char>),
    UndefinedVariable(Seq<char>),
    ColorConversion(Seq<char>),
}

impl View for Action {
    type V = ActionView;

    open spec fn view(&self) -> ActionView {
        match self {
            Action::Wait(d) => ActionView::Wait(*d),
            Action::Blink(n, p, hex) => ActionView::Blink(*n, *p, hex@),
            Action::Color(hex) => ActionView::Color(hex@),
        }
    }
}

/// The values of a list of actions.
pub open spec fn actions_view(s: Seq<Action>) -> Seq<ActionView> {
    s.map_values(|a: Action| a@)
}

impl View for Entity {
    type V = EntityView;

    open spec fn view(&self) -> EntityView {
        match self {
            Entity::AssignedSequence(v, s) => EntityView::AssignedSequence(v.0@, v.1, actions_view(s@)),
            Entity::AssignedAction(v, a) => EntityView::AssignedAction(v.0@, v.1, a@),
            Entity::MidiBind(p, name) => EntityView::MidiBind(*p, name@),
            Entity::Statement(StatementType::Trigger(name)) => EntityView::Trigger(name@),
            Entity::Directive(d) => EntityView::Directive(*d),
        }
    }
}

/// The values of a list of entities.
pub open spec fn entities_view(s: Seq<Entity>) -> Seq<EntityView> {
    s.map_values(|e: Entity| e@)
}

impl View for LangError {
    type V = ErrorView;

    open spec fn view(&self) -> ErrorView {
        match self {
            LangError::Syntax => ErrorView::Syntax,
            LangError::UnknownKeyword(w) => ErrorView::UnknownKeyword(w@),
            LangError::UndefinedVariable(n) => ErrorView::UndefinedVariable(n@),
            LangError::ColorConversion(h) => ErrorView::ColorConversion(h@),
        }
    }
}

/// The characters of `word` as a type keyword.
pub open spec fn variable_type_of(word: Seq<char>) -> Option<VariableType> {
    if word == seq!['s', 'e', 'q'] {
        Some(VariableType::Sequence)
    } else if word == seq!['a', 'c', 't'] {
        Some(VariableType::Action)
    } else {
        None
    }
}

/// The characters of `word` as a directive keyword.
pub open spec fn directive_type_of(word: Seq<char>) -> Option<DirectiveType> {
    if word == seq!['m', 'i', 'd', 'i'] {
        Some(DirectiveType::Midi)
    } else {
        None
    }
}

/// Whether `v[start..end]` spells `word`.
fn spells(v: &Vec<char>, start: usize, end: usize, word: &[char]) -> (r: bool)
    requires
        start <= end <= v@.len(),
    ensures
        r == (v@.subrange(start as int, end as int) == word@),
{
    if end - start != word.len() {
        return false;
    }
    let mut i: usize = 0;
    while i < word.len()
        invariant
            end - start == word@.len(),
            start <= end <= v@.len(),
            i <= word@.len(),
            forall|j: int| 0 <= j < i ==> v@[start + j] == word@[j],
        decreases word@.len() - i,
    {
        if v[start + i] != word[i] {
            assert(v@.subrange(start as int, end as int)[i as int] != word@[i as int]);
            return false;
        }
        i = i + 1;
    }
    assert(v@.subrange(start as int, end as int) =~= word@);
    true
}

impl VariableType {
    /// Reads a type keyword, `seq` or `act`, from `v[start..end]`.
    pub fn from_keyword(v: &Vec<char>, start: usize, end: usize) -> (r: Option<VariableType>)
        requires
            start <= end <= v@.len(),
        ensures
            r == variable_type_of(v@.subrange(start as int, end as int)),
    {
        if spells(v, start, end, &['s', 'e', 'q']) {
            Some(VariableType::Sequence)
        } else if spells(v, start, end, &['a', 'c', 't']) {
            Some(VariableType::Action)
        } else {
            None
        }
    }
}

impl DirectiveType {
    /// Reads a directive keyword, `midi`, from `v[start..end]`.
    pub fn from_keyword(v: &Vec<char>, start: usize, end: usize) -> (r: Option<DirectiveType>)
        requires
            start <= end <= v@.len(),
        ensures
            r == directive_type_of(v@.subrange(start as int, end as int)),
    {
        if spells(v, start, end, &['m', 'i', 'd', 'i']) {
            Some(DirectiveType::Midi)
        } else {
            None
        }
    }
}

} // verus!
