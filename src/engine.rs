use vstd::prelude::*;
use crate::grammar::{is_digit, is_hex_digit};
use crate::lshow::{
    Action, ActionView, Command, DirectiveType, Entities, Entity, EntityView, ErrorView,
    LangError, LightState, Sequence, StatementType, actions_view, entities_view,
};
use crate::text::chars_of;
use crate::midi::Pad;

verus! {

/// The value of a hexadecimal digit.
pub open spec fn hex_value(c: char) -> nat {
    if is_digit(c) {
        ((c as u32) - ('0' as u32)) as nat
    } else if 'a' <= c && c <= 'f' {
        ((c as u32) - ('a' as u32) + 10) as nat
    } else {
        ((c as u32) - ('A' as u32) + 10) as nat
    }
}

/// The byte written by two hexadecimal digits.
pub open spec fn byte_of(hi: char, lo: char) -> u8 {
    (hex_value(hi) * 16 + hex_value(lo)) as u8
}

/// The red, green and blue bytes of a colour written as six hexadecimal
/// digits; any other text is no colour.
pub open spec fn rgb_of(hex: Seq<char>) -> Option<(u8, u8, u8)> {
    if hex.len() == 6 && forall|i: int| 0 <= i < 6 ==> is_hex_digit(#[trigger] hex[i]) {
        Some((byte_of(hex[0], hex[1]), byte_of(hex[2], hex[3]), byte_of(hex[4], hex[5])))
    } else {
        None
    }
}

/// The command that sets every light to `rgb`, with the power `on` if given.
pub open spec fn send(on: Option<bool>, rgb: (u8, u8, u8)) -> Command {
    Command::Send(LightState { on, red: rgb.0, green: rgb.1, blue: rgb.2 })
}

/// One blink: the colour, then off, a pause, then on again.
pub open spec fn blink_round(pause: u16, rgb: (u8, u8, u8)) -> Seq<Command> {
    seq![send(None, rgb), send(Some(false), rgb), Command::Sleep(pause), send(Some(true), rgb)]
}

/// `count` blinks, one after the other.
pub open spec fn blink_commands(count: nat, pause: u16, rgb: (u8, u8, u8)) -> Seq<Command>
    decreases count,
{
    if count == 0 {
        seq![]
    } else {
        blink_commands((count - 1) as nat, pause, rgb) + blink_round(pause, rgb)
    }
}

/// What performing an action asks for: its commands, in order, and the error
/// that stops the run, if any.
pub open spec fn action_effect(a: ActionView) -> (Seq<Command>, Option<ErrorView>) {
    match a {
        ActionView::Wait(d) => (seq![Command::Sleep(d)], None),
        ActionView::Blink(n, p, hex) => match rgb_of(hex) {
            Some(c) => (blink_commands(n as nat, p, c), None),
            None => (seq![], Some(ErrorView::ColorConversion(hex))),
        },
        ActionView::Color(hex) => match rgb_of(hex) {
            Some(c) => (seq![send(None, c)], None),
            None => (seq![], Some(ErrorView::ColorConversion(hex))),
        },
    }
}

/// What performing actions in order asks for; the first error stops them.
pub open spec fn sequence_effect(acts: Seq<ActionView>) -> (Seq<Command>, Option<ErrorView>)
    decreases acts.len(),
{
    if acts.len() == 0 {
        (seq![], None)
    } else {
        let first = action_effect(acts[0]);
        if first.1 is Some {
            first
        } else {
            let rest = sequence_effect(acts.drop_first());
            (first.0 + rest.0, rest.1)
        }
    }
}

/// What triggering a bound entity asks for.
pub open spec fn entity_effect(e: EntityView) -> (Seq<Command>, Option<ErrorView>) {
    match e {
        EntityView::AssignedAction(_, _, a) => action_effect(a),
        EntityView::AssignedSequence(_, _, acts) => sequence_effect(acts),
        _ => (seq![], None),
    }
}

/// The error of an outcome, if any.
pub open spec fn error_of(r: Result<(), LangError>) -> Option<ErrorView> {
    match r {
        Ok(()) => None,
        Err(e) => Some(e@),
    }
}

/// The value of a hexadecimal digit.
fn hex_digit_value(c: char) -> (r: u8)
    requires
        is_hex_digit(c),
    ensures
        r == hex_value(c),
        r < 16,
{
    if '0' <= c && c <= '9' {
        ((c as u32) - ('0' as u32)) as u8
    } else if 'a' <= c && c <= 'f' {
        ((c as u32) - ('a' as u32) + 10) as u8
    } else {
        ((c as u32) - ('A' as u32) + 10) as u8
    }
}

/// Reads a colour written as six hexadecimal digits into its red, green and
/// blue bytes; any other text is a colour conversion error.
pub fn hex_to_rgb(hex: &String) -> (r: Result<(u8, u8, u8), LangError>)
    ensures
        match r {
            Ok(c) => rgb_of(hex@) == Some(c),
            Err(e) => rgb_of(hex@) is None && e@ == ErrorView::ColorConversion(hex@),
        },
{
    let h = chars_of(hex.as_str());
    if h.len() != 6 {
        return Err(LangError::ColorConversion(hex.clone()));
    }
    let mut i: usize = 0;
    while i < 6
        invariant
            h@ == hex@,
            h@.len() == 6,
            i <= 6,
            forall|j: int| 0 <= j < i ==> is_hex_digit(#[trigger] h@[j]),
        decreases 6 - i,
    {
        let c = h[i];
        if !(('0' <= c && c <= '9') || ('a' <= c && c <= 'f') || ('A' <= c && c <= 'F')) {
            assert(!is_hex_digit(hex@[i as int]));
            return Err(LangError::ColorConversion(hex.clone()));
        }
        i = i + 1;
    }
    let r = hex_digit_value(h[0]) * 16 + hex_digit_value(h[1]);
    let g = hex_digit_value(h[2]) * 16 + hex_digit_value(h[3]);
    let b = hex_digit_value(h[4]) * 16 + hex_digit_value(h[5]);
    Ok((r, g, b))
}

/// The command that sets every light to `rgb`.
fn send_state(on: Option<bool>, rgb: (u8, u8, u8)) -> (r: Command)
    ensures
        r == send(on, rgb),
{
    Command::Send(LightState { on, red: rgb.0, green: rgb.1, blue: rgb.2 })
}

/// Appends the commands of one action to `out`: a pause for a wait; for a
/// blink, each round sets the colour, turns the lights off, pauses and turns
/// them on; for a colour, one command that sets it. A colour that is not six
/// hexadecimal digits is an error, and the action then adds nothing.
pub fn interpret_action(action: &Action, out: &mut Vec<Command>) -> (r: Result<(), LangError>)
    ensures
        final(out)@ == old(out)@ + action_effect(action@).0,
        error_of(r) == action_effect(action@).1,
{
    match action {
        Action::Wait(d) => {
            out.push(Command::Sleep(*d));
            Ok(())
        },
        Action::Blink(n, pause, hex) => {
            let rgb = match hex_to_rgb(hex) {
                Ok(c) => c,
                Err(e) => {
                    assert(out@ =~= old(out)@ + Seq::<Command>::empty());
                    return Err(e);
                },
            };
            let ghost start = out@;
            let mut i: u16 = 0;
            assert(start =~= start + blink_commands(0, *pause, rgb));
            while i < *n
                invariant
                    i <= *n,
                    out@ == start + blink_commands(i as nat, *pause, rgb),
                decreases *n - i,
            {
                out.push(send_state(None, rgb));
                out.push(send_state(Some(false), rgb));
                out.push(Command::Sleep(*pause));
                out.push(send_state(Some(true), rgb));
                i = i + 1;
                assert(out@ =~= start + blink_commands(i as nat, *pause, rgb));
            }
            Ok(())
        },
        Action::Color(hex) => {
            let rgb = match hex_to_rgb(hex) {
                Ok(c) => c,
                Err(e) => {
                    assert(out@ =~= old(out)@ + Seq::<Command>::empty());
                    return Err(e);
                },
            };
            out.push(send_state(None, rgb));
            Ok(())
        },
    }
}

/// Appends the commands of each action of `sequence` in turn; the first error
/// stops the sequence, after what the actions before it added.
pub fn interpret_sequence(sequence: &Sequence, out: &mut Vec<Command>) -> (r: Result<(), LangError>)
    ensures
        final(out)@ == old(out)@ + sequence_effect(actions_view(sequence@)).0,
        error_of(r) == sequence_effect(actions_view(sequence@)).1,
{
    let ghost all = actions_view(sequence@);
    let mut i: usize = 0;
    assert(all.skip(0) =~= all);
    while i < sequence.len()
        invariant
            i <= sequence@.len(),
            all == actions_view(sequence@),
            old(out)@ + sequence_effect(all).0 == out@ + sequence_effect(all.skip(i as int)).0,
            sequence_effect(all).1 == sequence_effect(all.skip(i as int)).1,
        decreases sequence@.len() - i,
    {
        assert(all.skip(i as int)[0] == sequence@[i as int]@);
        assert(all.skip(i as int).drop_first() =~= all.skip(i + 1));
        let ghost before = out@;
        let r = interpret_action(&sequence[i], out);
        if r.is_err() {
            assert(old(out)@ + sequence_effect(all).0 == out@);
            return r;
        }
        assert(before + sequence_effect(all.skip(i as int)).0 =~= out@ + sequence_effect(
            all.skip(i + 1),
        ).0);
        i = i + 1;
    }
    assert(sequence_effect(all.skip(i as int)) == (Seq::<Command>::empty(), None::<ErrorView>));
    assert(out@ + Seq::<Command>::empty() =~= out@);
    Ok(())
}

/// What a script has built: the variable table, the pad table and the
/// directives, as mathematical values.
pub struct ScriptView {
    pub variables: Map<Seq<char>, EntityView>,
    pub midi_binds: Map<Pad, Seq<char>>,
    pub directives: Seq<DirectiveType>,
}

/// Whether `e` binds a variable.
pub open spec fn is_binding(e: EntityView) -> bool {
    e is AssignedSequence || e is AssignedAction
}

/// The name that `e` binds.
pub open spec fn bound_name(e: EntityView) -> Seq<char> {
    match e {
        EntityView::AssignedSequence(n, _, _) => n,
        EntityView::AssignedAction(n, _, _) => n,
        _ => seq![],
    }
}

/// The table of bindings `t`, each name mapped to its binding; a later entry
/// wins over an earlier one.
pub open spec fn table_map(t: Seq<EntityView>) -> Map<Seq<char>, EntityView>
    decreases t.len(),
{
    if t.len() == 0 {
        Map::empty()
    } else {
        table_map(t.drop_last()).insert(bound_name(t.last()), t.last())
    }
}

/// Whether the bindings `t` bind pairwise different names.
pub open spec fn names_unique(t: Seq<EntityView>) -> bool {
    forall|i: int, j: int|
        0 <= i < j < t.len() ==> bound_name(#[trigger] t[i]) != bound_name(#[trigger] t[j])
}

/// The pad table held as one optional name per pad.
pub open spec fn pad_map(b: Seq<Option<String>>) -> Map<Pad, Seq<char>> {
    Map::new(|p: Pad| (p as int) < b.len() && b[p as int] is Some, |p: Pad| b[p as int]->Some_0@)
}

/// The empty script that a run starts from.
pub open spec fn empty_script() -> ScriptView {
    ScriptView { variables: Map::empty(), midi_binds: Map::empty(), directives: seq![] }
}

/// One entity processed against the script `s`: the next script, the
/// commands to perform, and the error that stops the run, if any. A binding
/// replaces any earlier one of its name or pad; a trigger performs what its
/// name is bound to at this point, or fails when the name is unbound; a
/// directive is appended.
pub open spec fn step_spec(s: ScriptView, e: EntityView) -> (ScriptView, Seq<Command>, Option<ErrorView>) {
    match e {
        EntityView::AssignedSequence(name, _, _) => (
            ScriptView { variables: s.variables.insert(name, e), ..s },
            seq![],
            None,
        ),
        EntityView::AssignedAction(name, _, _) => (
            ScriptView { variables: s.variables.insert(name, e), ..s },
            seq![],
            None,
        ),
        EntityView::MidiBind(pad, name) => (
            ScriptView { midi_binds: s.midi_binds.insert(pad, name), ..s },
            seq![],
            None,
        ),
        EntityView::Trigger(name) => if s.variables.contains_key(name) {
            let eff = entity_effect(s.variables[name]);
            (s, eff.0, eff.1)
        } else {
            (s, seq![], Some(ErrorView::UndefinedVariable(name)))
        },
        EntityView::Directive(d) => (
            ScriptView { directives: s.directives.push(d), ..s },
            seq![],
            None,
        ),
    }
}

/// The entities `es` processed in order from the script `s`: the final
/// script, all commands performed, and the error that stopped the run, if any.
pub open spec fn run_from(s: ScriptView, es: Seq<EntityView>) -> (ScriptView, Seq<Command>, Option<ErrorView>)
    decreases es.len(),
{
    if es.len() == 0 {
        (s, seq![], None)
    } else {
        let first = step_spec(s, es[0]);
        if first.2 is Some {
            first
        } else {
            let rest = run_from(first.0, es.drop_first());
            (rest.0, first.1 + rest.1, rest.2)
        }
    }
}

/// A whole run from the empty script.
pub open spec fn run(es: Seq<EntityView>) -> (ScriptView, Seq<Command>, Option<ErrorView>) {
    run_from(empty_script(), es)
}

proof fn lemma_table_get(t: Seq<EntityView>, i: int)
    requires
        names_unique(t),
        0 <= i < t.len(),
    ensures
        table_map(t).contains_key(bound_name(t[i])),
        table_map(t)[bound_name(t[i])] == t[i],
    decreases t.len(),
{
    if i < t.len() - 1 {
        let d = t.drop_last();
        assert(d[i] == t[i]);
        assert(bound_name(t[i]) != bound_name(t[t.len() - 1]));
        lemma_table_get(d, i);
    }
}

proof fn lemma_table_absent(t: Seq<EntityView>, k: Seq<char>)
    requires
        forall|i: int| 0 <= i < t.len() ==> bound_name(#[trigger] t[i]) != k,
    ensures
        !table_map(t).contains_key(k),
    decreases t.len(),
{
    if t.len() > 0 {
        let d = t.drop_last();
        assert forall|i: int| 0 <= i < d.len() implies bound_name(#[trigger] d[i]) != k by {
            assert(d[i] == t[i]);
        }
        lemma_table_absent(d, k);
        assert(bound_name(t[t.len() - 1]) != k);
    }
}

proof fn lemma_table_set(t: Seq<EntityView>, i: int, e: EntityView)
    requires
        names_unique(t),
        0 <= i < t.len(),
        bound_name(e) == bound_name(t[i]),
    ensures
        table_map(t.update(i, e)) == table_map(t).insert(bound_name(e), e),
        names_unique(t.update(i, e)),
    decreases t.len(),
{
    let u = t.update(i, e);
    assert forall|a: int, b: int| 0 <= a < b < u.len() implies bound_name(#[trigger] u[a])
        != bound_name(#[trigger] u[b]) by {
        assert(bound_name(u[a]) == bound_name(t[a]));
        assert(bound_name(u[b]) == bound_name(t[b]));
    }
    if i == t.len() - 1 {
        assert(u.drop_last() =~= t.drop_last());
        assert(table_map(u) =~= table_map(t).insert(bound_name(e), e));
    } else {
        let d = t.drop_last();
        assert(u.drop_last() =~= d.update(i, e));
        assert(d[i] == t[i]);
        lemma_table_set(d, i, e);
        assert(bound_name(t.last()) != bound_name(t[i]));
        assert(u.last() == t.last());
        assert(table_map(u) =~= table_map(t).insert(bound_name(e), e));
    }
}

proof fn lemma_table_push(t: Seq<EntityView>, e: EntityView)
    ensures
        table_map(t.push(e)) == table_map(t).insert(bound_name(e), e),
{
    assert(t.push(e).drop_last() =~= t);
}

/// The tables that a run of a script builds: variables, pad bindings and
/// directives.
pub struct Script {
    variables: Vec<Entity>,
    midi_binds: Vec<Option<String>>,
    directives: Vec<DirectiveType>,
}

impl View for Script {
    type V = ScriptView;

    closed spec fn view(&self) -> ScriptView {
        ScriptView {
            variables: table_map(entities_view(self.variables@)),
            midi_binds: pad_map(self.midi_binds@),
            directives: self.directives@,
        }
    }
}

/// The name that `e` binds, if it is a binding.
fn binding_name(e: &Entity) -> (r: Option<&String>)
    ensures
        is_binding(e@) <==> r is Some,
        r matches Some(n) ==> n@ == bound_name(e@),
{
    match e {
        Entity::AssignedSequence(v, _) => Some(&v.0),
        Entity::AssignedAction(v, _) => Some(&v.0),
        _ => None,
    }
}

impl Script {
    /// The invariant of the tables: every stored entity binds a variable, no
    /// two bind the same name, and there is one slot for each pad.
    pub closed spec fn wf(&self) -> bool {
        &&& forall|i: int| 0 <= i < self.variables@.len() ==> is_binding(#[trigger] self.variables@[i]@)
        &&& names_unique(entities_view(self.variables@))
        &&& self.midi_binds@.len() == 256
    }

    /// A script with no bindings and no directives.
    fn new() -> (r: Script)
        ensures
            r.wf(),
            r@ == empty_script(),
    {
        let mut midi_binds: Vec<Option<String>> = Vec::new();
        let mut i: usize = 0;
        while i < 256
            invariant
                i <= 256,
                midi_binds@.len() == i,
                forall|j: int| 0 <= j < i ==> midi_binds@[j] is None,
            decreases 256 - i,
        {
            midi_binds.push(None);
            i = i + 1;
        }
        let r = Script { variables: Vec::new(), midi_binds, directives: Vec::new() };
        assert(entities_view(r.variables@) =~= Seq::<EntityView>::empty());
        assert(r@.variables =~= Map::<Seq<char>, EntityView>::empty());
        assert(r@.midi_binds =~= Map::<Pad, Seq<char>>::empty());
        r
    }

    /// The index of the binding of `name`, if any.
    fn find(&self, name: &String) -> (r: Option<usize>)
        requires
            self.wf(),
        ensures
            match r {
                Some(i) => i < self.variables@.len() && bound_name(self.variables@[i as int]@)
                    == name@,
                None => forall|i: int|
                    0 <= i < self.variables@.len() ==> bound_name(
                        #[trigger] entities_view(self.variables@)[i],
                    ) != name@,
            },
    {
        let mut i: usize = 0;
        while i < self.variables.len()
            invariant
                self.wf(),
                i <= self.variables@.len(),
                forall|j: int|
                    0 <= j < i ==> bound_name(#[trigger] entities_view(self.variables@)[j])
                        != name@,
            decreases self.variables@.len() - i,
        {
            assert(is_binding(self.variables@[i as int]@));
            let n = binding_name(&self.variables[i]).unwrap();
            if *n == *name {
                return Some(i);
            }
            i = i + 1;
        }
        None
    }

    /// Binds the name of `e`, replacing an earlier binding of that name.
    fn bind(&mut self, e: Entity)
        requires
            old(self).wf(),
            is_binding(e@),
        ensures
            final(self).wf(),
            final(self)@ == (ScriptView {
                variables: old(self)@.variables.insert(bound_name(e@), e@),
                ..old(self)@
            }),
    {
        let ghost t = entities_view(self.variables@);
        let name = binding_name(&e).unwrap();
        match self.find(name) {
            Some(i) => {
                proof {
                    lemma_table_set(t, i as int, e@);
                }
                self.variables[i] = e;
                assert(entities_view(self.variables@) =~= t.update(i as int, e@));
            },
            None => {
                proof {
                    lemma_table_push(t, e@);
                }
                self.variables.push(e);
                assert(entities_view(self.variables@) =~= t.push(e@));
                assert(names_unique(t.push(e@))) by {
                    assert forall|a: int, b: int| 0 <= a < b < t.push(e@).len() implies bound_name(
                        #[trigger] t.push(e@)[a],
                    ) != bound_name(#[trigger] t.push(e@)[b]) by {
                        if b == t.len() {
                            assert(t.push(e@)[a] == t[a]);
                        }
                    }
                }
            },
        }
    }

    /// The binding of `name`, if any.
    pub fn variable(&self, name: &str) -> (r: Option<&Entity>)
        requires
            self.wf(),
        ensures
            match r {
                Some(e) => self@.variables.contains_key(name@) && self@.variables[name@] == e@,
                None => !self@.variables.contains_key(name@),
            },
    {
        let key = name.to_owned();
        let ghost t = entities_view(self.variables@);
        match self.find(&key) {
            Some(i) => {
                proof {
                    lemma_table_get(t, i as int);
                }
                Some(&self.variables[i])
            },
            None => {
                proof {
                    lemma_table_absent(t, name@);
                }
                None
            },
        }
    }

    /// The name bound to `pad`, if any.
    pub fn midi_bind(&self, pad: Pad) -> (r: Option<&String>)
        requires
            self.wf(),
        ensures
            match r {
                Some(n) => self@.midi_binds.contains_key(pad) && self@.midi_binds[pad] == n@,
                None => !self@.midi_binds.contains_key(pad),
            },
    {
        match &self.midi_binds[pad as usize] {
            Some(n) => Some(n),
            None => None,
        }
    }

    /// The directives, in file order.
    pub fn directives(&self) -> (r: &Vec<DirectiveType>)
        ensures
            r@ == self@.directives,
    {
        &self.directives
    }

    /// Whether the directive list holds a `Midi` directive.
    pub fn midi_enabled(self) -> (r: bool)
        ensures
            r == self@.directives.contains(DirectiveType::Midi),
    {
        let mut i: usize = 0;
        while i < self.directives.len()
            invariant
                i <= self.directives@.len(),
                forall|j: int| 0 <= j < i ==> self.directives@[j] != DirectiveType::Midi,
            decreases self.directives@.len() - i,
        {
            if self.directives[i] == DirectiveType::Midi {
                return true;
            }
            i = i + 1;
        }
        false
    }
}

/// Appends the commands of the action or sequence that `entity` binds.
pub fn execute_entities(entity: &Entity, out: &mut Vec<Command>) -> (r: Result<(), LangError>)
    requires
        is_binding(entity@),
    ensures
        final(out)@ == old(out)@ + entity_effect(entity@).0,
        error_of(r) == entity_effect(entity@).1,
{
    match entity {
        Entity::AssignedAction(_, action) => interpret_action(action, out),
        Entity::AssignedSequence(_, sequence) => interpret_sequence(sequence, out),
        _ => {
            assert(false);
            Ok(())
        },
    }
}

/// The structuring engine: processes the entities of a script one at a time,
/// in file order, building the tables and saying what each trigger performs.
pub struct Engine {
    script: Script,
}

impl View for Engine {
    type V = ScriptView;

    closed spec fn view(&self) -> ScriptView {
        self.script@
    }
}

impl Engine {
    /// The invariant of the tables being built.
    pub closed spec fn wf(&self) -> bool {
        self.script.wf()
    }

    /// An engine that has processed nothing.
    pub fn new() -> (r: Engine)
        ensures
            r.wf(),
            r@ == empty_script(),
    {
        Engine { script: Script::new() }
    }

    /// Processes one entity: a binding goes into its table, a directive is
    /// appended, and a trigger appends to `out` the commands of what its name
    /// is bound to now. The error, if any, ends the run.
    pub fn step(&mut self, entity: Entity, out: &mut Vec<Command>) -> (r: Result<(), LangError>)
        requires
            old(self).wf(),
        ensures
            final(self).wf(),
            final(self)@ == step_spec(old(self)@, entity@).0,
            final(out)@ == old(out)@ + step_spec(old(self)@, entity@).1,
            error_of(r) == step_spec(old(self)@, entity@).2,
    {
        match entity {
            Entity::MidiBind(pad, name) => {
                let ghost b = self.script.midi_binds@;
                self.script.midi_binds[pad as usize] = Some(name);
                assert(self.script@.midi_binds =~= pad_map(b).insert(pad, name@));
                assert(out@ =~= old(out)@ + Seq::<Command>::empty());
                Ok(())
            },
            Entity::Directive(d) => {
                self.script.directives.push(d);
                assert(out@ =~= old(out)@ + Seq::<Command>::empty());
                Ok(())
            },
            Entity::Statement(StatementType::Trigger(name)) => {
                let ghost t = entities_view(self.script.variables@);
                match self.script.find(&name) {
                    Some(i) => {
                        proof {
                            lemma_table_get(t, i as int);
                        }
                        execute_entities(&self.script.variables[i], out)
                    },
                    None => {
                        proof {
                            lemma_table_absent(t, name@);
                        }
                        assert(out@ =~= old(out)@ + Seq::<Command>::empty());
                        Err(LangError::UndefinedVariable(name))
                    },
                }
            },
            _ => {
                self.script.bind(entity);
                assert(out@ =~= old(out)@ + Seq::<Command>::empty());
                Ok(())
            },
        }
    }

    /// The tables built so far.
    pub fn finish(self) -> (r: Script)
        requires
            self.wf(),
        ensures
            r.wf(),
            r@ == self@,
    {
        self.script
    }
}

/// Runs a script's entities in file order. Returns the commands that the
/// triggers performed, in order, and the tables built, or the error that
/// stopped the run; the commands are those performed before it.
pub fn structure(entities: Entities) -> (r: (Vec<Command>, Result<Script, LangError>))
    ensures
        r.0@ == run(entities_view(entities@)).1,
        match r.1 {
            Ok(script) => run(entities_view(entities@)).2 is None && script.wf() && script@
                == run(entities_view(entities@)).0,
            Err(e) => run(entities_view(entities@)).2 == Some(e@),
        },
{
    let ghost all = entities_view(entities@);
    let mut engine = Engine::new();
    let mut out: Vec<Command> = Vec::new();
    let mut i: usize = 0;
    assert(all.skip(0) =~= all);
    assert(out@ + run_from(engine@, all).1 =~= run_from(engine@, all).1);
    for entity in it: entities
        invariant
            engine.wf(),
            all == entities_view(it.seq()),
            run(all).1 == out@ + run_from(engine@, all.skip(it.index() as int)).1,
            run(all).0 == run_from(engine@, all.skip(it.index() as int)).0,
            run(all).2 == run_from(engine@, all.skip(it.index() as int)).2,
    {
        let ghost k = it.index() as int;
        let ghost before = out@;
        let ghost s = engine@;
        assert(all.skip(k)[0] == entity@);
        assert(all.skip(k).drop_first() =~= all.skip(k + 1));
        let r = engine.step(entity, &mut out);
        if let Err(e) = r {
            return (out, Err(e));
        }
        assert(before + run_from(s, all.skip(k)).1 =~= out@ + run_from(engine@, all.skip(k + 1)).1);
    }
    assert(all.skip(all.len() as int) =~= Seq::<EntityView>::empty());
    assert(out@ + Seq::<Command>::empty() =~= out@);
    (out, Ok(engine.finish()))
}

} // verus!
