use lightshow::engine::{hex_to_rgb, Engine};
use lightshow::lshow::{
    structure, Action, Command, DirectiveType, Entity, LangError, LightState, StatementType,
    VariableType,
};
use lightshow::parser::root;

fn color(on: Option<bool>, red: u8, green: u8, blue: u8) -> Command {
    Command::Send(LightState { on, red, green, blue })
}

fn run_text(text: &str) -> (Vec<Command>, Result<lightshow::lshow::Script, LangError>) {
    let entities = root(text).expect("the script parses");
    structure(entities)
}

#[test]
fn scenario_color_trigger() {
    let (commands, result) = run_text("a: act = color ff00ff;\ntrigger a;\n");
    assert!(result.is_ok());
    assert_eq!(commands, vec![color(None, 255, 0, 255)]);
}

#[test]
fn scenario_sequence_trigger() {
    let (commands, result) = run_text("a: seq = { wait 1; color ff0000; };\ntrigger a;\n");
    assert!(result.is_ok());
    assert_eq!(commands, vec![Command::Sleep(1), color(None, 255, 0, 0)]);
}

#[test]
fn scenario_blink_trigger() {
    let (commands, result) = run_text("b: act = blink 2 1 00ff00;\ntrigger b;\n");
    assert!(result.is_ok());
    let round = vec![
        color(None, 0, 255, 0),
        color(Some(false), 0, 255, 0),
        Command::Sleep(1),
        color(Some(true), 0, 255, 0),
    ];
    let mut expected = round.clone();
    expected.extend(round);
    assert_eq!(commands, expected);
    let offs = commands.iter().filter(|c| **c == color(Some(false), 0, 255, 0)).count();
    let ons = commands.iter().filter(|c| **c == color(Some(true), 0, 255, 0)).count();
    assert_eq!((offs, ons), (2, 2));
}

#[test]
fn scenario_trigger_without_name() {
    assert_eq!(root("trigger ;\n"), Err(LangError::Syntax));
}

#[test]
fn wait_bounds() {
    let parsed = root("a: act = wait 0;\nb: act = wait 65535;\n").unwrap();
    assert_eq!(
        parsed,
        vec![
            Entity::AssignedAction(("a".to_string(), VariableType::Action), Action::Wait(0)),
            Entity::AssignedAction(("b".to_string(), VariableType::Action), Action::Wait(65535)),
        ]
    );
    assert_eq!(root("a: act = wait 65536;\n"), Err(LangError::Syntax));
    assert_eq!(root("a: act = wait x;\n"), Err(LangError::Syntax));
    assert_eq!(root("a: act = wait ;\n"), Err(LangError::Syntax));
}

#[test]
fn blink_keeps_hex_verbatim() {
    let parsed = root("b: act = blink 3 4 FfAa00;\n").unwrap();
    assert_eq!(
        parsed,
        vec![Entity::AssignedAction(
            ("b".to_string(), VariableType::Action),
            Action::Blink(3, 4, "FfAa00".to_string()),
        )]
    );
}

#[test]
fn statements_in_file_order() {
    let parsed = root("s: seq = {\n  wait 2;\n  color 0a0b0c;\n};\ntrigger s;\ndirective midi;\n")
        .unwrap();
    assert_eq!(
        parsed,
        vec![
            Entity::AssignedSequence(
                ("s".to_string(), VariableType::Sequence),
                vec![Action::Wait(2), Action::Color("0a0b0c".to_string())],
            ),
            Entity::Statement(StatementType::Trigger("s".to_string())),
            Entity::Directive(DirectiveType::Midi),
        ]
    );
}

#[test]
fn empty_script_is_empty() {
    assert_eq!(root(""), Ok(vec![]));
    let (commands, result) = run_text("");
    assert!(commands.is_empty());
    assert!(!result.unwrap().midi_enabled());
}

#[test]
fn undefined_trigger_fails_without_commands() {
    let (commands, result) = run_text("trigger x;\n");
    assert!(commands.is_empty());
    assert_eq!(result.err(), Some(LangError::UndefinedVariable("x".to_string())));
}

#[test]
fn trigger_before_binding_is_undefined() {
    let (commands, result) = run_text("a: act = color 010101;\ntrigger a;\ntrigger b;\nb: act = wait 1;\n");
    assert_eq!(commands, vec![color(None, 1, 1, 1)]);
    assert_eq!(result.err(), Some(LangError::UndefinedVariable("b".to_string())));
}

#[test]
fn midi_directive_enables_midi() {
    let (_, result) = run_text("directive midi;\na: act = wait 1;\n");
    assert!(result.unwrap().midi_enabled());
    let (_, result) = run_text("a: act = wait 1;\n");
    assert!(!result.unwrap().midi_enabled());
    let (_, result) = run_text("directive midi;\ndirective midi;\n");
    let script = result.unwrap();
    assert_eq!(script.directives(), &vec![DirectiveType::Midi, DirectiveType::Midi]);
    assert!(script.midi_enabled());
}

#[test]
fn unknown_keywords() {
    assert_eq!(root("directive foo;\n"), Err(LangError::UnknownKeyword("foo".to_string())));
    assert_eq!(root("a: foo = wait 1;\n"), Err(LangError::UnknownKeyword("foo".to_string())));
}

#[test]
fn rebinding_runs_second_binding() {
    let (commands, result) =
        run_text("a: act = color ff0000;\na: seq = { color 0000ff; };\ntrigger a;\n");
    assert!(result.is_ok());
    assert_eq!(commands, vec![color(None, 0, 0, 255)]);
}

#[test]
fn trigger_sees_only_earlier_bindings() {
    let (commands, result) = run_text("a: act = color ff0000;\ntrigger a;\na: act = color 0000ff;\n");
    assert_eq!(commands, vec![color(None, 255, 0, 0)]);
    let script = result.unwrap();
    assert_eq!(
        script.variable("a"),
        Some(&Entity::AssignedAction(
            ("a".to_string(), VariableType::Action),
            Action::Color("0000ff".to_string()),
        ))
    );
    assert_eq!(script.variable("b"), None);
}

#[test]
fn trailing_garbage_is_syntax_error() {
    assert_eq!(root("a: act = wait 1;\n#"), Err(LangError::Syntax));
    assert_eq!(root("a: act = wait 1; garbage"), Err(LangError::Syntax));
    assert_eq!(root("trigger a;\ntrigger"), Err(LangError::Syntax));
    assert_eq!(root(" trigger a;\n"), Err(LangError::Syntax));
}

#[test]
fn bad_color_stops_run_after_earlier_commands() {
    let (commands, result) =
        run_text("a: act = color 00ff00;\ntrigger a;\nb: act = color abc;\ntrigger b;\ntrigger a;\n");
    assert_eq!(commands, vec![color(None, 0, 255, 0)]);
    assert_eq!(result.err(), Some(LangError::ColorConversion("abc".to_string())));
}

#[test]
fn bad_color_stops_sequence() {
    let (commands, result) =
        run_text("s: seq = { color 010203; blink 1 1 12345; wait 1; };\ntrigger s;\n");
    assert_eq!(commands, vec![color(None, 1, 2, 3)]);
    assert_eq!(result.err(), Some(LangError::ColorConversion("12345".to_string())));
}

#[test]
fn blink_zero_times_sends_nothing() {
    let (commands, result) = run_text("b: act = blink 0 5 ffffff;\ntrigger b;\n");
    assert!(result.is_ok());
    assert!(commands.is_empty());
}

#[test]
fn hex_colors_decode() {
    assert_eq!(hex_to_rgb(&"ff8001".to_string()), Ok((255, 128, 1)));
    assert_eq!(hex_to_rgb(&"A0b0C0".to_string()), Ok((160, 176, 192)));
    assert_eq!(
        hex_to_rgb(&"ff80".to_string()),
        Err(LangError::ColorConversion("ff80".to_string()))
    );
    assert_eq!(
        hex_to_rgb(&"ff80zz".to_string()),
        Err(LangError::ColorConversion("ff80zz".to_string()))
    );
}

#[test]
fn engine_steps_and_pads() {
    let mut engine = Engine::new();
    let mut out = Vec::new();
    assert_eq!(engine.step(Entity::MidiBind(3, "a".to_string()), &mut out), Ok(()));
    assert_eq!(engine.step(Entity::MidiBind(3, "b".to_string()), &mut out), Ok(()));
    assert_eq!(
        engine.step(
            Entity::AssignedAction(("b".to_string(), VariableType::Action), Action::Wait(7)),
            &mut out,
        ),
        Ok(())
    );
    assert!(out.is_empty());
    assert_eq!(
        engine.step(Entity::Statement(StatementType::Trigger("b".to_string())), &mut out),
        Ok(())
    );
    assert_eq!(out, vec![Command::Sleep(7)]);
    let script = engine.finish();
    assert_eq!(script.midi_bind(3), Some(&"b".to_string()));
    assert_eq!(script.midi_bind(4), None);
}
