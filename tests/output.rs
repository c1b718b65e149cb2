use xpander::{ExpansionResult, OutputEngine, OutputStep, PipeOutputEngine};

#[test]
fn test_output_engine_creation() {
    let engine = OutputEngine::new(12, None);
    assert_eq!(engine.keystroke_delay, 12);
    assert!(engine.socket_path.is_none());

    let engine = OutputEngine::new(20, Some("/tmp/ydotool.sock".to_string()));
    assert_eq!(engine.keystroke_delay, 20);
    assert_eq!(engine.socket_path, Some("/tmp/ydotool.sock".to_string()));
}

#[test]
fn output_plan_orders_delete_type_move() {
    let engine = OutputEngine::new(12, None);
    let e = ExpansionResult { text: "Hello  World".to_string(), delete_count: 4, cursor_offset: Some(6) };
    let plan = engine.output_plan(&e);
    assert_eq!(
        plan,
        vec![
            OutputStep::Backspaces(4),
            OutputStep::Pause(10),
            OutputStep::TypeText("Hello  World".to_string()),
            OutputStep::Pause(10),
            OutputStep::CursorLeft(6),
        ]
    );
}

#[test]
fn output_plan_skips_empty_parts() {
    let engine = OutputEngine::new(12, None);
    let e = ExpansionResult { text: String::new(), delete_count: 0, cursor_offset: Some(0) };
    assert!(engine.output_plan(&e).is_empty());
    let e = ExpansionResult { text: "x".to_string(), delete_count: 0, cursor_offset: None };
    assert_eq!(engine.output_plan(&e), vec![OutputStep::TypeText("x".to_string())]);
}

#[test]
fn tool_arguments() {
    let engine = OutputEngine::new(12, None);
    assert_eq!(
        engine.step_args(&OutputStep::Backspaces(130)).unwrap(),
        vec!["key", "--repeat", "130", "BackSpace"]
    );
    assert_eq!(
        engine.step_args(&OutputStep::CursorLeft(7)).unwrap(),
        vec!["key", "--repeat", "7", "Left"]
    );
    assert_eq!(
        engine.step_args(&OutputStep::TypeText("hi there".to_string())).unwrap(),
        vec!["type", "--key-delay", "12", "--", "hi there"]
    );
    assert_eq!(engine.step_args(&OutputStep::Pause(10)), None);
    let pipe = PipeOutputEngine::new(0, None);
    assert_eq!(pipe.pipe_args(), vec!["type", "--delay", "0", "--file", "-"]);
    assert_eq!(pipe.keystroke_delay, 0);
    assert_eq!(xpander::output::decimal_text(18446744073709551615), "18446744073709551615");
}
