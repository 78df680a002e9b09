use gcode::command::Command;
use gcode::interpret::{InterpretValue, Interpreter};
use gcode::model_state::{ModelStateUnit, PositioningMode, Workspace};
use gcode::parse_command::parse_line;

fn try_parse(input: &[u8]) -> Command {
    match parse_line(input) {
        Ok(cmd) => cmd,
        Err(e) => panic!("error parsing {:?}: {:?}", String::from_utf8_lossy(input), e),
    }
}

fn try_interpret(interpreter: &mut Interpreter, input: &[u8]) -> InterpretValue {
    let command = try_parse(input);
    match interpreter.interpret(command) {
        Ok(value) => value,
        Err(e) => panic!(
            "error interpreting {:?}: {:?}",
            String::from_utf8_lossy(input),
            e
        ),
    }
}

fn eval_expr_value(value: &InterpretValue) -> f32 {
    match value {
        InterpretValue::EvalExpr(b) => f32::from_bits(b.0),
        other => panic!("expected an evaluated expression, got {:?}", other),
    }
}

fn numbered(interpreter: &Interpreter, n: u32) -> Option<f32> {
    interpreter.get_numbered_param(n).map(|b| f32::from_bits(b.0))
}

#[test]
fn test_interpret_context() {
    let mut interpreter = Interpreter::new();
    assert_eq!(interpreter.get_model_state().selected_unit, ModelStateUnit::Mm);

    try_interpret(&mut interpreter, b"G20");
    assert_eq!(interpreter.get_model_state().selected_unit, ModelStateUnit::In);

    try_interpret(&mut interpreter, b"G21");
    assert_eq!(interpreter.get_model_state().selected_unit, ModelStateUnit::Mm);
}

#[test]
fn test_interpret_assign() {
    let mut interpreter = Interpreter::new();

    // assign a param
    let value = try_interpret(&mut interpreter, b"#1 = 10");
    assert_eq!(eval_expr_value(&value), 10.0);
    assert_eq!(numbered(&interpreter, 1), Some(10.0));

    // reassign a param
    let value = try_interpret(&mut interpreter, b"#1 = 20");
    assert_eq!(eval_expr_value(&value), 20.0);
    assert_eq!(numbered(&interpreter, 1), Some(20.0));

    // assign from another param
    let value = try_interpret(&mut interpreter, b"#2 = #1");
    assert_eq!(eval_expr_value(&value), 20.0);
    assert_eq!(numbered(&interpreter, 2), Some(20.0));

    // test indirectly assigning a param
    let value = try_interpret(&mut interpreter, b"##1 = 5");
    assert_eq!(eval_expr_value(&value), 5.0);
    assert_eq!(numbered(&interpreter, 20), Some(5.0));

    // test assigning from a param indirectly
    try_interpret(&mut interpreter, b"#2 = 8");
    try_interpret(&mut interpreter, b"#1 = 2");
    let value = try_interpret(&mut interpreter, b"#20 = ##1");
    assert_eq!(eval_expr_value(&value), 8.0);
    assert_eq!(numbered(&interpreter, 20), Some(8.0));
}

#[test]
fn interpret_workspace_and_positioning() {
    let mut interpreter = Interpreter::new();
    assert_eq!(interpreter.get_model_state().workspace, Workspace::Machine);
    assert_eq!(
        interpreter.get_model_state().positioning,
        PositioningMode::Absolute
    );

    try_interpret(&mut interpreter, b"G54");
    assert_eq!(interpreter.get_model_state().workspace, Workspace::G54);

    try_interpret(&mut interpreter, b"G55");
    assert_eq!(interpreter.get_model_state().workspace, Workspace::G55);

    try_interpret(&mut interpreter, b"G53");
    assert_eq!(interpreter.get_model_state().workspace, Workspace::Machine);

    try_interpret(&mut interpreter, b"G91");
    assert_eq!(
        interpreter.get_model_state().positioning,
        PositioningMode::Relative
    );

    try_interpret(&mut interpreter, b"G90");
    assert_eq!(
        interpreter.get_model_state().positioning,
        PositioningMode::Absolute
    );
}

#[test]
fn interpret_named_params() {
    let mut interpreter = Interpreter::new();
    try_interpret(&mut interpreter, b"#<x> = 3");
    assert_eq!(
        interpreter
            .get_local_param(&"x".to_string())
            .map(|b| f32::from_bits(b.0)),
        Some(3.0)
    );

    try_interpret(&mut interpreter, b"#<_y> = 4");
    assert_eq!(
        interpreter
            .get_global_param(&"_y".to_string())
            .map(|b| f32::from_bits(b.0)),
        Some(4.0)
    );

    assert_eq!(interpreter.get_local_param(&"missing".to_string()), None);
}

#[test]
fn interpret_exists() {
    // EXISTS[#<x>] is 0.0 with nothing bound, 1.0 after an assignment
    let mut interpreter = Interpreter::new();
    let e = match try_parse(b"#1 = EXISTS[#<x>]") {
        Command::Assign(_, e) => e,
        other => panic!("unexpected {:?}", other),
    };
    assert_eq!(f32::from_bits(interpreter.eval_expr(&e).0), 0.0);

    try_interpret(&mut interpreter, b"#<x> = 1");
    assert_eq!(f32::from_bits(interpreter.eval_expr(&e).0), 1.0);
}

#[test]
fn interpret_motion_axes() {
    // a G0 carrying symbolic axes comes out with the axes evaluated
    let mut interpreter = Interpreter::new();
    let value = try_interpret(&mut interpreter, b"G0 X[1+2] Y4");
    match value {
        InterpretValue::Motion(row) => {
            assert_eq!(row.len(), 6);
            assert_eq!(row[0].map(|b| f32::from_bits(b.0)), Some(3.0));
            assert_eq!(row[1].map(|b| f32::from_bits(b.0)), Some(4.0));
            assert_eq!(row[2], None);
            assert_eq!(row[3], None);
            assert_eq!(row[4], None);
            assert_eq!(row[5], None);
        },
        other => panic!("expected motion, got {:?}", other),
    }
}

#[test]
fn interpret_unbound_read_is_zero() {
    // a right-hand side reading an unbound variable reads 0.0
    let mut interpreter = Interpreter::new();
    let value = try_interpret(&mut interpreter, b"#1 = #7 + 2");
    assert_eq!(eval_expr_value(&value), 2.0);
    assert_eq!(numbered(&interpreter, 1), Some(2.0));
    // the strict read stays None for the still-unbound variable
    assert_eq!(numbered(&interpreter, 7), None);
}

#[test]
fn indirect_target_truncates() {
    // the indirect index is the value truncated toward zero
    let mut interpreter = Interpreter::new();
    try_interpret(&mut interpreter, b"#1 = 2.7");
    try_interpret(&mut interpreter, b"##1 = 5");
    assert_eq!(numbered(&interpreter, 2), Some(5.0));
}

#[test]
fn interpret_comment_is_noop() {
    let mut interpreter = Interpreter::new();
    try_interpret(&mut interpreter, b"#1 = 10");
    let value = try_interpret(&mut interpreter, b"(tool change next)");
    assert!(matches!(value, InterpretValue::Other));
    assert_eq!(numbered(&interpreter, 1), Some(10.0));
}
