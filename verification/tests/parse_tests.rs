use gcode::binop::{ArithmeticBinOp, BinOp, LogicalBinOp};
use gcode::command::{Axes, Axis, Command, Gcode, Mcode, Ocode, OcodeStatement, Scode, Tcode};
use gcode::expression::{BinOpArray, Expression, FuncCall, NamedParam, Param, UnaryFuncName};
use gcode::fbits::FloatBits;
use gcode::interpret::Interpreter;
use gcode::lex::number_code;
use gcode::line_reader::{next_line_step, LineEvent, LineStep};
use gcode::parse_command::{parse_line, GcodeParseError};
use gcode::parse_expression::{parse_binop, parse_expression, parse_param};
use gcode::permute::permute_whitespace;

fn lit(v: f32) -> Expression {
    Expression::Lit(FloatBits(v.to_bits()))
}

fn binop(left: Expression, op: BinOp, right: Expression) -> Expression {
    Expression::binop(op, left, right)
}

fn parse_expr(input: &[u8]) -> Expression {
    let (e, end) = parse_expression(input, 0).expect("expression should parse");
    assert_eq!(end, input.len(), "expression should consume the whole input");
    e
}

fn eval(input: &[u8]) -> f32 {
    let interpreter = Interpreter::new();
    let e = parse_expr(input);
    f32::from_bits(interpreter.eval_expr(&e).0)
}

fn assert_close(actual: f32, expected: f32, tolerance: f32) {
    assert!(
        (actual - expected).abs() < tolerance,
        "{} is not within {} of {}",
        actual,
        tolerance,
        expected
    );
}

#[test]
fn test_parse_number_code() {
    assert_eq!(number_code(b"0", 0, b"0"), Some(1));
    assert_eq!(number_code(b"00", 0, b"0"), None);
    assert_eq!(number_code(b"1 ", 0, b"1"), Some(1));
}

#[test]
fn test_parse_code_and_number() {
    let cmd = parse_line(b"G0 X10").expect("should parse");
    let expected = Gcode::G0(Some(Axes::new().set(Axis::X, lit(10.0))));
    assert_eq!(cmd, Command::G(expected));
}

#[test]
fn test() {
    // line framing over a byte transport, driven by the step function
    fn collect_lines(read: &str) -> Vec<String> {
        let mut lines = Vec::new();
        let mut buffer = [0u8; 256];
        let mut len: usize = 0;
        let mut bytes = read.as_bytes().iter();
        loop {
            let ev = match bytes.next() {
                Some(b) => LineEvent::Byte(*b),
                None => LineEvent::Eof,
            };
            match next_line_step(len, buffer.len(), ev) {
                LineStep::TooLong => panic!("line too long"),
                LineStep::EndOfInput => break,
                LineStep::EmitLine => {
                    lines.push(String::from_utf8(buffer[..len].to_vec()).unwrap());
                    len = 0;
                    if matches!(ev, LineEvent::Eof) {
                        break;
                    }
                },
                LineStep::Store(b) => {
                    buffer[len] = b;
                    len += 1;
                },
            }
        }
        lines
    }

    assert_eq!(collect_lines("G0"), ["G0"]);
    assert_eq!(collect_lines("G0\n"), ["G0"]);
    assert_eq!(collect_lines("G0\nG1"), ["G0", "G1"]);
}

#[test]
fn line_too_long_is_reported() {
    assert_eq!(next_line_step(4, 4, LineEvent::Byte(65)), LineStep::TooLong);
    assert_eq!(next_line_step(4, 4, LineEvent::Eof), LineStep::TooLong);
}

#[test]
fn number_code_exact_digits() {
    // "2" must not match when the input begins with "20"
    assert_eq!(number_code(b"20", 0, b"2"), None);
    assert_eq!(number_code(b"2 ", 0, b"2"), Some(1));
}

#[test]
fn alphabetic_operator_guard() {
    // MOD must not match when followed by `_` or alphanumerics
    let mods = BinOpArray::from_list(vec![BinOp::Arithmetic(ArithmeticBinOp::Mod)]);
    assert!(parse_binop(&mods, b"MOD ", 0).is_some());
    assert!(parse_binop(&mods, b"mod 2", 0).is_some());
    assert!(parse_binop(&mods, b"MOD_", 0).is_none());
    assert!(parse_binop(&mods, b"MODa", 0).is_none());
    assert!(parse_binop(&mods, b"MOD5", 0).is_none());
    assert!(parse_binop(&mods, b"_MOD", 0).is_none());
}

#[test]
fn atan_is_not_an_identifier() {
    // ATAN heads a function call, never anything else
    let e = parse_expr(b"ATAN[1.0]/[1.0]");
    match e {
        Expression::FuncCall(FuncCall::Atan { .. }) => {},
        other => panic!("expected ATAN call, got {:?}", other),
    }
    assert!(parse_expression(b"ATANX", 0).is_none());
}

#[test]
fn empty_comment_fails() {
    assert!(matches!(parse_line(b"()"), Err(GcodeParseError::Syntax(_))));
    assert_eq!(
        parse_line(b"(c)").expect("should parse"),
        Command::Comment("c".to_string())
    );
}

#[test]
fn comment_requires_utf8() {
    assert_eq!(parse_line(b"(\xff)"), Err(GcodeParseError::Utf8Error));
    assert_eq!(
        parse_line("(h\u{e9}llo)".as_bytes()).expect("should parse"),
        Command::Comment("h\u{e9}llo".to_string())
    );
}

#[test]
fn name_normalization() {
    // `#<  _ A b C >` normalizes to the global `_abc`
    let (p, end) = parse_param(b"#<  _ A b C >", 0).expect("should parse");
    assert_eq!(end, 13);
    assert_eq!(p, Param::NamedGlobal("_abc".to_string()));

    let (p, _) = parse_param(b"#<Foo>", 0).expect("should parse");
    assert_eq!(p, Param::NamedLocal("foo".to_string()));

    assert!(parse_param(b"#<>", 0).is_none());
    assert!(parse_param(b"#<  >", 0).is_none());
}

#[test]
fn precedence_and_ast() {
    // "1 + 2 * 3" parses as Add(1, Mul(2, 3)) and evaluates to 7.0
    let e = parse_expr(b"1 + 2 * 3");
    let expected = binop(
        lit(1.0),
        BinOp::Arithmetic(ArithmeticBinOp::Add),
        binop(lit(2.0), BinOp::Arithmetic(ArithmeticBinOp::Mul), lit(3.0)),
    );
    assert_eq!(e, expected);
    assert_eq!(eval(b"1 + 2 * 3"), 7.0);
}

#[test]
fn precedence_levels_associate_left() {
    // same level chains left, tighter level binds first
    let e = parse_expr(b"1 - 2 + 3");
    let expected = binop(
        binop(lit(1.0), BinOp::Arithmetic(ArithmeticBinOp::Sub), lit(2.0)),
        BinOp::Arithmetic(ArithmeticBinOp::Add),
        lit(3.0),
    );
    assert_eq!(e, expected);

    let e = parse_expr(b"1 AND 2 EQ 2");
    let expected = binop(
        lit(1.0),
        BinOp::Logical(LogicalBinOp::And),
        binop(lit(2.0), BinOp::Cmp(gcode::binop::CmpBinOp::Eq), lit(2.0)),
    );
    assert_eq!(e, expected);

    // ** binds tighter than *
    let e = parse_expr(b"2 * 3 ** 2");
    let expected = binop(
        lit(2.0),
        BinOp::Arithmetic(ArithmeticBinOp::Mul),
        binop(lit(3.0), BinOp::Arithmetic(ArithmeticBinOp::Pow), lit(2.0)),
    );
    assert_eq!(e, expected);
}

#[test]
fn pow_evaluates() {
    assert_close(eval(b"2 ** 3"), 8.0, 1e-2);
    assert_close(eval(b"-2.0 ** 2.0"), 4.0, 1e-2);
    assert_close(eval(b"2.0 ** -1.0"), 0.5, 1e-2);
}

#[test]
fn atan_evaluates() {
    assert_close(eval(b"ATAN[1.0]/[1.0]"), 0.7853982, 1e-3);
    assert_close(eval(b"ATAN[0.0]/[1.0]"), 0.0, 1e-3);
}

#[test]
fn arithmetic_evaluates_exactly() {
    assert_eq!(eval(b"1.0 + 2.0"), 3.0);
    assert_eq!(eval(b"1.0 + 2.0 * 3.0 / 4.0"), 2.5);
    assert_eq!(eval(b"7 MOD 4"), 3.0);
    assert_eq!(eval(b"-7 MOD 4"), -3.0);
    assert_eq!(eval(b"-1.5"), -1.5);
    assert_eq!(eval(b".5"), 0.5);
}

#[test]
fn comparisons_and_logic_evaluate() {
    assert_eq!(eval(b"1.0 GT 0.0"), 1.0);
    assert_eq!(eval(b"0.0 GT 1.0"), 0.0);
    assert_eq!(eval(b"1.0 GE 1.0"), 1.0);
    assert_eq!(eval(b"1.0 LT 2.0"), 1.0);
    assert_eq!(eval(b"1.0 LE 0.0"), 0.0);
    assert_eq!(eval(b"1.0 EQ 1.0"), 1.0);
    assert_eq!(eval(b"1.0 NE 1.0"), 0.0);
    assert_eq!(eval(b"1.0 AND 2.0"), 1.0);
    assert_eq!(eval(b"1.0 AND 0.0"), 0.0);
    assert_eq!(eval(b"0.0 OR 1.0"), 1.0);
    assert_eq!(eval(b"1.0 XOR 1.0"), 0.0);
    assert_eq!(eval(b"1.0 XOR 0.0"), 1.0);
}

#[test]
fn unary_functions_evaluate() {
    assert_eq!(eval(b"ABS[-1.5]"), 1.5);
    assert_eq!(eval(b"FIX[1.6]"), 1.0);
    assert_eq!(eval(b"FIX[-1.4]"), -2.0);
    assert_eq!(eval(b"FUP[1.4]"), 2.0);
    assert_eq!(eval(b"FUP[-1.6]"), -1.0);
    assert_eq!(eval(b"ROUND[1.5]"), 2.0);
    assert_eq!(eval(b"ROUND[-1.5]"), -2.0);
    // micromath's square root is a coarse approximation
    assert_close(eval(b"SQRT[9.0]"), 3.0, 0.2);
    assert_close(eval(b"COS[0.0]"), 1.0, 1e-3);
    assert_close(eval(b"SIN[0.0]"), 0.0, 1e-3);
    assert_close(eval(b"EXP[0.0]"), 1.0, 1e-3);
    assert_close(eval(b"LN[1.0]"), 0.0, 1e-3);
}

#[test]
fn exp_and_pow_edge_domains() {
    // ordinary arguments go through micromath
    assert_close(eval(b"EXP[1.0]"), std::f32::consts::E, 1e-2);
    assert_close(eval(b"EXP[10.0]"), 22026.465, 25.0);
    // just below the overflow threshold the value is still finite
    let near_max = eval(b"EXP[88]");
    assert!(near_max.is_finite() && near_max > 1.0e38);
    // far past the overflow threshold micromath itself yields infinity
    assert_eq!(eval(b"EXP[100]"), f32::INFINITY);
    // on the narrow band its implementation cannot evaluate, the library
    // defines the result as infinity — which the true value reaches too
    assert_eq!(eval(b"EXP[89]"), f32::INFINITY);
    // far negative arguments underflow to zero
    assert_eq!(eval(b"EXP[-100]"), 0.0);
    // a NaN argument stays NaN
    assert!(eval(b"EXP[0 / 0]").is_nan());

    // powers inside the evaluable block go through micromath
    assert_close(eval(b"1000 ** 2"), 1.0e6, 5000.0);
    assert_close(eval(b"3 ** 10"), 59049.0, 600.0);
    // outside it (huge base or exponent) the result is defined as NaN
    assert!(eval(b"4000 ** 2").is_nan());
    assert!(eval(b"2 ** 100").is_nan());
}

#[test]
fn ln_and_asin_edge_domains() {
    // the natural logarithm of a negative value is NaN, as the standard
    // function has it; micromath itself is never called there
    assert!(eval(b"LN[-1.0]").is_nan());
    assert!(eval(b"LN[-0.5]").is_nan());
    // positive arguments go through micromath, on both sides of 1.0
    assert_close(eval(b"LN[2.0]"), std::f32::consts::LN_2, 1e-2);
    assert_close(eval(b"LN[0.5]"), -std::f32::consts::LN_2, 1e-2);

    // the arcsine outside [-1, 1] is NaN, as the standard function has it
    assert!(eval(b"ASIN[2.0]").is_nan());
    assert!(eval(b"ASIN[-1.5]").is_nan());
    assert_close(eval(b"ASIN[1.0]"), std::f32::consts::FRAC_PI_2, 1e-2);
    assert_close(eval(b"ASIN[0.0]"), 0.0, 1e-3);
    assert_close(eval(b"ACOS[1.0]"), 0.0, 1e-2);
    assert_close(eval(b"ACOS[0.0]"), std::f32::consts::FRAC_PI_2, 1e-3);
}

#[test]
fn case_insensitive_keywords() {
    assert_eq!(parse_expr(b"atan[1.0]/[2.0]"), parse_expr(b"ATAN[1.0]/[2.0]"));
    assert_eq!(parse_expr(b"aTaN[1.0]/[2.0]"), parse_expr(b"ATAN[1.0]/[2.0]"));
    assert_eq!(parse_expr(b"abs[-1.0]"), parse_expr(b"ABS[-1.0]"));
    assert_eq!(parse_expr(b"1 mod 2"), parse_expr(b"1 MOD 2"));
    assert_eq!(parse_expr(b"1 Xor 0"), parse_expr(b"1 XOR 0"));
    assert_eq!(parse_line(b"g20"), parse_line(b"G20"));
    assert_eq!(parse_line(b"o100 SUB"), parse_line(b"O100 sub"));
}

#[test]
fn case_twiddling_is_exhaustively_ignored() {
    // every casing of an alphabetic keyword parses to the same tree
    let canonical = parse_expr(b"ATAN[1.0]/[2.0]");
    for mask in 0u32..16 {
        let mut word: Vec<u8> = b"atan".to_vec();
        for (k, b) in word.iter_mut().enumerate() {
            if mask & (1 << k) != 0 {
                *b = b.to_ascii_uppercase();
            }
        }
        let mut input = word;
        input.extend_from_slice(b"[1.0]/[2.0]");
        let (e, end) = parse_expression(&input, 0)
            .unwrap_or_else(|| panic!("casing {:?} failed", String::from_utf8_lossy(&input)));
        assert_eq!(end, input.len());
        assert_eq!(e, canonical);
    }

    let canonical = parse_expr(b"1 MOD 2");
    for mask in 0u32..8 {
        let mut word: Vec<u8> = b"mod".to_vec();
        for (k, b) in word.iter_mut().enumerate() {
            if mask & (1 << k) != 0 {
                *b = b.to_ascii_uppercase();
            }
        }
        let mut input: Vec<u8> = b"1 ".to_vec();
        input.extend_from_slice(&word);
        input.extend_from_slice(b" 2");
        let (e, end) = parse_expression(&input, 0)
            .unwrap_or_else(|| panic!("casing {:?} failed", String::from_utf8_lossy(&input)));
        assert_eq!(end, input.len());
        assert_eq!(e, canonical);
    }
}

#[test]
fn whitespace_insensitive_parsing() {
    let canonical = parse_line(b"G0 X1 Y2").expect("should parse");
    for variant in permute_whitespace(&["G0", "X", "1", "Y", "2"]) {
        let cmd = parse_line(variant.as_bytes())
            .unwrap_or_else(|e| panic!("variant {:?} failed: {:?}", variant, e));
        assert_eq!(cmd, canonical, "variant {:?}", variant);
    }

    let canonical = parse_line(b"#1 = [1 + 2]").expect("should parse");
    for variant in permute_whitespace(&["#1", "=", "[", "1", "+", "2", "]"]) {
        let cmd = parse_line(variant.as_bytes())
            .unwrap_or_else(|e| panic!("variant {:?} failed: {:?}", variant, e));
        assert_eq!(cmd, canonical, "variant {:?}", variant);
    }

    let canonical = parse_line(b"#<x> = EXISTS[#<_y>]").expect("should parse");
    for variant in permute_whitespace(&["#", "<x>", "=", "EXISTS", "[", "#", "<_y>", "]"]) {
        let cmd = parse_line(variant.as_bytes())
            .unwrap_or_else(|e| panic!("variant {:?} failed: {:?}", variant, e));
        assert_eq!(cmd, canonical, "variant {:?}", variant);
    }

    let canonical = parse_line(b"o100 if [#2]").expect("should parse");
    for variant in permute_whitespace(&["o100", "if", "[", "#2", "]"]) {
        let cmd = parse_line(variant.as_bytes())
            .unwrap_or_else(|e| panic!("variant {:?} failed: {:?}", variant, e));
        assert_eq!(cmd, canonical, "variant {:?}", variant);
    }

    // tabs and runs of spaces count as one gap too
    assert_eq!(
        parse_line(b"#1 =\t1\t+   2").expect("should parse"),
        parse_line(b"#1 = 1 + 2").expect("should parse")
    );
    assert_eq!(
        parse_line(b"G0\tX1   Y2").expect("should parse"),
        parse_line(b"G0 X1 Y2").expect("should parse")
    );
}

#[test]
fn render_round_trip() {
    // rendering a literal-only expression and parsing it back gives the
    // same tree
    let e = binop(
        lit(1.5),
        BinOp::Arithmetic(ArithmeticBinOp::Add),
        binop(lit(2.0), BinOp::Arithmetic(ArithmeticBinOp::Mul), lit(-3.25)),
    );
    let text = e.render();
    assert_eq!(text, b"[1.5 + [2 * -3.25]]".to_vec());
    let (parsed, end) = parse_expression(&text, 0).expect("rendering should parse");
    assert_eq!(end, text.len());
    assert_eq!(parsed, e);

    let e = lit(-0.5);
    let text = e.render();
    let (parsed, end) = parse_expression(&text, 0).expect("rendering should parse");
    assert_eq!(end, text.len());
    assert_eq!(parsed, e);
}

#[test]
fn operator_list_sorting_is_idempotent() {
    let ops = vec![
        BinOp::Arithmetic(ArithmeticBinOp::Mul),
        BinOp::Arithmetic(ArithmeticBinOp::Mod),
        BinOp::Arithmetic(ArithmeticBinOp::Pow),
    ];
    let once = gcode::expression::sort_bin_ops(ops);
    let twice = gcode::expression::sort_bin_ops(once.clone());
    assert_eq!(once, twice);
    // longest spellings come first
    assert_eq!(once[0], BinOp::Arithmetic(ArithmeticBinOp::Mod));
}

#[test]
fn operator_list_sorting_is_stable() {
    // operators of equal spelling length keep their relative input order
    let sorted = gcode::expression::sort_bin_ops(vec![
        BinOp::Arithmetic(ArithmeticBinOp::Div),
        BinOp::Arithmetic(ArithmeticBinOp::Mod),
        BinOp::Arithmetic(ArithmeticBinOp::Mul),
    ]);
    assert_eq!(
        sorted,
        vec![
            BinOp::Arithmetic(ArithmeticBinOp::Mod),
            BinOp::Arithmetic(ArithmeticBinOp::Div),
            BinOp::Arithmetic(ArithmeticBinOp::Mul),
        ]
    );
}

#[test]
fn binop_spellings_round_trip() {
    assert_eq!(BinOp::from_value(b"AND"), Some(BinOp::Logical(LogicalBinOp::And)));
    assert_eq!(BinOp::from_value(b"**"), Some(BinOp::Arithmetic(ArithmeticBinOp::Pow)));
    assert_eq!(BinOp::from_value(b"nope"), None);
    assert_eq!(BinOp::Logical(LogicalBinOp::And).to_value(), b"AND".to_vec());
}

#[test]
fn ocode_statements() {
    let cmd = parse_line(b"o100 if [#2]").expect("should parse");
    let expected = Ocode::new(
        100,
        OcodeStatement::If(Expression::Param(Param::Numbered(2))),
    );
    assert_eq!(cmd, Command::O(expected));

    assert_eq!(
        parse_line(b"o100 endif").expect("should parse"),
        Command::O(Ocode::new(100, OcodeStatement::EndIf))
    );
    assert_eq!(
        parse_line(b"o2 sub").expect("should parse"),
        Command::O(Ocode::new(2, OcodeStatement::Sub))
    );
    assert_eq!(
        parse_line(b"o2 endsub").expect("should parse"),
        Command::O(Ocode::new(2, OcodeStatement::EndSub))
    );
}

#[test]
fn m_s_t_codes() {
    assert_eq!(parse_line(b"M3").expect("should parse"), Command::M(Mcode::M3));
    assert_eq!(
        parse_line(b"M6 T8").expect("should parse"),
        Command::M(Mcode::M6(Some(Tcode(8))))
    );
    assert_eq!(parse_line(b"M6").expect("should parse"), Command::M(Mcode::M6(None)));
    assert_eq!(
        parse_line(b"S1000").expect("should parse"),
        Command::S(Scode(FloatBits((1000.0f32).to_bits())))
    );
    assert_eq!(parse_line(b"T1").expect("should parse"), Command::T(Tcode(1)));
}

#[test]
fn gcode_variants() {
    assert_eq!(parse_line(b"G0").expect("should parse"), Command::G(Gcode::G0(None)));
    assert_eq!(
        parse_line(b"G1 X1").expect("should parse"),
        Command::G(Gcode::G1(Axes::new().set(Axis::X, lit(1.0))))
    );
    assert_eq!(parse_line(b"G20").expect("should parse"), Command::G(Gcode::G20));
    assert_eq!(parse_line(b"G21").expect("should parse"), Command::G(Gcode::G21));
    assert_eq!(parse_line(b"G53").expect("should parse"), Command::G(Gcode::G53));
    assert_eq!(parse_line(b"G54").expect("should parse"), Command::G(Gcode::G54));
    assert_eq!(parse_line(b"G55").expect("should parse"), Command::G(Gcode::G55));
    assert_eq!(parse_line(b"G90").expect("should parse"), Command::G(Gcode::G90));
    assert_eq!(parse_line(b"G91").expect("should parse"), Command::G(Gcode::G91));
    // G2 is not a recognized code, and G21 must not match as G2 + junk
    assert!(parse_line(b"G2").is_err());
}

#[test]
fn syntax_errors() {
    assert!(matches!(parse_line(b"Q99"), Err(GcodeParseError::Syntax(_))));
    assert!(matches!(parse_line(b""), Err(GcodeParseError::Syntax(_))));
    assert!(matches!(parse_line(b"G0 X"), Err(GcodeParseError::Syntax(_))));
    assert!(matches!(parse_line(b"#1 ="), Err(GcodeParseError::Syntax(_))));
    assert!(matches!(parse_line(b"G0 X1 X2"), Err(GcodeParseError::Syntax(_))));
}

#[test]
fn numbered_param_bounds() {
    let (p, _) = parse_param(b"#4294967295", 0).expect("should parse");
    assert_eq!(p, Param::Numbered(u32::MAX));
    // a parameter number too large for u32 is no parameter
    assert!(parse_param(b"#4294967296", 0).is_none());
    assert!(parse_line(b"#4294967296 = 1").is_err());
}

#[test]
fn unary_function_names() {
    let e = parse_expr(b"COS[0.0]");
    match e {
        Expression::FuncCall(FuncCall::Unary { name, .. }) => {
            assert_eq!(name, UnaryFuncName::Cos)
        },
        other => panic!("expected COS call, got {:?}", other),
    }
    // an unknown alphabetic run is no function and no atom
    assert!(parse_expression(b"COSH[0.0]", 0).is_none());
}

#[test]
fn indirect_and_bracketed_params() {
    let (p, _) = parse_param(b"##1", 0).expect("should parse");
    assert_eq!(
        p,
        Param::Expr(Box::new(Expression::Param(Param::Numbered(1))))
    );

    let (p, _) = parse_param(b"#[1+2]", 0).expect("should parse");
    match p {
        Param::Expr(e) => match *e {
            Expression::BinOpExpr { .. } => {},
            other => panic!("expected a bracketed index, got {:?}", other),
        },
        other => panic!("expected an indirect param, got {:?}", other),
    }
}

#[test]
fn exists_parses_named_params_only() {
    let e = parse_expr(b"EXISTS[#<x>]");
    assert_eq!(
        e,
        Expression::FuncCall(FuncCall::Exists {
            param: NamedParam::NamedLocal("x".to_string())
        })
    );
    assert!(parse_expression(b"EXISTS[#1]", 0).is_none());
}
