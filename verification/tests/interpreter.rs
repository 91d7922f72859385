use logix_text::interpreter::{
    apply, dotted, tag_named, EvaluationError, InterpreterError, TestInterpreter,
};
use logix_text::lexer::Lexer;
use logix_text::parser::expression::{
    Additive, AdditiveOps, Cast, First, LogicalOrExpression, Multiplicative,
};
use logix_text::parser::{
    Expected, Identifier, MemberPath, ParseError, Parser, RightHandSideValue, Statement,
    UnresolvedTypeName,
};
use logix_text::syntax::BinaryOperator;
use logix_text::token::Token;
use logix_text::value::{SupportedTypeBox, SupportedTypeTag};

fn run(source: &str) -> Result<Vec<SupportedTypeBox>, InterpreterError> {
    TestInterpreter::create_and_execute(source)
}

fn failure(error: EvaluationError) -> Result<Vec<SupportedTypeBox>, InterpreterError> {
    Err(InterpreterError::ExecutionError { error })
}

fn expression_of(source: &str) -> LogicalOrExpression {
    LogicalOrExpression::read(&mut Parser::with_lexer(Lexer::create(source))).unwrap()
}

fn literal(text: &str) -> First {
    First::IntegralLiteral { sequence: text.to_string() }
}

fn cast(operand: Cast, target: &str) -> Cast {
    Cast::Do { lhs: Box::new(operand), tp: named(&[target]) }
}

fn value_of(tree: &Cast) -> Result<SupportedTypeBox, EvaluationError> {
    tree.evaluate(&TestInterpreter::new())
}

fn named(names: &[&str]) -> UnresolvedTypeName {
    UnresolvedTypeName(MemberPath {
        pack: names.iter().map(|name| Identifier(name.to_string())).collect(),
    })
}

#[test]
fn multiplication_binds_tighter_than_addition() {
    assert_eq!(run("2 + 3 * 4"), Ok(vec![SupportedTypeBox::I32(14)]));
    assert_eq!(run("2 * 3 + 4"), Ok(vec![SupportedTypeBox::I32(10)]));
    assert_eq!(run("(2 + 3) * 4"), Ok(vec![SupportedTypeBox::I32(20)]));
    assert_eq!(run("2 + 12 / 4 - 1 * 3"), Ok(vec![SupportedTypeBox::I32(2)]));
}

#[test]
fn subtraction_associates_to_the_left() {
    assert_eq!(run("10 - 2 - 3"), Ok(vec![SupportedTypeBox::I32(5)]));
    assert_eq!(run("100 / 10 / 5"), Ok(vec![SupportedTypeBox::I32(2)]));
    assert_eq!(run("10 - (2 - 3)"), Ok(vec![SupportedTypeBox::I32(11)]));
}

#[test]
fn division_rounds_towards_zero() {
    assert_eq!(run("7 / 2"), Ok(vec![SupportedTypeBox::I32(3)]));
    assert_eq!(run("(1 - 8) / 2"), Ok(vec![SupportedTypeBox::I32(-3)]));
    assert_eq!(run("(0 - 7) / (0 - 2)"), Ok(vec![SupportedTypeBox::I32(3)]));
    assert_eq!(run("7 / (0 - 2)"), Ok(vec![SupportedTypeBox::I32(-3)]));
    assert_eq!(run("0 / 5"), Ok(vec![SupportedTypeBox::I32(0)]));
}

#[test]
fn arithmetic_errors() {
    assert_eq!(run("1 / 0"), failure(EvaluationError::DivisionByZero));
    assert_eq!(run("2147483647 + 1"), failure(EvaluationError::Overflow));
    assert_eq!(run("0 - 2147483647 - 2"), failure(EvaluationError::Overflow));
    assert_eq!(run("65536 * 65536"), failure(EvaluationError::Overflow));
    assert_eq!(run("(0 - 2147483647 - 1) / (0 - 1)"), failure(EvaluationError::Overflow));
    assert_eq!(run("2147483647 + 0"), Ok(vec![SupportedTypeBox::I32(i32::MAX)]));
    assert_eq!(
        run("1 + true"),
        failure(EvaluationError::OperandMismatch {
            left: SupportedTypeTag::I32,
            right: SupportedTypeTag::Bool
        })
    );
    assert_eq!(
        run("\"a\" * 3"),
        failure(EvaluationError::OperandMismatch {
            left: SupportedTypeTag::String,
            right: SupportedTypeTag::I32
        })
    );
    let mixed = Additive::Binary {
        operator: AdditiveOps::Add,
        lhs: Box::new(Additive::Propagated(Multiplicative::Propagated(Cast::Propagated(
            literal("1"),
        )))),
        rhs: Box::new(Multiplicative::Propagated(cast(Cast::Propagated(literal("2")), "i64"))),
    };
    assert_eq!(
        mixed.evaluate(&TestInterpreter::new()),
        Err(EvaluationError::OperandMismatch {
            left: SupportedTypeTag::I32,
            right: SupportedTypeTag::I64
        })
    );
    assert_eq!(
        run("true + true"),
        failure(EvaluationError::OperandMismatch {
            left: SupportedTypeTag::Bool,
            right: SupportedTypeTag::Bool
        })
    );
}

#[test]
fn arithmetic_on_every_integer_type() {
    let add = BinaryOperator::Add;
    assert_eq!(
        apply(add, SupportedTypeBox::I8(100), SupportedTypeBox::I8(27)),
        Ok(SupportedTypeBox::I8(127))
    );
    assert_eq!(
        apply(add, SupportedTypeBox::I8(100), SupportedTypeBox::I8(28)),
        Err(EvaluationError::Overflow)
    );
    assert_eq!(
        apply(BinaryOperator::Subtract, SupportedTypeBox::U8(1), SupportedTypeBox::U8(2)),
        Err(EvaluationError::Overflow)
    );
    assert_eq!(
        apply(BinaryOperator::Multiply, SupportedTypeBox::I16(-3), SupportedTypeBox::I16(5)),
        Ok(SupportedTypeBox::I16(-15))
    );
    assert_eq!(
        apply(BinaryOperator::Divide, SupportedTypeBox::U16(9), SupportedTypeBox::U16(2)),
        Ok(SupportedTypeBox::U16(4))
    );
    assert_eq!(
        apply(BinaryOperator::Divide, SupportedTypeBox::U32(9), SupportedTypeBox::U32(0)),
        Err(EvaluationError::DivisionByZero)
    );
    assert_eq!(
        apply(add, SupportedTypeBox::I64(i64::MAX), SupportedTypeBox::I64(1)),
        Err(EvaluationError::Overflow)
    );
    assert_eq!(
        apply(add, SupportedTypeBox::U64(u64::MAX - 1), SupportedTypeBox::U64(1)),
        Ok(SupportedTypeBox::U64(u64::MAX))
    );
    assert_eq!(
        apply(BinaryOperator::Remainder, SupportedTypeBox::I32(7), SupportedTypeBox::I32(2)),
        Err(EvaluationError::UnsupportedOperator { operator: BinaryOperator::Remainder })
    );
    assert_eq!(
        apply(BinaryOperator::Less, SupportedTypeBox::I32(7), SupportedTypeBox::I32(2)),
        Err(EvaluationError::UnsupportedOperator { operator: BinaryOperator::Less })
    );
    assert_eq!(
        apply(
            add,
            SupportedTypeBox::F32 { bits: 0 },
            SupportedTypeBox::F32 { bits: 0 }
        ),
        Err(EvaluationError::OperandMismatch {
            left: SupportedTypeTag::F32,
            right: SupportedTypeTag::F32
        })
    );
}

#[test]
fn operators_above_the_additive_level_have_no_value() {
    for (source, operator) in [
        ("1 << 2", BinaryOperator::LeftShift),
        ("1 >> 2", BinaryOperator::RightShift),
        ("1 < 2", BinaryOperator::Less),
        ("1 <= 2", BinaryOperator::LessEqual),
        ("1 > 2", BinaryOperator::More),
        ("1 >= 2", BinaryOperator::MoreEqual),
        ("1 <=> 2", BinaryOperator::Spaceship),
        ("1 == 2", BinaryOperator::Equal),
        ("1 != 2", BinaryOperator::NotEqual),
        ("1 & 2", BinaryOperator::BitwiseAnd),
        ("1 ^ 2", BinaryOperator::BitwiseXor),
        ("1 | 2", BinaryOperator::BitwiseOr),
        ("true && false", BinaryOperator::LogicalAnd),
        ("true || false", BinaryOperator::LogicalOr),
    ] {
        assert_eq!(run(source), failure(EvaluationError::UnsupportedOperator { operator }));
    }
}

#[test]
fn literals_have_values() {
    assert_eq!(run("7"), Ok(vec![SupportedTypeBox::I32(7)]));
    assert_eq!(run("true"), Ok(vec![SupportedTypeBox::Bool(true)]));
    assert_eq!(run("false"), Ok(vec![SupportedTypeBox::Bool(false)]));
    assert_eq!(run("\"a\\tb\""), Ok(vec![SupportedTypeBox::String("a\tb".to_string())]));
    assert_eq!(
        run("2147483648"),
        failure(EvaluationError::InvalidInteger { sequence: "2147483648".to_string() })
    );
}

#[test]
fn variables_are_looked_up_in_the_scope() {
    let mut interpreter = TestInterpreter::new();
    let x = Identifier("x".to_string());
    assert_eq!(interpreter.lookup(&x), None);
    assert_eq!(
        expression_of("x").evaluate(&interpreter),
        Err(EvaluationError::UnknownVariable { identifier: Identifier("x".to_string()) })
    );
    interpreter.define(Identifier("x".to_string()), SupportedTypeBox::I32(4));
    interpreter.define(Identifier("y".to_string()), SupportedTypeBox::I32(5));
    assert_eq!(interpreter.lookup(&x), Some(SupportedTypeBox::I32(4)));
    assert_eq!(expression_of("x * y + 1").evaluate(&interpreter), Ok(SupportedTypeBox::I32(21)));
    interpreter.define(Identifier("x".to_string()), SupportedTypeBox::U8(9));
    assert_eq!(interpreter.lookup(&x), Some(SupportedTypeBox::U8(9)));
    let wide = cast(Cast::Propagated(First::Variable { identifier: Identifier("x".to_string()) }), "u64");
    assert_eq!(wide.evaluate(&interpreter), Ok(SupportedTypeBox::U64(9)));
    assert_eq!(run("x"), failure(EvaluationError::UnknownVariable { identifier: x }));
}

#[test]
fn declaration_evaluates_its_right_hand_side() {
    let mut parser = Parser::with_lexer(Lexer::create("var x: string = 1 + 2"));
    let root = parser.parse_program().unwrap();
    assert_eq!(root.commands.len(), 1);
    let interpreter = TestInterpreter::new();
    match &root.commands[0] {
        Statement::NodeDeclaration { identifier, type_tag, rhs } => {
            assert_eq!(identifier, &Identifier("x".to_string()));
            let name = type_tag.as_ref().unwrap();
            assert_eq!(interpreter.resolve_dynamic(name), Some(SupportedTypeTag::String));
            match rhs {
                RightHandSideValue::Expression(tree) => {
                    assert_eq!(tree.evaluate(&interpreter), Ok(SupportedTypeBox::I32(3)));
                }
                other => panic!("unexpected right-hand side: {other:?}"),
            }
        }
        other => panic!("unexpected statement: {other:?}"),
    }
    assert_eq!(interpreter.step(&root.commands[0]), Ok(None));
    assert_eq!(run("var x: string = 1 + 2"), Ok(vec![]));
}

#[test]
fn declaration_with_a_type_of_the_table() {
    let declaration = Statement::NodeDeclaration {
        identifier: Identifier("x".to_string()),
        type_tag: Some(named(&["i32"])),
        rhs: RightHandSideValue::Expression(expression_of("1 + 2")),
    };
    let interpreter = TestInterpreter::new();
    match &declaration {
        Statement::NodeDeclaration { type_tag, rhs, .. } => {
            let name = type_tag.as_ref().unwrap();
            assert_eq!(interpreter.resolve_dynamic(name), Some(SupportedTypeTag::I32));
            match rhs {
                RightHandSideValue::Expression(tree) => {
                    assert_eq!(tree.evaluate(&interpreter), Ok(SupportedTypeBox::I32(3)));
                }
                other => panic!("unexpected right-hand side: {other:?}"),
            }
        }
        other => panic!("unexpected statement: {other:?}"),
    }
    assert_eq!(interpreter.execute(vec![declaration]), Ok(vec![]));
}

#[test]
fn statements_are_carried_out_in_order() {
    assert_eq!(
        run("1\n// two\nvar x: bool = 3\n4 * 5\n"),
        Ok(vec![SupportedTypeBox::I32(1), SupportedTypeBox::I32(20)])
    );
    assert_eq!(run(""), Ok(vec![]));
    assert_eq!(run("1\n2 / 0\n\"never\" as bool"), failure(EvaluationError::DivisionByZero));
    assert_eq!(
        run("var x = 1"),
        failure(EvaluationError::MissingTypeAnnotation { identifier: Identifier("x".to_string()) })
    );
    assert_eq!(run("var x: bool = y"), failure(EvaluationError::UnsupportedReference));
    assert_eq!(run("var x: bool = a.b"), failure(EvaluationError::UnsupportedReference));
    assert_eq!(run("var x: bool = 1 / 0"), failure(EvaluationError::DivisionByZero));
    let interpreter = TestInterpreter::new();
    assert_eq!(interpreter.step(&Statement::NoMoreStatements), Ok(None));
    assert_eq!(
        interpreter.execute(vec![Statement::NoMoreStatements, Statement::NoMoreStatements]),
        Ok(vec![])
    );
}

#[test]
fn syntax_error_ends_the_run() {
    assert_eq!(
        run("1 +"),
        Err(InterpreterError::SyntaxError {
            error: ParseError::UnexpectedToken {
                found: Token::EndOfFile,
                expected: Expected::Operand
            }
        })
    );
    assert_eq!(
        run("1 / 0\n)"),
        Err(InterpreterError::SyntaxError {
            error: ParseError::UnexpectedToken {
                found: Token::SymRightPar,
                expected: Expected::Operand
            }
        })
    );
}

#[test]
fn narrowing_cast_is_refused() {
    assert_eq!(
        SupportedTypeBox::I32(1).cast(SupportedTypeTag::I8),
        Err(SupportedTypeBox::I32(1))
    );
    let one = || Cast::Propagated(literal("1"));
    assert_eq!(
        value_of(&cast(one(), "i8")),
        Err(EvaluationError::IllegalCast {
            from: SupportedTypeTag::I32,
            to: SupportedTypeTag::I8
        })
    );
    assert_eq!(
        value_of(&cast(cast(one(), "i64"), "i32")),
        Err(EvaluationError::IllegalCast {
            from: SupportedTypeTag::I64,
            to: SupportedTypeTag::I32
        })
    );
    assert_eq!(
        value_of(&cast(Cast::Propagated(First::True), "i32")),
        Err(EvaluationError::IllegalCast {
            from: SupportedTypeTag::Bool,
            to: SupportedTypeTag::I32
        })
    );
    assert_eq!(
        run("1 as bool"),
        failure(EvaluationError::IllegalCast {
            from: SupportedTypeTag::I32,
            to: SupportedTypeTag::Bool
        })
    );
    assert_eq!(
        run("1 as impulse"),
        failure(EvaluationError::IllegalCast {
            from: SupportedTypeTag::I32,
            to: SupportedTypeTag::Impulse
        })
    );
    assert_eq!(
        run("\"1\" as bool as string"),
        failure(EvaluationError::IllegalCast {
            from: SupportedTypeTag::String,
            to: SupportedTypeTag::Bool
        })
    );
}

#[test]
fn widening_cast_keeps_the_number() {
    assert_eq!(
        SupportedTypeBox::U8(200).cast(SupportedTypeTag::U64),
        Ok(SupportedTypeBox::U64(200))
    );
    assert_eq!(
        SupportedTypeBox::I8(-7).cast(SupportedTypeTag::I64),
        Ok(SupportedTypeBox::I64(-7))
    );
    let seven = || Cast::Propagated(literal("7"));
    assert_eq!(value_of(&cast(seven(), "i64")), Ok(SupportedTypeBox::I64(7)));
    match value_of(&cast(seven(), "f64")) {
        Ok(SupportedTypeBox::F64 { bits }) => assert_eq!(f64::from_bits(bits), 7.0),
        other => panic!("unexpected outcome: {other:?}"),
    }
}

#[test]
fn identity_cast_never_fails() {
    assert_eq!(
        SupportedTypeBox::I32(-5).cast(SupportedTypeTag::I32),
        Ok(SupportedTypeBox::I32(-5))
    );
    let one = || Cast::Propagated(literal("1"));
    assert_eq!(value_of(&cast(one(), "i32")), Ok(SupportedTypeBox::I32(1)));
    assert_eq!(value_of(&cast(cast(one(), "i32"), "i64")), Ok(SupportedTypeBox::I64(1)));
    assert_eq!(run("true as bool"), Ok(vec![SupportedTypeBox::Bool(true)]));
    assert_eq!(run("true as bool as bool"), Ok(vec![SupportedTypeBox::Bool(true)]));
    assert_eq!(run("\"s\" as string"), Ok(vec![SupportedTypeBox::String("s".to_string())]));
}

#[test]
fn cast_evaluates_its_operand_first() {
    assert_eq!(run("(1 / 0) as nothing"), failure(EvaluationError::DivisionByZero));
    assert_eq!(
        run("1 as nothing"),
        failure(EvaluationError::UnknownType { name: "nothing".to_string() })
    );
    let cast = Cast::Do {
        lhs: Box::new(Cast::Propagated(First::True)),
        tp: named(&["a", "b"]),
    };
    assert_eq!(
        cast.evaluate(&TestInterpreter::new()),
        Err(EvaluationError::UnknownType { name: "a.b".to_string() })
    );
}

#[test]
fn unknown_type_is_an_error() {
    assert_eq!(
        run("1 as a.b"),
        failure(EvaluationError::UnknownType { name: "a.b".to_string() })
    );
    assert_eq!(
        value_of(&cast(Cast::Propagated(literal("1")), "i128")),
        Err(EvaluationError::UnknownType { name: "i128".to_string() })
    );
    assert_eq!(
        run("1 as i"),
        failure(EvaluationError::UnknownType { name: "i".to_string() })
    );
}

#[test]
fn type_names_resolve_by_the_table() {
    let interpreter = TestInterpreter::new();
    for (name, tag) in [
        ("bool", SupportedTypeTag::Bool),
        ("i8", SupportedTypeTag::I8),
        ("u8", SupportedTypeTag::U8),
        ("i16", SupportedTypeTag::I16),
        ("u16", SupportedTypeTag::U16),
        ("i32", SupportedTypeTag::I32),
        ("u32", SupportedTypeTag::U32),
        ("i64", SupportedTypeTag::I64),
        ("u64", SupportedTypeTag::U64),
        ("f32", SupportedTypeTag::F32),
        ("f64", SupportedTypeTag::F64),
        ("string", SupportedTypeTag::String),
        ("impulse", SupportedTypeTag::Impulse),
    ] {
        assert_eq!(interpreter.resolve_dynamic(&named(&[name])), Some(tag));
        assert_eq!(tag_named(&name.to_string()), Some(tag));
    }
    for (name, tag) in [
        ("bool", SupportedTypeTag::Bool),
        ("string", SupportedTypeTag::String),
        ("impulse", SupportedTypeTag::Impulse),
    ] {
        let mut parser = Parser::with_lexer(Lexer::create(name));
        let parsed = UnresolvedTypeName::read(&mut parser).unwrap();
        assert_eq!(interpreter.resolve_dynamic(&parsed), Some(tag));
    }
    for name in ["", "int", "I32", "i", "32", "i320", "strings", "usize", "char"] {
        assert_eq!(interpreter.resolve_dynamic(&named(&[name])), None);
    }
    assert_eq!(interpreter.resolve_dynamic(&named(&["i", "32"])), None);
    assert_eq!(interpreter.resolve_dynamic(&named(&["std", "i32"])), None);
    assert_eq!(interpreter.resolve_dynamic(&named(&[])), None);
}

#[test]
fn dotted_joins_the_segments() {
    assert_eq!(dotted(&named(&["a"])), "a");
    assert_eq!(dotted(&named(&["a", "b1", "c"])), "a.b1.c");
    assert_eq!(dotted(&named(&[])), "");
}

#[test]
fn long_program_runs_through() {
    let mut source = String::new();
    for line in 0..2000 {
        source.push_str(&format!("{line} + 1 * (2 - 1) // line {line}\n").replace(" // ", "\n// "));
    }
    let values = run(&source).unwrap();
    assert_eq!(values.len(), 2000);
    assert_eq!(values[0], SupportedTypeBox::I32(1));
    assert_eq!(values[1999], SupportedTypeBox::I32(2000));
}

