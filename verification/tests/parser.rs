use logix_text::lexer::Lexer;
use logix_text::parser::expression::{
    Additive, AdditiveOps, BitwiseAndExpression, BitwiseAndExpressionOp, BitwiseOrExpression,
    BitwiseOrExpressionOp, BitwiseShift, BitwiseShiftOps, BitwiseXorExpression,
    BitwiseXorExpressionOp, Cast, EqualityCheckExpression, EqualityCheckExpressionOps, First,
    LogicalAndExpression, LogicalAndExpressionOp, LogicalOrExpression, LogicalOrExpressionOp,
    Multiplicative, MultiplicativeOps, RelationCheckExpression, RelationCheckExpressionOps,
};
use logix_text::parser::{
    decimal_value, is_token, unexpected_token, Expected, Identifier, MemberPath, ParseError,
    Parser, RightHandSideValue, RootAst, Statement, UnresolvedTypeName,
};
use logix_text::token::{LexError, LexErrorKind, Token};

fn parser_of(source: &str) -> Parser {
    Parser::with_lexer(Lexer::create(source))
}

fn named(names: &[&str]) -> MemberPath {
    MemberPath { pack: names.iter().map(|name| Identifier(name.to_string())).collect() }
}

fn named_type(name: &str) -> UnresolvedTypeName {
    UnresolvedTypeName(named(&[name]))
}

fn literal(text: &str) -> First {
    First::IntegralLiteral { sequence: text.to_string() }
}

fn variable(name: &str) -> First {
    First::Variable { identifier: Identifier(name.to_string()) }
}

fn product_of(first: First) -> Multiplicative {
    Multiplicative::Propagated(Cast::Propagated(first))
}

fn sum_of(first: First) -> Additive {
    Additive::Propagated(product_of(first))
}

fn equality_of(sum: Additive) -> EqualityCheckExpression {
    EqualityCheckExpression::Propagated(RelationCheckExpression::Propagated(
        BitwiseShift::Propagated(sum),
    ))
}

fn or_of(equality: EqualityCheckExpression) -> BitwiseOrExpression {
    BitwiseOrExpression::Propagated(BitwiseXorExpression::Propagated(
        BitwiseAndExpression::Propagated(equality),
    ))
}

fn full(sum: Additive) -> LogicalOrExpression {
    LogicalOrExpression::Propagated(LogicalAndExpression::Propagated(or_of(equality_of(sum))))
}

fn unexpected(found: Token, expected: Expected) -> ParseError {
    ParseError::UnexpectedToken { found, expected }
}

#[test]
fn cast_chain_is_left_associative() {
    let mut parser = parser_of("1 as string as bool");
    let cast = Cast::read(&mut parser).unwrap();
    let one = Cast::Propagated(literal("1"));
    let inner = Cast::Do { lhs: Box::new(one), tp: named_type("string") };
    assert_eq!(cast, Cast::Do { lhs: Box::new(inner), tp: named_type("bool") });
    assert_eq!(Statement::read(&mut parser), Ok(Statement::NoMoreStatements));
}

#[test]
fn digits_are_no_part_of_a_type_name() {
    let mut parser = parser_of("1 as i32 as i64");
    assert_eq!(
        Cast::read(&mut parser),
        Ok(Cast::Do { lhs: Box::new(Cast::Propagated(literal("1"))), tp: named_type("i") })
    );
    assert_eq!(parser.parse_int_literal(), Ok(32));
    assert_eq!(
        parser_of("1 as i32 as i64").parse_program(),
        Err(unexpected(Token::Digits { sequence: "32".to_string() }, Expected::EndOfStatement))
    );
    assert_eq!(
        parser_of("var x: i32 = 1 + 2").parse_program(),
        Err(unexpected(
            Token::Digits { sequence: "32".to_string() },
            Expected::Token(Token::SymEq)
        ))
    );
}

#[test]
fn cast_target_may_be_a_dotted_path() {
    let mut parser = parser_of("x as a.b.c + 1");
    let cast = Cast::read(&mut parser).unwrap();
    assert_eq!(
        cast,
        Cast::Do {
            lhs: Box::new(Cast::Propagated(variable("x"))),
            tp: UnresolvedTypeName(named(&["a", "b", "c"])),
        }
    );
    assert_eq!(parser.parse_int_literal(), Err(unexpected(Token::SymPlus, Expected::IntegralLiteral)));
}

#[test]
fn cast_needs_a_type_name() {
    assert_eq!(
        Cast::read(&mut parser_of("1 as 2")),
        Err(unexpected(Token::Digits { sequence: "2".to_string() }, Expected::Identifier))
    );
    assert_eq!(
        Cast::read(&mut parser_of("1 as a.")),
        Err(unexpected(Token::EndOfFile, Expected::Identifier))
    );
}

#[test]
fn multiplication_nests_inside_addition() {
    let mut parser = parser_of("2 + 3 * 4");
    let product = Multiplicative::Binary {
        operator: MultiplicativeOps::Multiply,
        lhs: Box::new(product_of(literal("3"))),
        rhs: Box::new(Cast::Propagated(literal("4"))),
    };
    assert_eq!(
        Additive::read(&mut parser),
        Ok(Additive::Binary {
            operator: AdditiveOps::Add,
            lhs: Box::new(sum_of(literal("2"))),
            rhs: Box::new(product),
        })
    );
    let mut parser = parser_of("2 * 3 + 4");
    let product = Multiplicative::Binary {
        operator: MultiplicativeOps::Multiply,
        lhs: Box::new(product_of(literal("2"))),
        rhs: Box::new(Cast::Propagated(literal("3"))),
    };
    assert_eq!(
        parser.parse_additive(),
        Ok(Additive::Binary {
            operator: AdditiveOps::Add,
            lhs: Box::new(Additive::Propagated(product)),
            rhs: Box::new(product_of(literal("4"))),
        })
    );
}

#[test]
fn subtraction_nests_to_the_left() {
    let mut parser = parser_of("10 - 2 - 3");
    let inner = Additive::Binary {
        operator: AdditiveOps::Subtract,
        lhs: Box::new(sum_of(literal("10"))),
        rhs: Box::new(product_of(literal("2"))),
    };
    assert_eq!(
        Additive::read(&mut parser),
        Ok(Additive::Binary {
            operator: AdditiveOps::Subtract,
            lhs: Box::new(inner),
            rhs: Box::new(product_of(literal("3"))),
        })
    );
}

#[test]
fn division_nests_to_the_left() {
    let mut parser = parser_of("8 / 4 / 2");
    let inner = Multiplicative::Binary {
        operator: MultiplicativeOps::Divide,
        lhs: Box::new(product_of(literal("8"))),
        rhs: Box::new(Cast::Propagated(literal("4"))),
    };
    assert_eq!(
        Multiplicative::read(&mut parser),
        Ok(Multiplicative::Binary {
            operator: MultiplicativeOps::Divide,
            lhs: Box::new(inner),
            rhs: Box::new(Cast::Propagated(literal("2"))),
        })
    );
}

#[test]
fn parentheses_hold_an_additive_expression() {
    let mut parser = parser_of("(1 + 2) * 3");
    let sum = Additive::Binary {
        operator: AdditiveOps::Add,
        lhs: Box::new(sum_of(literal("1"))),
        rhs: Box::new(product_of(literal("2"))),
    };
    assert_eq!(
        Multiplicative::read(&mut parser),
        Ok(Multiplicative::Binary {
            operator: MultiplicativeOps::Multiply,
            lhs: Box::new(product_of(First::Parenthesized { inner: Box::new(sum) })),
            rhs: Box::new(Cast::Propagated(literal("3"))),
        })
    );
    assert_eq!(
        First::read(&mut parser_of("(1 + 2")),
        Err(unexpected(Token::EndOfFile, Expected::Token(Token::SymRightPar)))
    );
    assert_eq!(
        First::read(&mut parser_of("(1 < 2)")),
        Err(unexpected(Token::SymLess, Expected::Token(Token::SymRightPar)))
    );
    assert_eq!(
        First::read(&mut parser_of("()")),
        Err(unexpected(Token::SymRightPar, Expected::Operand))
    );
}

#[test]
fn primary_terms() {
    assert_eq!(First::read(&mut parser_of("12")), Ok(literal("12")));
    assert_eq!(First::read(&mut parser_of("x")), Ok(variable("x")));
    assert_eq!(First::read(&mut parser_of("true")), Ok(First::True));
    assert_eq!(First::read(&mut parser_of("false")), Ok(First::False));
    assert_eq!(
        First::read(&mut parser_of("\"a\\n\"")),
        Ok(First::StringLiteral { sequence: "a\n".to_string() })
    );
    assert_eq!(
        First::read(&mut parser_of("+")),
        Err(unexpected(Token::SymPlus, Expected::Operand))
    );
    assert_eq!(
        First::read(&mut parser_of("")),
        Err(unexpected(Token::EndOfFile, Expected::Operand))
    );
    assert_eq!(
        First::read(&mut parser_of("if")),
        Err(unexpected(Token::Reserved { matched: "if".to_string() }, Expected::Operand))
    );
}

#[test]
fn primary_term_is_consumed() {
    let mut parser = parser_of("1 2");
    assert_eq!(First::read(&mut parser), Ok(literal("1")));
    assert_eq!(First::read(&mut parser), Ok(literal("2")));
    assert_eq!(
        First::read(&mut parser),
        Err(unexpected(Token::EndOfFile, Expected::Operand))
    );
}

#[test]
fn every_level_has_its_operators() {
    let one = || sum_of(literal("1"));
    let two = || sum_of(literal("2"));
    let shift = |operator| BitwiseShift::Binary {
        operator,
        lhs: Box::new(BitwiseShift::Propagated(one())),
        rhs: Box::new(two()),
    };
    assert_eq!(
        BitwiseShift::read(&mut parser_of("1 << 2")),
        Ok(shift(BitwiseShiftOps::LeftShift))
    );
    assert_eq!(
        BitwiseShift::read(&mut parser_of("1 >> 2")),
        Ok(shift(BitwiseShiftOps::RightShift))
    );
    let relation = |operator| RelationCheckExpression::Binary {
        operator,
        lhs: Box::new(RelationCheckExpression::Propagated(BitwiseShift::Propagated(one()))),
        rhs: Box::new(BitwiseShift::Propagated(two())),
    };
    for (source, operator) in [
        ("1 < 2", RelationCheckExpressionOps::Less),
        ("1 <= 2", RelationCheckExpressionOps::LessEqual),
        ("1 > 2", RelationCheckExpressionOps::More),
        ("1 >= 2", RelationCheckExpressionOps::MoreEqual),
        ("1 <=> 2", RelationCheckExpressionOps::Spaceship),
    ] {
        assert_eq!(
            parser_of(source).parse_relation_expression(),
            Ok(relation(operator))
        );
    }
    let equality = |operator| EqualityCheckExpression::Binary {
        operator,
        lhs: Box::new(equality_of(one())),
        rhs: Box::new(RelationCheckExpression::Propagated(BitwiseShift::Propagated(two()))),
    };
    assert_eq!(
        parser_of("1 == 2").parse_equality_expression(),
        Ok(equality(EqualityCheckExpressionOps::Equal))
    );
    assert_eq!(
        parser_of("1 != 2").parse_equality_expression(),
        Ok(equality(EqualityCheckExpressionOps::NotEqual))
    );
    assert_eq!(
        BitwiseAndExpression::read(&mut parser_of("1 & 2")),
        Ok(BitwiseAndExpression::Binary {
            operator: BitwiseAndExpressionOp::BitwiseAnd,
            lhs: Box::new(BitwiseAndExpression::Propagated(equality_of(one()))),
            rhs: Box::new(equality_of(two())),
        })
    );
    assert_eq!(
        BitwiseXorExpression::read(&mut parser_of("1 ^ 2")),
        Ok(BitwiseXorExpression::Binary {
            operator: BitwiseXorExpressionOp::BitwiseXor,
            lhs: Box::new(BitwiseXorExpression::Propagated(BitwiseAndExpression::Propagated(
                equality_of(one())
            ))),
            rhs: Box::new(BitwiseAndExpression::Propagated(equality_of(two()))),
        })
    );
    assert_eq!(
        BitwiseOrExpression::read(&mut parser_of("1 | 2")),
        Ok(BitwiseOrExpression::Binary {
            operator: BitwiseOrExpressionOp::BitwiseOr,
            lhs: Box::new(or_of(equality_of(one()))),
            rhs: Box::new(BitwiseXorExpression::Propagated(BitwiseAndExpression::Propagated(
                equality_of(two())
            ))),
        })
    );
    assert_eq!(
        LogicalAndExpression::read(&mut parser_of("1 && 2")),
        Ok(LogicalAndExpression::Binary {
            operator: LogicalAndExpressionOp::LogicalAnd,
            lhs: Box::new(LogicalAndExpression::Propagated(or_of(equality_of(one())))),
            rhs: Box::new(or_of(equality_of(two()))),
        })
    );
    assert_eq!(
        LogicalOrExpression::read(&mut parser_of("1 || 2")),
        Ok(LogicalOrExpression::Binary {
            operator: LogicalOrExpressionOp::LogicalOr,
            lhs: Box::new(full(one())),
            rhs: Box::new(LogicalAndExpression::Propagated(or_of(equality_of(two())))),
        })
    );
}

#[test]
fn logical_or_is_the_loosest_level() {
    let mut parser = parser_of("1 || 2 && 3");
    let conjunction = LogicalAndExpression::Binary {
        operator: LogicalAndExpressionOp::LogicalAnd,
        lhs: Box::new(LogicalAndExpression::Propagated(or_of(equality_of(sum_of(literal("2")))))),
        rhs: Box::new(or_of(equality_of(sum_of(literal("3"))))),
    };
    assert_eq!(
        LogicalOrExpression::read(&mut parser),
        Ok(LogicalOrExpression::Binary {
            operator: LogicalOrExpressionOp::LogicalOr,
            lhs: Box::new(full(sum_of(literal("1")))),
            rhs: Box::new(conjunction),
        })
    );
}

#[test]
fn operator_needs_a_right_operand() {
    assert_eq!(
        Additive::read(&mut parser_of("1 +")),
        Err(unexpected(Token::EndOfFile, Expected::Operand))
    );
    assert_eq!(
        LogicalOrExpression::read(&mut parser_of("1 * * 2")),
        Err(unexpected(Token::SymAsterisk, Expected::Operand))
    );
}

#[test]
fn binary_builds_an_operator_node() {
    assert_eq!(
        Additive::binary(AdditiveOps::Add, sum_of(literal("1")), product_of(literal("2"))),
        Additive::Binary {
            operator: AdditiveOps::Add,
            lhs: Box::new(sum_of(literal("1"))),
            rhs: Box::new(product_of(literal("2"))),
        }
    );
    assert_eq!(
        Multiplicative::binary(
            MultiplicativeOps::Remainder,
            product_of(literal("1")),
            Cast::Propagated(literal("2"))
        ),
        Multiplicative::Binary {
            operator: MultiplicativeOps::Remainder,
            lhs: Box::new(product_of(literal("1"))),
            rhs: Box::new(Cast::Propagated(literal("2"))),
        }
    );
}

#[test]
fn from_token_knows_the_operators_of_its_level() {
    assert_eq!(AdditiveOps::from_token(&Token::SymPlus), Some(AdditiveOps::Add));
    assert_eq!(AdditiveOps::from_token(&Token::SymMinus), Some(AdditiveOps::Subtract));
    assert_eq!(AdditiveOps::from_token(&Token::SymAsterisk), None);
    assert_eq!(
        MultiplicativeOps::from_token(&Token::SymSlash),
        Some(MultiplicativeOps::Divide)
    );
    assert_eq!(MultiplicativeOps::from_token(&Token::UnexpectedChar { index: 0, char: '%' }), None);
    assert_eq!(
        RelationCheckExpressionOps::from_token(&Token::PartLessEqMore),
        Some(RelationCheckExpressionOps::Spaceship)
    );
    assert_eq!(
        LogicalOrExpressionOp::from_token(&Token::PartPipePipe),
        Some(LogicalOrExpressionOp::LogicalOr)
    );
    assert_eq!(LogicalOrExpressionOp::from_token(&Token::PartAndAnd), None);
}

#[test]
fn declaration_with_annotation_and_expression() {
    let mut parser = parser_of("var x: string = 1 + 2");
    let root = parser.parse_program().unwrap();
    let sum = Additive::Binary {
        operator: AdditiveOps::Add,
        lhs: Box::new(sum_of(literal("1"))),
        rhs: Box::new(product_of(literal("2"))),
    };
    assert_eq!(
        root,
        RootAst {
            commands: vec![Statement::NodeDeclaration {
                identifier: Identifier("x".to_string()),
                type_tag: Some(named_type("string")),
                rhs: RightHandSideValue::Expression(full(sum)),
            }]
        }
    );
}

#[test]
fn declaration_without_annotation() {
    assert_eq!(
        parser_of("var x = 1").parse_variable_declaration(),
        Ok(Statement::NodeDeclaration {
            identifier: Identifier("x".to_string()),
            type_tag: None,
            rhs: RightHandSideValue::Expression(full(sum_of(literal("1")))),
        })
    );
}

#[test]
fn right_hand_side_may_refer_to_a_node() {
    assert_eq!(
        parser_of("var x = y").parse_variable_declaration(),
        Ok(Statement::NodeDeclaration {
            identifier: Identifier("x".to_string()),
            type_tag: None,
            rhs: RightHandSideValue::Identifier(Identifier("y".to_string())),
        })
    );
    assert_eq!(
        RightHandSideValue::read(&mut parser_of("y\n")),
        Ok(RightHandSideValue::Identifier(Identifier("y".to_string())))
    );
    assert_eq!(
        RightHandSideValue::read(&mut parser_of("a.b.c\n")),
        Ok(RightHandSideValue::MemberPath(named(&["a", "b", "c"])))
    );
    assert_eq!(
        RightHandSideValue::read(&mut parser_of("y + 1")),
        Ok(RightHandSideValue::Expression(full(Additive::Binary {
            operator: AdditiveOps::Add,
            lhs: Box::new(sum_of(variable("y"))),
            rhs: Box::new(product_of(literal("1"))),
        })))
    );
    assert_eq!(
        RightHandSideValue::read(&mut parser_of("a.")),
        Err(unexpected(Token::EndOfFile, Expected::Identifier))
    );
}

#[test]
fn annotation_is_optional() {
    let mut parser = parser_of(": a.b = 1");
    assert_eq!(
        parser.read_type_annotation(),
        Ok(Some(UnresolvedTypeName(named(&["a", "b"]))))
    );
    assert_eq!(parser.read_type_annotation(), Ok(None));
    assert_eq!(parser.assert_token_eq_with_consumed(Token::SymEq), Ok(()));
    assert_eq!(
        parser_of(": 1").read_type_annotation(),
        Err(unexpected(Token::Digits { sequence: "1".to_string() }, Expected::Identifier))
    );
}

#[test]
fn declaration_errors() {
    assert_eq!(
        parser_of("var 1 = 2").parse_variable_declaration(),
        Err(unexpected(Token::Digits { sequence: "1".to_string() }, Expected::Identifier))
    );
    assert_eq!(
        parser_of("var x 2").parse_variable_declaration(),
        Err(unexpected(
            Token::Digits { sequence: "2".to_string() },
            Expected::Token(Token::SymEq)
        ))
    );
    assert_eq!(
        parser_of("var x: = 2").parse_variable_declaration(),
        Err(unexpected(Token::SymEq, Expected::Identifier))
    );
    assert_eq!(
        parser_of("var x =").parse_variable_declaration(),
        Err(unexpected(Token::EndOfFile, Expected::Operand))
    );
    assert_eq!(
        parser_of("x = 1").parse_variable_declaration(),
        Err(unexpected(
            Token::Identifier { inner: "x".to_string() },
            Expected::Token(Token::VarKeyword)
        ))
    );
    assert_eq!(
        parser_of("var var = 1").parse_variable_declaration(),
        Err(unexpected(Token::VarKeyword, Expected::Identifier))
    );
}

#[test]
fn lexical_error_ends_the_parse() {
    let error = LexError { kind: LexErrorKind::SurrogateCodePoint { code: 0xD800 }, offset: 10 };
    assert_eq!(
        parser_of("var x = \"\\uD800\"").parse_program(),
        Err(ParseError::Lexical { error })
    );
    let error = LexError { kind: LexErrorKind::UnterminatedString, offset: 6 };
    assert_eq!(parser_of("1 + \"a").parse_program(), Err(ParseError::Lexical { error }));
    let error = LexError { kind: LexErrorKind::NewlineInString, offset: 4 };
    assert_eq!(parser_of("1 \"a\n\"").parse_program(), Err(ParseError::Lexical { error }));
}

#[test]
fn two_statements_on_one_line_are_rejected() {
    assert_eq!(
        parser_of("var x = 1 var y = 2").parse_program(),
        Err(unexpected(Token::VarKeyword, Expected::EndOfStatement))
    );
    assert_eq!(
        parser_of("1 2").parse_program(),
        Err(unexpected(Token::Digits { sequence: "2".to_string() }, Expected::EndOfStatement))
    );
    assert_eq!(
        parser_of("var x = 1 // one").parse_program(),
        Err(unexpected(Token::Comment { content: " one".to_string() }, Expected::EndOfStatement))
    );
    assert_eq!(
        parser_of("1 )").parse_program(),
        Err(unexpected(Token::SymRightPar, Expected::EndOfStatement))
    );
}

#[test]
fn last_statement_needs_no_line_break() {
    assert_eq!(parser_of("var x = 1\nvar y = 2").parse_program().unwrap().commands.len(), 2);
    assert_eq!(parser_of("var x = 1\nvar y = 2\n").parse_program().unwrap().commands.len(), 2);
    assert_eq!(parser_of("").parse_program(), Ok(RootAst { commands: vec![] }));
    assert_eq!(parser_of("   ").parse(), Ok(RootAst { commands: vec![] }));
}

#[test]
fn statement_takes_exactly_one_line_break() {
    assert_eq!(
        parser_of("1\n\n2").parse_program(),
        Err(unexpected(Token::NewLine, Expected::Operand))
    );
    assert_eq!(
        parser_of("\n1").parse_program(),
        Err(unexpected(Token::NewLine, Expected::Operand))
    );
}

#[test]
fn statements_of_every_sort() {
    let mut parser = parser_of("// note\nvar x: string = \"s\"\nx\n1 + 2");
    let sum = Additive::Binary {
        operator: AdditiveOps::Add,
        lhs: Box::new(sum_of(literal("1"))),
        rhs: Box::new(product_of(literal("2"))),
    };
    assert_eq!(
        parser.parse_program(),
        Ok(RootAst {
            commands: vec![
                Statement::Comment { content: " note".to_string() },
                Statement::NodeDeclaration {
                    identifier: Identifier("x".to_string()),
                    type_tag: Some(named_type("string")),
                    rhs: RightHandSideValue::Expression(full(sum_of(First::StringLiteral {
                        sequence: "s".to_string()
                    }))),
                },
                Statement::Print { expression: full(sum_of(variable("x"))) },
                Statement::Print { expression: full(sum) },
            ]
        })
    );
    assert_eq!(parser.parse_program(), Ok(RootAst { commands: vec![] }));
}

#[test]
fn statement_at_the_end_of_input_is_the_sentinel() {
    let mut parser = parser_of("1");
    assert_eq!(
        Statement::read(&mut parser),
        Ok(Statement::Print { expression: full(sum_of(literal("1"))) })
    );
    assert_eq!(Statement::read(&mut parser), Ok(Statement::NoMoreStatements));
    assert_eq!(Statement::read(&mut parser), Ok(Statement::NoMoreStatements));
}

#[test]
fn identifier_and_member_path() {
    assert_eq!(
        Identifier::read(&mut parser_of("abc")),
        Ok(Identifier("abc".to_string()))
    );
    assert_eq!(
        Identifier::read(&mut parser_of("1")),
        Err(unexpected(Token::Digits { sequence: "1".to_string() }, Expected::Identifier))
    );
    assert_eq!(MemberPath::read(&mut parser_of("a")), Ok(named(&["a"])));
    assert_eq!(MemberPath::read(&mut parser_of("a.b")), Ok(named(&["a", "b"])));
    let mut parser = parser_of("a8.b");
    assert_eq!(MemberPath::read(&mut parser), Ok(named(&["a"])));
    assert_eq!(parser.parse_int_literal(), Ok(8));
    let mut parser = parser_of("u16");
    assert_eq!(UnresolvedTypeName::read(&mut parser), Ok(UnresolvedTypeName(named(&["u"]))));
    assert_eq!(parser.parse_int_literal(), Ok(16));
    assert_eq!(
        UnresolvedTypeName::read(&mut parser_of("a.b c")),
        Ok(UnresolvedTypeName(named(&["a", "b"])))
    );
    assert_eq!(
        MemberPath::read(&mut parser_of("a..b")),
        Err(unexpected(Token::SymDot, Expected::Identifier))
    );
}

#[test]
fn integer_literal_has_to_fit_in_32_bits() {
    assert_eq!(parser_of("0").parse_int_literal(), Ok(0));
    assert_eq!(parser_of("2147483647").parse_int_literal(), Ok(2147483647));
    assert_eq!(parser_of("0002147483647").parse_int_literal(), Ok(2147483647));
    assert_eq!(
        parser_of("2147483648").parse_int_literal(),
        Err(ParseError::InvalidInteger { sequence: "2147483648".to_string() })
    );
    assert_eq!(
        parser_of("99999999999999999999").parse_int_literal(),
        Err(ParseError::InvalidInteger { sequence: "99999999999999999999".to_string() })
    );
    assert_eq!(
        parser_of("x").parse_int_literal(),
        Err(unexpected(Token::Identifier { inner: "x".to_string() }, Expected::IntegralLiteral))
    );
    let mut parser = parser_of("12 13");
    assert_eq!(parser.parse_int_literal(), Ok(12));
    assert_eq!(parser.parse_int_literal(), Ok(13));
}

#[test]
fn decimal_value_reads_digits_only() {
    assert_eq!(decimal_value(&"42".to_string()), Some(42));
    assert_eq!(decimal_value(&"".to_string()), None);
    assert_eq!(decimal_value(&"4a".to_string()), None);
    assert_eq!(decimal_value(&"-4".to_string()), None);
    assert_eq!(decimal_value(&"2147483647".to_string()), Some(i32::MAX));
    assert_eq!(decimal_value(&"2147483650".to_string()), None);
    assert_eq!(decimal_value(&"3000000000".to_string()), None);
}

#[test]
fn expected_token_is_taken() {
    let mut parser = parser_of("var =");
    assert_eq!(parser.assert_token_eq_with_consumed(Token::VarKeyword), Ok(()));
    assert_eq!(
        parser.assert_token_eq_with_consumed(Token::VarKeyword),
        Err(unexpected(Token::SymEq, Expected::Token(Token::VarKeyword)))
    );
    assert_eq!(parser.assert_token_eq_with_consumed(Token::SymEq), Ok(()));
    assert_eq!(parser.assert_token_eq_with_consumed(Token::EndOfFile), Ok(()));
    assert_eq!(parser.assert_token_eq_with_consumed(Token::EndOfFile), Ok(()));
    let error = LexError { kind: LexErrorKind::UnterminatedString, offset: 1 };
    assert_eq!(
        parser_of("\"").assert_token_eq_with_consumed(Token::SymEq),
        Err(ParseError::Lexical { error })
    );
}

#[test]
fn helpers_on_lexer_outcomes() {
    assert!(is_token(&Ok(Token::NewLine), &Token::NewLine));
    assert!(!is_token(&Ok(Token::NewLine), &Token::EndOfFile));
    let error = LexError { kind: LexErrorKind::NewlineInString, offset: 0 };
    assert!(!is_token(&Err(error), &Token::NewLine));
    assert_eq!(
        unexpected_token(Ok(Token::SymDot), Expected::Operand),
        unexpected(Token::SymDot, Expected::Operand)
    );
    assert_eq!(
        unexpected_token(Err(error), Expected::Operand),
        ParseError::Lexical { error }
    );
}
