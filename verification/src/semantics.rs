//! What expressions and statements mean, as mathematics.
use crate::grammar::decimal_i32;
use crate::syntax::{
    level_of, BinaryOperator, Expr, Level, ParseErrorView, RightHandSideView, StatementView,
};
use crate::value::{cast_result, number, SupportedTypeTag, ValueView};
use vstd::prelude::*;

verus! {

/// Why an expression has no value, or a statement cannot be carried out.
pub enum EvaluationErrorView {
    /// An integer literal writes no number of 32 bits.
    InvalidInteger { sequence: Seq<char> },
    /// A variable is not bound.
    UnknownVariable { identifier: Seq<char> },
    /// The target of a cast names no type.
    UnknownType { name: Seq<char> },
    /// A cast that neither keeps the type nor widens it.
    IllegalCast { from: SupportedTypeTag, to: SupportedTypeTag },
    /// The operands of an arithmetic operator are not two integers of one
    /// type.
    OperandMismatch { left: SupportedTypeTag, right: SupportedTypeTag },
    /// The result of an arithmetic operator does not fit the operands' type.
    Overflow,
    DivisionByZero,
    /// An operator that has no meaning yet.
    UnsupportedOperator { operator: BinaryOperator },
    /// A declaration without a type annotation.
    MissingTypeAnnotation { identifier: Seq<char> },
    /// A declaration whose right-hand side refers to a node.
    UnsupportedReference,
}

/// Why a source text could not be run.
pub enum InterpreterErrorView {
    SyntaxError { error: ParseErrorView },
    ExecutionError { error: EvaluationErrorView },
}

/// The variables in scope with their values, the latest binding last.
pub type Scope = Seq<(Seq<char>, ValueView)>;

/// The value that `name` is bound to: that of its latest binding.
pub open spec fn bound(scope: Scope, name: Seq<char>) -> Option<ValueView>
    decreases scope.len(),
{
    if scope.len() == 0 {
        None
    } else if scope.last().0 == name {
        Some(scope.last().1)
    } else {
        bound(scope.drop_last(), name)
    }
}

/// The segments of a path, with a dot between each two.
pub open spec fn joined(path: Seq<Seq<char>>) -> Seq<char>
    decreases path.len(),
{
    if path.len() == 0 {
        Seq::empty()
    } else if path.len() == 1 {
        path[0]
    } else {
        joined(path.drop_last()) + seq!['.'] + path.last()
    }
}

/// The primitive type of the given name, if the name is one of the table.
pub open spec fn named_tag(name: Seq<char>) -> Option<SupportedTypeTag> {
    if name == "bool"@ {
        Some(SupportedTypeTag::Bool)
    } else if name == "i8"@ {
        Some(SupportedTypeTag::I8)
    } else if name == "u8"@ {
        Some(SupportedTypeTag::U8)
    } else if name == "i16"@ {
        Some(SupportedTypeTag::I16)
    } else if name == "u16"@ {
        Some(SupportedTypeTag::U16)
    } else if name == "i32"@ {
        Some(SupportedTypeTag::I32)
    } else if name == "u32"@ {
        Some(SupportedTypeTag::U32)
    } else if name == "i64"@ {
        Some(SupportedTypeTag::I64)
    } else if name == "u64"@ {
        Some(SupportedTypeTag::U64)
    } else if name == "f32"@ {
        Some(SupportedTypeTag::F32)
    } else if name == "f64"@ {
        Some(SupportedTypeTag::F64)
    } else if name == "string"@ {
        Some(SupportedTypeTag::String)
    } else if name == "impulse"@ {
        Some(SupportedTypeTag::Impulse)
    } else {
        None
    }
}

/// The type that a type name resolves to: that of the table whose name the
/// joined segments read.
pub open spec fn resolved(path: Seq<Seq<char>>) -> Option<SupportedTypeTag> {
    named_tag(joined(path))
}

/// The quotient of two integers, rounded towards zero.
pub open spec fn quotient(x: int, d: int) -> int
    recommends
        d != 0,
{
    if x == 0 {
        0
    } else if x > 0 && d > 0 {
        x / d
    } else if x < 0 && d < 0 {
        (x * -1) / (d * -1)
    } else if x < 0 {
        ((x * -1) / d) * -1
    } else {
        (x / (d * -1)) * -1
    }
}

/// An arithmetic operator applied to two integers.
pub open spec fn combined(operator: BinaryOperator, x: int, y: int) -> Result<
    int,
    EvaluationErrorView,
> {
    match operator {
        BinaryOperator::Add => Ok(x + y),
        BinaryOperator::Subtract => Ok(x - y),
        BinaryOperator::Multiply => Ok(x * y),
        BinaryOperator::Divide => if y == 0 {
            Err(EvaluationErrorView::DivisionByZero)
        } else {
            Ok(quotient(x, y))
        },
        _ => Err(EvaluationErrorView::UnsupportedOperator { operator }),
    }
}

/// An arithmetic operator applied to two values: to integers of one type,
/// with a result of that type if the type holds it.
pub open spec fn arithmetic(operator: BinaryOperator, left: ValueView, right: ValueView) -> Result<
    ValueView,
    EvaluationErrorView,
> {
    if left.tag().is_integer() && left.tag() == right.tag() {
        match combined(operator, left.integer(), right.integer()) {
            Err(error) => Err(error),
            Ok(n) => if left.tag().least() <= n <= left.tag().greatest() {
                Ok(number(n, left.tag()))
            } else {
                Err(EvaluationErrorView::Overflow)
            },
        }
    } else {
        Err(EvaluationErrorView::OperandMismatch { left: left.tag(), right: right.tag() })
    }
}

/// Whether the operators of `level` are arithmetic.
pub open spec fn is_arithmetic(level: Level) -> bool {
    level == Level::Multiplicative || level == Level::Additive
}

/// The value of an expression.  An integer literal is a number of type
/// `i32`.  Of a cast the operand is evaluated first, then the type
/// resolved.  Of an arithmetic operator the left operand is evaluated first.
pub open spec fn value_of(tree: Expr, scope: Scope) -> Result<ValueView, EvaluationErrorView>
    decreases tree,
{
    match tree {
        Expr::IntegralLiteral { sequence } => match decimal_i32(sequence) {
            Some(value) => Ok(ValueView::I32(value)),
            None => Err(EvaluationErrorView::InvalidInteger { sequence }),
        },
        Expr::StringLiteral { sequence } => Ok(ValueView::String(sequence)),
        Expr::Variable { identifier } => match bound(scope, identifier) {
            Some(value) => Ok(value),
            None => Err(EvaluationErrorView::UnknownVariable { identifier }),
        },
        Expr::True => Ok(ValueView::Bool(true)),
        Expr::False => Ok(ValueView::Bool(false)),
        Expr::Parenthesized { inner } => value_of(*inner, scope),
        Expr::Cast { operand, target } => match value_of(*operand, scope) {
            Err(error) => Err(error),
            Ok(value) => match resolved(target) {
                None => Err(EvaluationErrorView::UnknownType { name: joined(target) }),
                Some(tag) => match cast_result(value, tag) {
                    Some(cast) => Ok(cast),
                    None => Err(EvaluationErrorView::IllegalCast { from: value.tag(), to: tag }),
                },
            },
        },
        Expr::Binary { operator, left, right } => if is_arithmetic(level_of(operator)) {
            match value_of(*left, scope) {
                Err(error) => Err(error),
                Ok(first) => match value_of(*right, scope) {
                    Err(error) => Err(error),
                    Ok(second) => arithmetic(operator, first, second),
                },
            }
        } else {
            Err(EvaluationErrorView::UnsupportedOperator { operator })
        },
    }
}

/// What carrying out one statement gives: the value of a bare expression,
/// and nothing for the others.  Of a declaration, which needs its type
/// annotation, the right-hand side is evaluated.
pub open spec fn effect_of(statement: StatementView, scope: Scope) -> Result<
    Option<ValueView>,
    EvaluationErrorView,
> {
    match statement {
        StatementView::NodeDeclaration { identifier, type_tag, rhs } => match type_tag {
            None => Err(EvaluationErrorView::MissingTypeAnnotation { identifier }),
            Some(_) => match rhs {
                RightHandSideView::Expression(tree) => match value_of(tree, scope) {
                    Ok(_) => Ok(None),
                    Err(error) => Err(error),
                },
                _ => Err(EvaluationErrorView::UnsupportedReference),
            },
        },
        StatementView::Print { expression } => match value_of(expression, scope) {
            Ok(value) => Ok(Some(value)),
            Err(error) => Err(error),
        },
        StatementView::Comment { .. } => Ok(None),
        StatementView::NoMoreStatements => Ok(None),
    }
}

/// What carrying out statements one after the other gives: the values of
/// the bare expressions among them, or the error of the first statement that
/// fails.
pub open spec fn run(statements: Seq<StatementView>, scope: Scope) -> Result<
    Seq<ValueView>,
    EvaluationErrorView,
>
    decreases statements.len(),
{
    if statements.len() == 0 {
        Ok(Seq::empty())
    } else {
        match run(statements.drop_last(), scope) {
            Err(error) => Err(error),
            Ok(values) => match effect_of(statements.last(), scope) {
                Err(error) => Err(error),
                Ok(Some(value)) => Ok(values.push(value)),
                Ok(None) => Ok(values),
            },
        }
    }
}

} // verus!
