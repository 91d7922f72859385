//! A small interpreter: it evaluates expressions, with their casts, and
//! carries out the statements of a program.
use crate::lexer::Lexer;
use crate::lexical::stream;
use crate::grammar::program;
use crate::parser::expression::{
    Additive, AdditiveOps, BitwiseAndExpression, BitwiseAndExpressionOp, BitwiseOrExpression,
    BitwiseOrExpressionOp, BitwiseShift, BitwiseShiftOps, BitwiseXorExpression,
    BitwiseXorExpressionOp, Cast, EqualityCheckExpression, EqualityCheckExpressionOps, First,
    LogicalAndExpression, LogicalAndExpressionOp, LogicalOrExpression, LogicalOrExpressionOp,
    Multiplicative, MultiplicativeOps, RelationCheckExpression, RelationCheckExpressionOps,
};
use crate::parser::{
    decimal_value, Identifier, ParseError, Parser, RightHandSideValue, Statement,
    UnresolvedTypeName,
};
use crate::semantics::{
    arithmetic, bound, effect_of, joined, named_tag, resolved, run, value_of,
    EvaluationErrorView, InterpreterErrorView, Scope,
};
use crate::syntax::{viewed, views_of, BinaryOperator, StatementView};
use crate::text::reads;
use crate::value::{SupportedTypeBox, SupportedTypeTag, ValueView};
use vstd::prelude::*;
use vstd::string::*;

verus! {

/// Why an expression has no value, or a statement cannot be carried out.
#[derive(Debug, Clone, PartialEq, Eq)]
pub enum EvaluationError {
    /// An integer literal writes no number of 32 bits.
    InvalidInteger { sequence: String },
    /// A variable is not bound.
    UnknownVariable { identifier: Identifier },
    /// The target of a cast names no type.
    UnknownType { name: String },
    /// A cast that neither keeps the type nor widens it.
    IllegalCast { from: SupportedTypeTag, to: SupportedTypeTag },
    /// The operands of an arithmetic operator are not two integers of one
    /// type.
    OperandMismatch { left: SupportedTypeTag, right: SupportedTypeTag },
    /// The result of an arithmetic operator does not fit the operands' type.
    Overflow,
    DivisionByZero,
    /// An operator that has no meaning yet.
    UnsupportedOperator { operator: BinaryOperator },
    /// A declaration without a type annotation.
    MissingTypeAnnotation { identifier: Identifier },
    /// A declaration whose right-hand side refers to a node.
    UnsupportedReference,
}

impl View for EvaluationError {
    type V = EvaluationErrorView;

    open spec fn view(&self) -> EvaluationErrorView {
        match self {
            EvaluationError::InvalidInteger { sequence } => EvaluationErrorView::InvalidInteger {
                sequence: sequence@,
            },
            EvaluationError::UnknownVariable { identifier } => {
                EvaluationErrorView::UnknownVariable { identifier: identifier@ }
            },
            EvaluationError::UnknownType { name } => EvaluationErrorView::UnknownType {
                name: name@,
            },
            EvaluationError::IllegalCast { from, to } => EvaluationErrorView::IllegalCast {
                from: *from,
                to: *to,
            },
            EvaluationError::OperandMismatch { left, right } => {
                EvaluationErrorView::OperandMismatch { left: *left, right: *right }
            },
            EvaluationError::Overflow => EvaluationErrorView::Overflow,
            EvaluationError::DivisionByZero => EvaluationErrorView::DivisionByZero,
            EvaluationError::UnsupportedOperator { operator } => {
                EvaluationErrorView::UnsupportedOperator { operator: *operator }
            },
            EvaluationError::MissingTypeAnnotation { identifier } => {
                EvaluationErrorView::MissingTypeAnnotation { identifier: identifier@ }
            },
            EvaluationError::UnsupportedReference => EvaluationErrorView::UnsupportedReference,
        }
    }
}

/// Why a source text could not be run.
#[derive(Debug, Clone, PartialEq, Eq)]
pub enum InterpreterError {
    SyntaxError { error: ParseError },
    ExecutionError { error: EvaluationError },
}

impl View for InterpreterError {
    type V = InterpreterErrorView;

    open spec fn view(&self) -> InterpreterErrorView {
        match self {
            InterpreterError::SyntaxError { error } => InterpreterErrorView::SyntaxError {
                error: error@,
            },
            InterpreterError::ExecutionError { error } => InterpreterErrorView::ExecutionError {
                error: error@,
            },
        }
    }
}

/// The segments of a type name, with a dot between each two.
pub fn dotted(name: &UnresolvedTypeName) -> (text: String)
    ensures
        text@ == joined(name@),
{
    let mut text = String::new();
    let n: usize = name.0.pack.len();
    let mut i: usize = 0;
    while i < n
        invariant
            n == name.0.pack@.len(),
            i <= n,
            text@ == joined(name@.take(i as int)),
        decreases n - i,
    {
        proof {
            assert(name@.take(i + 1).drop_last() =~= name@.take(i as int));
            assert(name@.take(i + 1).last() == name.0.pack@[i as int]@);
        }
        if i > 0 {
            text.push('.');
        }
        text.append(name.0.pack[i].0.as_str());
        proof {
            if i == 0 {
                assert(Seq::<char>::empty() + name.0.pack@[0]@ =~= name.0.pack@[0]@);
            } else {
                assert(joined(name@.take(i as int)).push('.') =~= joined(name@.take(i as int))
                    + seq!['.']);
            }
        }
        i = i + 1;
    }
    proof {
        assert(name@.take(n as int) =~= name@);
    }
    text
}

/// The primitive type of the given name, if the name is one of the table.
pub fn tag_named(name: &String) -> (tag: Option<SupportedTypeTag>)
    ensures
        tag == named_tag(name@),
{
    if reads(name, "bool") {
        Some(SupportedTypeTag::Bool)
    } else if reads(name, "i8") {
        Some(SupportedTypeTag::I8)
    } else if reads(name, "u8") {
        Some(SupportedTypeTag::U8)
    } else if reads(name, "i16") {
        Some(SupportedTypeTag::I16)
    } else if reads(name, "u16") {
        Some(SupportedTypeTag::U16)
    } else if reads(name, "i32") {
        Some(SupportedTypeTag::I32)
    } else if reads(name, "u32") {
        Some(SupportedTypeTag::U32)
    } else if reads(name, "i64") {
        Some(SupportedTypeTag::I64)
    } else if reads(name, "u64") {
        Some(SupportedTypeTag::U64)
    } else if reads(name, "f32") {
        Some(SupportedTypeTag::F32)
    } else if reads(name, "f64") {
        Some(SupportedTypeTag::F64)
    } else if reads(name, "string") {
        Some(SupportedTypeTag::String)
    } else if reads(name, "impulse") {
        Some(SupportedTypeTag::Impulse)
    } else {
        None
    }
}

/// An arithmetic operator applied to two numbers of type `i8`.
fn combine_i8(operator: BinaryOperator, left: i8, right: i8) -> (outcome: Result<
    SupportedTypeBox,
    EvaluationError,
>)
    ensures
        viewed(outcome) == arithmetic(operator, ValueView::I8(left), ValueView::I8(right)),
{
    let found: Option<i8> = match operator {
        BinaryOperator::Add => left.checked_add(right),
        BinaryOperator::Subtract => left.checked_sub(right),
        BinaryOperator::Multiply => left.checked_mul(right),
        BinaryOperator::Divide => {
            if right == 0 {
                return Err(EvaluationError::DivisionByZero);
            }
            left.checked_div(right)
        },
        other => {
            return Err(EvaluationError::UnsupportedOperator { operator: other });
        },
    };
    match found {
        Some(value) => Ok(SupportedTypeBox::I8(value)),
        None => Err(EvaluationError::Overflow),
    }
}

/// An arithmetic operator applied to two numbers of type `u8`.
fn combine_u8(operator: BinaryOperator, left: u8, right: u8) -> (outcome: Result<
    SupportedTypeBox,
    EvaluationError,
>)
    ensures
        viewed(outcome) == arithmetic(operator, ValueView::U8(left), ValueView::U8(right)),
{
    let found: Option<u8> = match operator {
        BinaryOperator::Add => left.checked_add(right),
        BinaryOperator::Subtract => left.checked_sub(right),
        BinaryOperator::Multiply => left.checked_mul(right),
        BinaryOperator::Divide => {
            if right == 0 {
                return Err(EvaluationError::DivisionByZero);
            }
            left.checked_div(right)
        },
        other => {
            return Err(EvaluationError::UnsupportedOperator { operator: other });
        },
    };
    match found {
        Some(value) => Ok(SupportedTypeBox::U8(value)),
        None => Err(EvaluationError::Overflow),
    }
}

/// An arithmetic operator applied to two numbers of type `i16`.
fn combine_i16(operator: BinaryOperator, left: i16, right: i16) -> (outcome: Result<
    SupportedTypeBox,
    EvaluationError,
>)
    ensures
        viewed(outcome) == arithmetic(operator, ValueView::I16(left), ValueView::I16(right)),
{
    let found: Option<i16> = match operator {
        BinaryOperator::Add => left.checked_add(right),
        BinaryOperator::Subtract => left.checked_sub(right),
        BinaryOperator::Multiply => left.checked_mul(right),
        BinaryOperator::Divide => {
            if right == 0 {
                return Err(EvaluationError::DivisionByZero);
            }
            left.checked_div(right)
        },
        other => {
            return Err(EvaluationError::UnsupportedOperator { operator: other });
        },
    };
    match found {
        Some(value) => Ok(SupportedTypeBox::I16(value)),
        None => Err(EvaluationError::Overflow),
    }
}

/// An arithmetic operator applied to two numbers of type `u16`.
fn combine_u16(operator: BinaryOperator, left: u16, right: u16) -> (outcome: Result<
    SupportedTypeBox,
    EvaluationError,
>)
    ensures
        viewed(outcome) == arithmetic(operator, ValueView::U16(left), ValueView::U16(right)),
{
    let found: Option<u16> = match operator {
        BinaryOperator::Add => left.checked_add(right),
        BinaryOperator::Subtract => left.checked_sub(right),
        BinaryOperator::Multiply => left.checked_mul(right),
        BinaryOperator::Divide => {
            if right == 0 {
                return Err(EvaluationError::DivisionByZero);
            }
            left.checked_div(right)
        },
        other => {
            return Err(EvaluationError::UnsupportedOperator { operator: other });
        },
    };
    match found {
        Some(value) => Ok(SupportedTypeBox::U16(value)),
        None => Err(EvaluationError::Overflow),
    }
}

/// An arithmetic operator applied to two numbers of type `i32`.
fn combine_i32(operator: BinaryOperator, left: i32, right: i32) -> (outcome: Result<
    SupportedTypeBox,
    EvaluationError,
>)
    ensures
        viewed(outcome) == arithmetic(operator, ValueView::I32(left), ValueView::I32(right)),
{
    let found: Option<i32> = match operator {
        BinaryOperator::Add => left.checked_add(right),
        BinaryOperator::Subtract => left.checked_sub(right),
        BinaryOperator::Multiply => left.checked_mul(right),
        BinaryOperator::Divide => {
            if right == 0 {
                return Err(EvaluationError::DivisionByZero);
            }
            left.checked_div(right)
        },
        other => {
            return Err(EvaluationError::UnsupportedOperator { operator: other });
        },
    };
    match found {
        Some(value) => Ok(SupportedTypeBox::I32(value)),
        None => Err(EvaluationError::Overflow),
    }
}

/// An arithmetic operator applied to two numbers of type `u32`.
fn combine_u32(operator: BinaryOperator, left: u32, right: u32) -> (outcome: Result<
    SupportedTypeBox,
    EvaluationError,
>)
    ensures
        viewed(outcome) == arithmetic(operator, ValueView::U32(left), ValueView::U32(right)),
{
    let found: Option<u32> = match operator {
        BinaryOperator::Add => left.checked_add(right),
        BinaryOperator::Subtract => left.checked_sub(right),
        BinaryOperator::Multiply => left.checked_mul(right),
        BinaryOperator::Divide => {
            if right == 0 {
                return Err(EvaluationError::DivisionByZero);
            }
            left.checked_div(right)
        },
        other => {
            return Err(EvaluationError::UnsupportedOperator { operator: other });
        },
    };
    match found {
        Some(value) => Ok(SupportedTypeBox::U32(value)),
        None => Err(EvaluationError::Overflow),
    }
}

/// An arithmetic operator applied to two numbers of type `i64`.
fn combine_i64(operator: BinaryOperator, left: i64, right: i64) -> (outcome: Result<
    SupportedTypeBox,
    EvaluationError,
>)
    ensures
        viewed(outcome) == arithmetic(operator, ValueView::I64(left), ValueView::I64(right)),
{
    let found: Option<i64> = match operator {
        BinaryOperator::Add => left.checked_add(right),
        BinaryOperator::Subtract => left.checked_sub(right),
        BinaryOperator::Multiply => left.checked_mul(right),
        BinaryOperator::Divide => {
            if right == 0 {
                return Err(EvaluationError::DivisionByZero);
            }
            left.checked_div(right)
        },
        other => {
            return Err(EvaluationError::UnsupportedOperator { operator: other });
        },
    };
    match found {
        Some(value) => Ok(SupportedTypeBox::I64(value)),
        None => Err(EvaluationError::Overflow),
    }
}

/// An arithmetic operator applied to two numbers of type `u64`.
fn combine_u64(operator: BinaryOperator, left: u64, right: u64) -> (outcome: Result<
    SupportedTypeBox,
    EvaluationError,
>)
    ensures
        viewed(outcome) == arithmetic(operator, ValueView::U64(left), ValueView::U64(right)),
{
    let found: Option<u64> = match operator {
        BinaryOperator::Add => left.checked_add(right),
        BinaryOperator::Subtract => left.checked_sub(right),
        BinaryOperator::Multiply => left.checked_mul(right),
        BinaryOperator::Divide => {
            if right == 0 {
                return Err(EvaluationError::DivisionByZero);
            }
            left.checked_div(right)
        },
        other => {
            return Err(EvaluationError::UnsupportedOperator { operator: other });
        },
    };
    match found {
        Some(value) => Ok(SupportedTypeBox::U64(value)),
        None => Err(EvaluationError::Overflow),
    }
}

/// An arithmetic operator applied to two values, which have to be integers
/// of one type.  The result is of that type; where the type does not hold
/// it, that is an overflow.
pub fn apply(operator: BinaryOperator, left: SupportedTypeBox, right: SupportedTypeBox) -> (outcome: Result<
    SupportedTypeBox,
    EvaluationError,
>)
    ensures
        viewed(outcome) == arithmetic(operator, left@, right@),
{
    match (&left, &right) {
        (SupportedTypeBox::I8(x), SupportedTypeBox::I8(y)) => combine_i8(operator, *x, *y),
        (SupportedTypeBox::U8(x), SupportedTypeBox::U8(y)) => combine_u8(operator, *x, *y),
        (SupportedTypeBox::I16(x), SupportedTypeBox::I16(y)) => combine_i16(operator, *x, *y),
        (SupportedTypeBox::U16(x), SupportedTypeBox::U16(y)) => combine_u16(operator, *x, *y),
        (SupportedTypeBox::I32(x), SupportedTypeBox::I32(y)) => combine_i32(operator, *x, *y),
        (SupportedTypeBox::U32(x), SupportedTypeBox::U32(y)) => combine_u32(operator, *x, *y),
        (SupportedTypeBox::I64(x), SupportedTypeBox::I64(y)) => combine_i64(operator, *x, *y),
        (SupportedTypeBox::U64(x), SupportedTypeBox::U64(y)) => combine_u64(operator, *x, *y),
        _ => Err(EvaluationError::OperandMismatch { left: left.tag(), right: right.tag() }),
    }
}

/// The interpreter: the variables in scope, with their values.
pub struct TestInterpreter {
    scope: Vec<(Identifier, SupportedTypeBox)>,
}

impl View for TestInterpreter {
    type V = Scope;

    closed spec fn view(&self) -> Scope {
        Seq::new(self.scope@.len(), |i: int| (self.scope@[i].0@, self.scope@[i].1@))
    }
}

impl TestInterpreter {
    /// An interpreter with no variable in scope.
    pub fn new() -> (interpreter: Self)
        ensures
            interpreter@ == Seq::<(Seq<char>, ValueView)>::empty(),
    {
        let interpreter = Self { scope: Vec::new() };
        assert(interpreter@ =~= Seq::<(Seq<char>, ValueView)>::empty());
        interpreter
    }

    /// Binds `identifier` to `value`.  An earlier binding of the identifier
    /// is hidden.
    pub fn define(&mut self, identifier: Identifier, value: SupportedTypeBox)
        ensures
            final(self)@ == old(self)@.push((identifier@, value@)),
    {
        self.scope.push((identifier, value));
        assert(self@ =~= old(self)@.push((identifier@, value@)));
    }

    /// The value that `identifier` is bound to.
    pub fn lookup(&self, identifier: &Identifier) -> (value: Option<SupportedTypeBox>)
        ensures
            match value {
                Some(found) => bound(self@, identifier@) == Some(found@),
                None => bound(self@, identifier@) is None,
            },
    {
        let mut i: usize = self.scope.len();
        proof {
            assert(self@.take(i as int) =~= self@);
        }
        while i > 0
            invariant
                i <= self.scope@.len(),
                bound(self@, identifier@) == bound(self@.take(i as int), identifier@),
            decreases i,
        {
            proof {
                assert(self@.take(i as int).drop_last() =~= self@.take(i - 1));
                assert(self@.take(i as int).last() == self@[i - 1]);
            }
            i = i - 1;
            if self.scope[i].0.0 == identifier.0 {
                return Some(self.scope[i].1.duplicate());
            }
        }
        None
    }

    /// The type that a type name resolves to: its segments are joined with
    /// dots, and the result is looked up in the table of the primitive
    /// types.
    pub fn resolve_dynamic(&self, t: &UnresolvedTypeName) -> (tag: Option<SupportedTypeTag>)
        ensures
            tag == resolved(t@),
    {
        let name = dotted(t);
        tag_named(&name)
    }

    /// Carries out a declaration: it needs its type annotation, and its
    /// right-hand side, which has to be an expression, is evaluated.
    pub fn declare(
        &self,
        identifier: &Identifier,
        type_tag: &Option<UnresolvedTypeName>,
        rhs: &RightHandSideValue,
    ) -> (outcome: Result<(), EvaluationError>)
        ensures
            effect_of(
                StatementView::NodeDeclaration {
                    identifier: identifier@,
                    type_tag: match type_tag {
                        Some(name) => Some(name@),
                        None => None,
                    },
                    rhs: rhs@,
                },
                self@,
            ) == match outcome {
                Ok(_) => Ok::<Option<ValueView>, EvaluationErrorView>(None),
                Err(error) => Err::<Option<ValueView>, EvaluationErrorView>(error@),
            },
    {
        if type_tag.is_none() {
            return Err(
                EvaluationError::MissingTypeAnnotation {
                    identifier: Identifier(identifier.0.clone()),
                },
            );
        }
        match rhs {
            RightHandSideValue::Expression(tree) => match tree.evaluate(self) {
                Ok(_) => Ok(()),
                Err(error) => Err(error),
            },
            RightHandSideValue::Identifier(_) => Err(EvaluationError::UnsupportedReference),
            RightHandSideValue::MemberPath(_) => Err(EvaluationError::UnsupportedReference),
        }
    }

    /// Carries out one statement: a bare expression gives its value, a
    /// declaration, a comment and the end of input give nothing.
    pub fn step(&self, statement: &Statement) -> (outcome: Result<Option<SupportedTypeBox>, EvaluationError>)
        ensures
            effect_of(statement@, self@) == match outcome {
                Ok(Some(value)) => Ok::<Option<ValueView>, EvaluationErrorView>(Some(value@)),
                Ok(None) => Ok::<Option<ValueView>, EvaluationErrorView>(None),
                Err(error) => Err::<Option<ValueView>, EvaluationErrorView>(error@),
            },
    {
        match statement {
            Statement::NodeDeclaration { identifier, type_tag, rhs } => {
                match self.declare(identifier, type_tag, rhs) {
                    Ok(_) => Ok(None),
                    Err(error) => Err(error),
                }
            },
            Statement::Print { expression } => match expression.evaluate(self) {
                Ok(value) => Ok(Some(value)),
                Err(error) => Err(error),
            },
            Statement::Comment { .. } => Ok(None),
            Statement::NoMoreStatements => Ok(None),
        }
    }

    /// Carries out the statements one after the other and gives the values
    /// of the bare expressions among them.  The first statement that fails
    /// ends the run with its error.
    pub fn execute(self, statements: Vec<Statement>) -> (outcome: Result<
        Vec<SupportedTypeBox>,
        InterpreterError,
    >)
        ensures
            match outcome {
                Ok(values) => run(views_of(statements@), self@) == Ok::<
                    Seq<ValueView>,
                    EvaluationErrorView,
                >(views_of(values@)),
                Err(failure) => failure matches InterpreterError::ExecutionError { error }
                    && run(views_of(statements@), self@) == Err::<
                    Seq<ValueView>,
                    EvaluationErrorView,
                >(error@),
            },
    {
        let ghost all = views_of(statements@);
        let mut values: Vec<SupportedTypeBox> = Vec::new();
        let n: usize = statements.len();
        let mut i: usize = 0;
        proof {
            assert(views_of(values@) =~= Seq::<ValueView>::empty());
        }
        while i < n
            invariant
                n == statements@.len(),
                all == views_of(statements@),
                i <= n,
                run(all.take(i as int), self@) == Ok::<Seq<ValueView>, EvaluationErrorView>(
                    views_of(values@),
                ),
            decreases n - i,
        {
            proof {
                assert(all.take(i + 1).drop_last() =~= all.take(i as int));
                assert(all.take(i + 1).last() == statements@[i as int]@);
                lemma_run_prefix(all, (i + 1) as nat, self@);
            }
            let ghost before = values@;
            match self.step(&statements[i]) {
                Ok(Some(value)) => {
                    let ghost last = value;
                    values.push(value);
                    proof {
                        crate::syntax::lemma_views_push(before, last, Seq::empty());
                    }
                },
                Ok(None) => {},
                Err(error) => {
                    return Err(InterpreterError::ExecutionError { error });
                },
            }
            i = i + 1;
        }
        proof {
            assert(all.take(n as int) =~= all);
        }
        Ok(values)
    }

    /// Parses `src` and carries its statements out, with no variable in
    /// scope.
    pub fn create_and_execute(src: &str) -> (outcome: Result<Vec<SupportedTypeBox>, InterpreterError>)
        ensures
            match program(stream(src@, 0), 0).outcome {
                Err(syntax) => outcome matches Err(InterpreterError::SyntaxError { error })
                    && error@ == syntax,
                Ok(statements) => match outcome {
                    Ok(values) => run(statements, Seq::empty()) == Ok::<
                        Seq<ValueView>,
                        EvaluationErrorView,
                    >(views_of(values@)),
                    Err(failure) => failure matches InterpreterError::ExecutionError { error }
                        && run(statements, Seq::empty()) == Err::<
                        Seq<ValueView>,
                        EvaluationErrorView,
                    >(error@),
                },
            },
    {
        let interpreter = TestInterpreter::new();
        let mut parser = Parser::with_lexer(Lexer::create(src));
        match parser.parse_program() {
            Ok(root_ast) => interpreter.execute(root_ast.commands),
            Err(error) => Err(InterpreterError::SyntaxError { error }),
        }
    }
}

/// Where the run of the first statements fails, the run of all of them fails
/// in the same way.
proof fn lemma_run_prefix(statements: Seq<StatementView>, length: nat, scope: Scope)
    requires
        length <= statements.len(),
    ensures
        run(statements.take(length as int), scope) matches Err(error) ==> run(statements, scope)
            == Err::<Seq<ValueView>, EvaluationErrorView>(error),
    decreases statements.len() - length,
{
    if length < statements.len() {
        lemma_run_prefix(statements, length + 1, scope);
        assert(statements.take((length + 1) as int).drop_last() =~= statements.take(
            length as int,
        ));
    } else {
        assert(statements.take(length as int) =~= statements);
    }
}

impl First {
    /// The value of the term.  An integer literal is a number of type
    /// `i32`.
    pub fn evaluate(&self, interpreter: &TestInterpreter) -> (value: Result<
        SupportedTypeBox,
        EvaluationError,
    >)
        ensures
            viewed(value) == value_of(self@, interpreter@),
        decreases self,
    {
        match self {
            First::IntegralLiteral { sequence } => match decimal_value(sequence) {
                Some(value) => Ok(SupportedTypeBox::I32(value)),
                None => Err(EvaluationError::InvalidInteger { sequence: sequence.clone() }),
            },
            First::StringLiteral { sequence } => Ok(SupportedTypeBox::String(sequence.clone())),
            First::Variable { identifier } => match interpreter.lookup(identifier) {
                Some(value) => Ok(value),
                None => Err(
                    EvaluationError::UnknownVariable {
                        identifier: Identifier(identifier.0.clone()),
                    },
                ),
            },
            First::True => Ok(SupportedTypeBox::Bool(true)),
            First::False => Ok(SupportedTypeBox::Bool(false)),
            First::Parenthesized { inner } => inner.evaluate(interpreter),
        }
    }
}

impl Cast {
    /// The value of the cast.  The operand is evaluated first; then the
    /// type name is resolved, which has to name a type; then the value is
    /// cast, which has to be legal.
    pub fn evaluate(&self, interpreter: &TestInterpreter) -> (value: Result<
        SupportedTypeBox,
        EvaluationError,
    >)
        ensures
            viewed(value) == value_of(self@, interpreter@),
        decreases self,
    {
        match self {
            Cast::Do { lhs, tp } => {
                let lhs = lhs.evaluate(interpreter)?;
                match interpreter.resolve_dynamic(tp) {
                    Some(into) => match lhs.cast(into) {
                        Ok(cast) => Ok(cast),
                        Err(refused) => Err(
                            EvaluationError::IllegalCast { from: refused.tag(), to: into },
                        ),
                    },
                    None => Err(EvaluationError::UnknownType { name: dotted(tp) }),
                }
            },
            Cast::Propagated(a) => a.evaluate(interpreter),
        }
    }
}

impl MultiplicativeOps {
    /// The operator, among those of all levels.
    pub fn to_operator(self) -> (operator: BinaryOperator)
        ensures
            operator == self.operator(),
    {
        match self {
            MultiplicativeOps::Multiply => BinaryOperator::Multiply,
            MultiplicativeOps::Divide => BinaryOperator::Divide,
            MultiplicativeOps::Remainder => BinaryOperator::Remainder,
        }
    }
}

impl Multiplicative {
    /// The value of the node.  Both operands are evaluated, the left one
    /// first; they have to be integers of one type, and the result has to
    /// fit that type.
    pub fn evaluate(&self, interpreter: &TestInterpreter) -> (value: Result<
        SupportedTypeBox,
        EvaluationError,
    >)
        ensures
            viewed(value) == value_of(self@, interpreter@),
        decreases self,
    {
        match self {
            Multiplicative::Binary { operator, lhs, rhs } => {
                let lhs = lhs.evaluate(interpreter)?;
                let rhs = rhs.evaluate(interpreter)?;
                apply(operator.to_operator(), lhs, rhs)
            },
            Multiplicative::Propagated(a) => a.evaluate(interpreter),
        }
    }
}

impl AdditiveOps {
    /// The operator, among those of all levels.
    pub fn to_operator(self) -> (operator: BinaryOperator)
        ensures
            operator == self.operator(),
    {
        match self {
            AdditiveOps::Add => BinaryOperator::Add,
            AdditiveOps::Subtract => BinaryOperator::Subtract,
        }
    }
}

impl Additive {
    /// The value of the node.  Both operands are evaluated, the left one
    /// first; they have to be integers of one type, and the result has to
    /// fit that type.
    pub fn evaluate(&self, interpreter: &TestInterpreter) -> (value: Result<
        SupportedTypeBox,
        EvaluationError,
    >)
        ensures
            viewed(value) == value_of(self@, interpreter@),
        decreases self,
    {
        match self {
            Additive::Binary { operator, lhs, rhs } => {
                let lhs = lhs.evaluate(interpreter)?;
                let rhs = rhs.evaluate(interpreter)?;
                apply(operator.to_operator(), lhs, rhs)
            },
            Additive::Propagated(a) => a.evaluate(interpreter),
        }
    }
}

impl BitwiseShiftOps {
    /// The operator, among those of all levels.
    pub fn to_operator(self) -> (operator: BinaryOperator)
        ensures
            operator == self.operator(),
    {
        match self {
            BitwiseShiftOps::LeftShift => BinaryOperator::LeftShift,
            BitwiseShiftOps::RightShift => BinaryOperator::RightShift,
        }
    }
}

impl BitwiseShift {
    /// The value of the node.  The operators of this level have no meaning
    /// yet: only a node of the next tighter level that is passed on has a
    /// value.
    pub fn evaluate(&self, interpreter: &TestInterpreter) -> (value: Result<
        SupportedTypeBox,
        EvaluationError,
    >)
        ensures
            viewed(value) == value_of(self@, interpreter@),
        decreases self,
    {
        match self {
            BitwiseShift::Binary { operator, .. } => Err(
                EvaluationError::UnsupportedOperator { operator: operator.to_operator() },
            ),
            BitwiseShift::Propagated(a) => a.evaluate(interpreter),
        }
    }
}

impl RelationCheckExpressionOps {
    /// The operator, among those of all levels.
    pub fn to_operator(self) -> (operator: BinaryOperator)
        ensures
            operator == self.operator(),
    {
        match self {
            RelationCheckExpressionOps::Less => BinaryOperator::Less,
            RelationCheckExpressionOps::LessEqual => BinaryOperator::LessEqual,
            RelationCheckExpressionOps::More => BinaryOperator::More,
            RelationCheckExpressionOps::MoreEqual => BinaryOperator::MoreEqual,
            RelationCheckExpressionOps::Spaceship => BinaryOperator::Spaceship,
        }
    }
}

impl RelationCheckExpression {
    /// The value of the node.  The operators of this level have no meaning
    /// yet: only a node of the next tighter level that is passed on has a
    /// value.
    pub fn evaluate(&self, interpreter: &TestInterpreter) -> (value: Result<
        SupportedTypeBox,
        EvaluationError,
    >)
        ensures
            viewed(value) == value_of(self@, interpreter@),
        decreases self,
    {
        match self {
            RelationCheckExpression::Binary { operator, .. } => Err(
                EvaluationError::UnsupportedOperator { operator: operator.to_operator() },
            ),
            RelationCheckExpression::Propagated(a) => a.evaluate(interpreter),
        }
    }
}

impl EqualityCheckExpressionOps {
    /// The operator, among those of all levels.
    pub fn to_operator(self) -> (operator: BinaryOperator)
        ensures
            operator == self.operator(),
    {
        match self {
            EqualityCheckExpressionOps::Equal => BinaryOperator::Equal,
            EqualityCheckExpressionOps::NotEqual => BinaryOperator::NotEqual,
        }
    }
}

impl EqualityCheckExpression {
    /// The value of the node.  The operators of this level have no meaning
    /// yet: only a node of the next tighter level that is passed on has a
    /// value.
    pub fn evaluate(&self, interpreter: &TestInterpreter) -> (value: Result<
        SupportedTypeBox,
        EvaluationError,
    >)
        ensures
            viewed(value) == value_of(self@, interpreter@),
        decreases self,
    {
        match self {
            EqualityCheckExpression::Binary { operator, .. } => Err(
                EvaluationError::UnsupportedOperator { operator: operator.to_operator() },
            ),
            EqualityCheckExpression::Propagated(a) => a.evaluate(interpreter),
        }
    }
}

impl BitwiseAndExpressionOp {
    /// The operator, among those of all levels.
    pub fn to_operator(self) -> (operator: BinaryOperator)
        ensures
            operator == self.operator(),
    {
        match self {
            BitwiseAndExpressionOp::BitwiseAnd => BinaryOperator::BitwiseAnd,
        }
    }
}

impl BitwiseAndExpression {
    /// The value of the node.  The operators of this level have no meaning
    /// yet: only a node of the next tighter level that is passed on has a
    /// value.
    pub fn evaluate(&self, interpreter: &TestInterpreter) -> (value: Result<
        SupportedTypeBox,
        EvaluationError,
    >)
        ensures
            viewed(value) == value_of(self@, interpreter@),
        decreases self,
    {
        match self {
            BitwiseAndExpression::Binary { operator, .. } => Err(
                EvaluationError::UnsupportedOperator { operator: operator.to_operator() },
            ),
            BitwiseAndExpression::Propagated(a) => a.evaluate(interpreter),
        }
    }
}

impl BitwiseXorExpressionOp {
    /// The operator, among those of all levels.
    pub fn to_operator(self) -> (operator: BinaryOperator)
        ensures
            operator == self.operator(),
    {
        match self {
            BitwiseXorExpressionOp::BitwiseXor => BinaryOperator::BitwiseXor,
        }
    }
}

impl BitwiseXorExpression {
    /// The value of the node.  The operators of this level have no meaning
    /// yet: only a node of the next tighter level that is passed on has a
    /// value.
    pub fn evaluate(&self, interpreter: &TestInterpreter) -> (value: Result<
        SupportedTypeBox,
        EvaluationError,
    >)
        ensures
            viewed(value) == value_of(self@, interpreter@),
        decreases self,
    {
        match self {
            BitwiseXorExpression::Binary { operator, .. } => Err(
                EvaluationError::UnsupportedOperator { operator: operator.to_operator() },
            ),
            BitwiseXorExpression::Propagated(a) => a.evaluate(interpreter),
        }
    }
}

impl BitwiseOrExpressionOp {
    /// The operator, among those of all levels.
    pub fn to_operator(self) -> (operator: BinaryOperator)
        ensures
            operator == self.operator(),
    {
        match self {
            BitwiseOrExpressionOp::BitwiseOr => BinaryOperator::BitwiseOr,
        }
    }
}

impl BitwiseOrExpression {
    /// The value of the node.  The operators of this level have no meaning
    /// yet: only a node of the next tighter level that is passed on has a
    /// value.
    pub fn evaluate(&self, interpreter: &TestInterpreter) -> (value: Result<
        SupportedTypeBox,
        EvaluationError,
    >)
        ensures
            viewed(value) == value_of(self@, interpreter@),
        decreases self,
    {
        match self {
            BitwiseOrExpression::Binary { operator, .. } => Err(
                EvaluationError::UnsupportedOperator { operator: operator.to_operator() },
            ),
            BitwiseOrExpression::Propagated(a) => a.evaluate(interpreter),
        }
    }
}

impl LogicalAndExpressionOp {
    /// The operator, among those of all levels.
    pub fn to_operator(self) -> (operator: BinaryOperator)
        ensures
            operator == self.operator(),
    {
        match self {
            LogicalAndExpressionOp::LogicalAnd => BinaryOperator::LogicalAnd,
        }
    }
}

impl LogicalAndExpression {
    /// The value of the node.  The operators of this level have no meaning
    /// yet: only a node of the next tighter level that is passed on has a
    /// value.
    pub fn evaluate(&self, interpreter: &TestInterpreter) -> (value: Result<
        SupportedTypeBox,
        EvaluationError,
    >)
        ensures
            viewed(value) == value_of(self@, interpreter@),
        decreases self,
    {
        match self {
            LogicalAndExpression::Binary { operator, .. } => Err(
                EvaluationError::UnsupportedOperator { operator: operator.to_operator() },
            ),
            LogicalAndExpression::Propagated(a) => a.evaluate(interpreter),
        }
    }
}

impl LogicalOrExpressionOp {
    /// The operator, among those of all levels.
    pub fn to_operator(self) -> (operator: BinaryOperator)
        ensures
            operator == self.operator(),
    {
        match self {
            LogicalOrExpressionOp::LogicalOr => BinaryOperator::LogicalOr,
        }
    }
}

impl LogicalOrExpression {
    /// The value of the node.  The operators of this level have no meaning
    /// yet: only a node of the next tighter level that is passed on has a
    /// value.
    pub fn evaluate(&self, interpreter: &TestInterpreter) -> (value: Result<
        SupportedTypeBox,
        EvaluationError,
    >)
        ensures
            viewed(value) == value_of(self@, interpreter@),
        decreases self,
    {
        match self {
            LogicalOrExpression::Binary { operator, .. } => Err(
                EvaluationError::UnsupportedOperator { operator: operator.to_operator() },
            ),
            LogicalOrExpression::Propagated(a) => a.evaluate(interpreter),
        }
    }
}

} // verus!
