//! The grammar, as mathematics: what each rule of the parser makes of a
//! sequence of lexemes.
//!
//! Every rule is a function of the lexemes and of the index at which it
//! starts.  It gives the value parsed or the error, and the number of lexemes
//! that it took.  A rule looks before it takes: of the lexeme that it
//! rejects, and of the end of input, it takes nothing.
use crate::syntax::{
    operator_at, ExpectedView, Expr, Level, ParseErrorView, RightHandSideView, StatementView,
};
use crate::token::{LexError, Lexeme, TokenView};
use vstd::prelude::*;

verus! {

/// What a rule made of the lexemes from some index on.
pub struct Parsed<T> {
    /// The value parsed, or the first error.
    pub outcome: Result<T, ParseErrorView>,
    /// The number of lexemes taken.
    pub consumed: nat,
}

/// The lexeme at index `at`; behind the last one the input has ended.
pub open spec fn lookahead(toks: Seq<Lexeme>, at: nat) -> Lexeme {
    if at < toks.len() {
        toks[at as int]
    } else {
        Ok(TokenView::EndOfFile)
    }
}

/// The number of lexemes from index `at` on.
pub open spec fn left(toks: Seq<Lexeme>, at: nat) -> nat {
    if at < toks.len() {
        (toks.len() - at) as nat
    } else {
        0
    }
}

/// The error for a lexeme that stands where `expected` was wanted.
pub open spec fn unexpected(lexeme: Lexeme, expected: ExpectedView) -> ParseErrorView {
    match lexeme {
        Ok(found) => ParseErrorView::UnexpectedToken { found, expected },
        Err(error) => ParseErrorView::Lexical { error },
    }
}

/// The rule gave `value` and took `consumed` lexemes.
pub open spec fn accepted<T>(value: T, consumed: nat) -> Parsed<T> {
    Parsed { outcome: Ok(value), consumed }
}

/// The rule failed with `error` after it had taken `consumed` lexemes.
pub open spec fn rejected<T>(error: ParseErrorView, consumed: nat) -> Parsed<T> {
    Parsed { outcome: Err(error), consumed }
}

/// `parsed`, reached after `lead` lexemes had been taken.
pub open spec fn after<T>(lead: nat, parsed: Parsed<T>) -> Parsed<T> {
    Parsed { outcome: parsed.outcome, consumed: lead + parsed.consumed }
}

/// The number that a run of decimal digits writes; none where the text is
/// empty or holds anything but digits.
pub open spec fn decimal(digits: Seq<char>) -> Option<nat>
    decreases digits.len(),
{
    if digits.len() == 0 {
        None
    } else if !('0' <= digits.last() <= '9') {
        None
    } else if digits.len() == 1 {
        Some((digits.last() as nat - '0' as nat) as nat)
    } else {
        match decimal(digits.drop_last()) {
            Some(high) => Some(high * 10 + (digits.last() as nat - '0' as nat) as nat),
            None => None,
        }
    }
}

/// The number of 32 bits that a run of decimal digits writes, if it writes
/// one.
pub open spec fn decimal_i32(digits: Seq<char>) -> Option<i32> {
    match decimal(digits) {
        Some(value) => if value <= i32::MAX {
            Some(value as i32)
        } else {
            None
        },
        None => None,
    }
}

/// An integer literal: a run of digits that writes a number of 32 bits.
pub open spec fn integer(toks: Seq<Lexeme>, at: nat) -> Parsed<i32> {
    match lookahead(toks, at) {
        Ok(TokenView::Digits { sequence }) => match decimal_i32(sequence) {
            Some(value) => accepted(value, 1),
            None => rejected(ParseErrorView::InvalidInteger { sequence }, 0),
        },
        other => rejected(unexpected(other, ExpectedView::IntegralLiteral), 0),
    }
}

/// Exactly the token `wanted`, which is taken unless it is the end of input.
pub open spec fn exactly(toks: Seq<Lexeme>, at: nat, wanted: TokenView) -> Parsed<()> {
    if lookahead(toks, at) == Ok::<TokenView, LexError>(wanted) {
        accepted(
            (),
            if wanted == TokenView::EndOfFile {
                0
            } else {
                1
            },
        )
    } else {
        rejected(unexpected(lookahead(toks, at), ExpectedView::Token(wanted)), 0)
    }
}

/// One segment of a dotted path: an identifier.
pub open spec fn segment(toks: Seq<Lexeme>, at: nat) -> Parsed<Seq<char>> {
    match lookahead(toks, at) {
        Ok(TokenView::Identifier { inner }) => accepted(inner, 1),
        other => rejected(unexpected(other, ExpectedView::Identifier), 0),
    }
}

/// A dotted path: one segment, or several with a dot between each two.
pub open spec fn path(toks: Seq<Lexeme>, at: nat) -> Parsed<Seq<Seq<char>>>
    decreases left(toks, at),
{
    let head = segment(toks, at);
    match head.outcome {
        Err(error) => rejected(error, head.consumed),
        Ok(name) => match lookahead(toks, at + head.consumed) {
            Ok(TokenView::SymDot) => {
                let rest = path(toks, at + head.consumed + 1);
                match rest.outcome {
                    Err(error) => rejected(error, head.consumed + 1 + rest.consumed),
                    Ok(names) => accepted(seq![name] + names, head.consumed + 1 + rest.consumed),
                }
            },
            _ => accepted(seq![name], head.consumed),
        },
    }
}

/// A primary term: a literal, a variable, or an additive expression in
/// parentheses.
pub open spec fn primary(toks: Seq<Lexeme>, at: nat) -> Parsed<Expr>
    decreases left(toks, at), 0nat, 0nat,
{
    match lookahead(toks, at) {
        Ok(TokenView::Identifier { inner }) => accepted(Expr::Variable { identifier: inner }, 1),
        Ok(TokenView::Digits { sequence }) => accepted(Expr::IntegralLiteral { sequence }, 1),
        Ok(TokenView::StringLiteral { content }) => accepted(
            Expr::StringLiteral { sequence: content },
            1,
        ),
        Ok(TokenView::KeywordTrue) => accepted(Expr::True, 1),
        Ok(TokenView::KeywordFalse) => accepted(Expr::False, 1),
        Ok(TokenView::SymLeftPar) => {
            let inner = expression(Level::Additive, toks, at + 1);
            match inner.outcome {
                Err(error) => rejected(error, 1 + inner.consumed),
                Ok(tree) => match lookahead(toks, at + 1 + inner.consumed) {
                    Ok(TokenView::SymRightPar) => accepted(
                        Expr::Parenthesized { inner: Box::new(tree) },
                        2 + inner.consumed,
                    ),
                    other => rejected(
                        unexpected(other, ExpectedView::Token(TokenView::SymRightPar)),
                        1 + inner.consumed,
                    ),
                },
            }
        },
        other => rejected(unexpected(other, ExpectedView::Operand), 0),
    }
}

/// What follows the operand `operand` of a cast at index `at`: as long as
/// `as` and a type name follow, the cast of what is there so far.
pub open spec fn cast_tail(toks: Seq<Lexeme>, at: nat, operand: Expr) -> Parsed<Expr>
    decreases left(toks, at), 1nat, 0nat,
{
    match lookahead(toks, at) {
        Ok(TokenView::KeywordAs) => {
            let name = path(toks, at + 1);
            match name.outcome {
                Err(error) => rejected(error, 1 + name.consumed),
                Ok(target) => after(
                    1 + name.consumed,
                    cast_tail(
                        toks,
                        at + 1 + name.consumed,
                        Expr::Cast { operand: Box::new(operand), target },
                    ),
                ),
            }
        },
        _ => accepted(operand, 0),
    }
}

/// What follows the left operand `left_operand` of a binary level at index
/// `at`: as long as an operator of the level and an operand of the next
/// tighter level follow, the operator applied to what is there so far and
/// to that operand.  All operators of a level thus associate to the left.
pub open spec fn binary_tail(level: Level, toks: Seq<Lexeme>, at: nat, left_operand: Expr) -> Parsed<
    Expr,
>
    decreases left(toks, at), level.rank(), 0nat,
{
    match operator_at(level, lookahead(toks, at)) {
        Some(operator) => {
            let right = expression(level.tighter(), toks, at + 1);
            match right.outcome {
                Err(error) => rejected(error, 1 + right.consumed),
                Ok(operand) => after(
                    1 + right.consumed,
                    binary_tail(
                        level,
                        toks,
                        at + 1 + right.consumed,
                        Expr::Binary {
                            operator,
                            left: Box::new(left_operand),
                            right: Box::new(operand),
                        },
                    ),
                ),
            }
        },
        None => accepted(left_operand, 0),
    }
}

/// An expression of `level`: one of the next tighter level, and what follows
/// it at this level.
pub open spec fn expression(level: Level, toks: Seq<Lexeme>, at: nat) -> Parsed<Expr>
    decreases left(toks, at), level.rank(), 1nat,
{
    match level {
        Level::Primary => primary(toks, at),
        Level::Cast => {
            let first = primary(toks, at);
            match first.outcome {
                Err(error) => rejected(error, first.consumed),
                Ok(operand) => after(
                    first.consumed,
                    cast_tail(toks, at + first.consumed, operand),
                ),
            }
        },
        _ => {
            let first = expression(level.tighter(), toks, at);
            match first.outcome {
                Err(error) => rejected(error, first.consumed),
                Ok(operand) => after(
                    first.consumed,
                    binary_tail(level, toks, at + first.consumed, operand),
                ),
            }
        },
    }
}

/// A full expression, as it stands alone or to the right of `=`.
pub open spec fn full_expression(toks: Seq<Lexeme>, at: nat) -> Parsed<Expr> {
    expression(Level::LogicalOr, toks, at)
}

/// The right-hand side of a declaration.  An identifier at the end of the
/// statement is a reference to a node; an identifier before a dot starts a
/// member path; everything else is a full expression.
pub open spec fn right_hand_side(toks: Seq<Lexeme>, at: nat) -> Parsed<RightHandSideView> {
    let reference = match lookahead(toks, at) {
        Ok(TokenView::Identifier { inner }) => match lookahead(toks, at + 1) {
            Ok(TokenView::NewLine) | Ok(TokenView::EndOfFile) => Some(
                accepted(RightHandSideView::Identifier(inner), 1),
            ),
            Ok(TokenView::SymDot) => {
                let names = path(toks, at);
                Some(
                    match names.outcome {
                        Err(error) => rejected(error, names.consumed),
                        Ok(pack) => accepted(RightHandSideView::MemberPath(pack), names.consumed),
                    },
                )
            },
            _ => None,
        },
        _ => None,
    };
    match reference {
        Some(parsed) => parsed,
        None => {
            let value = full_expression(toks, at);
            match value.outcome {
                Err(error) => rejected(error, value.consumed),
                Ok(tree) => accepted(RightHandSideView::Expression(tree), value.consumed),
            }
        },
    }
}

/// The optional type annotation of a declaration: a colon and a type name.
pub open spec fn type_annotation(toks: Seq<Lexeme>, at: nat) -> Parsed<Option<Seq<Seq<char>>>> {
    match lookahead(toks, at) {
        Ok(TokenView::SymColon) => {
            let name = path(toks, at + 1);
            match name.outcome {
                Err(error) => rejected(error, 1 + name.consumed),
                Ok(target) => accepted(Some(target), 1 + name.consumed),
            }
        },
        _ => accepted(None, 0),
    }
}

/// A declaration: `var`, an identifier, the optional type annotation, `=`
/// and the right-hand side.
pub open spec fn declaration(toks: Seq<Lexeme>, at: nat) -> Parsed<StatementView> {
    match lookahead(toks, at) {
        Ok(TokenView::VarKeyword) => match lookahead(toks, at + 1) {
            Ok(TokenView::Identifier { inner }) => {
                let annotation = type_annotation(toks, at + 2);
                let taken = 2 + annotation.consumed;
                match annotation.outcome {
                    Err(error) => rejected(error, taken),
                    Ok(type_tag) => match lookahead(toks, at + taken) {
                        Ok(TokenView::SymEq) => {
                            let rhs = right_hand_side(toks, at + taken + 1);
                            match rhs.outcome {
                                Err(error) => rejected(error, taken + 1 + rhs.consumed),
                                Ok(value) => accepted(
                                    StatementView::NodeDeclaration {
                                        identifier: inner,
                                        type_tag,
                                        rhs: value,
                                    },
                                    taken + 1 + rhs.consumed,
                                ),
                            }
                        },
                        other => rejected(
                            unexpected(other, ExpectedView::Token(TokenView::SymEq)),
                            taken,
                        ),
                    },
                }
            },
            other => rejected(unexpected(other, ExpectedView::Identifier), 1),
        },
        other => rejected(unexpected(other, ExpectedView::Token(TokenView::VarKeyword)), 0),
    }
}

/// One statement: at the end of input the sentinel, else a comment, a
/// declaration or, for everything that does not start with `var`, a bare
/// expression.
pub open spec fn statement(toks: Seq<Lexeme>, at: nat) -> Parsed<StatementView> {
    match lookahead(toks, at) {
        Ok(TokenView::EndOfFile) => accepted(StatementView::NoMoreStatements, 0),
        Ok(TokenView::Comment { content }) => accepted(StatementView::Comment { content }, 1),
        Ok(TokenView::VarKeyword) => declaration(toks, at),
        _ => {
            let value = full_expression(toks, at);
            match value.outcome {
                Err(error) => rejected(error, value.consumed),
                Ok(tree) => accepted(StatementView::Print { expression: tree }, value.consumed),
            }
        },
    }
}

/// A program: statements up to the end of input.  Behind each statement
/// stands one line break, which the last statement may go without.
pub open spec fn program(toks: Seq<Lexeme>, at: nat) -> Parsed<Seq<StatementView>>
    decreases left(toks, at),
{
    match lookahead(toks, at) {
        Ok(TokenView::EndOfFile) => accepted(Seq::empty(), 0),
        _ => {
            let first = statement(toks, at);
            match first.outcome {
                Err(error) => rejected(error, first.consumed),
                Ok(parsed) => match lookahead(toks, at + first.consumed) {
                    Ok(TokenView::NewLine) => {
                        let rest = program(toks, at + first.consumed + 1);
                        match rest.outcome {
                            Err(error) => rejected(error, first.consumed + 1 + rest.consumed),
                            Ok(more) => accepted(
                                seq![parsed] + more,
                                first.consumed + 1 + rest.consumed,
                            ),
                        }
                    },
                    Ok(TokenView::EndOfFile) => accepted(seq![parsed], first.consumed),
                    other => rejected(
                        unexpected(other, ExpectedView::EndOfStatement),
                        first.consumed,
                    ),
                },
            }
        },
    }
}

/// Looking ahead in what is left after `lead` lexemes is looking further
/// ahead in the whole.
pub proof fn lemma_lookahead_skip(toks: Seq<Lexeme>, lead: nat)
    requires
        lead <= toks.len(),
    ensures
        forall|at: nat| #[trigger]
            lookahead(toks.skip(lead as int), at) == lookahead(toks, lead + at),
        forall|at: nat| #[trigger] left(toks.skip(lead as int), at) == left(toks, lead + at),
{
}

/// A path in what is left after `lead` lexemes is the path at that index.
pub proof fn lemma_path_skip(toks: Seq<Lexeme>, lead: nat, at: nat)
    requires
        lead <= toks.len(),
    ensures
        path(toks.skip(lead as int), at) == path(toks, lead + at),
    decreases left(toks, lead + at),
{
    lemma_lookahead_skip(toks, lead);
    let head = segment(toks, lead + at);
    assert(segment(toks.skip(lead as int), at) == head);
    if head.outcome is Ok {
        if lookahead(toks, lead + at + head.consumed) matches Ok(TokenView::SymDot) {
            lemma_path_skip(toks, lead, at + head.consumed + 1);
        }
    }
}

/// A primary term in what is left after `lead` lexemes is the primary term
/// at that index.
pub proof fn lemma_primary_skip(toks: Seq<Lexeme>, lead: nat, at: nat)
    requires
        lead <= toks.len(),
    ensures
        primary(toks.skip(lead as int), at) == primary(toks, lead + at),
    decreases left(toks, lead + at), 0nat, 0nat,
{
    lemma_lookahead_skip(toks, lead);
    if lookahead(toks, lead + at) matches Ok(TokenView::SymLeftPar) {
        lemma_expression_skip(Level::Additive, toks, lead, at + 1);
    }
}

/// The tail of a cast in what is left after `lead` lexemes is the tail at
/// that index.
pub proof fn lemma_cast_tail_skip(toks: Seq<Lexeme>, lead: nat, at: nat, operand: Expr)
    requires
        lead <= toks.len(),
    ensures
        cast_tail(toks.skip(lead as int), at, operand) == cast_tail(toks, lead + at, operand),
    decreases left(toks, lead + at), 1nat, 0nat,
{
    lemma_lookahead_skip(toks, lead);
    if lookahead(toks, lead + at) matches Ok(TokenView::KeywordAs) {
        lemma_path_skip(toks, lead, at + 1);
        let name = path(toks, lead + at + 1);
        if let Ok(target) = name.outcome {
            lemma_cast_tail_skip(
                toks,
                lead,
                at + 1 + name.consumed,
                Expr::Cast { operand: Box::new(operand), target },
            );
        }
    }
}

/// The tail of a binary level in what is left after `lead` lexemes is the
/// tail at that index.
pub proof fn lemma_binary_tail_skip(
    level: Level,
    toks: Seq<Lexeme>,
    lead: nat,
    at: nat,
    left_operand: Expr,
)
    requires
        lead <= toks.len(),
    ensures
        binary_tail(level, toks.skip(lead as int), at, left_operand) == binary_tail(
            level,
            toks,
            lead + at,
            left_operand,
        ),
    decreases left(toks, lead + at), level.rank(), 0nat,
{
    lemma_lookahead_skip(toks, lead);
    if let Some(operator) = operator_at(level, lookahead(toks, lead + at)) {
        lemma_expression_skip(level.tighter(), toks, lead, at + 1);
        let right = expression(level.tighter(), toks, lead + at + 1);
        if let Ok(operand) = right.outcome {
            lemma_binary_tail_skip(
                level,
                toks,
                lead,
                at + 1 + right.consumed,
                Expr::Binary { operator, left: Box::new(left_operand), right: Box::new(operand) },
            );
        }
    }
}

/// An expression in what is left after `lead` lexemes is the expression at
/// that index: a rule sees only what lies ahead of it.
pub proof fn lemma_expression_skip(level: Level, toks: Seq<Lexeme>, lead: nat, at: nat)
    requires
        lead <= toks.len(),
    ensures
        expression(level, toks.skip(lead as int), at) == expression(level, toks, lead + at),
    decreases left(toks, lead + at), level.rank(), 1nat,
{
    match level {
        Level::Primary => {
            lemma_primary_skip(toks, lead, at);
        },
        Level::Cast => {
            lemma_primary_skip(toks, lead, at);
            let first = primary(toks, lead + at);
            if let Ok(operand) = first.outcome {
                lemma_cast_tail_skip(toks, lead, at + first.consumed, operand);
            }
        },
        _ => {
            lemma_expression_skip(level.tighter(), toks, lead, at);
            let first = expression(level.tighter(), toks, lead + at);
            if let Ok(operand) = first.outcome {
                lemma_binary_tail_skip(level, toks, lead, at + first.consumed, operand);
            }
        },
    }
}

/// The right-hand side of a declaration in what is left after `lead` lexemes
/// is the right-hand side at that index.
pub proof fn lemma_right_hand_side_skip(toks: Seq<Lexeme>, lead: nat, at: nat)
    requires
        lead <= toks.len(),
    ensures
        right_hand_side(toks.skip(lead as int), at) == right_hand_side(toks, lead + at),
{
    lemma_lookahead_skip(toks, lead);
    lemma_path_skip(toks, lead, at);
    lemma_expression_skip(Level::LogicalOr, toks, lead, at);
}

/// A type annotation in what is left after `lead` lexemes is the annotation
/// at that index.
pub proof fn lemma_type_annotation_skip(toks: Seq<Lexeme>, lead: nat, at: nat)
    requires
        lead <= toks.len(),
    ensures
        type_annotation(toks.skip(lead as int), at) == type_annotation(toks, lead + at),
{
    lemma_lookahead_skip(toks, lead);
    lemma_path_skip(toks, lead, at + 1);
}

/// A declaration in what is left after `lead` lexemes is the declaration at
/// that index.
pub proof fn lemma_declaration_skip(toks: Seq<Lexeme>, lead: nat, at: nat)
    requires
        lead <= toks.len(),
    ensures
        declaration(toks.skip(lead as int), at) == declaration(toks, lead + at),
{
    lemma_lookahead_skip(toks, lead);
    lemma_type_annotation_skip(toks, lead, at + 2);
    let annotation = type_annotation(toks, lead + at + 2);
    lemma_right_hand_side_skip(toks, lead, at + 2 + annotation.consumed + 1);
}

/// A statement in what is left after `lead` lexemes is the statement at that
/// index.
pub proof fn lemma_statement_skip(toks: Seq<Lexeme>, lead: nat, at: nat)
    requires
        lead <= toks.len(),
    ensures
        statement(toks.skip(lead as int), at) == statement(toks, lead + at),
{
    lemma_lookahead_skip(toks, lead);
    lemma_declaration_skip(toks, lead, at);
    lemma_expression_skip(Level::LogicalOr, toks, lead, at);
}

} // verus!
