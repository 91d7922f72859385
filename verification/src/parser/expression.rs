//! The expression grammar: one node type for each level of the precedence
//! ladder, and the rule that reads it.
//!
//! A node of a binary level is either an operator with a left operand of the
//! same level and a right operand of the next tighter one, or a node of the
//! next tighter level passed on as it is.  So the shape of a tree alone says
//! how the operators bind: those of one level to the left, those of a
//! tighter level first.
use crate::grammar::{
    binary_tail, cast_tail, expression, lemma_expression_skip, lemma_lookahead_skip,
    lemma_path_skip, path, primary,
};
use crate::parser::{
    lemma_skip_skip, parses, unexpected_token, Expected, Identifier, ParseError, Parser,
    UnresolvedTypeName,
};
use crate::syntax::{operator_at, BinaryOperator, Expr, Level};
use crate::token::Token;
use vstd::prelude::*;

verus! {

/// A primary term, the tightest level.
#[derive(Debug, PartialEq, Eq)]
pub enum First {
    /// A run of digits, kept as written.
    IntegralLiteral { sequence: String },
    /// A string literal, its escapes decoded.
    StringLiteral { sequence: String },
    /// A reference to a variable.
    Variable { identifier: Identifier },
    True,
    False,
    /// An additive expression in parentheses.
    Parenthesized { inner: Box<Additive> },
}

impl First {
    /// The expression that the node stands for.
    pub open spec fn tree(&self) -> Expr
        decreases self,
    {
        match self {
            First::IntegralLiteral { sequence } => Expr::IntegralLiteral { sequence: sequence@ },
            First::StringLiteral { sequence } => Expr::StringLiteral { sequence: sequence@ },
            First::Variable { identifier } => Expr::Variable { identifier: identifier@ },
            First::True => Expr::True,
            First::False => Expr::False,
            First::Parenthesized { inner } => Expr::Parenthesized { inner: Box::new(inner.tree()) },
        }
    }

    /// Reads a primary term: a literal, a variable, or an additive
    /// expression in parentheses.
    pub fn read(parser: &mut Parser) -> (node: Result<First, ParseError>)
        ensures
            parses(
                old(parser).remaining(),
                final(parser).remaining(),
                node,
                primary(old(parser).remaining(), 0),
            ),
        decreases old(parser).remaining().len(), 0nat, 0nat,
    {
        let ghost toks = parser.remaining();
        proof {
            lemma_skip_skip(toks, 0, 0);
        }
        match parser.peek() {
            Ok(Token::Identifier { inner }) => {
                parser.bump();
                Ok(First::Variable { identifier: Identifier(inner) })
            },
            Ok(Token::Digits { sequence }) => {
                parser.bump();
                Ok(First::IntegralLiteral { sequence })
            },
            Ok(Token::StringLiteral { content }) => {
                parser.bump();
                Ok(First::StringLiteral { sequence: content })
            },
            Ok(Token::KeywordTrue) => {
                parser.bump();
                Ok(First::True)
            },
            Ok(Token::KeywordFalse) => {
                parser.bump();
                Ok(First::False)
            },
            Ok(Token::SymLeftPar) => {
                parser.bump();
                proof {
                    lemma_expression_skip(Level::Additive, toks, 1, 0);
                }
                let ghost taken = 1 + expression(Level::Additive, toks, 1).consumed;
                let inner = match Additive::read(parser) {
                    Ok(inner) => inner,
                    Err(error) => {
                        proof {
                            lemma_skip_skip(toks, 1, (taken - 1) as nat);
                        }
                        return Err(error);
                    },
                };
                proof {
                    lemma_skip_skip(toks, 1, (taken - 1) as nat);
                    lemma_lookahead_skip(toks, taken);
                }
                match parser.peek() {
                    Ok(Token::SymRightPar) => {
                        parser.bump();
                        proof {
                            lemma_skip_skip(toks, taken, 1);
                        }
                        Ok(First::Parenthesized { inner: Box::new(inner) })
                    },
                    other => Err(unexpected_token(other, Expected::Token(Token::SymRightPar))),
                }
            },
            other => Err(unexpected_token(other, Expected::Operand)),
        }
    }
}

impl View for First {
    type V = Expr;

    open spec fn view(&self) -> Expr {
        self.tree()
    }
}

/// A cast, or a primary term passed on.  Casts associate to the left:
/// `x as a as b` is `(x as a) as b`.
#[derive(Debug, PartialEq, Eq)]
pub enum Cast {
    Do { lhs: Box<Cast>, tp: UnresolvedTypeName },
    Propagated(First),
}

impl Cast {
    /// The expression that the node stands for.
    pub open spec fn tree(&self) -> Expr
        decreases self,
    {
        match self {
            Cast::Do { lhs, tp } => Expr::Cast { operand: Box::new(lhs.tree()), target: tp@ },
            Cast::Propagated(inner) => inner.tree(),
        }
    }

    /// Reads a primary term and the casts that follow it.
    pub fn read(parser: &mut Parser) -> (node: Result<Cast, ParseError>)
        ensures
            parses(
                old(parser).remaining(),
                final(parser).remaining(),
                node,
                expression(Level::Cast, old(parser).remaining(), 0),
            ),
        decreases old(parser).remaining().len(), 1nat, 1nat,
    {
        let ghost toks = parser.remaining();
        proof {
            lemma_skip_skip(toks, 0, 0);
        }
        let first = First::read(parser)?;
        let ghost mut at: nat = primary(toks, 0).consumed;
        let mut acc = Cast::Propagated(first);
        loop
            invariant
                toks == old(parser).remaining(),
                at < toks.len(),
                parser.remaining() == toks.skip(at as int),
                expression(Level::Cast, toks, 0).outcome == cast_tail(toks, at, acc@).outcome,
                expression(Level::Cast, toks, 0).consumed == at + cast_tail(
                    toks,
                    at,
                    acc@,
                ).consumed,
            decreases toks.len() - at,
        {
            proof {
                lemma_lookahead_skip(toks, at);
            }
            match parser.peek() {
                Ok(Token::KeywordAs) => {},
                _ => {
                    return Ok(acc);
                },
            }
            parser.bump();
            proof {
                lemma_skip_skip(toks, at, 1);
                lemma_path_skip(toks, at + 1, 0);
            }
            let ghost taken = 1 + path(toks, at + 1).consumed;
            let tp = match UnresolvedTypeName::read(parser) {
                Ok(tp) => tp,
                Err(error) => {
                    proof {
                        lemma_skip_skip(toks, at + 1, (taken - 1) as nat);
                    }
                    return Err(error);
                },
            };
            proof {
                lemma_skip_skip(toks, at + 1, (taken - 1) as nat);
                at = at + taken;
            }
            acc = Cast::Do { lhs: Box::new(acc), tp };
        }
    }
}

impl View for Cast {
    type V = Expr;

    open spec fn view(&self) -> Expr {
        self.tree()
    }
}

/// The operators of [`Multiplicative`].
#[derive(Debug, Clone, Copy, PartialEq, Eq)]
pub enum MultiplicativeOps {
    /// `*`
    Multiply,
    /// `/`
    Divide,
    /// `%`, which no token stands for yet
    Remainder,
}

impl MultiplicativeOps {
    /// The operator, among those of all levels.
    pub open spec fn operator(self) -> BinaryOperator {
        match self {
            MultiplicativeOps::Multiply => BinaryOperator::Multiply,
            MultiplicativeOps::Divide => BinaryOperator::Divide,
            MultiplicativeOps::Remainder => BinaryOperator::Remainder,
        }
    }

    /// The operator of this level that `token` stands for, if it stands for
    /// one.
    pub fn from_token(token: &Token) -> (found: Option<MultiplicativeOps>)
        ensures
            operator_at(Level::Multiplicative, Ok(token@)) == match found {
                Some(operator) => Some(operator.operator()),
                None => None,
            },
    {
        match token {
            Token::SymAsterisk => Some(MultiplicativeOps::Multiply),
            Token::SymSlash => Some(MultiplicativeOps::Divide),
            _ => None,
        }
    }
}

/// A product or quotient, or a node of the next tighter level passed on.  The operators of
/// this level associate to the left.
#[derive(Debug, PartialEq, Eq)]
pub enum Multiplicative {
    Binary { operator: MultiplicativeOps, lhs: Box<Multiplicative>, rhs: Box<Cast> },
    Propagated(Cast),
}

impl Multiplicative {
    /// The expression that the node stands for.
    pub open spec fn tree(&self) -> Expr
        decreases self,
    {
        match self {
            Multiplicative::Binary { operator, lhs, rhs } => Expr::Binary {
                operator: operator.operator(),
                left: Box::new(lhs.tree()),
                right: Box::new(rhs.tree()),
            },
            Multiplicative::Propagated(inner) => inner.tree(),
        }
    }

    /// The node of `operator` applied to `lhs` and `rhs`.
    pub fn binary(operator: MultiplicativeOps, lhs: Multiplicative, rhs: Cast) -> (node: Multiplicative)
        ensures
            node@ == (Expr::Binary {
                operator: operator.operator(),
                left: Box::new(lhs@),
                right: Box::new(rhs@),
            }),
    {
        Multiplicative::Binary { operator, lhs: Box::new(lhs), rhs: Box::new(rhs) }
    }

    /// Reads one operand of the next tighter level and then, as long as
    /// `*` or `/` follows, that operator and one more operand, which are
    /// folded into what was read so far.
    pub fn read(parser: &mut Parser) -> (node: Result<Multiplicative, ParseError>)
        ensures
            parses(
                old(parser).remaining(),
                final(parser).remaining(),
                node,
                expression(Level::Multiplicative, old(parser).remaining(), 0),
            ),
        decreases old(parser).remaining().len(), 2nat, 1nat,
    {
        let ghost toks = parser.remaining();
        proof {
            lemma_skip_skip(toks, 0, 0);
        }
        let first_term = Cast::read(parser)?;
        let ghost mut at: nat = expression(Level::Multiplicative.tighter(), toks, 0).consumed;
        let mut acc = Multiplicative::Propagated(first_term);
        loop
            invariant
                toks == old(parser).remaining(),
                at < toks.len(),
                parser.remaining() == toks.skip(at as int),
                expression(Level::Multiplicative, toks, 0).outcome == binary_tail(
                    Level::Multiplicative,
                    toks,
                    at,
                    acc@,
                ).outcome,
                expression(Level::Multiplicative, toks, 0).consumed == at + binary_tail(
                    Level::Multiplicative,
                    toks,
                    at,
                    acc@,
                ).consumed,
            decreases toks.len() - at,
        {
            proof {
                lemma_lookahead_skip(toks, at);
            }
            let operator: MultiplicativeOps = match parser.peek() {
                Ok(token) => match MultiplicativeOps::from_token(&token) {
                    Some(operator) => operator,
                    None => {
                        return Ok(acc);
                    },
                },
                Err(_) => {
                    return Ok(acc);
                },
            };
            parser.bump();
            proof {
                lemma_skip_skip(toks, at, 1);
                lemma_expression_skip(Level::Multiplicative.tighter(), toks, at + 1, 0);
            }
            let ghost taken = 1 + expression(Level::Multiplicative.tighter(), toks, at + 1).consumed;
            let new_rhs = match Cast::read(parser) {
                Ok(operand) => operand,
                Err(error) => {
                    proof {
                        lemma_skip_skip(toks, at + 1, (taken - 1) as nat);
                    }
                    return Err(error);
                },
            };
            proof {
                lemma_skip_skip(toks, at + 1, (taken - 1) as nat);
                at = at + taken;
            }
            acc = Multiplicative::binary(operator, acc, new_rhs);
        }
    }
}

impl View for Multiplicative {
    type V = Expr;

    open spec fn view(&self) -> Expr {
        self.tree()
    }
}

/// The operators of [`Additive`].
#[derive(Debug, Clone, Copy, PartialEq, Eq)]
pub enum AdditiveOps {
    /// `+`
    Add,
    /// `-`
    Subtract,
}

impl AdditiveOps {
    /// The operator, among those of all levels.
    pub open spec fn operator(self) -> BinaryOperator {
        match self {
            AdditiveOps::Add => BinaryOperator::Add,
            AdditiveOps::Subtract => BinaryOperator::Subtract,
        }
    }

    /// The operator of this level that `token` stands for, if it stands for
    /// one.
    pub fn from_token(token: &Token) -> (found: Option<AdditiveOps>)
        ensures
            operator_at(Level::Additive, Ok(token@)) == match found {
                Some(operator) => Some(operator.operator()),
                None => None,
            },
    {
        match token {
            Token::SymPlus => Some(AdditiveOps::Add),
            Token::SymMinus => Some(AdditiveOps::Subtract),
            _ => None,
        }
    }
}

/// A sum or difference, or a node of the next tighter level passed on.  The operators of
/// this level associate to the left.
#[derive(Debug, PartialEq, Eq)]
pub enum Additive {
    Binary { operator: AdditiveOps, lhs: Box<Additive>, rhs: Box<Multiplicative> },
    Propagated(Multiplicative),
}

impl Additive {
    /// The expression that the node stands for.
    pub open spec fn tree(&self) -> Expr
        decreases self,
    {
        match self {
            Additive::Binary { operator, lhs, rhs } => Expr::Binary {
                operator: operator.operator(),
                left: Box::new(lhs.tree()),
                right: Box::new(rhs.tree()),
            },
            Additive::Propagated(inner) => inner.tree(),
        }
    }

    /// The node of `operator` applied to `lhs` and `rhs`.
    pub fn binary(operator: AdditiveOps, lhs: Additive, rhs: Multiplicative) -> (node: Additive)
        ensures
            node@ == (Expr::Binary {
                operator: operator.operator(),
                left: Box::new(lhs@),
                right: Box::new(rhs@),
            }),
    {
        Additive::Binary { operator, lhs: Box::new(lhs), rhs: Box::new(rhs) }
    }

    /// Reads one operand of the next tighter level and then, as long as
    /// `+` or `-` follows, that operator and one more operand, which are
    /// folded into what was read so far.
    pub fn read(parser: &mut Parser) -> (node: Result<Additive, ParseError>)
        ensures
            parses(
                old(parser).remaining(),
                final(parser).remaining(),
                node,
                expression(Level::Additive, old(parser).remaining(), 0),
            ),
        decreases old(parser).remaining().len(), 3nat, 1nat,
    {
        let ghost toks = parser.remaining();
        proof {
            lemma_skip_skip(toks, 0, 0);
        }
        let first_term = Multiplicative::read(parser)?;
        let ghost mut at: nat = expression(Level::Additive.tighter(), toks, 0).consumed;
        let mut acc = Additive::Propagated(first_term);
        loop
            invariant
                toks == old(parser).remaining(),
                at < toks.len(),
                parser.remaining() == toks.skip(at as int),
                expression(Level::Additive, toks, 0).outcome == binary_tail(
                    Level::Additive,
                    toks,
                    at,
                    acc@,
                ).outcome,
                expression(Level::Additive, toks, 0).consumed == at + binary_tail(
                    Level::Additive,
                    toks,
                    at,
                    acc@,
                ).consumed,
            decreases toks.len() - at,
        {
            proof {
                lemma_lookahead_skip(toks, at);
            }
            let operator: AdditiveOps = match parser.peek() {
                Ok(token) => match AdditiveOps::from_token(&token) {
                    Some(operator) => operator,
                    None => {
                        return Ok(acc);
                    },
                },
                Err(_) => {
                    return Ok(acc);
                },
            };
            parser.bump();
            proof {
                lemma_skip_skip(toks, at, 1);
                lemma_expression_skip(Level::Additive.tighter(), toks, at + 1, 0);
            }
            let ghost taken = 1 + expression(Level::Additive.tighter(), toks, at + 1).consumed;
            let new_rhs = match Multiplicative::read(parser) {
                Ok(operand) => operand,
                Err(error) => {
                    proof {
                        lemma_skip_skip(toks, at + 1, (taken - 1) as nat);
                    }
                    return Err(error);
                },
            };
            proof {
                lemma_skip_skip(toks, at + 1, (taken - 1) as nat);
                at = at + taken;
            }
            acc = Additive::binary(operator, acc, new_rhs);
        }
    }
}

impl View for Additive {
    type V = Expr;

    open spec fn view(&self) -> Expr {
        self.tree()
    }
}

/// The operators of [`BitwiseShift`].
#[derive(Debug, Clone, Copy, PartialEq, Eq)]
pub enum BitwiseShiftOps {
    /// `<<`
    LeftShift,
    /// `>>`
    RightShift,
}

impl BitwiseShiftOps {
    /// The operator, among those of all levels.
    pub open spec fn operator(self) -> BinaryOperator {
        match self {
            BitwiseShiftOps::LeftShift => BinaryOperator::LeftShift,
            BitwiseShiftOps::RightShift => BinaryOperator::RightShift,
        }
    }

    /// The operator of this level that `token` stands for, if it stands for
    /// one.
    pub fn from_token(token: &Token) -> (found: Option<BitwiseShiftOps>)
        ensures
            operator_at(Level::Shift, Ok(token@)) == match found {
                Some(operator) => Some(operator.operator()),
                None => None,
            },
    {
        match token {
            Token::PartLessLess => Some(BitwiseShiftOps::LeftShift),
            Token::PartMoreMore => Some(BitwiseShiftOps::RightShift),
            _ => None,
        }
    }
}

/// A shift, or a node of the next tighter level passed on.  The operators of
/// this level associate to the left.
#[derive(Debug, PartialEq, Eq)]
pub enum BitwiseShift {
    Binary { operator: BitwiseShiftOps, lhs: Box<BitwiseShift>, rhs: Box<Additive> },
    Propagated(Additive),
}

impl BitwiseShift {
    /// The expression that the node stands for.
    pub open spec fn tree(&self) -> Expr
        decreases self,
    {
        match self {
            BitwiseShift::Binary { operator, lhs, rhs } => Expr::Binary {
                operator: operator.operator(),
                left: Box::new(lhs.tree()),
                right: Box::new(rhs.tree()),
            },
            BitwiseShift::Propagated(inner) => inner.tree(),
        }
    }

    /// The node of `operator` applied to `lhs` and `rhs`.
    pub fn binary(operator: BitwiseShiftOps, lhs: BitwiseShift, rhs: Additive) -> (node: BitwiseShift)
        ensures
            node@ == (Expr::Binary {
                operator: operator.operator(),
                left: Box::new(lhs@),
                right: Box::new(rhs@),
            }),
    {
        BitwiseShift::Binary { operator, lhs: Box::new(lhs), rhs: Box::new(rhs) }
    }

    /// Reads one operand of the next tighter level and then, as long as
    /// `<<` or `>>` follows, that operator and one more operand, which are
    /// folded into what was read so far.
    pub fn read(parser: &mut Parser) -> (node: Result<BitwiseShift, ParseError>)
        ensures
            parses(
                old(parser).remaining(),
                final(parser).remaining(),
                node,
                expression(Level::Shift, old(parser).remaining(), 0),
            ),
        decreases old(parser).remaining().len(), 4nat, 1nat,
    {
        let ghost toks = parser.remaining();
        proof {
            lemma_skip_skip(toks, 0, 0);
        }
        let first_term = Additive::read(parser)?;
        let ghost mut at: nat = expression(Level::Shift.tighter(), toks, 0).consumed;
        let mut acc = BitwiseShift::Propagated(first_term);
        loop
            invariant
                toks == old(parser).remaining(),
                at < toks.len(),
                parser.remaining() == toks.skip(at as int),
                expression(Level::Shift, toks, 0).outcome == binary_tail(
                    Level::Shift,
                    toks,
                    at,
                    acc@,
                ).outcome,
                expression(Level::Shift, toks, 0).consumed == at + binary_tail(
                    Level::Shift,
                    toks,
                    at,
                    acc@,
                ).consumed,
            decreases toks.len() - at,
        {
            proof {
                lemma_lookahead_skip(toks, at);
            }
            let operator: BitwiseShiftOps = match parser.peek() {
                Ok(token) => match BitwiseShiftOps::from_token(&token) {
                    Some(operator) => operator,
                    None => {
                        return Ok(acc);
                    },
                },
                Err(_) => {
                    return Ok(acc);
                },
            };
            parser.bump();
            proof {
                lemma_skip_skip(toks, at, 1);
                lemma_expression_skip(Level::Shift.tighter(), toks, at + 1, 0);
            }
            let ghost taken = 1 + expression(Level::Shift.tighter(), toks, at + 1).consumed;
            let new_rhs = match Additive::read(parser) {
                Ok(operand) => operand,
                Err(error) => {
                    proof {
                        lemma_skip_skip(toks, at + 1, (taken - 1) as nat);
                    }
                    return Err(error);
                },
            };
            proof {
                lemma_skip_skip(toks, at + 1, (taken - 1) as nat);
                at = at + taken;
            }
            acc = BitwiseShift::binary(operator, acc, new_rhs);
        }
    }
}

impl View for BitwiseShift {
    type V = Expr;

    open spec fn view(&self) -> Expr {
        self.tree()
    }
}

/// The operators of [`RelationCheckExpression`].
#[derive(Debug, Clone, Copy, PartialEq, Eq)]
pub enum RelationCheckExpressionOps {
    /// `<`
    Less,
    /// `<=`
    LessEqual,
    /// `>`
    More,
    /// `>=`
    MoreEqual,
    /// `<=>`, the three-way comparison
    Spaceship,
}

impl RelationCheckExpressionOps {
    /// The operator, among those of all levels.
    pub open spec fn operator(self) -> BinaryOperator {
        match self {
            RelationCheckExpressionOps::Less => BinaryOperator::Less,
            RelationCheckExpressionOps::LessEqual => BinaryOperator::LessEqual,
            RelationCheckExpressionOps::More => BinaryOperator::More,
            RelationCheckExpressionOps::MoreEqual => BinaryOperator::MoreEqual,
            RelationCheckExpressionOps::Spaceship => BinaryOperator::Spaceship,
        }
    }

    /// The operator of this level that `token` stands for, if it stands for
    /// one.
    pub fn from_token(token: &Token) -> (found: Option<RelationCheckExpressionOps>)
        ensures
            operator_at(Level::Relational, Ok(token@)) == match found {
                Some(operator) => Some(operator.operator()),
                None => None,
            },
    {
        match token {
            Token::SymLess => Some(RelationCheckExpressionOps::Less),
            Token::PartLessEq => Some(RelationCheckExpressionOps::LessEqual),
            Token::SymMore => Some(RelationCheckExpressionOps::More),
            Token::PartMoreEq => Some(RelationCheckExpressionOps::MoreEqual),
            Token::PartLessEqMore => Some(RelationCheckExpressionOps::Spaceship),
            _ => None,
        }
    }
}

/// A comparison by order, or a node of the next tighter level passed on.  The operators of
/// this level associate to the left.
#[derive(Debug, PartialEq, Eq)]
pub enum RelationCheckExpression {
    Binary { operator: RelationCheckExpressionOps, lhs: Box<RelationCheckExpression>, rhs: Box<BitwiseShift> },
    Propagated(BitwiseShift),
}

impl RelationCheckExpression {
    /// The expression that the node stands for.
    pub open spec fn tree(&self) -> Expr
        decreases self,
    {
        match self {
            RelationCheckExpression::Binary { operator, lhs, rhs } => Expr::Binary {
                operator: operator.operator(),
                left: Box::new(lhs.tree()),
                right: Box::new(rhs.tree()),
            },
            RelationCheckExpression::Propagated(inner) => inner.tree(),
        }
    }

    /// The node of `operator` applied to `lhs` and `rhs`.
    pub fn binary(operator: RelationCheckExpressionOps, lhs: RelationCheckExpression, rhs: BitwiseShift) -> (node: RelationCheckExpression)
        ensures
            node@ == (Expr::Binary {
                operator: operator.operator(),
                left: Box::new(lhs@),
                right: Box::new(rhs@),
            }),
    {
        RelationCheckExpression::Binary { operator, lhs: Box::new(lhs), rhs: Box::new(rhs) }
    }

    /// Reads one operand of the next tighter level and then, as long as
    /// `<`, `<=`, `>`, `>=` or `<=>` follows, that operator and one more operand, which are
    /// folded into what was read so far.
    pub fn read(parser: &mut Parser) -> (node: Result<RelationCheckExpression, ParseError>)
        ensures
            parses(
                old(parser).remaining(),
                final(parser).remaining(),
                node,
                expression(Level::Relational, old(parser).remaining(), 0),
            ),
        decreases old(parser).remaining().len(), 5nat, 1nat,
    {
        let ghost toks = parser.remaining();
        proof {
            lemma_skip_skip(toks, 0, 0);
        }
        let first_term = BitwiseShift::read(parser)?;
        let ghost mut at: nat = expression(Level::Relational.tighter(), toks, 0).consumed;
        let mut acc = RelationCheckExpression::Propagated(first_term);
        loop
            invariant
                toks == old(parser).remaining(),
                at < toks.len(),
                parser.remaining() == toks.skip(at as int),
                expression(Level::Relational, toks, 0).outcome == binary_tail(
                    Level::Relational,
                    toks,
                    at,
                    acc@,
                ).outcome,
                expression(Level::Relational, toks, 0).consumed == at + binary_tail(
                    Level::Relational,
                    toks,
                    at,
                    acc@,
                ).consumed,
            decreases toks.len() - at,
        {
            proof {
                lemma_lookahead_skip(toks, at);
            }
            let operator: RelationCheckExpressionOps = match parser.peek() {
                Ok(token) => match RelationCheckExpressionOps::from_token(&token) {
                    Some(operator) => operator,
                    None => {
                        return Ok(acc);
                    },
                },
                Err(_) => {
                    return Ok(acc);
                },
            };
            parser.bump();
            proof {
                lemma_skip_skip(toks, at, 1);
                lemma_expression_skip(Level::Relational.tighter(), toks, at + 1, 0);
            }
            let ghost taken = 1 + expression(Level::Relational.tighter(), toks, at + 1).consumed;
            let new_rhs = match BitwiseShift::read(parser) {
                Ok(operand) => operand,
                Err(error) => {
                    proof {
                        lemma_skip_skip(toks, at + 1, (taken - 1) as nat);
                    }
                    return Err(error);
                },
            };
            proof {
                lemma_skip_skip(toks, at + 1, (taken - 1) as nat);
                at = at + taken;
            }
            acc = RelationCheckExpression::binary(operator, acc, new_rhs);
        }
    }
}

impl View for RelationCheckExpression {
    type V = Expr;

    open spec fn view(&self) -> Expr {
        self.tree()
    }
}

/// The operators of [`EqualityCheckExpression`].
#[derive(Debug, Clone, Copy, PartialEq, Eq)]
pub enum EqualityCheckExpressionOps {
    /// `==`
    Equal,
    /// `!=`
    NotEqual,
}

impl EqualityCheckExpressionOps {
    /// The operator, among those of all levels.
    pub open spec fn operator(self) -> BinaryOperator {
        match self {
            EqualityCheckExpressionOps::Equal => BinaryOperator::Equal,
            EqualityCheckExpressionOps::NotEqual => BinaryOperator::NotEqual,
        }
    }

    /// The operator of this level that `token` stands for, if it stands for
    /// one.
    pub fn from_token(token: &Token) -> (found: Option<EqualityCheckExpressionOps>)
        ensures
            operator_at(Level::Equality, Ok(token@)) == match found {
                Some(operator) => Some(operator.operator()),
                None => None,
            },
    {
        match token {
            Token::PartEqEq => Some(EqualityCheckExpressionOps::Equal),
            Token::PartBangEq => Some(EqualityCheckExpressionOps::NotEqual),
            _ => None,
        }
    }
}

/// A comparison for equality, or a node of the next tighter level passed on.  The operators of
/// this level associate to the left.
#[derive(Debug, PartialEq, Eq)]
pub enum EqualityCheckExpression {
    Binary { operator: EqualityCheckExpressionOps, lhs: Box<EqualityCheckExpression>, rhs: Box<RelationCheckExpression> },
    Propagated(RelationCheckExpression),
}

impl EqualityCheckExpression {
    /// The expression that the node stands for.
    pub open spec fn tree(&self) -> Expr
        decreases self,
    {
        match self {
            EqualityCheckExpression::Binary { operator, lhs, rhs } => Expr::Binary {
                operator: operator.operator(),
                left: Box::new(lhs.tree()),
                right: Box::new(rhs.tree()),
            },
            EqualityCheckExpression::Propagated(inner) => inner.tree(),
        }
    }

    /// The node of `operator` applied to `lhs` and `rhs`.
    pub fn binary(operator: EqualityCheckExpressionOps, lhs: EqualityCheckExpression, rhs: RelationCheckExpression) -> (node: EqualityCheckExpression)
        ensures
            node@ == (Expr::Binary {
                operator: operator.operator(),
                left: Box::new(lhs@),
                right: Box::new(rhs@),
            }),
    {
        EqualityCheckExpression::Binary { operator, lhs: Box::new(lhs), rhs: Box::new(rhs) }
    }

    /// Reads one operand of the next tighter level and then, as long as
    /// `==` or `!=` follows, that operator and one more operand, which are
    /// folded into what was read so far.
    pub fn read(parser: &mut Parser) -> (node: Result<EqualityCheckExpression, ParseError>)
        ensures
            parses(
                old(parser).remaining(),
                final(parser).remaining(),
                node,
                expression(Level::Equality, old(parser).remaining(), 0),
            ),
        decreases old(parser).remaining().len(), 6nat, 1nat,
    {
        let ghost toks = parser.remaining();
        proof {
            lemma_skip_skip(toks, 0, 0);
        }
        let first_term = RelationCheckExpression::read(parser)?;
        let ghost mut at: nat = expression(Level::Equality.tighter(), toks, 0).consumed;
        let mut acc = EqualityCheckExpression::Propagated(first_term);
        loop
            invariant
                toks == old(parser).remaining(),
                at < toks.len(),
                parser.remaining() == toks.skip(at as int),
                expression(Level::Equality, toks, 0).outcome == binary_tail(
                    Level::Equality,
                    toks,
                    at,
                    acc@,
                ).outcome,
                expression(Level::Equality, toks, 0).consumed == at + binary_tail(
                    Level::Equality,
                    toks,
                    at,
                    acc@,
                ).consumed,
            decreases toks.len() - at,
        {
            proof {
                lemma_lookahead_skip(toks, at);
            }
            let operator: EqualityCheckExpressionOps = match parser.peek() {
                Ok(token) => match EqualityCheckExpressionOps::from_token(&token) {
                    Some(operator) => operator,
                    None => {
                        return Ok(acc);
                    },
                },
                Err(_) => {
                    return Ok(acc);
                },
            };
            parser.bump();
            proof {
                lemma_skip_skip(toks, at, 1);
                lemma_expression_skip(Level::Equality.tighter(), toks, at + 1, 0);
            }
            let ghost taken = 1 + expression(Level::Equality.tighter(), toks, at + 1).consumed;
            let new_rhs = match RelationCheckExpression::read(parser) {
                Ok(operand) => operand,
                Err(error) => {
                    proof {
                        lemma_skip_skip(toks, at + 1, (taken - 1) as nat);
                    }
                    return Err(error);
                },
            };
            proof {
                lemma_skip_skip(toks, at + 1, (taken - 1) as nat);
                at = at + taken;
            }
            acc = EqualityCheckExpression::binary(operator, acc, new_rhs);
        }
    }
}

impl View for EqualityCheckExpression {
    type V = Expr;

    open spec fn view(&self) -> Expr {
        self.tree()
    }
}

/// The operators of [`BitwiseAndExpression`].
#[derive(Debug, Clone, Copy, PartialEq, Eq)]
pub enum BitwiseAndExpressionOp {
    /// `&`
    BitwiseAnd,
}

impl BitwiseAndExpressionOp {
    /// The operator, among those of all levels.
    pub open spec fn operator(self) -> BinaryOperator {
        match self {
            BitwiseAndExpressionOp::BitwiseAnd => BinaryOperator::BitwiseAnd,
        }
    }

    /// The operator of this level that `token` stands for, if it stands for
    /// one.
    pub fn from_token(token: &Token) -> (found: Option<BitwiseAndExpressionOp>)
        ensures
            operator_at(Level::BitwiseAnd, Ok(token@)) == match found {
                Some(operator) => Some(operator.operator()),
                None => None,
            },
    {
        match token {
            Token::SymAnd => Some(BitwiseAndExpressionOp::BitwiseAnd),
            _ => None,
        }
    }
}

/// A bitwise conjunction, or a node of the next tighter level passed on.  The operators of
/// this level associate to the left.
#[derive(Debug, PartialEq, Eq)]
pub enum BitwiseAndExpression {
    Binary { operator: BitwiseAndExpressionOp, lhs: Box<BitwiseAndExpression>, rhs: Box<EqualityCheckExpression> },
    Propagated(EqualityCheckExpression),
}

impl BitwiseAndExpression {
    /// The expression that the node stands for.
    pub open spec fn tree(&self) -> Expr
        decreases self,
    {
        match self {
            BitwiseAndExpression::Binary { operator, lhs, rhs } => Expr::Binary {
                operator: operator.operator(),
                left: Box::new(lhs.tree()),
                right: Box::new(rhs.tree()),
            },
            BitwiseAndExpression::Propagated(inner) => inner.tree(),
        }
    }

    /// The node of `operator` applied to `lhs` and `rhs`.
    pub fn binary(operator: BitwiseAndExpressionOp, lhs: BitwiseAndExpression, rhs: EqualityCheckExpression) -> (node: BitwiseAndExpression)
        ensures
            node@ == (Expr::Binary {
                operator: operator.operator(),
                left: Box::new(lhs@),
                right: Box::new(rhs@),
            }),
    {
        BitwiseAndExpression::Binary { operator, lhs: Box::new(lhs), rhs: Box::new(rhs) }
    }

    /// Reads one operand of the next tighter level and then, as long as
    /// `&` follows, that operator and one more operand, which are
    /// folded into what was read so far.
    pub fn read(parser: &mut Parser) -> (node: Result<BitwiseAndExpression, ParseError>)
        ensures
            parses(
                old(parser).remaining(),
                final(parser).remaining(),
                node,
                expression(Level::BitwiseAnd, old(parser).remaining(), 0),
            ),
        decreases old(parser).remaining().len(), 7nat, 1nat,
    {
        let ghost toks = parser.remaining();
        proof {
            lemma_skip_skip(toks, 0, 0);
        }
        let first_term = EqualityCheckExpression::read(parser)?;
        let ghost mut at: nat = expression(Level::BitwiseAnd.tighter(), toks, 0).consumed;
        let mut acc = BitwiseAndExpression::Propagated(first_term);
        loop
            invariant
                toks == old(parser).remaining(),
                at < toks.len(),
                parser.remaining() == toks.skip(at as int),
                expression(Level::BitwiseAnd, toks, 0).outcome == binary_tail(
                    Level::BitwiseAnd,
                    toks,
                    at,
                    acc@,
                ).outcome,
                expression(Level::BitwiseAnd, toks, 0).consumed == at + binary_tail(
                    Level::BitwiseAnd,
                    toks,
                    at,
                    acc@,
                ).consumed,
            decreases toks.len() - at,
        {
            proof {
                lemma_lookahead_skip(toks, at);
            }
            let operator: BitwiseAndExpressionOp = match parser.peek() {
                Ok(token) => match BitwiseAndExpressionOp::from_token(&token) {
                    Some(operator) => operator,
                    None => {
                        return Ok(acc);
                    },
                },
                Err(_) => {
                    return Ok(acc);
                },
            };
            parser.bump();
            proof {
                lemma_skip_skip(toks, at, 1);
                lemma_expression_skip(Level::BitwiseAnd.tighter(), toks, at + 1, 0);
            }
            let ghost taken = 1 + expression(Level::BitwiseAnd.tighter(), toks, at + 1).consumed;
            let new_rhs = match EqualityCheckExpression::read(parser) {
                Ok(operand) => operand,
                Err(error) => {
                    proof {
                        lemma_skip_skip(toks, at + 1, (taken - 1) as nat);
                    }
                    return Err(error);
                },
            };
            proof {
                lemma_skip_skip(toks, at + 1, (taken - 1) as nat);
                at = at + taken;
            }
            acc = BitwiseAndExpression::binary(operator, acc, new_rhs);
        }
    }
}

impl View for BitwiseAndExpression {
    type V = Expr;

    open spec fn view(&self) -> Expr {
        self.tree()
    }
}

/// The operators of [`BitwiseXorExpression`].
#[derive(Debug, Clone, Copy, PartialEq, Eq)]
pub enum BitwiseXorExpressionOp {
    /// `^`
    BitwiseXor,
}

impl BitwiseXorExpressionOp {
    /// The operator, among those of all levels.
    pub open spec fn operator(self) -> BinaryOperator {
        match self {
            BitwiseXorExpressionOp::BitwiseXor => BinaryOperator::BitwiseXor,
        }
    }

    /// The operator of this level that `token` stands for, if it stands for
    /// one.
    pub fn from_token(token: &Token) -> (found: Option<BitwiseXorExpressionOp>)
        ensures
            operator_at(Level::BitwiseXor, Ok(token@)) == match found {
                Some(operator) => Some(operator.operator()),
                None => None,
            },
    {
        match token {
            Token::SymCaret => Some(BitwiseXorExpressionOp::BitwiseXor),
            _ => None,
        }
    }
}

/// A bitwise exclusive disjunction, or a node of the next tighter level passed on.  The operators of
/// this level associate to the left.
#[derive(Debug, PartialEq, Eq)]
pub enum BitwiseXorExpression {
    Binary { operator: BitwiseXorExpressionOp, lhs: Box<BitwiseXorExpression>, rhs: Box<BitwiseAndExpression> },
    Propagated(BitwiseAndExpression),
}

impl BitwiseXorExpression {
    /// The expression that the node stands for.
    pub open spec fn tree(&self) -> Expr
        decreases self,
    {
        match self {
            BitwiseXorExpression::Binary { operator, lhs, rhs } => Expr::Binary {
                operator: operator.operator(),
                left: Box::new(lhs.tree()),
                right: Box::new(rhs.tree()),
            },
            BitwiseXorExpression::Propagated(inner) => inner.tree(),
        }
    }

    /// The node of `operator` applied to `lhs` and `rhs`.
    pub fn binary(operator: BitwiseXorExpressionOp, lhs: BitwiseXorExpression, rhs: BitwiseAndExpression) -> (node: BitwiseXorExpression)
        ensures
            node@ == (Expr::Binary {
                operator: operator.operator(),
                left: Box::new(lhs@),
                right: Box::new(rhs@),
            }),
    {
        BitwiseXorExpression::Binary { operator, lhs: Box::new(lhs), rhs: Box::new(rhs) }
    }

    /// Reads one operand of the next tighter level and then, as long as
    /// `^` follows, that operator and one more operand, which are
    /// folded into what was read so far.
    pub fn read(parser: &mut Parser) -> (node: Result<BitwiseXorExpression, ParseError>)
        ensures
            parses(
                old(parser).remaining(),
                final(parser).remaining(),
                node,
                expression(Level::BitwiseXor, old(parser).remaining(), 0),
            ),
        decreases old(parser).remaining().len(), 8nat, 1nat,
    {
        let ghost toks = parser.remaining();
        proof {
            lemma_skip_skip(toks, 0, 0);
        }
        let first_term = BitwiseAndExpression::read(parser)?;
        let ghost mut at: nat = expression(Level::BitwiseXor.tighter(), toks, 0).consumed;
        let mut acc = BitwiseXorExpression::Propagated(first_term);
        loop
            invariant
                toks == old(parser).remaining(),
                at < toks.len(),
                parser.remaining() == toks.skip(at as int),
                expression(Level::BitwiseXor, toks, 0).outcome == binary_tail(
                    Level::BitwiseXor,
                    toks,
                    at,
                    acc@,
                ).outcome,
                expression(Level::BitwiseXor, toks, 0).consumed == at + binary_tail(
                    Level::BitwiseXor,
                    toks,
                    at,
                    acc@,
                ).consumed,
            decreases toks.len() - at,
        {
            proof {
                lemma_lookahead_skip(toks, at);
            }
            let operator: BitwiseXorExpressionOp = match parser.peek() {
                Ok(token) => match BitwiseXorExpressionOp::from_token(&token) {
                    Some(operator) => operator,
                    None => {
                        return Ok(acc);
                    },
                },
                Err(_) => {
                    return Ok(acc);
                },
            };
            parser.bump();
            proof {
                lemma_skip_skip(toks, at, 1);
                lemma_expression_skip(Level::BitwiseXor.tighter(), toks, at + 1, 0);
            }
            let ghost taken = 1 + expression(Level::BitwiseXor.tighter(), toks, at + 1).consumed;
            let new_rhs = match BitwiseAndExpression::read(parser) {
                Ok(operand) => operand,
                Err(error) => {
                    proof {
                        lemma_skip_skip(toks, at + 1, (taken - 1) as nat);
                    }
                    return Err(error);
                },
            };
            proof {
                lemma_skip_skip(toks, at + 1, (taken - 1) as nat);
                at = at + taken;
            }
            acc = BitwiseXorExpression::binary(operator, acc, new_rhs);
        }
    }
}

impl View for BitwiseXorExpression {
    type V = Expr;

    open spec fn view(&self) -> Expr {
        self.tree()
    }
}

/// The operators of [`BitwiseOrExpression`].
#[derive(Debug, Clone, Copy, PartialEq, Eq)]
pub enum BitwiseOrExpressionOp {
    /// `|`
    BitwiseOr,
}

impl BitwiseOrExpressionOp {
    /// The operator, among those of all levels.
    pub open spec fn operator(self) -> BinaryOperator {
        match self {
            BitwiseOrExpressionOp::BitwiseOr => BinaryOperator::BitwiseOr,
        }
    }

    /// The operator of this level that `token` stands for, if it stands for
    /// one.
    pub fn from_token(token: &Token) -> (found: Option<BitwiseOrExpressionOp>)
        ensures
            operator_at(Level::BitwiseOr, Ok(token@)) == match found {
                Some(operator) => Some(operator.operator()),
                None => None,
            },
    {
        match token {
            Token::SymPipe => Some(BitwiseOrExpressionOp::BitwiseOr),
            _ => None,
        }
    }
}

/// A bitwise disjunction, or a node of the next tighter level passed on.  The operators of
/// this level associate to the left.
#[derive(Debug, PartialEq, Eq)]
pub enum BitwiseOrExpression {
    Binary { operator: BitwiseOrExpressionOp, lhs: Box<BitwiseOrExpression>, rhs: Box<BitwiseXorExpression> },
    Propagated(BitwiseXorExpression),
}

impl BitwiseOrExpression {
    /// The expression that the node stands for.
    pub open spec fn tree(&self) -> Expr
        decreases self,
    {
        match self {
            BitwiseOrExpression::Binary { operator, lhs, rhs } => Expr::Binary {
                operator: operator.operator(),
                left: Box::new(lhs.tree()),
                right: Box::new(rhs.tree()),
            },
            BitwiseOrExpression::Propagated(inner) => inner.tree(),
        }
    }

    /// The node of `operator` applied to `lhs` and `rhs`.
    pub fn binary(operator: BitwiseOrExpressionOp, lhs: BitwiseOrExpression, rhs: BitwiseXorExpression) -> (node: BitwiseOrExpression)
        ensures
            node@ == (Expr::Binary {
                operator: operator.operator(),
                left: Box::new(lhs@),
                right: Box::new(rhs@),
            }),
    {
        BitwiseOrExpression::Binary { operator, lhs: Box::new(lhs), rhs: Box::new(rhs) }
    }

    /// Reads one operand of the next tighter level and then, as long as
    /// `|` follows, that operator and one more operand, which are
    /// folded into what was read so far.
    pub fn read(parser: &mut Parser) -> (node: Result<BitwiseOrExpression, ParseError>)
        ensures
            parses(
                old(parser).remaining(),
                final(parser).remaining(),
                node,
                expression(Level::BitwiseOr, old(parser).remaining(), 0),
            ),
        decreases old(parser).remaining().len(), 9nat, 1nat,
    {
        let ghost toks = parser.remaining();
        proof {
            lemma_skip_skip(toks, 0, 0);
        }
        let first_term = BitwiseXorExpression::read(parser)?;
        let ghost mut at: nat = expression(Level::BitwiseOr.tighter(), toks, 0).consumed;
        let mut acc = BitwiseOrExpression::Propagated(first_term);
        loop
            invariant
                toks == old(parser).remaining(),
                at < toks.len(),
                parser.remaining() == toks.skip(at as int),
                expression(Level::BitwiseOr, toks, 0).outcome == binary_tail(
                    Level::BitwiseOr,
                    toks,
                    at,
                    acc@,
                ).outcome,
                expression(Level::BitwiseOr, toks, 0).consumed == at + binary_tail(
                    Level::BitwiseOr,
                    toks,
                    at,
                    acc@,
                ).consumed,
            decreases toks.len() - at,
        {
            proof {
                lemma_lookahead_skip(toks, at);
            }
            let operator: BitwiseOrExpressionOp = match parser.peek() {
                Ok(token) => match BitwiseOrExpressionOp::from_token(&token) {
                    Some(operator) => operator,
                    None => {
                        return Ok(acc);
                    },
                },
                Err(_) => {
                    return Ok(acc);
                },
            };
            parser.bump();
            proof {
                lemma_skip_skip(toks, at, 1);
                lemma_expression_skip(Level::BitwiseOr.tighter(), toks, at + 1, 0);
            }
            let ghost taken = 1 + expression(Level::BitwiseOr.tighter(), toks, at + 1).consumed;
            let new_rhs = match BitwiseXorExpression::read(parser) {
                Ok(operand) => operand,
                Err(error) => {
                    proof {
                        lemma_skip_skip(toks, at + 1, (taken - 1) as nat);
                    }
                    return Err(error);
                },
            };
            proof {
                lemma_skip_skip(toks, at + 1, (taken - 1) as nat);
                at = at + taken;
            }
            acc = BitwiseOrExpression::binary(operator, acc, new_rhs);
        }
    }
}

impl View for BitwiseOrExpression {
    type V = Expr;

    open spec fn view(&self) -> Expr {
        self.tree()
    }
}

/// The operators of [`LogicalAndExpression`].
#[derive(Debug, Clone, Copy, PartialEq, Eq)]
pub enum LogicalAndExpressionOp {
    /// `&&`
    LogicalAnd,
}

impl LogicalAndExpressionOp {
    /// The operator, among those of all levels.
    pub open spec fn operator(self) -> BinaryOperator {
        match self {
            LogicalAndExpressionOp::LogicalAnd => BinaryOperator::LogicalAnd,
        }
    }

    /// The operator of this level that `token` stands for, if it stands for
    /// one.
    pub fn from_token(token: &Token) -> (found: Option<LogicalAndExpressionOp>)
        ensures
            operator_at(Level::LogicalAnd, Ok(token@)) == match found {
                Some(operator) => Some(operator.operator()),
                None => None,
            },
    {
        match token {
            Token::PartAndAnd => Some(LogicalAndExpressionOp::LogicalAnd),
            _ => None,
        }
    }
}

/// A logical conjunction, or a node of the next tighter level passed on.  The operators of
/// this level associate to the left.
#[derive(Debug, PartialEq, Eq)]
pub enum LogicalAndExpression {
    Binary { operator: LogicalAndExpressionOp, lhs: Box<LogicalAndExpression>, rhs: Box<BitwiseOrExpression> },
    Propagated(BitwiseOrExpression),
}

impl LogicalAndExpression {
    /// The expression that the node stands for.
    pub open spec fn tree(&self) -> Expr
        decreases self,
    {
        match self {
            LogicalAndExpression::Binary { operator, lhs, rhs } => Expr::Binary {
                operator: operator.operator(),
                left: Box::new(lhs.tree()),
                right: Box::new(rhs.tree()),
            },
            LogicalAndExpression::Propagated(inner) => inner.tree(),
        }
    }

    /// The node of `operator` applied to `lhs` and `rhs`.
    pub fn binary(operator: LogicalAndExpressionOp, lhs: LogicalAndExpression, rhs: BitwiseOrExpression) -> (node: LogicalAndExpression)
        ensures
            node@ == (Expr::Binary {
                operator: operator.operator(),
                left: Box::new(lhs@),
                right: Box::new(rhs@),
            }),
    {
        LogicalAndExpression::Binary { operator, lhs: Box::new(lhs), rhs: Box::new(rhs) }
    }

    /// Reads one operand of the next tighter level and then, as long as
    /// `&&` follows, that operator and one more operand, which are
    /// folded into what was read so far.
    pub fn read(parser: &mut Parser) -> (node: Result<LogicalAndExpression, ParseError>)
        ensures
            parses(
                old(parser).remaining(),
                final(parser).remaining(),
                node,
                expression(Level::LogicalAnd, old(parser).remaining(), 0),
            ),
        decreases old(parser).remaining().len(), 10nat, 1nat,
    {
        let ghost toks = parser.remaining();
        proof {
            lemma_skip_skip(toks, 0, 0);
        }
        let first_term = BitwiseOrExpression::read(parser)?;
        let ghost mut at: nat = expression(Level::LogicalAnd.tighter(), toks, 0).consumed;
        let mut acc = LogicalAndExpression::Propagated(first_term);
        loop
            invariant
                toks == old(parser).remaining(),
                at < toks.len(),
                parser.remaining() == toks.skip(at as int),
                expression(Level::LogicalAnd, toks, 0).outcome == binary_tail(
                    Level::LogicalAnd,
                    toks,
                    at,
                    acc@,
                ).outcome,
                expression(Level::LogicalAnd, toks, 0).consumed == at + binary_tail(
                    Level::LogicalAnd,
                    toks,
                    at,
                    acc@,
                ).consumed,
            decreases toks.len() - at,
        {
            proof {
                lemma_lookahead_skip(toks, at);
            }
            let operator: LogicalAndExpressionOp = match parser.peek() {
                Ok(token) => match LogicalAndExpressionOp::from_token(&token) {
                    Some(operator) => operator,
                    None => {
                        return Ok(acc);
                    },
                },
                Err(_) => {
                    return Ok(acc);
                },
            };
            parser.bump();
            proof {
                lemma_skip_skip(toks, at, 1);
                lemma_expression_skip(Level::LogicalAnd.tighter(), toks, at + 1, 0);
            }
            let ghost taken = 1 + expression(Level::LogicalAnd.tighter(), toks, at + 1).consumed;
            let new_rhs = match BitwiseOrExpression::read(parser) {
                Ok(operand) => operand,
                Err(error) => {
                    proof {
                        lemma_skip_skip(toks, at + 1, (taken - 1) as nat);
                    }
                    return Err(error);
                },
            };
            proof {
                lemma_skip_skip(toks, at + 1, (taken - 1) as nat);
                at = at + taken;
            }
            acc = LogicalAndExpression::binary(operator, acc, new_rhs);
        }
    }
}

impl View for LogicalAndExpression {
    type V = Expr;

    open spec fn view(&self) -> Expr {
        self.tree()
    }
}

/// The operators of [`LogicalOrExpression`].
#[derive(Debug, Clone, Copy, PartialEq, Eq)]
pub enum LogicalOrExpressionOp {
    /// `||`
    LogicalOr,
}

impl LogicalOrExpressionOp {
    /// The operator, among those of all levels.
    pub open spec fn operator(self) -> BinaryOperator {
        match self {
            LogicalOrExpressionOp::LogicalOr => BinaryOperator::LogicalOr,
        }
    }

    /// The operator of this level that `token` stands for, if it stands for
    /// one.
    pub fn from_token(token: &Token) -> (found: Option<LogicalOrExpressionOp>)
        ensures
            operator_at(Level::LogicalOr, Ok(token@)) == match found {
                Some(operator) => Some(operator.operator()),
                None => None,
            },
    {
        match token {
            Token::PartPipePipe => Some(LogicalOrExpressionOp::LogicalOr),
            _ => None,
        }
    }
}

/// A logical disjunction, the loosest level: a full expression, or a node of the next tighter level passed on.  The operators of
/// this level associate to the left.
#[derive(Debug, PartialEq, Eq)]
pub enum LogicalOrExpression {
    Binary { operator: LogicalOrExpressionOp, lhs: Box<LogicalOrExpression>, rhs: Box<LogicalAndExpression> },
    Propagated(LogicalAndExpression),
}

impl LogicalOrExpression {
    /// The expression that the node stands for.
    pub open spec fn tree(&self) -> Expr
        decreases self,
    {
        match self {
            LogicalOrExpression::Binary { operator, lhs, rhs } => Expr::Binary {
                operator: operator.operator(),
                left: Box::new(lhs.tree()),
                right: Box::new(rhs.tree()),
            },
            LogicalOrExpression::Propagated(inner) => inner.tree(),
        }
    }

    /// The node of `operator` applied to `lhs` and `rhs`.
    pub fn binary(operator: LogicalOrExpressionOp, lhs: LogicalOrExpression, rhs: LogicalAndExpression) -> (node: LogicalOrExpression)
        ensures
            node@ == (Expr::Binary {
                operator: operator.operator(),
                left: Box::new(lhs@),
                right: Box::new(rhs@),
            }),
    {
        LogicalOrExpression::Binary { operator, lhs: Box::new(lhs), rhs: Box::new(rhs) }
    }

    /// Reads one operand of the next tighter level and then, as long as
    /// `||` follows, that operator and one more operand, which are
    /// folded into what was read so far.
    pub fn read(parser: &mut Parser) -> (node: Result<LogicalOrExpression, ParseError>)
        ensures
            parses(
                old(parser).remaining(),
                final(parser).remaining(),
                node,
                expression(Level::LogicalOr, old(parser).remaining(), 0),
            ),
        decreases old(parser).remaining().len(), 11nat, 1nat,
    {
        let ghost toks = parser.remaining();
        proof {
            lemma_skip_skip(toks, 0, 0);
        }
        let first_term = LogicalAndExpression::read(parser)?;
        let ghost mut at: nat = expression(Level::LogicalOr.tighter(), toks, 0).consumed;
        let mut acc = LogicalOrExpression::Propagated(first_term);
        loop
            invariant
                toks == old(parser).remaining(),
                at < toks.len(),
                parser.remaining() == toks.skip(at as int),
                expression(Level::LogicalOr, toks, 0).outcome == binary_tail(
                    Level::LogicalOr,
                    toks,
                    at,
                    acc@,
                ).outcome,
                expression(Level::LogicalOr, toks, 0).consumed == at + binary_tail(
                    Level::LogicalOr,
                    toks,
                    at,
                    acc@,
                ).consumed,
            decreases toks.len() - at,
        {
            proof {
                lemma_lookahead_skip(toks, at);
            }
            let operator: LogicalOrExpressionOp = match parser.peek() {
                Ok(token) => match LogicalOrExpressionOp::from_token(&token) {
                    Some(operator) => operator,
                    None => {
                        return Ok(acc);
                    },
                },
                Err(_) => {
                    return Ok(acc);
                },
            };
            parser.bump();
            proof {
                lemma_skip_skip(toks, at, 1);
                lemma_expression_skip(Level::LogicalOr.tighter(), toks, at + 1, 0);
            }
            let ghost taken = 1 + expression(Level::LogicalOr.tighter(), toks, at + 1).consumed;
            let new_rhs = match LogicalAndExpression::read(parser) {
                Ok(operand) => operand,
                Err(error) => {
                    proof {
                        lemma_skip_skip(toks, at + 1, (taken - 1) as nat);
                    }
                    return Err(error);
                },
            };
            proof {
                lemma_skip_skip(toks, at + 1, (taken - 1) as nat);
                at = at + taken;
            }
            acc = LogicalOrExpression::binary(operator, acc, new_rhs);
        }
    }
}

impl View for LogicalOrExpression {
    type V = Expr;

    open spec fn view(&self) -> Expr {
        self.tree()
    }
}

} // verus!
