//! Abstract syntax: what the parser's trees, statements and errors are, as
//! mathematical values.
//!
//! The parser builds one node type per precedence level.  All of them have
//! the same view, [`Expr`]: the tree without the wrappers that only pass a
//! node of a tighter level on.  The operators of different levels are
//! different, so a tree of one level has one view and a view one tree.
use crate::token::{LexError, Lexeme, TokenView};
use vstd::prelude::*;

verus! {

/// The binary operators of all levels.
#[derive(Debug, Clone, Copy, PartialEq, Eq, Structural)]
pub enum BinaryOperator {
    /// `*`
    Multiply,
    /// `/`
    Divide,
    /// `%`, which no token stands for yet.
    Remainder,
    /// `+`
    Add,
    /// `-`
    Subtract,
    /// `<<`
    LeftShift,
    /// `>>`
    RightShift,
    /// `<`
    Less,
    /// `<=`
    LessEqual,
    /// `>`
    More,
    /// `>=`
    MoreEqual,
    /// `<=>`
    Spaceship,
    /// `==`
    Equal,
    /// `!=`
    NotEqual,
    /// `&`
    BitwiseAnd,
    /// `^`
    BitwiseXor,
    /// `|`
    BitwiseOr,
    /// `&&`
    LogicalAnd,
    /// `||`
    LogicalOr,
}

/// The levels of the precedence ladder, from the one that binds tightest to
/// the one that binds loosest.
pub enum Level {
    Primary,
    Cast,
    Multiplicative,
    Additive,
    Shift,
    Relational,
    Equality,
    BitwiseAnd,
    BitwiseXor,
    BitwiseOr,
    LogicalAnd,
    LogicalOr,
}

impl Level {
    /// The place of the level on the ladder: the tighter, the smaller.
    pub open spec fn rank(self) -> nat {
        match self {
            Level::Primary => 0,
            Level::Cast => 1,
            Level::Multiplicative => 2,
            Level::Additive => 3,
            Level::Shift => 4,
            Level::Relational => 5,
            Level::Equality => 6,
            Level::BitwiseAnd => 7,
            Level::BitwiseXor => 8,
            Level::BitwiseOr => 9,
            Level::LogicalAnd => 10,
            Level::LogicalOr => 11,
        }
    }

    /// The next tighter level, whose nodes are the operands of this one.
    pub open spec fn tighter(self) -> Level {
        match self {
            Level::Primary => Level::Primary,
            Level::Cast => Level::Primary,
            Level::Multiplicative => Level::Cast,
            Level::Additive => Level::Multiplicative,
            Level::Shift => Level::Additive,
            Level::Relational => Level::Shift,
            Level::Equality => Level::Relational,
            Level::BitwiseAnd => Level::Equality,
            Level::BitwiseXor => Level::BitwiseAnd,
            Level::BitwiseOr => Level::BitwiseXor,
            Level::LogicalAnd => Level::BitwiseOr,
            Level::LogicalOr => Level::LogicalAnd,
        }
    }

    /// Whether the level is one of the ten that have binary operators.
    pub open spec fn is_binary(self) -> bool {
        self.rank() >= 2
    }
}

/// The level at which an operator is parsed.
pub open spec fn level_of(operator: BinaryOperator) -> Level {
    match operator {
        BinaryOperator::Multiply | BinaryOperator::Divide | BinaryOperator::Remainder => {
            Level::Multiplicative
        },
        BinaryOperator::Add | BinaryOperator::Subtract => Level::Additive,
        BinaryOperator::LeftShift | BinaryOperator::RightShift => Level::Shift,
        BinaryOperator::Less
        | BinaryOperator::LessEqual
        | BinaryOperator::More
        | BinaryOperator::MoreEqual
        | BinaryOperator::Spaceship => Level::Relational,
        BinaryOperator::Equal | BinaryOperator::NotEqual => Level::Equality,
        BinaryOperator::BitwiseAnd => Level::BitwiseAnd,
        BinaryOperator::BitwiseXor => Level::BitwiseXor,
        BinaryOperator::BitwiseOr => Level::BitwiseOr,
        BinaryOperator::LogicalAnd => Level::LogicalAnd,
        BinaryOperator::LogicalOr => Level::LogicalOr,
    }
}

/// The operator that a token stands for, if it stands for one.
pub open spec fn operator_of(token: TokenView) -> Option<BinaryOperator> {
    match token {
        TokenView::SymAsterisk => Some(BinaryOperator::Multiply),
        TokenView::SymSlash => Some(BinaryOperator::Divide),
        TokenView::SymPlus => Some(BinaryOperator::Add),
        TokenView::SymMinus => Some(BinaryOperator::Subtract),
        TokenView::PartLessLess => Some(BinaryOperator::LeftShift),
        TokenView::PartMoreMore => Some(BinaryOperator::RightShift),
        TokenView::SymLess => Some(BinaryOperator::Less),
        TokenView::PartLessEq => Some(BinaryOperator::LessEqual),
        TokenView::SymMore => Some(BinaryOperator::More),
        TokenView::PartMoreEq => Some(BinaryOperator::MoreEqual),
        TokenView::PartLessEqMore => Some(BinaryOperator::Spaceship),
        TokenView::PartEqEq => Some(BinaryOperator::Equal),
        TokenView::PartBangEq => Some(BinaryOperator::NotEqual),
        TokenView::SymAnd => Some(BinaryOperator::BitwiseAnd),
        TokenView::SymCaret => Some(BinaryOperator::BitwiseXor),
        TokenView::SymPipe => Some(BinaryOperator::BitwiseOr),
        TokenView::PartAndAnd => Some(BinaryOperator::LogicalAnd),
        TokenView::PartPipePipe => Some(BinaryOperator::LogicalOr),
        _ => None,
    }
}

/// The operator of `level` that a lexeme stands for, if it stands for one.
pub open spec fn operator_at(level: Level, lexeme: Lexeme) -> Option<BinaryOperator> {
    match lexeme {
        Ok(token) => match operator_of(token) {
            Some(operator) => if level_of(operator) == level {
                Some(operator)
            } else {
                None
            },
            None => None,
        },
        Err(_) => None,
    }
}

/// An expression: the common view of the nodes of all levels.
pub enum Expr {
    /// A run of digits, kept as written.
    IntegralLiteral { sequence: Seq<char> },
    /// The decoded text of a string literal.
    StringLiteral { sequence: Seq<char> },
    /// A reference to a variable.
    Variable { identifier: Seq<char> },
    True,
    False,
    /// An expression in parentheses.
    Parenthesized { inner: Box<Expr> },
    /// `operand as target`, the target being a dotted type name.
    Cast { operand: Box<Expr>, target: Seq<Seq<char>> },
    /// `left operator right`
    Binary { operator: BinaryOperator, left: Box<Expr>, right: Box<Expr> },
}

/// What the parser wanted where it found something else.
pub enum ExpectedView {
    /// A literal, a variable or an opening parenthesis.
    Operand,
    Identifier,
    /// A run of digits.
    IntegralLiteral,
    /// A line break or the end of input.
    EndOfStatement,
    /// This very token.
    Token(TokenView),
}

/// Why a text is no program.
pub enum ParseErrorView {
    /// The text holds no token where one was needed.
    Lexical { error: LexError },
    /// A token stands where the grammar has no place for it.
    UnexpectedToken { found: TokenView, expected: ExpectedView },
    /// A run of digits writes no number of 32 bits.
    InvalidInteger { sequence: Seq<char> },
}

/// The right-hand side of a declaration.
pub enum RightHandSideView {
    /// A lone identifier: a reference to a node.
    Identifier(Seq<char>),
    /// A dotted path of two or more identifiers.
    MemberPath(Seq<Seq<char>>),
    Expression(Expr),
}

/// A statement.
pub enum StatementView {
    /// `var identifier: type_tag = rhs`, the type being optional.
    NodeDeclaration {
        identifier: Seq<char>,
        type_tag: Option<Seq<Seq<char>>>,
        rhs: RightHandSideView,
    },
    /// A bare expression.
    Print { expression: Expr },
    /// A line comment.
    Comment { content: Seq<char> },
    /// The end of input, where a statement was asked for.
    NoMoreStatements,
}

/// The views of the items of a sequence.
pub open spec fn views_of<T: View>(items: Seq<T>) -> Seq<T::V> {
    Seq::new(items.len(), |i: int| items[i]@)
}

/// The views of a sequence with one more item are the views of the sequence
/// and one more.
pub proof fn lemma_views_push<T: View>(items: Seq<T>, last: T, rest: Seq<T::V>)
    ensures
        views_of(items.push(last)) == views_of(items).push(last@),
        views_of(items) + (seq![last@] + rest) == views_of(items.push(last)) + rest,
        views_of(items) + seq![last@] == views_of(items.push(last)),
{
    assert(views_of(items.push(last)) =~= views_of(items).push(last@));
    assert(views_of(items) + (seq![last@] + rest) =~= views_of(items.push(last)) + rest);
    assert(views_of(items) + seq![last@] =~= views_of(items.push(last)));
}

/// The views of a result's two sides.
pub open spec fn viewed<T: View, E: View>(outcome: Result<T, E>) -> Result<T::V, E::V> {
    match outcome {
        Ok(value) => Ok(value@),
        Err(error) => Err(error@),
    }
}

} // verus!
