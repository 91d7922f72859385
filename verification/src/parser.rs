//! The parser: a recursive descent over the lexer's tokens.
//!
//! Each rule of the grammar is one function.  It takes the tokens that it
//! needs from the lexer and builds its node; its contract says that the node,
//! or the error, is the one that the rule of the same name in
//! [`crate::grammar`] gives for the lexemes that were still to come, and that
//! the lexer has moved past exactly the lexemes that the rule took.
use crate::grammar::{
    accepted, decimal, decimal_i32, declaration, exactly, expression, integer, lemma_lookahead_skip,
    lemma_path_skip, lemma_right_hand_side_skip, lemma_statement_skip,
    lemma_type_annotation_skip, lookahead, path, program, right_hand_side, rejected,
    segment, statement, type_annotation, unexpected, Parsed,
};
use crate::lexer::Lexer;
use crate::lexical::{lemma_stream_unfold, lex};
use crate::parser::expression::{
    Additive, EqualityCheckExpression, LogicalOrExpression, RelationCheckExpression,
};
use crate::syntax::{
    lemma_views_push, viewed, views_of, ExpectedView, Level, ParseErrorView, RightHandSideView,
    StatementView,
};
use crate::text::characters;
use crate::token::{is_consumable, lexeme_of, LexError, Lexeme, Token, TokenView};
use vstd::prelude::*;
use vstd::string::*;

pub mod expression;

verus! {

/// What the parser wanted where it found something else.
#[derive(Debug, Clone, PartialEq, Eq)]
pub enum Expected {
    /// A literal, a variable or an opening parenthesis.
    Operand,
    Identifier,
    /// A run of digits.
    IntegralLiteral,
    /// A line break or the end of input.
    EndOfStatement,
    /// This very token.
    Token(Token),
}

impl View for Expected {
    type V = ExpectedView;

    open spec fn view(&self) -> ExpectedView {
        match self {
            Expected::Operand => ExpectedView::Operand,
            Expected::Identifier => ExpectedView::Identifier,
            Expected::IntegralLiteral => ExpectedView::IntegralLiteral,
            Expected::EndOfStatement => ExpectedView::EndOfStatement,
            Expected::Token(token) => ExpectedView::Token(token@),
        }
    }
}

/// Why a text is no program.  One error ends the parse: nothing is skipped
/// to go on behind it.
#[derive(Debug, Clone, PartialEq, Eq)]
pub enum ParseError {
    /// The text holds no token where one was needed.
    Lexical { error: LexError },
    /// A token stands where the grammar has no place for it.
    UnexpectedToken { found: Token, expected: Expected },
    /// A run of digits writes no number of 32 bits.
    InvalidInteger { sequence: String },
}

impl View for ParseError {
    type V = ParseErrorView;

    open spec fn view(&self) -> ParseErrorView {
        match self {
            ParseError::Lexical { error } => ParseErrorView::Lexical { error: *error },
            ParseError::UnexpectedToken { found, expected } => ParseErrorView::UnexpectedToken {
                found: found@,
                expected: expected@,
            },
            ParseError::InvalidInteger { sequence } => ParseErrorView::InvalidInteger {
                sequence: sequence@,
            },
        }
    }
}

/// The error for what the lexer handed out where `expected` was wanted.
pub fn unexpected_token(found: Result<Token, LexError>, expected: Expected) -> (error: ParseError)
    ensures
        error@ == unexpected(lexeme_of(found), expected@),
{
    match found {
        Ok(found) => ParseError::UnexpectedToken { found, expected },
        Err(error) => ParseError::Lexical { error },
    }
}

/// Whether what the lexer handed out is the token `wanted`.
pub fn is_token(found: &Result<Token, LexError>, wanted: &Token) -> (same: bool)
    ensures
        same == (lexeme_of(*found) == Ok::<TokenView, LexError>(wanted@)),
{
    match found {
        Ok(token) => token.same(wanted),
        Err(_) => false,
    }
}

/// That a rule function did what the rule says: its outcome is the rule's,
/// and of the lexemes that were to come (`before`) those that the rule took
/// are gone (`behind`).  The last lexeme, the end of input or an error, is
/// never taken.
pub open spec fn parses<T: View>(
    before: Seq<Lexeme>,
    behind: Seq<Lexeme>,
    outcome: Result<T, ParseError>,
    rule: Parsed<T::V>,
) -> bool {
    &&& viewed(outcome) == rule.outcome
    &&& rule.consumed < before.len()
    &&& behind == before.skip(rule.consumed as int)
}

/// `parsed`, reached after `lead` lexemes had been taken and the items of
/// `prefix` had been parsed.
pub open spec fn prefixed<T>(prefix: Seq<T>, lead: nat, parsed: Parsed<Seq<T>>) -> Parsed<Seq<T>> {
    Parsed {
        outcome: match parsed.outcome {
            Ok(items) => Ok(prefix + items),
            Err(error) => Err(error),
        },
        consumed: lead + parsed.consumed,
    }
}

/// Dropping lexemes in two steps is dropping them in one.
pub proof fn lemma_skip_skip(toks: Seq<Lexeme>, first: nat, second: nat)
    requires
        first + second <= toks.len(),
    ensures
        toks.skip(first as int).skip(second as int) == toks.skip((first + second) as int),
        toks.skip(0) == toks,
{
    assert(toks.skip(first as int).skip(second as int) =~= toks.skip((first + second) as int));
    assert(toks.skip(0) =~= toks);
}

/// An identifier: a name, compared and hashed by its text.
#[derive(Debug, Clone, PartialEq, Eq, Hash)]
pub struct Identifier(pub String);

impl View for Identifier {
    type V = Seq<char>;

    open spec fn view(&self) -> Seq<char> {
        self.0@
    }
}

/// A dotted path: one or more identifiers, in the order written.
#[derive(Debug, Clone, PartialEq, Eq)]
pub struct MemberPath {
    pub pack: Vec<Identifier>,
}

impl View for MemberPath {
    type V = Seq<Seq<char>>;

    open spec fn view(&self) -> Seq<Seq<char>> {
        views_of(self.pack@)
    }
}

/// A dotted path that names a type.  It is unresolved: which type it names,
/// if any, is for the evaluator to say.
#[derive(Debug, Clone, PartialEq, Eq)]
pub struct UnresolvedTypeName(pub MemberPath);

impl View for UnresolvedTypeName {
    type V = Seq<Seq<char>>;

    open spec fn view(&self) -> Seq<Seq<char>> {
        self.0@
    }
}

/// A parser over the tokens of one lexer.
pub struct Parser {
    lexer: Lexer,
}

impl Parser {
    /// The lexemes that are still to come.
    pub closed spec fn remaining(&self) -> Seq<Lexeme> {
        self.lexer.remaining()
    }

    /// A parser that reads on from where `lexer` stands.
    pub fn with_lexer(lexer: Lexer) -> (parser: Self)
        ensures
            parser.remaining() == lexer.remaining(),
    {
        Self { lexer }
    }

    /// The next token, which stays where it is.
    pub(crate) fn peek(&mut self) -> (token: Result<Token, LexError>)
        ensures
            final(self).remaining() == old(self).remaining(),
            old(self).remaining().len() >= 1,
            lexeme_of(token) == lookahead(old(self).remaining(), 0),
    {
        proof {
            lemma_stream_unfold(self.lexer.source(), self.lexer.position());
        }
        self.lexer.peek()
    }

    /// The token behind the next one, where the next one is no end of input.
    pub(crate) fn peek_second(&mut self) -> (token: Result<Token, LexError>)
        requires
            is_consumable(lookahead(old(self).remaining(), 0)),
        ensures
            final(self).remaining() == old(self).remaining(),
            lexeme_of(token) == lookahead(old(self).remaining(), 1),
    {
        proof {
            lemma_stream_unfold(self.lexer.source(), self.lexer.position());
            lemma_stream_unfold(
                self.lexer.source(),
                lex(self.lexer.source(), self.lexer.position()).end,
            );
        }
        self.lexer.peek_second()
    }

    /// Takes the next token, which is no end of input.
    pub(crate) fn bump(&mut self)
        requires
            is_consumable(lookahead(old(self).remaining(), 0)),
        ensures
            old(self).remaining().len() >= 2,
            final(self).remaining() == old(self).remaining().skip(1),
    {
        proof {
            lemma_stream_unfold(self.lexer.source(), self.lexer.position());
            lemma_stream_unfold(
                self.lexer.source(),
                lex(self.lexer.source(), self.lexer.position()).end,
            );
        }
        let _ = self.lexer.next();
    }
}

impl Identifier {
    /// Reads one identifier.
    pub fn read(parser: &mut Parser) -> (node: Result<Identifier, ParseError>)
        ensures
            parses(
                old(parser).remaining(),
                final(parser).remaining(),
                node,
                segment(old(parser).remaining(), 0),
            ),
    {
        proof {
            lemma_skip_skip(parser.remaining(), 0, 0);
        }
        match parser.peek() {
            Ok(Token::Identifier { inner }) => {
                parser.bump();
                Ok(Identifier(inner))
            },
            other => Err(unexpected_token(other, Expected::Identifier)),
        }
    }
}

/// Nothing, put in front, changes nothing.
proof fn lemma_prefixed_by_nothing<T>(parsed: Parsed<Seq<T>>)
    ensures
        prefixed(Seq::<T>::empty(), 0, parsed) == parsed,
{
    match parsed.outcome {
        Ok(items) => {
            assert(Seq::<T>::empty() + items =~= items);
        },
        Err(_) => {},
    }
}

impl MemberPath {
    /// Whether the path is one that can be written: whether it has a
    /// segment.
    pub open spec fn well_formed(&self) -> bool {
        self.pack@.len() >= 1
    }

    /// Reads a dotted path: identifiers with a dot between each two.
    pub fn read(parser: &mut Parser) -> (node: Result<MemberPath, ParseError>)
        ensures
            parses(
                old(parser).remaining(),
                final(parser).remaining(),
                node,
                path(old(parser).remaining(), 0),
            ),
            node matches Ok(found) ==> found.well_formed(),
    {
        let ghost toks = parser.remaining();
        let mut buf: Vec<Identifier> = Vec::new();
        let ghost mut at: nat = 0;
        proof {
            lemma_skip_skip(toks, 0, 0);
            lemma_stream_unfold(parser.lexer.source(), parser.lexer.position());
            lemma_prefixed_by_nothing(path(toks, 0));
            assert(views_of(buf@) =~= Seq::<Seq<char>>::empty());
        }
        loop
            invariant
                toks == old(parser).remaining(),
                at < toks.len(),
                parser.remaining() == toks.skip(at as int),
                path(toks, 0) == prefixed(views_of(buf@), at, path(toks, at)),
            decreases toks.len() - at,
        {
            proof {
                lemma_lookahead_skip(toks, at);
            }
            let ghost before = buf@;
            let piece = match parser.peek() {
                Ok(Token::Identifier { inner }) => Identifier(inner),
                other => {
                    return Err(unexpected_token(other, Expected::Identifier));
                },
            };
            parser.bump();
            let ghost last = piece;
            buf.push(piece);
            proof {
                lemma_skip_skip(toks, at, 1);
                lemma_lookahead_skip(toks, at + 1);
            }
            match parser.peek() {
                Ok(Token::SymDot) => {
                    parser.bump();
                    proof {
                        lemma_skip_skip(toks, at + 1, 1);
                        match path(toks, at + 2).outcome {
                            Ok(names) => {
                                lemma_views_push(before, last, names);
                            },
                            Err(_) => {},
                        }
                        at = at + 2;
                    }
                },
                _ => {
                    proof {
                        lemma_views_push(before, last, Seq::empty());
                    }
                    return Ok(MemberPath { pack: buf });
                },
            }
        }
    }
}

impl UnresolvedTypeName {
    /// Reads a type name: a dotted path.
    pub fn read(parser: &mut Parser) -> (node: Result<UnresolvedTypeName, ParseError>)
        ensures
            parses(
                old(parser).remaining(),
                final(parser).remaining(),
                node,
                path(old(parser).remaining(), 0),
            ),
            node matches Ok(found) ==> found.0.well_formed(),
    {
        match MemberPath::read(parser) {
            Ok(member_path) => Ok(UnresolvedTypeName(member_path)),
            Err(error) => Err(error),
        }
    }
}

/// The number of 32 bits that `text` writes in decimal digits, if it writes
/// one.
pub fn decimal_value(text: &String) -> (value: Option<i32>)
    ensures
        value == decimal_i32(text@),
{
    let digits = characters(text.as_str());
    let n: usize = digits.len();
    if n == 0 {
        return None;
    }
    let mut value: i32 = 0;
    let mut i: usize = 0;
    while i < n
        invariant
            digits@ == text@,
            n == digits@.len(),
            i <= n,
            0 <= value,
            i > 0 ==> decimal(digits@.take(i as int)) == Some(value as nat),
            i == 0 ==> value == 0,
        decreases n - i,
    {
        let c: char = digits[i];
        proof {
            assert(digits@.take(i + 1).drop_last() =~= digits@.take(i as int));
            assert(digits@.take(i + 1).last() == c);
            lemma_decimal_prefix(digits@, (i + 1) as nat);
        }
        if !('0' <= c && c <= '9') {
            return None;
        }
        let digit: i32 = (c as u32 - '0' as u32) as i32;
        if value > (i32::MAX - digit) / 10 {
            return None;
        }
        value = value * 10 + digit;
        i = i + 1;
    }
    proof {
        assert(digits@.take(n as int) =~= digits@);
    }
    Some(value)
}

/// Where a prefix of a text writes no number, or one that is too large for
/// 32 bits, so does the text.
proof fn lemma_decimal_prefix(text: Seq<char>, length: nat)
    requires
        1 <= length <= text.len(),
    ensures
        decimal(text.take(length as int)) is None ==> decimal(text) is None,
        decimal(text.take(length as int)) matches Some(part) ==> (decimal(text) matches Some(
            whole,
        ) ==> part <= whole),
    decreases text.len() - length,
{
    if length < text.len() {
        lemma_decimal_prefix(text, length + 1);
        assert(text.take((length + 1) as int).drop_last() =~= text.take(length as int));
    } else {
        assert(text.take(length as int) =~= text);
    }
}

/// The right-hand side of a declaration.
#[derive(Debug, PartialEq, Eq)]
pub enum RightHandSideValue {
    /// A lone identifier: a reference to a node.
    Identifier(Identifier),
    /// A dotted path of two or more identifiers.
    MemberPath(MemberPath),
    Expression(LogicalOrExpression),
}

impl View for RightHandSideValue {
    type V = RightHandSideView;

    open spec fn view(&self) -> RightHandSideView {
        match self {
            RightHandSideValue::Identifier(identifier) => RightHandSideView::Identifier(
                identifier@,
            ),
            RightHandSideValue::MemberPath(member_path) => RightHandSideView::MemberPath(
                member_path@,
            ),
            RightHandSideValue::Expression(tree) => RightHandSideView::Expression(tree@),
        }
    }
}

impl RightHandSideValue {
    /// Reads the right-hand side of a declaration: an identifier at the end
    /// of the statement, a member path, or else a full expression.
    pub fn read(parser: &mut Parser) -> (node: Result<RightHandSideValue, ParseError>)
        ensures
            parses(
                old(parser).remaining(),
                final(parser).remaining(),
                node,
                right_hand_side(old(parser).remaining(), 0),
            ),
    {
        let ghost toks = parser.remaining();
        let starts_with_identifier = match parser.peek() {
            Ok(Token::Identifier { .. }) => true,
            _ => false,
        };
        if starts_with_identifier {
            match parser.peek_second() {
                Ok(Token::NewLine) | Ok(Token::EndOfFile) => {
                    return match Identifier::read(parser) {
                        Ok(identifier) => Ok(RightHandSideValue::Identifier(identifier)),
                        Err(error) => Err(error),
                    };
                },
                Ok(Token::SymDot) => {
                    return match MemberPath::read(parser) {
                        Ok(member_path) => Ok(RightHandSideValue::MemberPath(member_path)),
                        Err(error) => Err(error),
                    };
                },
                _ => {},
            }
        }
        match LogicalOrExpression::read(parser) {
            Ok(tree) => Ok(RightHandSideValue::Expression(tree)),
            Err(error) => Err(error),
        }
    }
}

/// A statement.
#[derive(Debug, PartialEq, Eq)]
pub enum Statement {
    /// `var identifier: type_tag = rhs`, the type being optional.
    NodeDeclaration {
        identifier: Identifier,
        type_tag: Option<UnresolvedTypeName>,
        rhs: RightHandSideValue,
    },
    /// A bare expression.
    Print { expression: LogicalOrExpression },
    /// A line comment.
    Comment { content: String },
    /// The end of input, where a statement was asked for.
    NoMoreStatements,
}

impl View for Statement {
    type V = StatementView;

    open spec fn view(&self) -> StatementView {
        match self {
            Statement::NodeDeclaration { identifier, type_tag, rhs } => {
                StatementView::NodeDeclaration {
                    identifier: identifier@,
                    type_tag: match type_tag {
                        Some(name) => Some(name@),
                        None => None,
                    },
                    rhs: rhs@,
                }
            },
            Statement::Print { expression } => StatementView::Print { expression: expression@ },
            Statement::Comment { content } => StatementView::Comment { content: content@ },
            Statement::NoMoreStatements => StatementView::NoMoreStatements,
        }
    }
}

impl Statement {
    /// Reads one statement: at the end of input the sentinel, else a
    /// comment, a declaration or a bare expression.
    pub fn read(parser: &mut Parser) -> (node: Result<Statement, ParseError>)
        ensures
            parses(
                old(parser).remaining(),
                final(parser).remaining(),
                node,
                statement(old(parser).remaining(), 0),
            ),
    {
        proof {
            lemma_skip_skip(parser.remaining(), 0, 0);
        }
        let next = parser.peek();
        if is_token(&next, &Token::EndOfFile) {
            return Ok(Statement::NoMoreStatements);
        }
        if is_token(&next, &Token::VarKeyword) {
            return parser.parse_variable_declaration();
        }
        match next {
            Ok(Token::Comment { content }) => {
                parser.bump();
                return Ok(Statement::Comment { content });
            },
            _ => {},
        }
        match LogicalOrExpression::read(parser) {
            Ok(expression) => Ok(Statement::Print { expression }),
            Err(error) => Err(error),
        }
    }
}

/// A program: its statements, in the order in which they were written.
#[derive(Debug, PartialEq, Eq)]
pub struct RootAst {
    pub commands: Vec<Statement>,
}

impl View for RootAst {
    type V = Seq<StatementView>;

    open spec fn view(&self) -> Seq<StatementView> {
        views_of(self.commands@)
    }
}

impl RootAst {
    /// Reads statements up to the end of input.  Behind each statement
    /// stands one line break, which the last statement may go without; any
    /// other token there is an error.
    pub fn read(parser: &mut Parser) -> (node: Result<RootAst, ParseError>)
        ensures
            parses(
                old(parser).remaining(),
                final(parser).remaining(),
                node,
                program(old(parser).remaining(), 0),
            ),
    {
        let ghost toks = parser.remaining();
        let mut commands: Vec<Statement> = Vec::new();
        let ghost mut at: nat = 0;
        proof {
            lemma_skip_skip(toks, 0, 0);
            lemma_stream_unfold(parser.lexer.source(), parser.lexer.position());
            assert(views_of(commands@) =~= Seq::<StatementView>::empty());
            match program(toks, 0).outcome {
                Ok(more) => {
                    assert(Seq::<StatementView>::empty() + more =~= more);
                },
                Err(_) => {},
            }
        }
        loop
            invariant
                toks == old(parser).remaining(),
                at < toks.len(),
                parser.remaining() == toks.skip(at as int),
                program(toks, 0).consumed == at + program(toks, at).consumed,
                program(toks, 0).outcome == match program(toks, at).outcome {
                    Ok(more) => Ok(views_of(commands@) + more),
                    Err(error) => Err(error),
                },
            decreases toks.len() - at,
        {
            let ghost before = commands@;
            let ghost here = program(toks, at);
            let ghost taken = statement(toks, at).consumed;
            assert(lookahead(toks.skip(at as int), 0) == lookahead(toks, at)) by {
                lemma_lookahead_skip(toks, at);
            }
            assert(statement(toks.skip(at as int), 0) == statement(toks, at)) by {
                lemma_statement_skip(toks, at, 0);
            }
            let next = parser.peek();
            if is_token(&next, &Token::EndOfFile) {
                assert(here == accepted(Seq::<StatementView>::empty(), 0));
                assert(views_of(before) + Seq::<StatementView>::empty() =~= views_of(before));
                return Ok(RootAst { commands });
            }
            let parsed = match Statement::read(parser) {
                Ok(parsed) => parsed,
                Err(error) => {
                    assert(here == rejected::<Seq<StatementView>>(error@, taken));
                    assert(toks.skip(at as int).skip(taken as int) == toks.skip(
                        (at + taken) as int,
                    )) by {
                        lemma_skip_skip(toks, at, taken);
                    }
                    return Err(error);
                },
            };
            let ghost last = parsed;
            commands.push(parsed);
            assert(toks.skip(at as int).skip(taken as int) == toks.skip((at + taken) as int)) by {
                lemma_skip_skip(toks, at, taken);
            }
            assert(lookahead(toks.skip((at + taken) as int), 0) == lookahead(toks, at + taken))
                by {
                lemma_lookahead_skip(toks, at + taken);
            }
            assert(views_of(before) + seq![last@] == views_of(commands@)) by {
                lemma_views_push(before, last, Seq::empty());
            }
            let next = parser.peek();
            if is_token(&next, &Token::NewLine) {
                parser.bump();
                let ghost rest = program(toks, at + taken + 1);
                assert(toks.skip((at + taken) as int).skip(1) == toks.skip(
                    (at + taken + 1) as int,
                )) by {
                    lemma_skip_skip(toks, at + taken, 1);
                }
                assert(here.consumed == taken + 1 + rest.consumed);
                assert(here.outcome == match rest.outcome {
                    Ok(more) => Ok(seq![last@] + more),
                    Err(error) => Err(error),
                });
                proof {
                    match rest.outcome {
                        Ok(more) => {
                            lemma_views_push(before, last, more);
                        },
                        Err(_) => {},
                    }
                    at = at + taken + 1;
                }
            } else if is_token(&next, &Token::EndOfFile) {
                assert(here == accepted(seq![last@], taken));
                return Ok(RootAst { commands });
            } else {
                assert(here == rejected::<Seq<StatementView>>(
                    unexpected(lookahead(toks, at + taken), ExpectedView::EndOfStatement),
                    taken,
                ));
                return Err(unexpected_token(next, Expected::EndOfStatement));
            }
        }
    }
}

impl Parser {
    /// Parses a whole program.
    pub fn parse(&mut self) -> (root: Result<RootAst, ParseError>)
        ensures
            parses(
                old(self).remaining(),
                final(self).remaining(),
                root,
                program(old(self).remaining(), 0),
            ),
    {
        RootAst::read(self)
    }

    /// Parses a whole program: statements up to the end of input, each on a
    /// line of its own.
    pub fn parse_program(&mut self) -> (root: Result<RootAst, ParseError>)
        ensures
            parses(
                old(self).remaining(),
                final(self).remaining(),
                root,
                program(old(self).remaining(), 0),
            ),
    {
        RootAst::read(self)
    }

    /// Parses a sum or difference.
    pub fn parse_additive(&mut self) -> (node: Result<Additive, ParseError>)
        ensures
            parses(
                old(self).remaining(),
                final(self).remaining(),
                node,
                expression(Level::Additive, old(self).remaining(), 0),
            ),
    {
        Additive::read(self)
    }

    /// Parses a comparison by order.
    pub fn parse_relation_expression(&mut self) -> (node: Result<
        RelationCheckExpression,
        ParseError,
    >)
        ensures
            parses(
                old(self).remaining(),
                final(self).remaining(),
                node,
                expression(Level::Relational, old(self).remaining(), 0),
            ),
    {
        RelationCheckExpression::read(self)
    }

    /// Parses a comparison for equality.
    pub fn parse_equality_expression(&mut self) -> (node: Result<
        EqualityCheckExpression,
        ParseError,
    >)
        ensures
            parses(
                old(self).remaining(),
                final(self).remaining(),
                node,
                expression(Level::Equality, old(self).remaining(), 0),
            ),
    {
        EqualityCheckExpression::read(self)
    }

    /// Takes a run of digits and gives the number that it writes, which has
    /// to fit in 32 bits.
    pub fn parse_int_literal(&mut self) -> (value: Result<i32, ParseError>)
        ensures
            parses(
                old(self).remaining(),
                final(self).remaining(),
                value,
                integer(old(self).remaining(), 0),
            ),
    {
        proof {
            lemma_skip_skip(self.remaining(), 0, 0);
        }
        match self.peek() {
            Ok(Token::Digits { sequence }) => match decimal_value(&sequence) {
                Some(value) => {
                    self.bump();
                    Ok(value)
                },
                None => Err(ParseError::InvalidInteger { sequence }),
            },
            other => Err(unexpected_token(other, Expected::IntegralLiteral)),
        }
    }

    /// Takes the next token, which has to be `rhs`; any other token is an
    /// error and stays where it is.
    pub fn assert_token_eq_with_consumed(&mut self, rhs: Token) -> (met: Result<(), ParseError>)
        ensures
            parses(
                old(self).remaining(),
                final(self).remaining(),
                met,
                exactly(old(self).remaining(), 0, rhs@),
            ),
    {
        proof {
            lemma_skip_skip(self.remaining(), 0, 0);
        }
        match self.peek() {
            Ok(token) => {
                if token.same(&rhs) {
                    match token {
                        Token::EndOfFile => {},
                        _ => {
                            self.bump();
                        },
                    }
                    Ok(())
                } else {
                    Err(ParseError::UnexpectedToken { found: token, expected: Expected::Token(rhs) })
                }
            },
            Err(error) => Err(ParseError::Lexical { error }),
        }
    }

    /// Reads the optional type annotation of a declaration: a colon and a
    /// type name, or nothing where no colon stands.
    pub fn read_type_annotation(&mut self) -> (annotation: Result<
        Option<UnresolvedTypeName>,
        ParseError,
    >)
        ensures
            type_annotation(old(self).remaining(), 0).outcome == match annotation {
                Ok(Some(name)) => Ok::<Option<Seq<Seq<char>>>, ParseErrorView>(Some(name@)),
                Ok(None) => Ok::<Option<Seq<Seq<char>>>, ParseErrorView>(None),
                Err(error) => Err::<Option<Seq<Seq<char>>>, ParseErrorView>(error@),
            },
            type_annotation(old(self).remaining(), 0).consumed < old(self).remaining().len(),
            final(self).remaining() == old(self).remaining().skip(
                type_annotation(old(self).remaining(), 0).consumed as int,
            ),
    {
        let ghost toks = self.remaining();
        proof {
            lemma_skip_skip(toks, 0, 0);
        }
        let next = self.peek();
        if !is_token(&next, &Token::SymColon) {
            return Ok(None);
        }
        self.bump();
        let ghost taken = path(toks, 1).consumed;
        assert(path(toks.skip(1), 0) == path(toks, 1)) by {
            lemma_path_skip(toks, 1, 0);
        }
        let name = UnresolvedTypeName::read(self);
        assert(toks.skip(1).skip(taken as int) == toks.skip((1 + taken) as int)) by {
            lemma_skip_skip(toks, 1, taken);
        }
        match name {
            Ok(name) => Ok(Some(name)),
            Err(error) => Err(error),
        }
    }

    /// Parses a declaration: `var`, an identifier, the optional type
    /// annotation (a colon and a type name), `=`, and the right-hand side.
    pub fn parse_variable_declaration(&mut self) -> (node: Result<Statement, ParseError>)
        ensures
            parses(
                old(self).remaining(),
                final(self).remaining(),
                node,
                declaration(old(self).remaining(), 0),
            ),
    {
        let ghost toks = self.remaining();
        proof {
            lemma_skip_skip(toks, 0, 0);
        }
        match self.assert_token_eq_with_consumed(Token::VarKeyword) {
            Ok(_) => {},
            Err(error) => {
                return Err(error);
            },
        }
        assert(lookahead(toks.skip(1), 0) == lookahead(toks, 1)) by {
            lemma_lookahead_skip(toks, 1);
        }
        let identifier = match Identifier::read(self) {
            Ok(identifier) => identifier,
            Err(error) => {
                assert(toks.skip(1).skip(0) == toks.skip(1)) by {
                    lemma_skip_skip(toks, 1, 0);
                }
                return Err(error);
            },
        };
        assert(toks.skip(1).skip(1) == toks.skip(2)) by {
            lemma_skip_skip(toks, 1, 1);
        }
        let ghost annotation = type_annotation(toks, 2);
        let ghost taken = 2 + annotation.consumed;
        assert(type_annotation(toks.skip(2), 0) == annotation) by {
            lemma_type_annotation_skip(toks, 2, 0);
        }
        let type_tag = self.read_type_annotation();
        assert(toks.skip(2).skip(annotation.consumed as int) == toks.skip(taken as int)) by {
            lemma_skip_skip(toks, 2, annotation.consumed);
        }
        let type_tag = match type_tag {
            Ok(type_tag) => type_tag,
            Err(error) => {
                return Err(error);
            },
        };
        assert(lookahead(toks.skip(taken as int), 0) == lookahead(toks, taken)) by {
            lemma_lookahead_skip(toks, taken);
        }
        match self.assert_token_eq_with_consumed(Token::SymEq) {
            Ok(_) => {},
            Err(error) => {
                assert(toks.skip(taken as int).skip(0) == toks.skip(taken as int)) by {
                    lemma_skip_skip(toks, taken, 0);
                }
                return Err(error);
            },
        }
        assert(toks.skip(taken as int).skip(1) == toks.skip((taken + 1) as int)) by {
            lemma_skip_skip(toks, taken, 1);
        }
        let ghost value = right_hand_side(toks, taken + 1);
        assert(right_hand_side(toks.skip((taken + 1) as int), 0) == value) by {
            lemma_right_hand_side_skip(toks, taken + 1, 0);
        }
        let rhs = RightHandSideValue::read(self);
        assert(toks.skip((taken + 1) as int).skip(value.consumed as int) == toks.skip(
            (taken + 1 + value.consumed) as int,
        )) by {
            lemma_skip_skip(toks, taken + 1, value.consumed);
        }
        match rhs {
            Ok(rhs) => Ok(Statement::NodeDeclaration { identifier, type_tag, rhs }),
            Err(error) => Err(error),
        }
    }
}

} // verus!
