//! Laws of the grammar.
//!
//! An expression tree is spelled by a sequence of tokens, and a tree is well
//! formed for a level of the precedence ladder if it needs no parentheses
//! there: under an operator, the left operand is of the operator's level or
//! a tighter one, the right operand of a tighter one.  The main law says
//! that the parser reads the spelling of a well-formed tree back as that
//! tree.  So the ladder's order decides how operators of different levels
//! bind, and operators of one level, casts among them, bind to the left.
use crate::grammar::{
    accepted, after, binary_tail, cast_tail, expression, lookahead, path, primary, program,
    rejected, segment, statement, unexpected,
};
use crate::syntax::{
    level_of, operator_at, operator_of, BinaryOperator, ExpectedView, Expr, Level, StatementView,
};
use crate::token::{LexError, Lexeme, TokenView};
use vstd::prelude::*;

verus! {

/// The token that stands for an operator.  None stands for the remainder
/// yet: its place is held by the character that will.
pub open spec fn token_of(operator: BinaryOperator) -> TokenView {
    match operator {
        BinaryOperator::Multiply => TokenView::SymAsterisk,
        BinaryOperator::Divide => TokenView::SymSlash,
        BinaryOperator::Remainder => TokenView::UnexpectedChar { index: 0, char: '%' },
        BinaryOperator::Add => TokenView::SymPlus,
        BinaryOperator::Subtract => TokenView::SymMinus,
        BinaryOperator::LeftShift => TokenView::PartLessLess,
        BinaryOperator::RightShift => TokenView::PartMoreMore,
        BinaryOperator::Less => TokenView::SymLess,
        BinaryOperator::LessEqual => TokenView::PartLessEq,
        BinaryOperator::More => TokenView::SymMore,
        BinaryOperator::MoreEqual => TokenView::PartMoreEq,
        BinaryOperator::Spaceship => TokenView::PartLessEqMore,
        BinaryOperator::Equal => TokenView::PartEqEq,
        BinaryOperator::NotEqual => TokenView::PartBangEq,
        BinaryOperator::BitwiseAnd => TokenView::SymAnd,
        BinaryOperator::BitwiseXor => TokenView::SymCaret,
        BinaryOperator::BitwiseOr => TokenView::SymPipe,
        BinaryOperator::LogicalAnd => TokenView::PartAndAnd,
        BinaryOperator::LogicalOr => TokenView::PartPipePipe,
    }
}

/// The tokens that spell a dotted path: its segments, with a dot between
/// each two.
pub open spec fn path_tokens(names: Seq<Seq<char>>) -> Seq<TokenView>
    decreases names.len(),
{
    if names.len() == 0 {
        Seq::empty()
    } else if names.len() == 1 {
        seq![TokenView::Identifier { inner: names[0] }]
    } else {
        seq![TokenView::Identifier { inner: names[0] }, TokenView::SymDot] + path_tokens(
            names.skip(1),
        )
    }
}

/// The tokens that spell an expression.
pub open spec fn tokens_of(tree: Expr) -> Seq<TokenView>
    decreases tree,
{
    match tree {
        Expr::IntegralLiteral { sequence } => seq![TokenView::Digits { sequence }],
        Expr::StringLiteral { sequence } => seq![TokenView::StringLiteral { content: sequence }],
        Expr::Variable { identifier } => seq![TokenView::Identifier { inner: identifier }],
        Expr::True => seq![TokenView::KeywordTrue],
        Expr::False => seq![TokenView::KeywordFalse],
        Expr::Parenthesized { inner } => seq![TokenView::SymLeftPar] + tokens_of(*inner)
            + seq![TokenView::SymRightPar],
        Expr::Cast { operand, target } => tokens_of(*operand) + seq![TokenView::KeywordAs]
            + path_tokens(target),
        Expr::Binary { operator, left, right } => tokens_of(*left) + seq![token_of(operator)]
            + tokens_of(*right),
    }
}

/// Whether an expression can stand at `level` as it is, without
/// parentheses around it or around a part of it.
pub open spec fn well_formed(tree: Expr, level: Level) -> bool
    decreases tree,
{
    match tree {
        Expr::Parenthesized { inner } => well_formed(*inner, Level::Additive),
        Expr::Cast { operand, target } => {
            &&& level.rank() >= Level::Cast.rank()
            &&& target.len() >= 1
            &&& well_formed(*operand, Level::Cast)
        },
        Expr::Binary { operator, left, right } => {
            &&& operator != BinaryOperator::Remainder
            &&& level_of(operator).rank() <= level.rank()
            &&& well_formed(*left, level_of(operator))
            &&& well_formed(*right, level_of(operator).tighter())
        },
        _ => true,
    }
}

/// Whether the lexemes from index `at` on start with `expected`.
pub open spec fn spells(toks: Seq<Lexeme>, at: nat, expected: Seq<TokenView>) -> bool
    decreases expected.len(),
{
    if expected.len() == 0 {
        true
    } else {
        &&& lookahead(toks, at) == Ok::<TokenView, LexError>(expected[0])
        &&& spells(toks, at + 1, expected.skip(1))
    }
}

/// Whether an expression of `level` ends in front of `lexeme`: whether the
/// lexeme is none that the rule of the level would take.  Those are `as`, an
/// operator of the level or of a tighter one and, behind a type name, a
/// dot.  A primary term ends in front of everything.
pub open spec fn ends_before(level: Level, lexeme: Lexeme) -> bool {
    match lexeme {
        Err(_) => true,
        Ok(token) => level == Level::Primary || {
            &&& token != TokenView::KeywordAs
            &&& token != TokenView::SymDot
            &&& match operator_of(token) {
                Some(operator) => level_of(operator).rank() > level.rank(),
                None => true,
            }
        },
    }
}

/// Lexemes that start with two sequences of tokens, one behind the other,
/// start with the first, and go on with the second.
pub proof fn lemma_spells_split(
    toks: Seq<Lexeme>,
    at: nat,
    first: Seq<TokenView>,
    second: Seq<TokenView>,
)
    requires
        spells(toks, at, first + second),
    ensures
        spells(toks, at, first),
        spells(toks, at + first.len(), second),
    decreases first.len(),
{
    if first.len() == 0 {
        assert(first + second =~= second);
    } else {
        assert((first + second).skip(1) =~= first.skip(1) + second);
        assert((first + second)[0] == first[0]);
        lemma_spells_split(toks, at + 1, first.skip(1), second);
    }
}

/// Lexemes that start with three sequences of tokens start with each of
/// them in its place.
pub proof fn lemma_spells_three(
    toks: Seq<Lexeme>,
    at: nat,
    first: Seq<TokenView>,
    second: Seq<TokenView>,
    third: Seq<TokenView>,
)
    requires
        spells(toks, at, first + second + third),
    ensures
        spells(toks, at, first),
        spells(toks, at + first.len(), second),
        spells(toks, at + first.len() + second.len(), third),
{
    lemma_spells_split(toks, at, first + second, third);
    lemma_spells_split(toks, at, first, second);
}

/// Lexemes that start with one token have it at the front.
pub proof fn lemma_spells_one(toks: Seq<Lexeme>, at: nat, token: TokenView)
    requires
        spells(toks, at, seq![token]),
    ensures
        lookahead(toks, at) == Ok::<TokenView, LexError>(token),
{
}

/// Every operator but the remainder is the operator of its token, and its
/// token is none that ends a type name or starts a cast.
pub proof fn lemma_token_of(operator: BinaryOperator)
    requires
        operator != BinaryOperator::Remainder,
    ensures
        operator_of(token_of(operator)) == Some(operator),
        token_of(operator) != TokenView::KeywordAs,
        token_of(operator) != TokenView::SymDot,
{
}

/// The parser reads the spelling of a dotted path back as that path.
pub proof fn lemma_path_is_read_back(toks: Seq<Lexeme>, at: nat, names: Seq<Seq<char>>)
    requires
        names.len() >= 1,
        spells(toks, at, path_tokens(names)),
        lookahead(toks, at + path_tokens(names).len()) != Ok::<TokenView, LexError>(
            TokenView::SymDot,
        ),
    ensures
        path(toks, at) == accepted(names, path_tokens(names).len()),
    decreases names.len(),
{
    let head = seq![TokenView::Identifier { inner: names[0] }];
    if names.len() == 1 {
        lemma_spells_one(toks, at, TokenView::Identifier { inner: names[0] });
        assert(seq![names[0]] =~= names);
    } else {
        let rest = names.skip(1);
        assert(path_tokens(names) =~= head + seq![TokenView::SymDot] + path_tokens(rest));
        lemma_spells_three(toks, at, head, seq![TokenView::SymDot], path_tokens(rest));
        lemma_spells_one(toks, at, TokenView::Identifier { inner: names[0] });
        lemma_spells_one(toks, at + 1, TokenView::SymDot);
        lemma_path_is_read_back(toks, at + 2, rest);
        assert(seq![names[0]] + rest =~= names);
    }
}

/// The operand at the left end of a chain of casts.
pub open spec fn cast_head(tree: Expr) -> Expr
    decreases tree,
{
    match tree {
        Expr::Cast { operand, .. } => cast_head(*operand),
        _ => tree,
    }
}

/// The operand at the left end of a chain of operators of `level`.
pub open spec fn chain_head(tree: Expr, level: Level) -> Expr
    decreases tree,
{
    match tree {
        Expr::Binary { operator, left, .. } => if level_of(operator) == level {
            chain_head(*left, level)
        } else {
            tree
        },
        _ => tree,
    }
}

/// Reading a chain of casts: the parser reads the operand at the left end
/// as a primary term, and from there on it comes, cast by cast, to the end
/// of the chain with the whole chain in hand.
pub proof fn lemma_cast_chain(toks: Seq<Lexeme>, at: nat, tree: Expr)
    requires
        well_formed(tree, Level::Cast),
        spells(toks, at, tokens_of(tree)),
        ends_before(Level::Cast, lookahead(toks, at + tokens_of(tree).len())) || lookahead(
            toks,
            at + tokens_of(tree).len(),
        ) == Ok::<TokenView, LexError>(TokenView::KeywordAs),
    ensures
        primary(toks, at) == accepted(cast_head(tree), tokens_of(cast_head(tree)).len()),
        after(
            tokens_of(cast_head(tree)).len(),
            cast_tail(toks, at + tokens_of(cast_head(tree)).len(), cast_head(tree)),
        ) == after(
            tokens_of(tree).len(),
            cast_tail(toks, at + tokens_of(tree).len(), tree),
        ),
    decreases tree, 1nat, 0nat,
{
    match tree {
        Expr::Cast { operand, target } => {
            let inner = tokens_of(*operand);
            let name = path_tokens(target);
            lemma_spells_three(toks, at, inner, seq![TokenView::KeywordAs], name);
            lemma_spells_one(toks, at + inner.len(), TokenView::KeywordAs);
            lemma_cast_chain(toks, at, *operand);
            lemma_path_is_read_back(toks, at + inner.len() + 1, target);
        },
        _ => {
            lemma_expression_is_read_back(Level::Primary, toks, at, tree);
        },
    }
}

/// Reading a chain of operators of one level: the parser reads the operand
/// at the left end as an expression of the next tighter level, and from
/// there on it comes, operator by operator, to the end of the chain with
/// the whole chain in hand.
pub proof fn lemma_operator_chain(level: Level, toks: Seq<Lexeme>, at: nat, tree: Expr)
    requires
        level.is_binary(),
        well_formed(tree, level),
        spells(toks, at, tokens_of(tree)),
        ends_before(level.tighter(), lookahead(toks, at + tokens_of(tree).len())),
    ensures
        expression(level.tighter(), toks, at) == accepted(
            chain_head(tree, level),
            tokens_of(chain_head(tree, level)).len(),
        ),
        after(
            tokens_of(chain_head(tree, level)).len(),
            binary_tail(
                level,
                toks,
                at + tokens_of(chain_head(tree, level)).len(),
                chain_head(tree, level),
            ),
        ) == after(
            tokens_of(tree).len(),
            binary_tail(level, toks, at + tokens_of(tree).len(), tree),
        ),
    decreases tree, level.rank(), 0nat,
{
    let in_chain = match tree {
        Expr::Binary { operator, .. } => level_of(operator) == level,
        _ => false,
    };
    if in_chain {
        match tree {
            Expr::Binary { operator, left, right } => {
                let first = tokens_of(*left);
                let second = tokens_of(*right);
                lemma_spells_three(toks, at, first, seq![token_of(operator)], second);
                lemma_spells_one(toks, at + first.len(), token_of(operator));
                lemma_token_of(operator);
                lemma_operator_chain(level, toks, at, *left);
                lemma_expression_is_read_back(
                    level.tighter(),
                    toks,
                    at + first.len() + 1,
                    *right,
                );
            },
            _ => {},
        }
    } else {
        lemma_expression_is_read_back(level.tighter(), toks, at, tree);
    }
}

/// The parser reads the spelling of a well-formed expression back as that
/// expression: where the lexemes from index `at` on spell a tree that is
/// well formed for `level`, and an expression of the level ends in front of
/// the lexeme behind them, the rule of the level gives the tree and takes
/// exactly its spelling.
pub proof fn lemma_expression_is_read_back(level: Level, toks: Seq<Lexeme>, at: nat, tree: Expr)
    requires
        well_formed(tree, level),
        spells(toks, at, tokens_of(tree)),
        ends_before(level, lookahead(toks, at + tokens_of(tree).len())),
    ensures
        expression(level, toks, at) == accepted(tree, tokens_of(tree).len()),
    decreases tree, level.rank(), 1nat,
{
    match level {
        Level::Primary => {
            match tree {
                Expr::Parenthesized { inner } => {
                    let spelled = tokens_of(*inner);
                    lemma_spells_three(
                        toks,
                        at,
                        seq![TokenView::SymLeftPar],
                        spelled,
                        seq![TokenView::SymRightPar],
                    );
                    lemma_spells_one(toks, at, TokenView::SymLeftPar);
                    lemma_spells_one(toks, at + 1 + spelled.len(), TokenView::SymRightPar);
                    lemma_expression_is_read_back(Level::Additive, toks, at + 1, *inner);
                    assert(primary(toks, at) == accepted(tree, 2 + spelled.len()));
                },
                Expr::Cast { .. } => {},
                Expr::Binary { operator, .. } => {
                    assert(level_of(operator).rank() >= 2);
                },
                _ => {
                    let spelled = tokens_of(tree);
                    assert(spelled =~= seq![spelled[0]]);
                    lemma_spells_one(toks, at, spelled[0]);
                    assert(primary(toks, at) == accepted(tree, 1));
                },
            }
        },
        Level::Cast => {
            lemma_cast_chain(toks, at, tree);
        },
        _ => {
            lemma_operator_chain(level, toks, at, tree);
        },
    }
}

/// Operators of one level bind to the left: `a - b - c`, with operands of
/// the next tighter level, is read as `(a - b) - c`.
pub proof fn lemma_operators_bind_to_the_left(
    toks: Seq<Lexeme>,
    at: nat,
    first: BinaryOperator,
    second: BinaryOperator,
    a: Expr,
    b: Expr,
    c: Expr,
)
    requires
        first != BinaryOperator::Remainder,
        second != BinaryOperator::Remainder,
        level_of(first) == level_of(second),
        well_formed(a, level_of(first).tighter()),
        well_formed(b, level_of(first).tighter()),
        well_formed(c, level_of(first).tighter()),
        spells(
            toks,
            at,
            tokens_of(a) + seq![token_of(first)] + tokens_of(b) + seq![token_of(second)]
                + tokens_of(c),
        ),
        ends_before(
            level_of(first),
            lookahead(
                toks,
                at + tokens_of(a).len() + 1 + tokens_of(b).len() + 1 + tokens_of(c).len(),
            ),
        ),
    ensures
        expression(level_of(first), toks, at).outcome == Ok::<Expr, crate::syntax::ParseErrorView>(
            Expr::Binary {
                operator: second,
                left: Box::new(
                    Expr::Binary { operator: first, left: Box::new(a), right: Box::new(b) },
                ),
                right: Box::new(c),
            },
        ),
{
    let level = level_of(first);
    let inner = Expr::Binary { operator: first, left: Box::new(a), right: Box::new(b) };
    let tree = Expr::Binary { operator: second, left: Box::new(inner), right: Box::new(c) };
    lemma_well_formed_loosens(a, level.tighter(), level);
    assert(well_formed(inner, level));
    assert(tokens_of(inner) == tokens_of(a) + seq![token_of(first)] + tokens_of(b));
    assert(tokens_of(tree) == tokens_of(inner) + seq![token_of(second)] + tokens_of(c));
    lemma_expression_is_read_back(level, toks, at, tree);
}

/// An operator of a tighter level binds first: in `a + b * c` the product is
/// the right operand of the sum, and in `a * b + c` it is the left one.
pub proof fn lemma_tighter_operators_bind_first(
    toks: Seq<Lexeme>,
    at: nat,
    loose: BinaryOperator,
    tight: BinaryOperator,
    a: Expr,
    b: Expr,
    c: Expr,
)
    requires
        loose != BinaryOperator::Remainder,
        tight != BinaryOperator::Remainder,
        level_of(tight).rank() < level_of(loose).rank(),
        well_formed(a, level_of(tight).tighter()),
        well_formed(b, level_of(tight).tighter()),
        well_formed(c, level_of(tight).tighter()),
        ends_before(
            level_of(loose),
            lookahead(
                toks,
                at + tokens_of(a).len() + 1 + tokens_of(b).len() + 1 + tokens_of(c).len(),
            ),
        ),
    ensures
        spells(
            toks,
            at,
            tokens_of(a) + seq![token_of(loose)] + tokens_of(b) + seq![token_of(tight)]
                + tokens_of(c),
        ) ==> expression(level_of(loose), toks, at).outcome == Ok::<
            Expr,
            crate::syntax::ParseErrorView,
        >(
            Expr::Binary {
                operator: loose,
                left: Box::new(a),
                right: Box::new(
                    Expr::Binary { operator: tight, left: Box::new(b), right: Box::new(c) },
                ),
            },
        ),
        spells(
            toks,
            at,
            tokens_of(a) + seq![token_of(tight)] + tokens_of(b) + seq![token_of(loose)]
                + tokens_of(c),
        ) ==> expression(level_of(loose), toks, at).outcome == Ok::<
            Expr,
            crate::syntax::ParseErrorView,
        >(
            Expr::Binary {
                operator: loose,
                left: Box::new(
                    Expr::Binary { operator: tight, left: Box::new(a), right: Box::new(b) },
                ),
                right: Box::new(c),
            },
        ),
{
    let level = level_of(loose);
    let low = level_of(tight);
    lemma_well_formed_loosens(a, low.tighter(), level);
    lemma_well_formed_loosens(a, low.tighter(), low);
    lemma_well_formed_loosens(c, low.tighter(), level.tighter());
    if spells(
        toks,
        at,
        tokens_of(a) + seq![token_of(loose)] + tokens_of(b) + seq![token_of(tight)] + tokens_of(
            c,
        ),
    ) {
        let product = Expr::Binary { operator: tight, left: Box::new(b), right: Box::new(c) };
        let tree = Expr::Binary { operator: loose, left: Box::new(a), right: Box::new(product) };
        lemma_well_formed_loosens(b, low.tighter(), low);
        assert(well_formed(product, low));
        lemma_well_formed_loosens(product, low, level.tighter());
        assert(tokens_of(product) == tokens_of(b) + seq![token_of(tight)] + tokens_of(c));
        assert(tokens_of(tree) == tokens_of(a) + seq![token_of(loose)] + tokens_of(product));
        assert(tokens_of(tree) =~= tokens_of(a) + seq![token_of(loose)] + tokens_of(b) + seq![
            token_of(tight),
        ] + tokens_of(c));
        lemma_expression_is_read_back(level, toks, at, tree);
    }
    if spells(
        toks,
        at,
        tokens_of(a) + seq![token_of(tight)] + tokens_of(b) + seq![token_of(loose)] + tokens_of(
            c,
        ),
    ) {
        let product = Expr::Binary { operator: tight, left: Box::new(a), right: Box::new(b) };
        let tree = Expr::Binary { operator: loose, left: Box::new(product), right: Box::new(c) };
        assert(well_formed(product, low));
        lemma_well_formed_loosens(product, low, level);
        assert(tokens_of(product) == tokens_of(a) + seq![token_of(tight)] + tokens_of(b));
        assert(tokens_of(tree) == tokens_of(product) + seq![token_of(loose)] + tokens_of(c));
        lemma_expression_is_read_back(level, toks, at, tree);
    }
}

/// Casts bind to the left: `x as t as u` is read as `(x as t) as u`.
pub proof fn lemma_casts_bind_to_the_left(
    toks: Seq<Lexeme>,
    at: nat,
    x: Expr,
    t: Seq<Seq<char>>,
    u: Seq<Seq<char>>,
)
    requires
        well_formed(x, Level::Primary),
        t.len() >= 1,
        u.len() >= 1,
        spells(
            toks,
            at,
            tokens_of(x) + seq![TokenView::KeywordAs] + path_tokens(t) + seq![
                TokenView::KeywordAs,
            ] + path_tokens(u),
        ),
        ends_before(
            Level::Cast,
            lookahead(
                toks,
                at + tokens_of(x).len() + 1 + path_tokens(t).len() + 1 + path_tokens(u).len(),
            ),
        ),
    ensures
        expression(Level::Cast, toks, at).outcome == Ok::<Expr, crate::syntax::ParseErrorView>(
            Expr::Cast {
                operand: Box::new(Expr::Cast { operand: Box::new(x), target: t }),
                target: u,
            },
        ),
{
    let inner = Expr::Cast { operand: Box::new(x), target: t };
    let tree = Expr::Cast { operand: Box::new(inner), target: u };
    lemma_well_formed_loosens(x, Level::Primary, Level::Cast);
    assert(well_formed(inner, Level::Cast));
    assert(tokens_of(inner) == tokens_of(x) + seq![TokenView::KeywordAs] + path_tokens(t));
    assert(tokens_of(tree) == tokens_of(inner) + seq![TokenView::KeywordAs] + path_tokens(u));
    lemma_expression_is_read_back(Level::Cast, toks, at, tree);
}

/// What is well formed for a level is well formed for every looser one.
pub proof fn lemma_well_formed_loosens(tree: Expr, tight: Level, loose: Level)
    requires
        well_formed(tree, tight),
        tight.rank() <= loose.rank(),
    ensures
        well_formed(tree, loose),
{
}

/// Every tree that the parser gives for a level is well formed for it.
pub proof fn lemma_parsed_is_well_formed(level: Level, toks: Seq<Lexeme>, at: nat)
    ensures
        expression(level, toks, at).outcome matches Ok(tree) ==> well_formed(tree, level),
    decreases crate::grammar::left(toks, at), level.rank(), 1nat,
{
    match level {
        Level::Primary => {
            lemma_primary_is_well_formed(toks, at);
        },
        Level::Cast => {
            lemma_primary_is_well_formed(toks, at);
            let first = primary(toks, at);
            if let Ok(operand) = first.outcome {
                lemma_well_formed_loosens(operand, Level::Primary, Level::Cast);
                lemma_cast_tail_is_well_formed(toks, at + first.consumed, operand);
            }
        },
        _ => {
            lemma_parsed_is_well_formed(level.tighter(), toks, at);
            let first = expression(level.tighter(), toks, at);
            if let Ok(operand) = first.outcome {
                lemma_well_formed_loosens(operand, level.tighter(), level);
                lemma_binary_tail_is_well_formed(level, toks, at + first.consumed, operand);
            }
        },
    }
}

/// Every primary term that the parser gives is well formed.
pub proof fn lemma_primary_is_well_formed(toks: Seq<Lexeme>, at: nat)
    ensures
        primary(toks, at).outcome matches Ok(tree) ==> well_formed(tree, Level::Primary),
    decreases crate::grammar::left(toks, at), 0nat, 0nat,
{
    if lookahead(toks, at) matches Ok(TokenView::SymLeftPar) {
        lemma_parsed_is_well_formed(Level::Additive, toks, at + 1);
    }
}

/// A chain of casts that the parser builds on a well-formed operand is well
/// formed.
pub proof fn lemma_cast_tail_is_well_formed(toks: Seq<Lexeme>, at: nat, operand: Expr)
    requires
        well_formed(operand, Level::Cast),
    ensures
        cast_tail(toks, at, operand).outcome matches Ok(tree) ==> well_formed(tree, Level::Cast),
    decreases crate::grammar::left(toks, at), 1nat, 0nat,
{
    if lookahead(toks, at) matches Ok(TokenView::KeywordAs) {
        let name = path(toks, at + 1);
        lemma_path_is_not_empty(toks, at + 1);
        if let Ok(target) = name.outcome {
            lemma_cast_tail_is_well_formed(
                toks,
                at + 1 + name.consumed,
                Expr::Cast { operand: Box::new(operand), target },
            );
        }
    }
}

/// A path that the parser gives has a segment.
pub proof fn lemma_path_is_not_empty(toks: Seq<Lexeme>, at: nat)
    ensures
        path(toks, at).outcome matches Ok(names) ==> names.len() >= 1,
    decreases crate::grammar::left(toks, at),
{
    let head = segment(toks, at);
    if head.outcome is Ok {
        if lookahead(toks, at + head.consumed) matches Ok(TokenView::SymDot) {
            lemma_path_is_not_empty(toks, at + head.consumed + 1);
        }
    }
}

/// A chain of operators that the parser builds on a well-formed left
/// operand is well formed.
pub proof fn lemma_binary_tail_is_well_formed(
    level: Level,
    toks: Seq<Lexeme>,
    at: nat,
    left_operand: Expr,
)
    requires
        level.is_binary(),
        well_formed(left_operand, level),
    ensures
        binary_tail(level, toks, at, left_operand).outcome matches Ok(tree) ==> well_formed(
            tree,
            level,
        ),
    decreases crate::grammar::left(toks, at), level.rank(), 0nat,
{
    if let Some(operator) = operator_at(level, lookahead(toks, at)) {
        lemma_parsed_is_well_formed(level.tighter(), toks, at + 1);
        let right = expression(level.tighter(), toks, at + 1);
        if let Ok(operand) = right.outcome {
            lemma_binary_tail_is_well_formed(
                level,
                toks,
                at + 1 + right.consumed,
                Expr::Binary { operator, left: Box::new(left_operand), right: Box::new(operand) },
            );
        }
    }
}

/// Lexemes that start with one sequence of tokens and go on with another
/// start with the two, one behind the other.
pub proof fn lemma_spells_join(
    toks: Seq<Lexeme>,
    at: nat,
    first: Seq<TokenView>,
    second: Seq<TokenView>,
)
    requires
        spells(toks, at, first),
        spells(toks, at + first.len(), second),
    ensures
        spells(toks, at, first + second),
    decreases first.len(),
{
    if first.len() == 0 {
        assert(first + second =~= second);
    } else {
        assert((first + second).skip(1) =~= first.skip(1) + second);
        assert((first + second)[0] == first[0]);
        lemma_spells_join(toks, at + 1, first.skip(1), second);
    }
}

/// Lexemes with a token at the front start with that token.
pub proof fn lemma_spells_token(toks: Seq<Lexeme>, at: nat, token: TokenView)
    requires
        lookahead(toks, at) == Ok::<TokenView, LexError>(token),
    ensures
        spells(toks, at, seq![token]),
{
    assert(seq![token].skip(1) =~= Seq::<TokenView>::empty());
    assert(spells(toks, at + 1, seq![token].skip(1)));
}

/// A dotted path that the parser gives is spelled by the lexemes that it
/// took.
pub proof fn lemma_path_is_spelled(toks: Seq<Lexeme>, at: nat)
    ensures
        path(toks, at).outcome matches Ok(names) ==> spells(toks, at, path_tokens(names))
            && path(toks, at).consumed == path_tokens(names).len(),
    decreases crate::grammar::left(toks, at),
{
    let head = segment(toks, at);
    if let Ok(name) = head.outcome {
        let word = TokenView::Identifier { inner: name };
        lemma_spells_token(toks, at, word);
        if lookahead(toks, at + 1) matches Ok(TokenView::SymDot) {
            let rest = path(toks, at + 2);
            lemma_path_is_spelled(toks, at + 2);
            lemma_path_is_not_empty(toks, at + 2);
            if let Ok(more) = rest.outcome {
                let names = seq![name] + more;
                assert(names.skip(1) =~= more);
                assert(names[0] == name);
                lemma_spells_token(toks, at + 1, TokenView::SymDot);
                lemma_spells_join(toks, at, seq![word], seq![TokenView::SymDot]);
                assert(seq![word] + seq![TokenView::SymDot] =~= seq![word, TokenView::SymDot]);
                lemma_spells_join(toks, at, seq![word, TokenView::SymDot], path_tokens(more));
            }
        } else {
            assert(seq![name][0] == name);
        }
    }
}

/// A primary term that the parser gives is spelled by the lexemes that it
/// took.
pub proof fn lemma_primary_is_spelled(toks: Seq<Lexeme>, at: nat)
    ensures
        primary(toks, at).outcome matches Ok(tree) ==> spells(toks, at, tokens_of(tree))
            && primary(toks, at).consumed == tokens_of(tree).len(),
    decreases crate::grammar::left(toks, at), 0nat, 0nat,
{
    if let Ok(tree) = primary(toks, at).outcome {
        if lookahead(toks, at) matches Ok(TokenView::SymLeftPar) {
            lemma_parsed_is_spelled(Level::Additive, toks, at + 1);
            let inner = expression(Level::Additive, toks, at + 1);
            let open = seq![TokenView::SymLeftPar];
            let close = seq![TokenView::SymRightPar];
            let within = tokens_of(inner.outcome->Ok_0);
            lemma_spells_token(toks, at, TokenView::SymLeftPar);
            lemma_spells_token(toks, at + 1 + inner.consumed, TokenView::SymRightPar);
            lemma_spells_join(toks, at, open, within);
            lemma_spells_join(toks, at, open + within, close);
        } else {
            let spelled = tokens_of(tree);
            assert(spelled =~= seq![spelled[0]]);
            lemma_spells_token(toks, at, spelled[0]);
        }
    }
}

/// A chain of casts that the parser builds on an operand is spelled by the
/// lexemes that spell the operand and those that the chain took.
pub proof fn lemma_cast_tail_is_spelled(toks: Seq<Lexeme>, start: nat, at: nat, operand: Expr)
    requires
        spells(toks, start, tokens_of(operand)),
        at == start + tokens_of(operand).len(),
    ensures
        cast_tail(toks, at, operand).outcome matches Ok(tree) ==> spells(
            toks,
            start,
            tokens_of(tree),
        ) && at + cast_tail(toks, at, operand).consumed == start + tokens_of(tree).len(),
    decreases crate::grammar::left(toks, at), 1nat, 0nat,
{
    if lookahead(toks, at) matches Ok(TokenView::KeywordAs) {
        let name = path(toks, at + 1);
        lemma_path_is_spelled(toks, at + 1);
        if let Ok(target) = name.outcome {
            let cast = Expr::Cast { operand: Box::new(operand), target };
            let word = seq![TokenView::KeywordAs];
            lemma_spells_token(toks, at, TokenView::KeywordAs);
            lemma_spells_join(toks, start, tokens_of(operand), word);
            lemma_spells_join(toks, start, tokens_of(operand) + word, path_tokens(target));
            lemma_cast_tail_is_spelled(toks, start, at + 1 + name.consumed, cast);
        }
    }
}

/// A chain of operators that the parser builds on a left operand is spelled
/// by the lexemes that spell the operand and those that the chain took.
pub proof fn lemma_binary_tail_is_spelled(
    level: Level,
    toks: Seq<Lexeme>,
    start: nat,
    at: nat,
    left_operand: Expr,
)
    requires
        spells(toks, start, tokens_of(left_operand)),
        at == start + tokens_of(left_operand).len(),
    ensures
        binary_tail(level, toks, at, left_operand).outcome matches Ok(tree) ==> spells(
            toks,
            start,
            tokens_of(tree),
        ) && at + binary_tail(level, toks, at, left_operand).consumed == start + tokens_of(
            tree,
        ).len(),
    decreases crate::grammar::left(toks, at), level.rank(), 0nat,
{
    if let Some(operator) = operator_at(level, lookahead(toks, at)) {
        let right = expression(level.tighter(), toks, at + 1);
        lemma_parsed_is_spelled(level.tighter(), toks, at + 1);
        if let Ok(operand) = right.outcome {
            let tree = Expr::Binary {
                operator,
                left: Box::new(left_operand),
                right: Box::new(operand),
            };
            let sign = seq![token_of(operator)];
            assert(token_of(operator) == lookahead(toks, at)->Ok_0);
            lemma_spells_token(toks, at, token_of(operator));
            lemma_spells_join(toks, start, tokens_of(left_operand), sign);
            lemma_spells_join(toks, start, tokens_of(left_operand) + sign, tokens_of(operand));
            lemma_binary_tail_is_spelled(level, toks, start, at + 1 + right.consumed, tree);
        }
    }
}

/// An expression that the parser gives is spelled by the lexemes that it
/// took.  With the laws that such an expression is well formed and that a
/// spelling is read back, this says that the parser gives a tree for a
/// level exactly where the lexemes spell a tree that is well formed for the
/// level, and that it gives that tree.
pub proof fn lemma_parsed_is_spelled(level: Level, toks: Seq<Lexeme>, at: nat)
    ensures
        expression(level, toks, at).outcome matches Ok(tree) ==> spells(
            toks,
            at,
            tokens_of(tree),
        ) && expression(level, toks, at).consumed == tokens_of(tree).len(),
    decreases crate::grammar::left(toks, at), level.rank(), 1nat,
{
    match level {
        Level::Primary => {
            lemma_primary_is_spelled(toks, at);
        },
        Level::Cast => {
            lemma_primary_is_spelled(toks, at);
            let first = primary(toks, at);
            if let Ok(operand) = first.outcome {
                lemma_cast_tail_is_spelled(toks, at, at + first.consumed, operand);
            }
        },
        _ => {
            lemma_parsed_is_spelled(level.tighter(), toks, at);
            let first = expression(level.tighter(), toks, at);
            if let Ok(operand) = first.outcome {
                lemma_binary_tail_is_spelled(level, toks, at, at + first.consumed, operand);
            }
        },
    }
}

/// A statement ends its line: behind each statement of a program stands a
/// line break or the end of input.  Where anything else stands, the text is
/// no program, and the error names what stands there.
pub proof fn lemma_statement_ends_its_line(toks: Seq<Lexeme>, at: nat)
    requires
        lookahead(toks, at) != Ok::<TokenView, LexError>(TokenView::EndOfFile),
        statement(toks, at).outcome is Ok,
    ensures
        ({
            let first = statement(toks, at);
            let behind = lookahead(toks, at + first.consumed);
            &&& behind != Ok::<TokenView, LexError>(TokenView::NewLine) && behind != Ok::<
                TokenView,
                LexError,
            >(TokenView::EndOfFile) ==> program(toks, at) == rejected::<Seq<StatementView>>(
                unexpected(behind, ExpectedView::EndOfStatement),
                first.consumed,
            )
            &&& behind == Ok::<TokenView, LexError>(TokenView::EndOfFile) ==> program(toks, at)
                == accepted(seq![first.outcome->Ok_0], first.consumed)
        }),
{
}

/// The sentinel stands for the end of input only: a program holds it
/// nowhere.
pub proof fn lemma_program_holds_no_sentinel(toks: Seq<Lexeme>, at: nat, index: int)
    requires
        program(toks, at).outcome is Ok,
        0 <= index < program(toks, at).outcome->Ok_0.len(),
    ensures
        program(toks, at).outcome->Ok_0[index] != StatementView::NoMoreStatements,
    decreases crate::grammar::left(toks, at),
{
    let first = statement(toks, at);
    if index > 0 {
        lemma_program_holds_no_sentinel(toks, at + first.consumed + 1, index - 1);
    }
}

} // verus!
