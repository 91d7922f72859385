//! Tokens: the atomic lexical units, and the errors that lexing can raise.
//!
//! Executable tokens own their text as `String`s.  Contracts speak of a token
//! through its view, [`TokenView`], which holds the same text as `Seq<char>`.
use vstd::prelude::*;

verus! {

/// Why a piece of source text could not be turned into a token.
#[derive(Debug, Clone, Copy, PartialEq, Eq, Structural)]
pub enum LexErrorKind {
    /// The input ended inside a string literal or inside one of its escapes.
    UnterminatedString,
    /// A string literal held a line break that was not written as `\n`.
    NewlineInString,
    /// A backslash in a string literal was followed by a character that
    /// starts no escape.
    InvalidEscape { found: char },
    /// A `\u` escape was not followed by four hexadecimal digits.
    InvalidUnicodeEscape { found: char },
    /// A `\u` escape named a surrogate code point, which is no character.
    SurrogateCodePoint { code: u16 },
}

/// A lexical error: what went wrong, and the offset of the character at
/// which it was noticed.
#[derive(Debug, Clone, Copy, PartialEq, Eq, Structural)]
pub struct LexError {
    pub kind: LexErrorKind,
    pub offset: usize,
}

/// An atomic lexical unit.
#[derive(Debug, Eq, PartialEq, Clone)]
pub enum Token {
    /// A lower-case word that is not a keyword.
    Identifier { inner: String },
    /// A maximal run of ASCII digits, kept as written.
    Digits { sequence: String },
    /// A character that starts no token, with its offset in the source.
    UnexpectedChar { index: usize, char: char },
    /// The text of a line comment, without the two slashes.
    Comment { content: String },
    /// A string literal, with its escapes decoded.
    StringLiteral { content: String },
    /// End of input.
    EndOfFile,
    /// `"\n"`
    NewLine,
    /// `var`
    VarKeyword,
    /// `true`
    KeywordTrue,
    /// `false`
    KeywordFalse,
    /// `as`
    KeywordAs,
    /// `=`
    SymEq,
    /// `+`
    SymPlus,
    /// `-`
    SymMinus,
    /// `*`
    SymAsterisk,
    /// `/`
    SymSlash,
    /// `(`
    SymLeftPar,
    /// `)`
    SymRightPar,
    /// `>`
    SymMore,
    /// `>>`
    PartMoreMore,
    /// `<`
    SymLess,
    /// `<<`
    PartLessLess,
    /// `&`
    SymAnd,
    /// `&&`
    PartAndAnd,
    /// `^`
    SymCaret,
    /// `|`
    SymPipe,
    /// `||`
    PartPipePipe,
    /// `!`
    SymBang,
    /// `==`
    PartEqEq,
    /// `!=`
    PartBangEq,
    /// `<=`
    PartLessEq,
    /// `>=`
    PartMoreEq,
    /// `<=>`
    PartLessEqMore,
    /// `#`
    SymSharp,
    /// `[`
    SymOpenBracket,
    /// `]`
    SymCloseBracket,
    /// `:`
    SymColon,
    /// `.`
    SymDot,
    /// A keyword that is set aside for later use.
    Reserved { matched: String },
}

/// What a [`Token`] is, as a mathematical value.
pub enum TokenView {
    Identifier { inner: Seq<char> },
    Digits { sequence: Seq<char> },
    UnexpectedChar { index: usize, char: char },
    Comment { content: Seq<char> },
    StringLiteral { content: Seq<char> },
    EndOfFile,
    NewLine,
    VarKeyword,
    KeywordTrue,
    KeywordFalse,
    KeywordAs,
    SymEq,
    SymPlus,
    SymMinus,
    SymAsterisk,
    SymSlash,
    SymLeftPar,
    SymRightPar,
    SymMore,
    PartMoreMore,
    SymLess,
    PartLessLess,
    SymAnd,
    PartAndAnd,
    SymCaret,
    SymPipe,
    PartPipePipe,
    SymBang,
    PartEqEq,
    PartBangEq,
    PartLessEq,
    PartMoreEq,
    PartLessEqMore,
    SymSharp,
    SymOpenBracket,
    SymCloseBracket,
    SymColon,
    SymDot,
    Reserved { matched: Seq<char> },
}

/// What the lexer hands out at one position: a token, or the reason why
/// there is none.
pub type Lexeme = Result<TokenView, LexError>;

impl View for Token {
    type V = TokenView;

    open spec fn view(&self) -> TokenView {
        match self {
            Token::Identifier { inner } => TokenView::Identifier { inner: inner@ },
            Token::Digits { sequence } => TokenView::Digits { sequence: sequence@ },
            Token::Comment { content } => TokenView::Comment { content: content@ },
            Token::StringLiteral { content } => TokenView::StringLiteral { content: content@ },
            Token::Reserved { matched } => TokenView::Reserved { matched: matched@ },
            Token::UnexpectedChar { index, char } => TokenView::UnexpectedChar {
                index: *index,
                char: *char,
            },
            Token::EndOfFile => TokenView::EndOfFile,
            Token::NewLine => TokenView::NewLine,
            Token::VarKeyword => TokenView::VarKeyword,
            Token::KeywordTrue => TokenView::KeywordTrue,
            Token::KeywordFalse => TokenView::KeywordFalse,
            Token::KeywordAs => TokenView::KeywordAs,
            Token::SymEq => TokenView::SymEq,
            Token::SymPlus => TokenView::SymPlus,
            Token::SymMinus => TokenView::SymMinus,
            Token::SymAsterisk => TokenView::SymAsterisk,
            Token::SymSlash => TokenView::SymSlash,
            Token::SymLeftPar => TokenView::SymLeftPar,
            Token::SymRightPar => TokenView::SymRightPar,
            Token::SymMore => TokenView::SymMore,
            Token::PartMoreMore => TokenView::PartMoreMore,
            Token::SymLess => TokenView::SymLess,
            Token::PartLessLess => TokenView::PartLessLess,
            Token::SymAnd => TokenView::SymAnd,
            Token::PartAndAnd => TokenView::PartAndAnd,
            Token::SymCaret => TokenView::SymCaret,
            Token::SymPipe => TokenView::SymPipe,
            Token::PartPipePipe => TokenView::PartPipePipe,
            Token::SymBang => TokenView::SymBang,
            Token::PartEqEq => TokenView::PartEqEq,
            Token::PartBangEq => TokenView::PartBangEq,
            Token::PartLessEq => TokenView::PartLessEq,
            Token::PartMoreEq => TokenView::PartMoreEq,
            Token::PartLessEqMore => TokenView::PartLessEqMore,
            Token::SymSharp => TokenView::SymSharp,
            Token::SymOpenBracket => TokenView::SymOpenBracket,
            Token::SymCloseBracket => TokenView::SymCloseBracket,
            Token::SymColon => TokenView::SymColon,
            Token::SymDot => TokenView::SymDot,
        }
    }
}

impl Token {
    /// Whether two tokens are the same: of one category and with the same
    /// text.
    pub fn same(&self, other: &Token) -> (equal: bool)
        ensures
            equal == (self@ == other@),
    {
        match (self, other) {
            (Token::Identifier { inner: mine }, Token::Identifier { inner: theirs }) => *mine == *theirs,
            (Token::Digits { sequence: mine }, Token::Digits { sequence: theirs }) => *mine == *theirs,
            (Token::Comment { content: mine }, Token::Comment { content: theirs }) => *mine == *theirs,
            (Token::StringLiteral { content: mine }, Token::StringLiteral { content: theirs }) => *mine == *theirs,
            (Token::Reserved { matched: mine }, Token::Reserved { matched: theirs }) => *mine == *theirs,
            (
                Token::UnexpectedChar { index: at, char: mine },
                Token::UnexpectedChar { index: other_at, char: theirs },
            ) => *at == *other_at && *mine == *theirs,
            (Token::EndOfFile, Token::EndOfFile) => true,
            (Token::NewLine, Token::NewLine) => true,
            (Token::VarKeyword, Token::VarKeyword) => true,
            (Token::KeywordTrue, Token::KeywordTrue) => true,
            (Token::KeywordFalse, Token::KeywordFalse) => true,
            (Token::KeywordAs, Token::KeywordAs) => true,
            (Token::SymEq, Token::SymEq) => true,
            (Token::SymPlus, Token::SymPlus) => true,
            (Token::SymMinus, Token::SymMinus) => true,
            (Token::SymAsterisk, Token::SymAsterisk) => true,
            (Token::SymSlash, Token::SymSlash) => true,
            (Token::SymLeftPar, Token::SymLeftPar) => true,
            (Token::SymRightPar, Token::SymRightPar) => true,
            (Token::SymMore, Token::SymMore) => true,
            (Token::PartMoreMore, Token::PartMoreMore) => true,
            (Token::SymLess, Token::SymLess) => true,
            (Token::PartLessLess, Token::PartLessLess) => true,
            (Token::SymAnd, Token::SymAnd) => true,
            (Token::PartAndAnd, Token::PartAndAnd) => true,
            (Token::SymCaret, Token::SymCaret) => true,
            (Token::SymPipe, Token::SymPipe) => true,
            (Token::PartPipePipe, Token::PartPipePipe) => true,
            (Token::SymBang, Token::SymBang) => true,
            (Token::PartEqEq, Token::PartEqEq) => true,
            (Token::PartBangEq, Token::PartBangEq) => true,
            (Token::PartLessEq, Token::PartLessEq) => true,
            (Token::PartMoreEq, Token::PartMoreEq) => true,
            (Token::PartLessEqMore, Token::PartLessEqMore) => true,
            (Token::SymSharp, Token::SymSharp) => true,
            (Token::SymOpenBracket, Token::SymOpenBracket) => true,
            (Token::SymCloseBracket, Token::SymCloseBracket) => true,
            (Token::SymColon, Token::SymColon) => true,
            (Token::SymDot, Token::SymDot) => true,
            _ => false,
        }
    }
}

/// The lexeme that the outcome of a lexer call stands for.
pub open spec fn lexeme_of(outcome: Result<Token, LexError>) -> Lexeme {
    match outcome {
        Ok(token) => Ok(token@),
        Err(error) => Err(error),
    }
}

/// Whether the lexer moves past this lexeme: it does so for every token but
/// the end of input, and stays in front of an error.
pub open spec fn is_consumable(lexeme: Lexeme) -> bool {
    match lexeme {
        Ok(token) => token != TokenView::EndOfFile,
        Err(_) => false,
    }
}

} // verus!
