//! The lexical grammar, as mathematics.
//!
//! [`lex`] says which lexeme starts at a position of a source text and where
//! it ends; [`stream`] is the whole sequence of lexemes from a position on.
//! The executable lexer is proved against these.
use crate::token::{is_consumable, LexError, LexErrorKind, Lexeme, TokenView};
use vstd::prelude::*;

verus! {

/// The classes of characters of which the lexer scans maximal runs.
pub enum CharClass {
    /// The plain space, the only character skipped between tokens.
    Space,
    /// The ASCII digits.
    Digit,
    /// The ASCII lower-case letters.
    Lower,
    /// Everything but the line break: what a line comment consists of.
    LineContent,
}

/// Whether `c` is an ASCII digit.
pub open spec fn is_digit(c: char) -> bool {
    '0' <= c <= '9'
}

/// Whether `c` is an ASCII lower-case letter.
pub open spec fn is_lower(c: char) -> bool {
    'a' <= c <= 'z'
}

/// Whether `c` belongs to `class`.
pub open spec fn in_class(class: CharClass, c: char) -> bool {
    match class {
        CharClass::Space => c == ' ',
        CharClass::Digit => is_digit(c),
        CharClass::Lower => is_lower(c),
        CharClass::LineContent => c != '\n',
    }
}

/// Where the maximal run of characters of `class` that starts at `from` ends:
/// the first position at or after `from` that holds no character of the
/// class, which is the end of the text if there is no other.
pub open spec fn run_end(src: Seq<char>, from: nat, class: CharClass) -> nat
    decreases src.len() - from,
{
    if from < src.len() && in_class(class, src[from as int]) {
        run_end(src, from + 1, class)
    } else {
        from
    }
}

/// Whether position `at` of `src` holds the character `c`.
pub open spec fn holds(src: Seq<char>, at: nat, c: char) -> bool {
    at < src.len() && src[at as int] == c
}

/// One step of the lexer: the lexeme found, and the position after it.  After
/// an error the position is the one at which the step began.
pub struct Step {
    pub lexeme: Lexeme,
    pub end: nat,
}

/// The words with a meaning of their own that are not yet in use.
pub open spec fn is_reserved(word: Seq<char>) -> bool {
    ||| word == "if"@
    ||| word == "then"@
    ||| word == "else"@
    ||| word == "elseif"@
    ||| word == "end"@
    ||| word == "endif"@
    ||| word == "while"@
    ||| word == "wend"@
    ||| word == "for"@
    ||| word == "match"@
}

/// The token that a run of lower-case letters stands for.
pub open spec fn word_token(word: Seq<char>) -> TokenView {
    if word == "var"@ {
        TokenView::VarKeyword
    } else if word == "true"@ {
        TokenView::KeywordTrue
    } else if word == "false"@ {
        TokenView::KeywordFalse
    } else if word == "as"@ {
        TokenView::KeywordAs
    } else if is_reserved(word) {
        TokenView::Reserved { matched: word }
    } else {
        TokenView::Identifier { inner: word }
    }
}

/// Whether `c` is a hexadecimal digit, in either case.
pub open spec fn is_hex_digit(c: char) -> bool {
    is_digit(c) || 'a' <= c <= 'f' || 'A' <= c <= 'F'
}

/// The number that a hexadecimal digit stands for.
pub open spec fn hex_value(c: char) -> nat
    recommends
        is_hex_digit(c),
{
    if is_digit(c) {
        (c as nat - '0' as nat) as nat
    } else if 'a' <= c <= 'f' {
        (c as nat - 'a' as nat + 10) as nat
    } else {
        (c as nat - 'A' as nat + 10) as nat
    }
}

/// Whether `code` is a surrogate code point, which is no character.
pub open spec fn is_surrogate(code: nat) -> bool {
    0xD800 <= code <= 0xDFFF
}

/// The error of the given kind, noticed at the character at `at`.
pub open spec fn error_at(kind: LexErrorKind, at: nat) -> LexError {
    LexError { kind, offset: at as usize }
}

/// The hexadecimal digit at `at`, or why there is none.
pub open spec fn hex_digit_at(src: Seq<char>, at: nat) -> Result<nat, LexError> {
    if at >= src.len() {
        Err(error_at(LexErrorKind::UnterminatedString, at))
    } else if !is_hex_digit(src[at as int]) {
        Err(error_at(LexErrorKind::InvalidUnicodeEscape { found: src[at as int] }, at))
    } else {
        Ok(hex_value(src[at as int]))
    }
}

/// The number written by the `count` hexadecimal digits that start at `at`,
/// the first of them being the most significant; the error of the first
/// position that holds no such digit.
pub open spec fn hex_number(src: Seq<char>, at: nat, count: nat) -> Result<nat, LexError>
    decreases count,
{
    if count == 0 {
        Ok(0)
    } else {
        match hex_number(src, at, (count - 1) as nat) {
            Err(error) => Err(error),
            Ok(high) => match hex_digit_at(src, (at + count - 1) as nat) {
                Err(error) => Err(error),
                Ok(low) => Ok(high * 16 + low),
            },
        }
    }
}

/// The character that the escape whose first character (the one after the
/// backslash) is at `at` stands for, and the number of characters that the
/// escape takes after the backslash.
pub open spec fn escape(src: Seq<char>, at: nat) -> Result<(char, nat), LexError> {
    if at >= src.len() {
        Err(error_at(LexErrorKind::UnterminatedString, at))
    } else {
        let c = src[at as int];
        if c == '"' {
            Ok(('"', 1))
        } else if c == '\\' {
            Ok(('\\', 1))
        } else if c == 'a' {
            Ok(('\x07', 1))
        } else if c == 'b' {
            Ok(('\x08', 1))
        } else if c == 't' {
            Ok(('\t', 1))
        } else if c == 'n' {
            Ok(('\n', 1))
        } else if c == 'v' {
            Ok(('\x0b', 1))
        } else if c == 'f' {
            Ok(('\x0c', 1))
        } else if c == 'r' {
            Ok(('\r', 1))
        } else if c == 'u' {
            match hex_number(src, at + 1, 4) {
                Err(error) => Err(error),
                Ok(code) => if is_surrogate(code) {
                    Err(error_at(LexErrorKind::SurrogateCodePoint { code: code as u16 }, at))
                } else {
                    Ok((code as u32 as char, 5))
                },
            }
        } else {
            Err(error_at(LexErrorKind::InvalidEscape { found: c }, at))
        }
    }
}

/// `first` put in front of the text that a scan decoded.
pub open spec fn preceded_by(first: Seq<char>, scan: Result<(Seq<char>, nat), LexError>) -> Result<
    (Seq<char>, nat),
    LexError,
> {
    match scan {
        Ok((text, end)) => Ok((first + text, end)),
        Err(error) => Err(error),
    }
}

/// The rest of a string literal from `at` on, which lies behind the opening
/// quote: the decoded text up to the closing quote and the position after
/// that quote, or the first error.
pub open spec fn string_body(src: Seq<char>, at: nat) -> Result<(Seq<char>, nat), LexError>
    decreases src.len() - at,
{
    if at >= src.len() {
        Err(error_at(LexErrorKind::UnterminatedString, at))
    } else {
        let c = src[at as int];
        if c == '"' {
            Ok((Seq::empty(), at + 1))
        } else if c == '\n' {
            Err(error_at(LexErrorKind::NewlineInString, at))
        } else if c == '\\' {
            match escape(src, at + 1) {
                Err(error) => Err(error),
                Ok((decoded, width)) => preceded_by(
                    seq![decoded],
                    string_body(src, at + 1 + width),
                ),
            }
        } else {
            preceded_by(seq![c], string_body(src, at + 1))
        }
    }
}

/// The step that finds `token` and ends at `end`.
pub open spec fn found(token: TokenView, end: nat) -> Step {
    Step { lexeme: Ok(token), end }
}

/// The token that starts at `start`, which holds a character that is no space.
pub open spec fn token_at(src: Seq<char>, start: nat) -> Step
    recommends
        start < src.len(),
{
    let c = src[start as int];
    if c == '\n' {
        found(TokenView::NewLine, start + 1)
    } else if c == '=' {
        if holds(src, start + 1, '=') {
            found(TokenView::PartEqEq, start + 2)
        } else {
            found(TokenView::SymEq, start + 1)
        }
    } else if c == '+' {
        found(TokenView::SymPlus, start + 1)
    } else if c == '-' {
        found(TokenView::SymMinus, start + 1)
    } else if c == '*' {
        found(TokenView::SymAsterisk, start + 1)
    } else if c == '/' {
        if holds(src, start + 1, '/') {
            let end = run_end(src, start + 2, CharClass::LineContent);
            found(
                TokenView::Comment { content: src.subrange((start + 2) as int, end as int) },
                end,
            )
        } else {
            found(TokenView::SymSlash, start + 1)
        }
    } else if c == '(' {
        found(TokenView::SymLeftPar, start + 1)
    } else if c == ')' {
        found(TokenView::SymRightPar, start + 1)
    } else if c == '#' {
        found(TokenView::SymSharp, start + 1)
    } else if c == '[' {
        found(TokenView::SymOpenBracket, start + 1)
    } else if c == ']' {
        found(TokenView::SymCloseBracket, start + 1)
    } else if c == ':' {
        found(TokenView::SymColon, start + 1)
    } else if c == '.' {
        found(TokenView::SymDot, start + 1)
    } else if c == '<' {
        if holds(src, start + 1, '=') {
            if holds(src, start + 2, '>') {
                found(TokenView::PartLessEqMore, start + 3)
            } else {
                found(TokenView::PartLessEq, start + 2)
            }
        } else if holds(src, start + 1, '<') {
            found(TokenView::PartLessLess, start + 2)
        } else {
            found(TokenView::SymLess, start + 1)
        }
    } else if c == '>' {
        if holds(src, start + 1, '=') {
            found(TokenView::PartMoreEq, start + 2)
        } else if holds(src, start + 1, '>') {
            found(TokenView::PartMoreMore, start + 2)
        } else {
            found(TokenView::SymMore, start + 1)
        }
    } else if c == '!' {
        if holds(src, start + 1, '=') {
            found(TokenView::PartBangEq, start + 2)
        } else {
            found(TokenView::SymBang, start + 1)
        }
    } else if c == '&' {
        if holds(src, start + 1, '&') {
            found(TokenView::PartAndAnd, start + 2)
        } else {
            found(TokenView::SymAnd, start + 1)
        }
    } else if c == '^' {
        found(TokenView::SymCaret, start + 1)
    } else if c == '|' {
        if holds(src, start + 1, '|') {
            found(TokenView::PartPipePipe, start + 2)
        } else {
            found(TokenView::SymPipe, start + 1)
        }
    } else if c == '"' {
        match string_body(src, start + 1) {
            Ok((content, end)) => found(TokenView::StringLiteral { content }, end),
            Err(error) => Step { lexeme: Err(error), end: start },
        }
    } else if is_digit(c) {
        let end = run_end(src, start, CharClass::Digit);
        found(TokenView::Digits { sequence: src.subrange(start as int, end as int) }, end)
    } else if is_lower(c) {
        let end = run_end(src, start, CharClass::Lower);
        found(word_token(src.subrange(start as int, end as int)), end)
    } else {
        found(TokenView::UnexpectedChar { index: start as usize, char: c }, start + 1)
    }
}

/// The lexeme that a lexer at position `pos` of `src` finds, and where it
/// leaves the lexer: spaces are skipped, then the end of input or one token
/// is read.  An error leaves the lexer at `pos`.
pub open spec fn lex(src: Seq<char>, pos: nat) -> Step {
    let start = run_end(src, pos, CharClass::Space);
    if start >= src.len() {
        found(TokenView::EndOfFile, start)
    } else {
        let step = token_at(src, start);
        match step.lexeme {
            Ok(_) => step,
            Err(error) => Step { lexeme: Err(error), end: pos },
        }
    }
}

/// What a look ahead at position `pos` gives: the lexeme that a step would
/// give, and the position `pos` itself, at which the lexer stays.
pub open spec fn peeked(src: Seq<char>, pos: nat) -> Step {
    Step { lexeme: lex(src, pos).lexeme, end: pos }
}

/// Looking ahead changes nothing: a look ahead leaves the lexer where it
/// is, a second one gives the lexeme of the first, and a step then gives
/// that lexeme too.
pub proof fn lemma_peek_changes_nothing(src: Seq<char>, pos: nat)
    ensures
        peeked(src, pos).end == pos,
        peeked(src, peeked(src, pos).end).lexeme == peeked(src, pos).lexeme,
        lex(src, peeked(src, peeked(src, pos).end).end).lexeme == peeked(src, pos).lexeme,
{
}

/// A run ends at or after its start and inside the text; it holds only
/// characters of its class, and the character behind it, if any, is of
/// another.
pub proof fn lemma_run_end(src: Seq<char>, from: nat, class: CharClass)
    ensures
        from <= run_end(src, from, class),
        from <= src.len() ==> run_end(src, from, class) <= src.len(),
        forall|k: int| from <= k < run_end(src, from, class) ==> in_class(class, #[trigger] src[k]),
        run_end(src, from, class) < src.len() ==> !in_class(
            class,
            src[run_end(src, from, class) as int],
        ),
    decreases src.len() - from,
{
    if from < src.len() && in_class(class, src[from as int]) {
        lemma_run_end(src, from + 1, class);
    }
}

/// A string literal's closing quote lies behind its opening quote.
pub proof fn lemma_string_body_end(src: Seq<char>, at: nat)
    ensures
        string_body(src, at) matches Ok((_, end)) ==> at < end <= src.len(),
    decreases src.len() - at,
{
    if at < src.len() {
        let c = src[at as int];
        if c == '\\' {
            match escape(src, at + 1) {
                Ok((_, width)) => {
                    lemma_string_body_end(src, at + 1 + width);
                },
                Err(_) => {},
            }
        } else if c != '"' && c != '\n' {
            lemma_string_body_end(src, at + 1);
        }
    }
}

/// Every token but the end of input takes at least one character, and no
/// step leaves the text.
pub proof fn lemma_lex_advances(src: Seq<char>, pos: nat)
    ensures
        pos <= lex(src, pos).end,
        pos <= src.len() ==> lex(src, pos).end <= src.len(),
        is_consumable(lex(src, pos).lexeme) ==> pos < lex(src, pos).end && pos < src.len(),
{
    lemma_run_end(src, pos, CharClass::Space);
    let start = run_end(src, pos, CharClass::Space);
    if start < src.len() {
        lemma_run_end(src, start + 2, CharClass::LineContent);
        lemma_run_end(src, start, CharClass::Digit);
        lemma_run_end(src, start, CharClass::Lower);
        lemma_string_body_end(src, start + 1);
        if is_digit(src[start as int]) {
            assert(run_end(src, start, CharClass::Digit) == run_end(
                src,
                start + 1,
                CharClass::Digit,
            ));
            lemma_run_end(src, start + 1, CharClass::Digit);
        }
        if is_lower(src[start as int]) {
            assert(run_end(src, start, CharClass::Lower) == run_end(
                src,
                start + 1,
                CharClass::Lower,
            ));
            lemma_run_end(src, start + 1, CharClass::Lower);
        }
    }
}

/// The shape that the text of a token has: an identifier is a run of
/// lower-case letters that is no keyword and no reserved word, digits are a
/// run of digits, a reserved word is one of the list, and a comment holds no
/// line break.  An identifier and a run of digits are not empty.
pub open spec fn well_shaped(token: TokenView) -> bool {
    match token {
        TokenView::Identifier { inner } => {
            &&& inner.len() >= 1
            &&& forall|i: int| 0 <= i < inner.len() ==> is_lower(#[trigger] inner[i])
            &&& word_token(inner) == token
        },
        TokenView::Digits { sequence } => {
            &&& sequence.len() >= 1
            &&& forall|i: int| 0 <= i < sequence.len() ==> is_digit(#[trigger] sequence[i])
        },
        TokenView::Reserved { matched } => is_reserved(matched),
        TokenView::Comment { content } => forall|i: int|
            0 <= i < content.len() ==> #[trigger] content[i] != '\n',
        _ => true,
    }
}

/// Every token that the lexer finds is well shaped.
pub proof fn lemma_lex_is_well_shaped(src: Seq<char>, pos: nat)
    ensures
        lex(src, pos).lexeme matches Ok(token) ==> well_shaped(token),
{
    lemma_run_end(src, pos, CharClass::Space);
    let start = run_end(src, pos, CharClass::Space);
    if start < src.len() {
        let c = src[start as int];
        if c == '/' {
            lemma_run_end(src, start + 2, CharClass::LineContent);
        } else if is_digit(c) {
            lemma_run_end(src, start, CharClass::Digit);
            lemma_run_end(src, start + 1, CharClass::Digit);
        } else if is_lower(c) {
            lemma_run_end(src, start, CharClass::Lower);
            lemma_run_end(src, start + 1, CharClass::Lower);
        }
    }
}

/// Every token of a stream is well shaped.
pub proof fn lemma_stream_is_well_shaped(src: Seq<char>, pos: nat, index: int)
    requires
        0 <= index < stream(src, pos).len(),
    ensures
        stream(src, pos)[index] matches Ok(token) ==> well_shaped(token),
    decreases index,
{
    lemma_stream_unfold(src, pos);
    lemma_lex_is_well_shaped(src, pos);
    if index > 0 {
        lemma_lex_advances(src, pos);
        lemma_stream_is_well_shaped(src, lex(src, pos).end, index - 1);
    }
}

/// The lexemes that a lexer at `pos` hands out one after the other, up to and
/// with the first that it does not move past: the end of input or an error.
pub open spec fn stream(src: Seq<char>, pos: nat) -> Seq<Lexeme>
    decreases src.len() - pos,
{
    let step = lex(src, pos);
    if is_consumable(step.lexeme) {
        proof {
            lemma_lex_advances(src, pos);
        }
        seq![step.lexeme] + stream(src, step.end)
    } else {
        seq![step.lexeme]
    }
}

/// A stream is never empty, it starts with the lexeme at its position, and
/// what follows a consumable lexeme is the stream from behind it.
pub proof fn lemma_stream_unfold(src: Seq<char>, pos: nat)
    ensures
        stream(src, pos).len() >= 1,
        stream(src, pos)[0] == lex(src, pos).lexeme,
        is_consumable(lex(src, pos).lexeme) ==> stream(src, pos).skip(1) == stream(
            src,
            lex(src, pos).end,
        ),
        !is_consumable(lex(src, pos).lexeme) ==> stream(src, pos).len() == 1,
{
    let step = lex(src, pos);
    if is_consumable(step.lexeme) {
        assert(stream(src, pos).skip(1) =~= stream(src, step.end));
    }
}

/// A stream ends where the lexer stops: its last lexeme is the end of input
/// or an error, and the lexer moves past every other one.
pub proof fn lemma_stream_ends_once(src: Seq<char>, pos: nat, index: int)
    requires
        0 <= index < stream(src, pos).len(),
    ensures
        is_consumable(stream(src, pos)[index]) <==> index + 1 < stream(src, pos).len(),
    decreases index,
{
    lemma_stream_unfold(src, pos);
    if index > 0 {
        lemma_lex_advances(src, pos);
        lemma_stream_ends_once(src, lex(src, pos).end, index - 1);
    } else if is_consumable(lex(src, pos).lexeme) {
        lemma_stream_unfold(src, lex(src, pos).end);
    }
}

/// Once the end of input is reached, lexing stays there.
pub proof fn lemma_end_is_final(src: Seq<char>, pos: nat)
    requires
        lex(src, pos).lexeme == Ok::<TokenView, LexError>(TokenView::EndOfFile),
    ensures
        lex(src, lex(src, pos).end) == lex(src, pos),
        stream(src, lex(src, pos).end) == stream(src, pos),
{
    lemma_run_end(src, pos, CharClass::Space);
    let start = run_end(src, pos, CharClass::Space);
    assert(start >= src.len()) by {
        if start < src.len() {
            assert(token_at(src, start).lexeme != Ok::<TokenView, LexError>(
                TokenView::EndOfFile,
            ));
        }
    }
    assert(run_end(src, start, CharClass::Space) == start);
}

} // verus!
