//! The lexer: turns source text into tokens, one at a time and on demand.
use crate::lexical::{
    escape, hex_digit_at, hex_number, in_class, is_hex_digit, lemma_end_is_final,
    lemma_lex_advances, lemma_run_end, lemma_stream_unfold, lex, peeked, preceded_by, run_end,
    stream, string_body, word_token, CharClass,
};
use crate::text::{characters, reads};
use crate::token::{is_consumable, lexeme_of, LexError, LexErrorKind, Lexeme, Token};
use vstd::prelude::*;
use vstd::string::*;

verus! {

/// A lexer over one source text.  Its only state is a cursor, an offset in
/// characters, which never moves backwards but in a look-ahead that puts it
/// back.
pub struct Lexer {
    index: usize,
    current_source: Vec<char>,
}

/// Whether `c` belongs to `class`.
fn class_holds(class: &CharClass, c: char) -> (held: bool)
    ensures
        held == in_class(*class, c),
{
    match class {
        CharClass::Space => c == ' ',
        CharClass::Digit => '0' <= c && c <= '9',
        CharClass::Lower => 'a' <= c && c <= 'z',
        CharClass::LineContent => c != '\n',
    }
}

/// The token that a run of lower-case letters stands for: a keyword, a
/// reserved word or an identifier.
fn classify_word(word: String) -> (token: Token)
    ensures
        token@ == word_token(word@),
{
    if reads(&word, "var") {
        Token::VarKeyword
    } else if reads(&word, "true") {
        Token::KeywordTrue
    } else if reads(&word, "false") {
        Token::KeywordFalse
    } else if reads(&word, "as") {
        Token::KeywordAs
    } else if reads(&word, "if") || reads(&word, "then") || reads(&word, "else") || reads(
        &word,
        "elseif",
    ) || reads(&word, "end") || reads(&word, "endif") || reads(&word, "while") || reads(
        &word,
        "wend",
    ) || reads(&word, "for") || reads(&word, "match") {
        Token::Reserved { matched: word }
    } else {
        Token::Identifier { inner: word }
    }
}

/// The number that a hexadecimal digit stands for, if `c` is one.
fn hex_digit(c: char) -> (value: Option<u16>)
    ensures
        value is Some <==> is_hex_digit(c),
        value matches Some(v) ==> v == crate::lexical::hex_value(c) && v < 16,
{
    if '0' <= c && c <= '9' {
        Some((c as u32 - '0' as u32) as u16)
    } else if 'a' <= c && c <= 'f' {
        Some((c as u32 - 'a' as u32 + 10) as u16)
    } else if 'A' <= c && c <= 'F' {
        Some((c as u32 - 'A' as u32 + 10) as u16)
    } else {
        None
    }
}

/// Text decoded so far, then one more character, then the rest: the same as
/// the text with that character, then the rest.
proof fn lemma_preceded_by_push(
    text: Seq<char>,
    c: char,
    rest: Result<(Seq<char>, nat), LexError>,
)
    ensures
        preceded_by(text, preceded_by(seq![c], rest)) == preceded_by(text.push(c), rest),
{
    match rest {
        Ok((tail, end)) => {
            assert(text + (seq![c] + tail) =~= text.push(c) + tail);
        },
        Err(_) => {},
    }
}

impl Lexer {
    /// The source text, as characters.
    pub closed spec fn source(&self) -> Seq<char> {
        self.current_source@
    }

    /// The cursor: the offset, in characters, of the next one to read.
    pub closed spec fn position(&self) -> nat {
        self.index as nat
    }

    /// The lexemes that are still to come: what `next` will hand out, call
    /// after call, up to the end of input or the first error.
    pub open spec fn remaining(&self) -> Seq<Lexeme> {
        stream(self.source(), self.position())
    }

    /// A lexer at the start of `source`.
    pub fn create(source: &str) -> (lexer: Self)
        ensures
            lexer.source() == source@,
            lexer.position() == 0,
    {
        Self { current_source: characters(source), index: 0 }
    }

    /// Moves the cursor to the end of the run of characters of `class` that
    /// starts at it.
    fn skip_run(&mut self, class: CharClass)
        ensures
            final(self).source() == old(self).source(),
            final(self).position() == run_end(old(self).source(), old(self).position(), class),
    {
        while self.index < self.current_source.len() && class_holds(
            &class,
            self.current_source[self.index],
        )
            invariant
                self.current_source == old(self).current_source,
                run_end(self.source(), self.position(), class) == run_end(
                    old(self).source(),
                    old(self).position(),
                    class,
                ),
            decreases self.current_source.len() - self.index,
        {
            self.index = self.index + 1;
        }
    }

    /// The characters from `from` up to the cursor, as a string.
    fn text_since(&self, from: usize) -> (text: String)
        requires
            from <= self.position() <= self.source().len(),
        ensures
            text@ == self.source().subrange(from as int, self.position() as int),
    {
        let mut text = String::new();
        let mut i: usize = from;
        while i < self.index
            invariant
                from <= i <= self.index <= self.current_source.len(),
                text@ == self.current_source@.subrange(from as int, i as int),
            decreases self.index - i,
        {
            text.push(self.current_source[i]);
            i = i + 1;
        }
        text
    }

    /// Skips the spaces at the cursor.
    fn drain_space(&mut self)
        ensures
            final(self).source() == old(self).source(),
            final(self).position() == run_end(
                old(self).source(),
                old(self).position(),
                CharClass::Space,
            ),
    {
        self.skip_run(CharClass::Space);
    }

    /// Reads the next token and moves the cursor behind it.  Spaces before
    /// the token are skipped; at the end of input the token is `EndOfFile`,
    /// again and again.  Where the text holds no token, because a string
    /// literal is malformed, the error says why and the cursor stays where it
    /// was.
    pub fn next(&mut self) -> (token: Result<Token, LexError>)
        ensures
            final(self).source() == old(self).source(),
            lexeme_of(token) == lex(old(self).source(), old(self).position()).lexeme,
            final(self).position() == lex(old(self).source(), old(self).position()).end,
            old(self).position() <= final(self).position(),
            lexeme_of(token) == old(self).remaining()[0],
            final(self).remaining() == if is_consumable(old(self).remaining()[0]) {
                old(self).remaining().skip(1)
            } else {
                old(self).remaining()
            },
    {
        proof {
            lemma_stream_unfold(self.source(), self.position());
            lemma_lex_advances(self.source(), self.position());
            if lex(self.source(), self.position()).lexeme == Ok::<_, LexError>(
                crate::token::TokenView::EndOfFile,
            ) {
                lemma_end_is_final(self.source(), self.position());
            }
        }
        let begin: usize = self.index;
        self.drain_space();
        if self.reached_end() {
            return Ok(Token::EndOfFile);
        }
        let c: char = self.current_source[self.index];
        match c {
            '\n' => {
                self.advance();
                Ok(Token::NewLine)
            },
            '=' => {
                self.advance();
                if self.current_is('=') {
                    self.advance();
                    Ok(Token::PartEqEq)
                } else {
                    Ok(Token::SymEq)
                }
            },
            '+' => {
                self.advance();
                Ok(Token::SymPlus)
            },
            '-' => {
                self.advance();
                Ok(Token::SymMinus)
            },
            '*' => {
                self.advance();
                Ok(Token::SymAsterisk)
            },
            '/' => {
                self.advance();
                if self.current_is('/') {
                    self.advance();
                    Ok(Token::Comment { content: self.scan_comment_content() })
                } else {
                    Ok(Token::SymSlash)
                }
            },
            '(' => {
                self.advance();
                Ok(Token::SymLeftPar)
            },
            ')' => {
                self.advance();
                Ok(Token::SymRightPar)
            },
            '#' => {
                self.advance();
                Ok(Token::SymSharp)
            },
            '[' => {
                self.advance();
                Ok(Token::SymOpenBracket)
            },
            ']' => {
                self.advance();
                Ok(Token::SymCloseBracket)
            },
            ':' => {
                self.advance();
                Ok(Token::SymColon)
            },
            '.' => {
                self.advance();
                Ok(Token::SymDot)
            },
            '<' => {
                self.advance();
                if self.current_is('=') {
                    self.advance();
                    if self.current_is('>') {
                        self.advance();
                        Ok(Token::PartLessEqMore)
                    } else {
                        Ok(Token::PartLessEq)
                    }
                } else if self.current_is('<') {
                    self.advance();
                    Ok(Token::PartLessLess)
                } else {
                    Ok(Token::SymLess)
                }
            },
            '>' => {
                self.advance();
                if self.current_is('=') {
                    self.advance();
                    Ok(Token::PartMoreEq)
                } else if self.current_is('>') {
                    self.advance();
                    Ok(Token::PartMoreMore)
                } else {
                    Ok(Token::SymMore)
                }
            },
            '!' => {
                self.advance();
                if self.current_is('=') {
                    self.advance();
                    Ok(Token::PartBangEq)
                } else {
                    Ok(Token::SymBang)
                }
            },
            '&' => {
                self.advance();
                if self.current_is('&') {
                    self.advance();
                    Ok(Token::PartAndAnd)
                } else {
                    Ok(Token::SymAnd)
                }
            },
            '^' => {
                self.advance();
                Ok(Token::SymCaret)
            },
            '|' => {
                self.advance();
                if self.current_is('|') {
                    self.advance();
                    Ok(Token::PartPipePipe)
                } else {
                    Ok(Token::SymPipe)
                }
            },
            '"' => {
                self.advance();
                match self.scan_string_literal() {
                    Ok(content) => Ok(Token::StringLiteral { content }),
                    Err(error) => {
                        self.index = begin;
                        Err(error)
                    },
                }
            },
            c if '0' <= c && c <= '9' => Ok(self.scan_digits()),
            c if 'a' <= c && c <= 'z' => Ok(classify_word(self.scan_lowers())),
            other => {
                let index: usize = self.index;
                self.advance();
                Ok(Token::UnexpectedChar { index, char: other })
            },
        }
    }

    /// Reads the run of digits at the cursor, which holds a digit.
    fn scan_digits(&mut self) -> (token: Token)
        requires
            old(self).position() <= old(self).source().len(),
        ensures
            final(self).source() == old(self).source(),
            final(self).position() == run_end(
                old(self).source(),
                old(self).position(),
                CharClass::Digit,
            ),
            token@ == (crate::token::TokenView::Digits {
                sequence: old(self).source().subrange(
                    old(self).position() as int,
                    final(self).position() as int,
                ),
            }),
    {
        let start: usize = self.index;
        proof {
            lemma_run_end(self.source(), self.position(), CharClass::Digit);
        }
        self.skip_run(CharClass::Digit);
        Token::Digits { sequence: self.text_since(start) }
    }

    /// Reads the run of lower-case letters at the cursor.
    fn scan_lowers(&mut self) -> (word: String)
        requires
            old(self).position() <= old(self).source().len(),
        ensures
            final(self).source() == old(self).source(),
            final(self).position() == run_end(
                old(self).source(),
                old(self).position(),
                CharClass::Lower,
            ),
            word@ == old(self).source().subrange(
                old(self).position() as int,
                final(self).position() as int,
            ),
    {
        let start: usize = self.index;
        proof {
            lemma_run_end(self.source(), self.position(), CharClass::Lower);
        }
        self.skip_run(CharClass::Lower);
        self.text_since(start)
    }

    /// Reads the text of a line comment from the cursor, which lies behind
    /// the two slashes, up to the end of the line; the line break is left.
    fn scan_comment_content(&mut self) -> (content: String)
        requires
            old(self).position() <= old(self).source().len(),
        ensures
            final(self).source() == old(self).source(),
            final(self).position() == run_end(
                old(self).source(),
                old(self).position(),
                CharClass::LineContent,
            ),
            content@ == old(self).source().subrange(
                old(self).position() as int,
                final(self).position() as int,
            ),
    {
        let start: usize = self.index;
        proof {
            lemma_run_end(self.source(), self.position(), CharClass::LineContent);
        }
        self.skip_run(CharClass::LineContent);
        self.text_since(start)
    }

    /// Reads the four hexadecimal digits of a `\u` escape at the cursor and
    /// gives the code that they write.
    fn scan_code_point(&mut self) -> (code: Result<u16, LexError>)
        requires
            old(self).position() <= old(self).source().len(),
        ensures
            final(self).source() == old(self).source(),
            match code {
                Ok(value) => hex_number(old(self).source(), old(self).position(), 4) == Ok::<
                    nat,
                    LexError,
                >(value as nat) && final(self).position() == old(self).position() + 4
                    && final(self).position() <= final(self).source().len(),
                Err(error) => hex_number(old(self).source(), old(self).position(), 4) == Err::<
                    nat,
                    LexError,
                >(error),
            },
    {
        let ghost src = self.source();
        let ghost at = self.position();
        let mut code: u16 = 0;
        let mut count: usize = 0;
        while count < 4
            invariant
                src == old(self).source(),
                at == old(self).position(),
                self.source() == src,
                count <= 4,
                self.position() == at + count,
                self.position() <= src.len(),
                hex_number(src, at, count as nat) == Ok::<nat, LexError>(code as nat),
                count == 0 ==> code == 0,
                count == 1 ==> code < 0x10,
                count == 2 ==> code < 0x100,
                count == 3 ==> code < 0x1000,
            decreases 4 - count,
        {
            proof {
                reveal_with_fuel(hex_number, 5);
            }
            let c: char = match self.current_char() {
                None => {
                    return Err(
                        LexError { kind: LexErrorKind::UnterminatedString, offset: self.index },
                    );
                },
                Some(c) => c,
            };
            let value: u16 = match hex_digit(c) {
                None => {
                    return Err(
                        LexError {
                            kind: LexErrorKind::InvalidUnicodeEscape { found: c },
                            offset: self.index,
                        },
                    );
                },
                Some(value) => value,
            };
            assert(hex_digit_at(src, at + count as nat) == Ok::<nat, LexError>(value as nat));
            code = code * 16 + value;
            self.advance();
            count = count + 1;
        }
        Ok(code)
    }

    /// Reads one escape from the cursor, which lies behind the backslash,
    /// and gives the character that the escape stands for.
    fn scan_escape(&mut self) -> (decoded: Result<char, LexError>)
        requires
            old(self).position() <= old(self).source().len(),
        ensures
            final(self).source() == old(self).source(),
            match decoded {
                Ok(c) => escape(old(self).source(), old(self).position()) == Ok::<
                    (char, nat),
                    LexError,
                >((c, (final(self).position() - old(self).position()) as nat))
                    && old(self).position() < final(self).position() <= final(self).source().len(),
                Err(error) => escape(old(self).source(), old(self).position()) == Err::<
                    (char, nat),
                    LexError,
                >(error),
            },
    {
        let mark: usize = self.index;
        let escaped: char = match self.consume_char() {
            None => {
                return Err(LexError { kind: LexErrorKind::UnterminatedString, offset: mark });
            },
            Some(c) => c,
        };
        match escaped {
            '"' => Ok('"'),
            '\\' => Ok('\\'),
            'a' => Ok('\x07'),
            'b' => Ok('\x08'),
            't' => Ok('\t'),
            'n' => Ok('\n'),
            'v' => Ok('\x0b'),
            'f' => Ok('\x0c'),
            'r' => Ok('\r'),
            'u' => {
                let code: u16 = self.scan_code_point()?;
                let surrogate = LexError {
                    kind: LexErrorKind::SurrogateCodePoint { code },
                    offset: mark,
                };
                if 0xD800 <= code && code <= 0xDFFF {
                    return Err(surrogate);
                }
                match char::from_u32(code as u32) {
                    Some(found) => {
                        proof {
                            vstd::utf8::char_u32_cast(found, code as u32);
                        }
                        Ok(found)
                    },
                    None => Err(surrogate),
                }
            },
            other => Err(LexError { kind: LexErrorKind::InvalidEscape { found: other }, offset: mark }),
        }
    }

    /// Reads a string literal from the cursor, which lies behind the opening
    /// quote, up to and with the closing quote, and gives the text that the
    /// literal stands for.  A backslash starts an escape: `\"`, `\\`, `\a`,
    /// `\b`, `\t`, `\n`, `\v`, `\f`, `\r`, or `\u` and four hexadecimal
    /// digits, which name a character that is no surrogate.  A line break in
    /// the literal, the end of input before the closing quote and any other
    /// escape are errors.
    fn scan_string_literal(&mut self) -> (content: Result<String, LexError>)
        requires
            old(self).position() <= old(self).source().len(),
        ensures
            final(self).source() == old(self).source(),
            match content {
                Ok(text) => string_body(old(self).source(), old(self).position()) == Ok::<
                    (Seq<char>, nat),
                    LexError,
                >((text@, final(self).position())),
                Err(error) => string_body(old(self).source(), old(self).position()) == Err::<
                    (Seq<char>, nat),
                    LexError,
                >(error),
            },
    {
        let ghost src = self.source();
        let ghost start = self.position();
        let mut buf = String::new();
        assert(preceded_by(buf@, string_body(src, start)) == string_body(src, start)) by {
            match string_body(src, start) {
                Ok((text, _)) => {
                    assert(buf@ + text =~= text);
                },
                Err(_) => {},
            }
        }
        loop
            invariant
                src == old(self).source(),
                start == old(self).position(),
                self.source() == src,
                self.position() <= src.len(),
                string_body(src, start) == preceded_by(buf@, string_body(src, self.position())),
            decreases src.len() - self.position(),
        {
            let ghost at = self.position();
            let ghost before = buf@;
            let c: char = match self.consume_char() {
                None => {
                    return Err(
                        LexError { kind: LexErrorKind::UnterminatedString, offset: self.index },
                    );
                },
                Some(c) => c,
            };
            match c {
                '"' => {
                    assert(before + Seq::<char>::empty() =~= before);
                    return Ok(buf);
                },
                '\n' => {
                    return Err(
                        LexError { kind: LexErrorKind::NewlineInString, offset: self.index - 1 },
                    );
                },
                '\\' => {
                    let decoded: char = self.scan_escape()?;
                    buf.push(decoded);
                    proof {
                        lemma_preceded_by_push(
                            before,
                            decoded,
                            string_body(src, self.position()),
                        );
                    }
                },
                other => {
                    buf.push(other);
                    proof {
                        lemma_preceded_by_push(before, other, string_body(src, at + 1));
                    }
                },
            }
        }
    }

    /// Reads the next token without moving the cursor: what `next` would
    /// hand out.
    pub fn peek(&mut self) -> (token: Result<Token, LexError>)
        ensures
            final(self).source() == old(self).source(),
            final(self).position() == peeked(old(self).source(), old(self).position()).end,
            lexeme_of(token) == peeked(old(self).source(), old(self).position()).lexeme,
            lexeme_of(token) == old(self).remaining()[0],
    {
        let current_index: usize = self.index;
        let token = self.next();
        self.index = current_index;
        token
    }

    /// Reads the token behind the next one without moving the cursor: what a
    /// second call of `next` would hand out.
    pub fn peek_second(&mut self) -> (token: Result<Token, LexError>)
        ensures
            final(self).source() == old(self).source(),
            final(self).position() == old(self).position(),
            lexeme_of(token) == lex(
                old(self).source(),
                lex(old(self).source(), old(self).position()).end,
            ).lexeme,
            old(self).remaining().len() >= 2 ==> lexeme_of(token) == old(self).remaining()[1],
    {
        proof {
            lemma_stream_unfold(self.source(), self.position());
            lemma_stream_unfold(self.source(), lex(self.source(), self.position()).end);
        }
        let current_index: usize = self.index;
        let _ = self.next();
        let token = self.next();
        self.index = current_index;
        token
    }

    /// The character at the cursor, if the cursor is not at the end.
    fn current_char(&self) -> (c: Option<char>)
        ensures
            c == if self.position() < self.source().len() {
                Some(self.source()[self.position() as int])
            } else {
                None
            },
    {
        if self.index < self.current_source.len() {
            Some(self.current_source[self.index])
        } else {
            None
        }
    }

    /// Whether the character at the cursor is `expected`.
    fn current_is(&self, expected: char) -> (same: bool)
        ensures
            same == crate::lexical::holds(self.source(), self.position(), expected),
    {
        self.index < self.current_source.len() && self.current_source[self.index] == expected
    }

    /// The character at the cursor, which is then moved behind it.
    fn consume_char(&mut self) -> (c: Option<char>)
        ensures
            final(self).source() == old(self).source(),
            c == if old(self).position() < old(self).source().len() {
                Some(old(self).source()[old(self).position() as int])
            } else {
                None
            },
            final(self).position() == if c is Some {
                old(self).position() + 1
            } else {
                old(self).position()
            },
    {
        let c = self.current_char();
        if c.is_some() {
            self.advance();
        }
        c
    }

    /// Whether the cursor is at the end of the source.
    fn reached_end(&self) -> (at_end: bool)
        ensures
            at_end == (self.position() >= self.source().len()),
    {
        self.index >= self.current_source.len()
    }

    /// Moves the cursor one character on.
    fn advance(&mut self)
        requires
            old(self).position() < old(self).source().len(),
        ensures
            final(self).source() == old(self).source(),
            final(self).position() == old(self).position() + 1,
    {
        self.advance_by(1);
    }

    /// Moves the cursor `step` characters on.
    fn advance_by(&mut self, step: usize)
        requires
            old(self).position() + step <= old(self).source().len(),
        ensures
            final(self).source() == old(self).source(),
            final(self).position() == old(self).position() + step,
    {
        let end: usize = self.current_source.len();
        assert(self.index + step <= end);
        self.index = self.index + step;
    }
}

} // verus!
