use logix_text::lexer::Lexer;
use logix_text::token::{LexError, LexErrorKind, Token};

fn tokens_of(source: &str) -> Vec<Token> {
    let mut lexer = Lexer::create(source);
    let mut tokens = vec![];
    loop {
        let token = lexer.next().unwrap();
        let done = token == Token::EndOfFile;
        tokens.push(token);
        if done {
            return tokens;
        }
    }
}

fn identifier(text: &str) -> Token {
    Token::Identifier { inner: text.to_string() }
}

fn digits(text: &str) -> Token {
    Token::Digits { sequence: text.to_string() }
}

fn error_of(source: &str) -> LexError {
    Lexer::create(source).next().unwrap_err()
}

#[test]
fn lexes_operators_greedily() {
    assert_eq!(
        tokens_of("a <=> b << 1"),
        vec![
            identifier("a"),
            Token::PartLessEqMore,
            identifier("b"),
            Token::PartLessLess,
            digits("1"),
            Token::EndOfFile
        ]
    );
    assert_eq!(
        tokens_of("<=>=>>"),
        vec![Token::PartLessEqMore, Token::SymEq, Token::PartMoreMore, Token::EndOfFile]
    );
    assert_eq!(
        tokens_of("<<="),
        vec![Token::PartLessLess, Token::SymEq, Token::EndOfFile]
    );
    assert_eq!(
        tokens_of("&&&|||"),
        vec![
            Token::PartAndAnd,
            Token::SymAnd,
            Token::PartPipePipe,
            Token::SymPipe,
            Token::EndOfFile
        ]
    );
}

#[test]
fn lexes_every_operator_and_punctuation() {
    assert_eq!(
        tokens_of("= == + - * / ( ) # [ ] : . < <= > >= != ! <=> << >> & && ^ | ||"),
        vec![
            Token::SymEq,
            Token::PartEqEq,
            Token::SymPlus,
            Token::SymMinus,
            Token::SymAsterisk,
            Token::SymSlash,
            Token::SymLeftPar,
            Token::SymRightPar,
            Token::SymSharp,
            Token::SymOpenBracket,
            Token::SymCloseBracket,
            Token::SymColon,
            Token::SymDot,
            Token::SymLess,
            Token::PartLessEq,
            Token::SymMore,
            Token::PartMoreEq,
            Token::PartBangEq,
            Token::SymBang,
            Token::PartLessEqMore,
            Token::PartLessLess,
            Token::PartMoreMore,
            Token::SymAnd,
            Token::PartAndAnd,
            Token::SymCaret,
            Token::SymPipe,
            Token::PartPipePipe,
            Token::EndOfFile
        ]
    );
}

#[test]
fn operator_at_the_end_of_input_is_the_short_form() {
    assert_eq!(tokens_of("="), vec![Token::SymEq, Token::EndOfFile]);
    assert_eq!(tokens_of("<"), vec![Token::SymLess, Token::EndOfFile]);
    assert_eq!(tokens_of("<="), vec![Token::PartLessEq, Token::EndOfFile]);
    assert_eq!(tokens_of("/"), vec![Token::SymSlash, Token::EndOfFile]);
    assert_eq!(tokens_of("!"), vec![Token::SymBang, Token::EndOfFile]);
}

#[test]
fn lexes_keywords_and_reserved_words() {
    assert_eq!(
        tokens_of("var true false as"),
        vec![
            Token::VarKeyword,
            Token::KeywordTrue,
            Token::KeywordFalse,
            Token::KeywordAs,
            Token::EndOfFile
        ]
    );
    for word in ["if", "then", "else", "elseif", "end", "endif", "while", "wend", "for", "match"] {
        assert_eq!(
            tokens_of(word),
            vec![Token::Reserved { matched: word.to_string() }, Token::EndOfFile]
        );
    }
    assert_eq!(tokens_of("variable"), vec![identifier("variable"), Token::EndOfFile]);
    assert_eq!(tokens_of("ifs"), vec![identifier("ifs"), Token::EndOfFile]);
    assert_eq!(tokens_of("a"), vec![identifier("a"), Token::EndOfFile]);
}

#[test]
fn identifiers_are_runs_of_lower_case_letters() {
    assert_eq!(tokens_of("i32"), vec![identifier("i"), digits("32"), Token::EndOfFile]);
    assert_eq!(
        tokens_of("abC"),
        vec![
            identifier("ab"),
            Token::UnexpectedChar { index: 2, char: 'C' },
            Token::EndOfFile
        ]
    );
    assert_eq!(
        tokens_of("a_b"),
        vec![
            identifier("a"),
            Token::UnexpectedChar { index: 1, char: '_' },
            identifier("b"),
            Token::EndOfFile
        ]
    );
}

#[test]
fn digits_are_maximal_runs_kept_as_written() {
    assert_eq!(tokens_of("007"), vec![digits("007"), Token::EndOfFile]);
    assert_eq!(
        tokens_of("12 345"),
        vec![digits("12"), digits("345"), Token::EndOfFile]
    );
    assert_eq!(
        tokens_of("1.5"),
        vec![digits("1"), Token::SymDot, digits("5"), Token::EndOfFile]
    );
    assert_eq!(
        tokens_of("99999999999999999999"),
        vec![digits("99999999999999999999"), Token::EndOfFile]
    );
}

#[test]
fn spaces_are_skipped_and_line_breaks_are_tokens() {
    assert_eq!(
        tokens_of("  a  \n  b  "),
        vec![identifier("a"), Token::NewLine, identifier("b"), Token::EndOfFile]
    );
    assert_eq!(tokens_of(""), vec![Token::EndOfFile]);
    assert_eq!(tokens_of("    "), vec![Token::EndOfFile]);
    assert_eq!(
        tokens_of("\n\n"),
        vec![Token::NewLine, Token::NewLine, Token::EndOfFile]
    );
}

#[test]
fn other_characters_are_tokens_with_their_offset() {
    assert_eq!(
        tokens_of(" \t"),
        vec![Token::UnexpectedChar { index: 1, char: '\t' }, Token::EndOfFile]
    );
    assert_eq!(
        tokens_of("a % b"),
        vec![
            identifier("a"),
            Token::UnexpectedChar { index: 2, char: '%' },
            identifier("b"),
            Token::EndOfFile
        ]
    );
    assert_eq!(
        tokens_of("é?"),
        vec![
            Token::UnexpectedChar { index: 0, char: 'é' },
            Token::UnexpectedChar { index: 1, char: '?' },
            Token::EndOfFile
        ]
    );
}

#[test]
fn comment_runs_to_the_end_of_the_line() {
    assert_eq!(
        tokens_of("a // b c\nd"),
        vec![
            identifier("a"),
            Token::Comment { content: " b c".to_string() },
            Token::NewLine,
            identifier("d"),
            Token::EndOfFile
        ]
    );
    assert_eq!(
        tokens_of("//"),
        vec![Token::Comment { content: "".to_string() }, Token::EndOfFile]
    );
    assert_eq!(
        tokens_of("///x"),
        vec![Token::Comment { content: "/x".to_string() }, Token::EndOfFile]
    );
}

#[test]
fn end_of_file_is_final() {
    let mut lexer = Lexer::create("a");
    assert_eq!(lexer.next(), Ok(identifier("a")));
    for _ in 0..3 {
        assert_eq!(lexer.peek(), Ok(Token::EndOfFile));
        assert_eq!(lexer.next(), Ok(Token::EndOfFile));
    }
}

#[test]
fn peek_does_not_move_the_cursor() {
    let mut lexer = Lexer::create("var x = \"s\" + 12 // c\n");
    loop {
        let first = lexer.peek();
        let second = lexer.peek();
        let taken = lexer.next();
        assert_eq!(first, second);
        assert_eq!(first, taken);
        if taken == Ok(Token::EndOfFile) {
            break;
        }
    }
}

#[test]
fn peek_second_looks_behind_the_next_token() {
    let mut lexer = Lexer::create("a . b");
    assert_eq!(lexer.peek_second(), Ok(Token::SymDot));
    assert_eq!(lexer.peek(), Ok(identifier("a")));
    assert_eq!(lexer.next(), Ok(identifier("a")));
    assert_eq!(lexer.peek_second(), Ok(identifier("b")));
    assert_eq!(lexer.next(), Ok(Token::SymDot));
    assert_eq!(lexer.peek_second(), Ok(Token::EndOfFile));
    assert_eq!(lexer.next(), Ok(identifier("b")));
    assert_eq!(lexer.peek_second(), Ok(Token::EndOfFile));
}

#[test]
fn string_escapes_are_decoded() {
    assert_eq!(
        tokens_of("\"a\\tb\\n\""),
        vec![Token::StringLiteral { content: "a\tb\n".to_string() }, Token::EndOfFile]
    );
    match &tokens_of("\"a\\tb\\n\"")[0] {
        Token::StringLiteral { content } => {
            assert_eq!(content.chars().collect::<Vec<char>>(), vec!['a', '\t', 'b', '\n']);
        }
        other => panic!("unexpected token: {other:?}"),
    }
    assert_eq!(
        tokens_of("\"\\\"\\\\\\a\\b\\t\\n\\v\\f\\r\""),
        vec![
            Token::StringLiteral { content: "\"\\\x07\x08\t\n\x0b\x0c\r".to_string() },
            Token::EndOfFile
        ]
    );
    assert_eq!(
        tokens_of("\"\" \"x y\""),
        vec![
            Token::StringLiteral { content: "".to_string() },
            Token::StringLiteral { content: "x y".to_string() },
            Token::EndOfFile
        ]
    );
}

#[test]
fn unicode_escapes_are_decoded() {
    assert_eq!(
        tokens_of("\"\\u0041\\u3042\\uD7FF\\uE000\\uffff\\uABcd\""),
        vec![
            Token::StringLiteral { content: "A\u{3042}\u{D7FF}\u{E000}\u{FFFF}\u{ABCD}".to_string() },
            Token::EndOfFile
        ]
    );
    assert_eq!(
        tokens_of("\"\\u00e9t\\u00E9\""),
        vec![Token::StringLiteral { content: "été".to_string() }, Token::EndOfFile]
    );
}

#[test]
fn surrogate_escape_is_rejected() {
    assert_eq!(
        error_of("\"\\uD800\""),
        LexError { kind: LexErrorKind::SurrogateCodePoint { code: 0xD800 }, offset: 2 }
    );
    assert_eq!(
        error_of("\"ab\\uDFFF\""),
        LexError { kind: LexErrorKind::SurrogateCodePoint { code: 0xDFFF }, offset: 4 }
    );
    assert_eq!(error_of("\"\\udabc\"").kind, LexErrorKind::SurrogateCodePoint { code: 0xDABC });
}

#[test]
fn malformed_unicode_escape_is_rejected() {
    assert_eq!(
        error_of("\"\\u12\""),
        LexError { kind: LexErrorKind::InvalidUnicodeEscape { found: '"' }, offset: 5 }
    );
    assert_eq!(
        error_of("\"\\u12g4\""),
        LexError { kind: LexErrorKind::InvalidUnicodeEscape { found: 'g' }, offset: 5 }
    );
    assert_eq!(
        error_of("\"\\u{41}\""),
        LexError { kind: LexErrorKind::InvalidUnicodeEscape { found: '{' }, offset: 3 }
    );
    assert_eq!(
        error_of("\"\\u12"),
        LexError { kind: LexErrorKind::UnterminatedString, offset: 5 }
    );
}

#[test]
fn unknown_escape_is_rejected() {
    assert_eq!(
        error_of("\"a\\qb\""),
        LexError { kind: LexErrorKind::InvalidEscape { found: 'q' }, offset: 3 }
    );
    assert_eq!(
        error_of("\"\\0\""),
        LexError { kind: LexErrorKind::InvalidEscape { found: '0' }, offset: 2 }
    );
}

#[test]
fn unterminated_string_is_rejected() {
    assert_eq!(
        error_of("\"abc"),
        LexError { kind: LexErrorKind::UnterminatedString, offset: 4 }
    );
    assert_eq!(
        error_of("\""),
        LexError { kind: LexErrorKind::UnterminatedString, offset: 1 }
    );
    assert_eq!(
        error_of("\"abc\\"),
        LexError { kind: LexErrorKind::UnterminatedString, offset: 5 }
    );
    assert_eq!(
        error_of("\"abc\\\""),
        LexError { kind: LexErrorKind::UnterminatedString, offset: 6 }
    );
}

#[test]
fn line_break_in_string_is_rejected() {
    assert_eq!(
        error_of("\"ab\ncd\""),
        LexError { kind: LexErrorKind::NewlineInString, offset: 3 }
    );
}

#[test]
fn lexical_error_leaves_the_cursor() {
    let mut lexer = Lexer::create("a \"b\\x\" c");
    assert_eq!(lexer.next(), Ok(identifier("a")));
    let error = LexError { kind: LexErrorKind::InvalidEscape { found: 'x' }, offset: 5 };
    assert_eq!(lexer.peek(), Err(error));
    assert_eq!(lexer.next(), Err(error));
    assert_eq!(lexer.next(), Err(error));
    assert_eq!(lexer.peek_second(), Err(error));
}

#[test]
fn same_compares_category_and_text() {
    assert!(identifier("a").same(&identifier("a")));
    assert!(!identifier("a").same(&identifier("b")));
    assert!(!identifier("a").same(&Token::Reserved { matched: "a".to_string() }));
    assert!(Token::SymPlus.same(&Token::SymPlus));
    assert!(!Token::SymPlus.same(&Token::SymMinus));
    assert!(Token::UnexpectedChar { index: 1, char: '?' }
        .same(&Token::UnexpectedChar { index: 1, char: '?' }));
    assert!(!Token::UnexpectedChar { index: 1, char: '?' }
        .same(&Token::UnexpectedChar { index: 2, char: '?' }));
}
