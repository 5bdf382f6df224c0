use lexer::scanner::{tokenize, tokenize_char, tokenize_identifier, tokenize_number, tokenize_string, Cursor};
use lexer::token::{LexicalError, Token};

fn ident(s: &str) -> Token {
    Token::Identifier(s.to_string())
}

#[test]
fn test_tokenize() {
    let input = "fn main() int { var x: int = 10; }";
    let tokens = tokenize(input).unwrap();

    let expected_tokens = vec![
        Token::Fn,
        Token::Identifier("main".to_string()),
        Token::LParen,
        Token::RParen,
        Token::Identifier("int".to_string()),
        Token::LBrace,
        Token::Var,
        Token::Identifier("x".to_string()),
        Token::Colon,
        Token::Identifier("int".to_string()),
        Token::Equal,
        Token::IntegerLiteral(10),
        Token::Semicolon,
        Token::RBrace,
    ];

    assert_eq!(tokens, expected_tokens);
}

#[test]
fn float_literal_keeps_its_numeral() {
    let tokens = tokenize("3.14").unwrap();
    assert_eq!(tokens, vec![Token::FloatLiteral("3.14".to_string())]);
    match &tokens[0] {
        Token::FloatLiteral(text) => assert_eq!(text.parse::<f32>().unwrap(), 3.14f32),
        other => panic!("unexpected token {:?}", other),
    }
}

#[test]
fn comparison_and_logical_scenario() {
    assert_eq!(
        tokenize("a == b && c != d").unwrap(),
        vec![
            ident("a"),
            Token::EqualEqual,
            ident("b"),
            Token::AndAnd,
            ident("c"),
            Token::ExclamationEqual,
            ident("d"),
        ]
    );
}

#[test]
fn char_literals() {
    assert_eq!(tokenize("'x'").unwrap(), vec![Token::CharLiteral('x')]);
    assert_eq!(tokenize("'xy'"), Err(LexicalError::InvalidCharacterLiteral));
    assert_eq!(tokenize("'"), Err(LexicalError::InvalidCharacterLiteral));
    assert_eq!(tokenize("'a"), Err(LexicalError::InvalidCharacterLiteral));
    assert_eq!(tokenize("'''").unwrap(), vec![Token::CharLiteral('\'')]);
    assert_eq!(tokenize("' '").unwrap(), vec![Token::CharLiteral(' ')]);
}

#[test]
fn lone_ampersand_and_bar_fail() {
    assert_eq!(tokenize("&"), Err(LexicalError::UnexpectedCharacter('&')));
    assert_eq!(tokenize("&&").unwrap(), vec![Token::AndAnd]);
    assert_eq!(tokenize("& &"), Err(LexicalError::UnexpectedCharacter('&')));
    assert_eq!(tokenize("a & b"), Err(LexicalError::UnexpectedCharacter('&')));
    assert_eq!(tokenize("|"), Err(LexicalError::UnexpectedCharacter('|')));
    assert_eq!(tokenize("||").unwrap(), vec![Token::OrOr]);
    assert_eq!(tokenize("|&"), Err(LexicalError::UnexpectedCharacter('|')));
    assert_eq!(tokenize("&&&&").unwrap(), vec![Token::AndAnd, Token::AndAnd]);
}

#[test]
fn string_literals() {
    assert_eq!(tokenize("\"hello\"").unwrap(), vec![Token::StringLiteral("hello".to_string())]);
    assert_eq!(tokenize("\"\"").unwrap(), vec![Token::StringLiteral(String::new())]);
    assert_eq!(
        tokenize("\"fn  x\\n\" y").unwrap(),
        vec![Token::StringLiteral("fn  x\\n".to_string()), ident("y")]
    );
}

#[test]
fn unterminated_string_ends_with_input() {
    assert_eq!(tokenize("x \"abc d").unwrap(), vec![ident("x"), Token::StringLiteral("abc d".to_string())]);
    assert_eq!(tokenize("\"").unwrap(), vec![Token::StringLiteral(String::new())]);
}

#[test]
fn tokenize_is_deterministic() {
    let input = "while (i <= 10) { i = i + 1; } \"s\" 'c' 2.5";
    let first = tokenize(input);
    let second = tokenize(input);
    assert_eq!(first, second);
    assert!(first.is_ok());
}

#[test]
fn identifiers_carry_the_whole_run() {
    assert_eq!(
        tokenize("my_var x1 a_1_b Z9").unwrap(),
        vec![ident("my_var"), ident("x1"), ident("a_1_b"), ident("Z9")]
    );
}

#[test]
fn identifiers_continue_over_unicode_letters() {
    assert_eq!(tokenize("héllo wörld").unwrap(), vec![ident("héllo"), ident("wörld")]);
    assert_eq!(tokenize("é").unwrap(), vec![ident("é")]);
    assert_eq!(tokenize("é1_x+Ωmega").unwrap(), vec![ident("é1_x"), Token::Plus, ident("Ωmega")]);
    assert_eq!(tokenize("_x"), Err(LexicalError::UnexpectedCharacter('_')));
    assert_eq!(tokenize("a💝"), Err(LexicalError::UnexpectedCharacter('💝')));
}

#[test]
fn keywords_take_precedence() {
    assert_eq!(
        tokenize("fn var struct if else while for return").unwrap(),
        vec![
            Token::Fn,
            Token::Var,
            Token::Struct,
            Token::If,
            Token::Else,
            Token::While,
            Token::For,
            Token::Return,
        ]
    );
    assert_eq!(tokenize("fn(").unwrap(), vec![Token::Fn, Token::LParen]);
    assert_eq!(tokenize("x.if;").unwrap(), vec![ident("x"), Token::Dot, Token::If, Token::Semicolon]);
}

#[test]
fn keyword_prefixes_are_identifiers() {
    assert_eq!(
        tokenize("fnx var_ iff Return for1 els").unwrap(),
        vec![ident("fnx"), ident("var_"), ident("iff"), ident("Return"), ident("for1"), ident("els")]
    );
}

#[test]
fn two_character_operators_are_greedy() {
    assert_eq!(
        tokenize("== != <= >=").unwrap(),
        vec![Token::EqualEqual, Token::ExclamationEqual, Token::LessEqual, Token::GreaterEqual]
    );
    assert_eq!(
        tokenize("= ! < >").unwrap(),
        vec![Token::Equal, Token::Exclamation, Token::Less, Token::Greater]
    );
    assert_eq!(tokenize("===").unwrap(), vec![Token::EqualEqual, Token::Equal]);
    assert_eq!(tokenize("a<b").unwrap(), vec![ident("a"), Token::Less, ident("b")]);
    assert_eq!(tokenize("!!=").unwrap(), vec![Token::Exclamation, Token::ExclamationEqual]);
    assert_eq!(tokenize("< =").unwrap(), vec![Token::Less, Token::Equal]);
    assert_eq!(tokenize(">").unwrap(), vec![Token::Greater]);
}

#[test]
fn single_character_punctuation() {
    assert_eq!(
        tokenize("(){}[],:;+-*/%?.").unwrap(),
        vec![
            Token::LParen,
            Token::RParen,
            Token::LBrace,
            Token::RBrace,
            Token::LBracket,
            Token::RBracket,
            Token::Comma,
            Token::Colon,
            Token::Semicolon,
            Token::Plus,
            Token::Minus,
            Token::Asterisk,
            Token::Slash,
            Token::Percent,
            Token::Question,
            Token::Dot,
        ]
    );
}

#[test]
fn whitespace_yields_nothing() {
    assert_eq!(tokenize("").unwrap(), vec![]);
    assert_eq!(tokenize(" \t\n\r  ").unwrap(), vec![]);
    assert_eq!(tokenize("a \t\n\r b").unwrap(), tokenize("a b").unwrap());
    assert_eq!(tokenize("  \n x").unwrap(), tokenize("x").unwrap());
    assert_eq!(tokenize("x1 2").unwrap(), vec![ident("x1"), Token::IntegerLiteral(2)]);
    assert_eq!(tokenize("12\t5").unwrap(), vec![Token::IntegerLiteral(12), Token::IntegerLiteral(5)]);
}

#[test]
fn integer_literals_and_their_range() {
    assert_eq!(tokenize("0").unwrap(), vec![Token::IntegerLiteral(0)]);
    assert_eq!(tokenize("007").unwrap(), vec![Token::IntegerLiteral(7)]);
    assert_eq!(tokenize("2147483647").unwrap(), vec![Token::IntegerLiteral(i32::MAX)]);
    assert_eq!(tokenize("2147483648"), Err(LexicalError::IntegerOutOfRange));
    assert_eq!(tokenize("99999999999999999999"), Err(LexicalError::IntegerOutOfRange));
    assert_eq!(tokenize("-5").unwrap(), vec![Token::Minus, Token::IntegerLiteral(5)]);
    assert_eq!(tokenize("12abc").unwrap(), vec![Token::IntegerLiteral(12), ident("abc")]);
}

#[test]
fn numerals_with_dots() {
    assert_eq!(tokenize("1.").unwrap(), vec![Token::FloatLiteral("1.".to_string())]);
    assert_eq!(tokenize("1.2.3"), Err(LexicalError::MalformedNumber));
    assert_eq!(tokenize("1..2"), Err(LexicalError::MalformedNumber));
    assert_eq!(
        tokenize("99999999999.5").unwrap(),
        vec![Token::FloatLiteral("99999999999.5".to_string())]
    );
    assert_eq!(
        tokenize("12.5x").unwrap(),
        vec![Token::FloatLiteral("12.5".to_string()), ident("x")]
    );
    assert_eq!(tokenize(".5").unwrap(), vec![Token::Dot, Token::IntegerLiteral(5)]);
}

#[test]
fn unexpected_characters_fail_the_whole_scan() {
    assert_eq!(tokenize("@"), Err(LexicalError::UnexpectedCharacter('@')));
    assert_eq!(tokenize("a b c #"), Err(LexicalError::UnexpectedCharacter('#')));
    assert_eq!(tokenize("x $ 'ab'"), Err(LexicalError::UnexpectedCharacter('$')));
    assert_eq!(tokenize("'ab' $"), Err(LexicalError::InvalidCharacterLiteral));
    assert_eq!(tokenize("1.2.3 @"), Err(LexicalError::MalformedNumber));
}

#[test]
fn cursor_and_sub_scanners() {
    let mut cursor = Cursor::new("while1 rest");
    assert_eq!(cursor.peek(), Some('w'));
    assert_eq!(tokenize_identifier(&mut cursor), ident("while1"));
    assert_eq!(cursor.peek(), Some(' '));

    let mut cursor = Cursor::new("return;");
    assert_eq!(tokenize_identifier(&mut cursor), Token::Return);
    assert_eq!(cursor.peek(), Some(';'));

    let mut cursor = Cursor::new("42.0)");
    assert_eq!(tokenize_number(&mut cursor), Ok(Token::FloatLiteral("42.0".to_string())));
    assert_eq!(cursor.peek(), Some(')'));

    let mut cursor = Cursor::new("\"ab\"c");
    assert_eq!(tokenize_string(&mut cursor), Token::StringLiteral("ab".to_string()));
    assert_eq!(cursor.peek(), Some('c'));

    let mut cursor = Cursor::new("'q'!");
    assert_eq!(tokenize_char(&mut cursor), Ok(Token::CharLiteral('q')));
    assert_eq!(cursor.peek(), Some('!'));
    cursor.advance();
    assert_eq!(cursor.peek(), None);
}

#[test]
fn errors_describe_themselves() {
    assert_eq!(LexicalError::UnexpectedCharacter('&').message(), "unexpected character: &");
    assert_eq!(LexicalError::InvalidCharacterLiteral.message(), "invalid character literal");
    assert_eq!(LexicalError::IntegerOutOfRange.message(), "integer literal out of range");
    assert_eq!(LexicalError::MalformedNumber.message(), "malformed number");
    assert_eq!(tokenize("a # b").unwrap_err().message(), "unexpected character: #");
}

#[test]
fn logical_pairs_after_any_closed_text() {
    assert_eq!(
        tokenize("\"s\" || x&&1").unwrap(),
        vec![
            Token::StringLiteral("s".to_string()),
            Token::OrOr,
            ident("x"),
            Token::AndAnd,
            Token::IntegerLiteral(1),
        ]
    );
    assert_eq!(tokenize("'c'!=&&").unwrap(), vec![Token::CharLiteral('c'), Token::ExclamationEqual, Token::AndAnd]);
    assert_eq!(tokenize("x1|y"), Err(LexicalError::UnexpectedCharacter('|')));
    assert_eq!(tokenize("x = \"a\" &"), Err(LexicalError::UnexpectedCharacter('&')));
}

#[test]
fn whitespace_separates_closed_texts() {
    let a = "f(x)<=\"q\"";
    let b = "y 2.5";
    let mut joined = tokenize(a).unwrap();
    joined.extend(tokenize(b).unwrap());
    assert_eq!(tokenize(&format!("{} \t\n{}", a, b)).unwrap(), joined);
}
