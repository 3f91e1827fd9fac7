use pipeline::error::PipelineError;
use pipeline::v1::lexer::{Lexer, TokenStream};
use pipeline::v1::position::Position;
use pipeline::v1::token::Token;

fn tokens_of(script: &str) -> Vec<(Token, Position)> {
    let mut lexer = Lexer::from_script(script);
    lexer.tokenize().expect("the script has only valid tokens")
}

fn kinds_of(script: &str) -> Vec<Token> {
    tokens_of(script).into_iter().map(|(t, _)| t).collect()
}

fn word(s: &str) -> Token {
    Token::Identifier(s.to_string())
}

fn keyword(s: &str) -> Token {
    Token::Keyword(s.to_string())
}

#[test]
fn lexes_a_let_statement() {
    let tokens = tokens_of("let a = 3;");
    assert_eq!(
        tokens,
        vec![
            (keyword("let"), Position::new(0, 3)),
            (word("a"), Position::new(4, 1)),
            (Token::Assign, Position::new(6, 1)),
            (Token::Int(3), Position::new(8, 1)),
        ]
    );
}

#[test]
fn a_dot_is_a_decimal_point_only_before_a_digit() {
    let tokens = tokens_of("3.foo 1.5 .5");
    assert_eq!(
        tokens,
        vec![
            (Token::Int(3), Position::new(0, 1)),
            (Token::Dot, Position::new(1, 1)),
            (word("foo"), Position::new(2, 3)),
            (Token::Float("1.5".to_string()), Position::new(6, 3)),
            (Token::Float(".5".to_string()), Position::new(10, 2)),
        ]
    );
    assert_eq!(
        kinds_of("1.2.3"),
        vec![Token::Float("1.2".to_string()), Token::Float(".3".to_string())]
    );
}

#[test]
fn all_reserved_words_are_keywords() {
    for w in [
        "fn", "fun", "let", "var", "val", "return", "if", "else", "while", "for", "in", "break",
        "continue", "import", "class",
    ] {
        assert_eq!(kinds_of(w), vec![keyword(w)]);
    }
    assert_eq!(kinds_of("lets iff fn2 Class"), vec![word("lets"), word("iff"), word("fn2"), word("Class")]);
}

#[test]
fn identifiers_are_letters_and_digits() {
    assert_eq!(kinds_of("a1b2 x"), vec![word("a1b2"), word("x")]);
    assert_eq!(kinds_of("1a"), vec![Token::Int(1), word("a")]);
}

#[test]
fn punctuation_and_digraphs() {
    assert_eq!(
        kinds_of("( ) [ ] { } . , : :: = == != < > + - * / %"),
        vec![
            Token::BraceLeft,
            Token::BraceRight,
            Token::SquareBracketLeft,
            Token::SquareBracketRight,
            Token::ParenthesisLeft,
            Token::ParenthesisRight,
            Token::Dot,
            Token::Comma,
            Token::Colon,
            Token::ScopeSymbol,
            Token::Assign,
            Token::Equal,
            Token::NotEqual,
            Token::Less,
            Token::Greater,
            Token::Plus,
            Token::Minus,
            Token::Mul,
            Token::Div,
            Token::Mod,
        ]
    );
    assert_eq!(
        tokens_of("a==b"),
        vec![
            (word("a"), Position::new(0, 1)),
            (Token::Equal, Position::new(1, 2)),
            (word("b"), Position::new(3, 1)),
        ]
    );
    assert_eq!(kinds_of("a:::b"), vec![word("a"), Token::ScopeSymbol, Token::Colon, word("b")]);
}

#[test]
fn strings_are_taken_verbatim() {
    assert_eq!(
        tokens_of("\"a\\n b\" 'c\"d'"),
        vec![
            (Token::String("a\\n b".to_string()), Position::new(0, 7)),
            (Token::String("c\"d".to_string()), Position::new(8, 5)),
        ]
    );
    assert_eq!(tokens_of("\"\""), vec![(Token::String(String::new()), Position::new(0, 2))]);
}

#[test]
fn comments_blanks_and_semicolons_are_skipped() {
    assert_eq!(
        tokens_of("a // one\n/* two\n three */ b;;\t\r\n c /* open"),
        vec![
            (word("a"), Position::new(0, 1)),
            (word("b"), Position::new(26, 1)),
            (word("c"), Position::new(33, 1)),
        ]
    );
    assert_eq!(kinds_of("a / b"), vec![word("a"), Token::Div, word("b")]);
    assert_eq!(kinds_of("// only a comment"), vec![]);
}

#[test]
fn end_of_input_is_eof_for_ever() {
    let mut lexer = Lexer::from_script("a ");
    assert_eq!(lexer.next(), Ok((word("a"), Position::new(0, 1))));
    assert_eq!(lexer.next(), Ok((Token::EOF, Position::new(0, 0))));
    assert_eq!(lexer.next(), Ok((Token::EOF, Position::new(0, 0))));
    let mut empty = Lexer::new();
    assert_eq!(empty.next(), Ok((Token::EOF, Position::new(0, 0))));
}

#[test]
fn an_unknown_character_is_an_error_with_its_position() {
    let mut lexer = Lexer::from_script("a # b");
    assert_eq!(lexer.next(), Ok((word("a"), Position::new(0, 1))));
    assert_eq!(lexer.next(), Err(PipelineError::UnexpectedChar('#', Position::new(2, 1))));
    assert_eq!(lexer.next(), Err(PipelineError::UnexpectedChar('#', Position::new(2, 1))));
    let mut lexer = Lexer::from_script("a ! b");
    assert_eq!(lexer.tokenize(), Err(PipelineError::UnexpectedChar('!', Position::new(2, 1))));
}

#[test]
fn a_string_without_end_is_an_error_at_its_quote() {
    let mut lexer = Lexer::from_script("x = \"abc");
    assert_eq!(lexer.tokenize(), Err(PipelineError::UnexpectedChar('"', Position::new(4, 1))));
}

#[test]
fn integers_up_to_the_largest_and_no_further() {
    assert_eq!(kinds_of("9223372036854775807"), vec![Token::Int(i64::MAX)]);
    assert_eq!(kinds_of("007"), vec![Token::Int(7)]);
    let mut lexer = Lexer::from_script("1 9223372036854775808");
    assert_eq!(lexer.tokenize(), Err(PipelineError::UnexpectedChar('9', Position::new(2, 1))));
}

#[test]
fn every_token_reads_again_from_its_own_text() {
    let script = "let m = (name: \"a\", v: 42.5); pipe::run(m.v[0]) != x // tail";
    let source: Vec<char> = script.chars().collect();
    for (token, position) in tokens_of(script) {
        let text = position.get_raw_string(&source);
        let mut again = Lexer::from_script(&text);
        assert_eq!(again.next(), Ok((token, Position::new(0, position.span))));
        assert_eq!(again.next(), Ok((Token::EOF, Position::new(0, 0))));
    }
}

#[test]
fn set_chars_and_get_source() {
    let mut lexer = Lexer::from_script("a b");
    assert_eq!(lexer.next(), Ok((word("a"), Position::new(0, 1))));
    lexer.set_chars("c".chars().collect());
    assert_eq!(lexer.get_source(), &vec!['c']);
    assert_eq!(lexer.next(), Ok((word("c"), Position::new(0, 1))));
}

#[test]
fn a_token_stream_peeks_and_takes() {
    let mut stream = TokenStream::new();
    assert_eq!(stream.peek(), (Token::EOF, Position::new(0, 0)));
    assert!(stream.set_lexer(Lexer::from_script("a + 1")).is_ok());
    assert_eq!(stream.remaining(), 3);
    assert_eq!(stream.peek(), (word("a"), Position::new(0, 1)));
    assert_eq!(stream.peek_id(), 3);
    assert_eq!(stream.peek_id_at(1), 16);
    assert_eq!(stream.peek_id_at(5), 13);
    assert_eq!(stream.peek_position(), Position::new(0, 1));
    assert_eq!(stream.next(), (word("a"), Position::new(0, 1)));
    assert_eq!(stream.next(), (Token::Plus, Position::new(2, 1)));
    assert_eq!(stream.region_from(0), Position::new(0, 3));
    assert_eq!(stream.region_from(7), Position::new(7, 0));
    assert_eq!(stream.next(), (Token::Int(1), Position::new(4, 1)));
    assert_eq!(stream.next(), (Token::EOF, Position::new(0, 0)));
    assert_eq!(stream.remaining(), 0);
    assert!(stream.set_lexer(Lexer::from_script("a $")).is_err());
    let stream = TokenStream::from_tokens(vec![(Token::Dot, Position::new(3, 1))]);
    assert_eq!(stream.peek(), (Token::Dot, Position::new(3, 1)));
}

#[test]
fn token_ids_and_identifier_values() {
    assert_eq!(Token::String(String::new()).token_id(), 0);
    assert_eq!(Token::Int(1).token_id(), 1);
    assert_eq!(Token::Float("1.0".to_string()).token_id(), 2);
    assert_eq!(word("a").token_id(), 3);
    assert_eq!(keyword("if").token_id(), 4);
    assert_eq!(Token::EOF.token_id(), 13);
    assert_eq!(Token::ScopeSymbol.token_id(), 24);
    assert_eq!(Token::NotEqual.token_id(), 25);
    assert_eq!(word("abc").get_identifier_value(), "abc");
    assert_eq!(keyword("if").get_identifier_value(), "");
    assert_eq!(Token::Dot.get_identifier_value(), "");
    assert_eq!(word("abc").duplicate(), word("abc"));
}

#[test]
fn positions() {
    let mut p = Position::with_pos(4);
    assert_eq!(p, Position::new(4, 0));
    assert!(!p.is_none());
    p.set_span(2);
    p.add_span(3);
    assert_eq!(p, Position::new(4, 5));
    p.set_pos(0);
    p.set_span(0);
    assert!(p.is_none());
    let source: Vec<char> = "ab\ncd\n\nefg".chars().collect();
    assert_eq!(Position::new(3, 2).get_raw_string(&source), "cd");
    assert_eq!(Position::new(0, 0).get_raw_string(&source), "");
    assert_eq!(Position::new(0, 1).get_row_col(&source), (0, 0));
    assert_eq!(Position::new(1, 1).get_row_col(&source), (0, 1));
    assert_eq!(Position::new(2, 1).get_row_col(&source), (0, 2));
    assert_eq!(Position::new(3, 1).get_row_col(&source), (1, 0));
    assert_eq!(Position::new(6, 1).get_row_col(&source), (2, 0));
    assert_eq!(Position::new(9, 1).get_row_col(&source), (3, 2));
    assert_eq!(Position::new(100, 1).get_row_col(&source), (3, 3));
}
