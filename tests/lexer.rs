use scriptvm::lexer::{continues_identifier, starts_identifier, tokenize, LexError, LexErrorKind, Lexer};
use scriptvm::token::{LocatedToken, Token};

fn kinds(src: &str) -> Vec<Token> {
    tokenize(src.to_string()).unwrap().into_iter().map(|t| t.token).collect()
}

fn lex_error(src: &str) -> LexError {
    tokenize(src.to_string()).unwrap_err()
}

#[test]
fn scenario_declaration_tokens() {
    assert_eq!(
        kinds("var x = 3; print x;"),
        vec![
            Token::Var,
            Token::Id("x".to_string()),
            Token::Assign,
            Token::Int(3),
            Token::Semi,
            Token::Print,
            Token::Id("x".to_string()),
            Token::Semi,
        ]
    );
}

#[test]
fn tokens_carry_line_and_column() {
    let toks = tokenize("var x = 3; print x;".to_string()).unwrap();
    let locs: Vec<(u64, u64)> = toks.iter().map(|t| (t.line, t.col)).collect();
    assert_eq!(locs, vec![(1, 1), (1, 5), (1, 7), (1, 9), (1, 10), (1, 12), (1, 18), (1, 19)]);
    let toks = tokenize("var\n  x".to_string()).unwrap();
    assert_eq!(toks[1], LocatedToken { token: Token::Id("x".to_string()), line: 2, col: 3 });
}

#[test]
fn keywords_and_identifiers() {
    assert_eq!(
        kinds("foo_bar1 const print var2"),
        vec![
            Token::Id("foo_bar1".to_string()),
            Token::Const,
            Token::Print,
            Token::Id("var2".to_string()),
        ]
    );
}

#[test]
fn unicode_identifier() {
    assert_eq!(kinds("héllo"), vec![Token::Id("héllo".to_string())]);
}

#[test]
fn operators_longest_match() {
    assert_eq!(
        kinds("== = >= > <= < != ! && & || | + - * / % ; : . ,"),
        vec![
            Token::Eq,
            Token::Assign,
            Token::GtEq,
            Token::Gt,
            Token::LtEq,
            Token::Lt,
            Token::NotEq,
            Token::Not,
            Token::LogicalAnd,
            Token::And,
            Token::LogicalOr,
            Token::Or,
            Token::Plus,
            Token::Minus,
            Token::Star,
            Token::Slash,
            Token::Percent,
            Token::Semi,
            Token::Colon,
            Token::Dot,
            Token::Comma,
        ]
    );
    assert_eq!(kinds("a==b"), vec![Token::Id("a".to_string()), Token::Eq, Token::Id("b".to_string())]);
}

#[test]
fn integer_literals() {
    assert_eq!(kinds("0 42 1_000"), vec![Token::Int(0), Token::Int(42), Token::Int(1000)]);
    assert_eq!(kinds("9223372036854775807"), vec![Token::Int(i64::MAX)]);
}

#[test]
fn integer_literal_too_large() {
    let e = lex_error("print 9223372036854775808;");
    assert_eq!(e, LexError { kind: LexErrorKind::IntTooLarge, line: 1, col: 7 });
}

#[test]
fn float_literals_keep_their_text() {
    assert_eq!(
        kinds("3.14 1_0.5_0 2."),
        vec![
            Token::Float("3.14".to_string()),
            Token::Float("10.50".to_string()),
            Token::Float("2.".to_string()),
        ]
    );
}

#[test]
fn two_dots_rejected() {
    assert_eq!(lex_error("1.2.3"), LexError { kind: LexErrorKind::MultipleDots, line: 1, col: 1 });
    assert_eq!(lex_error("x 1..2").kind, LexErrorKind::MultipleDots);
}

#[test]
fn char_literal_lengths() {
    assert_eq!(kinds("'a'"), vec![Token::Char('a')]);
    assert_eq!(lex_error("''"), LexError { kind: LexErrorKind::EmptyChar, line: 1, col: 1 });
    assert_eq!(lex_error("  'ab'"), LexError { kind: LexErrorKind::LongChar, line: 1, col: 3 });
    assert_eq!(lex_error("'a").kind, LexErrorKind::UnterminatedChar);
}

#[test]
fn string_literals() {
    assert_eq!(kinds("\"hi there\" 1"), vec![Token::Str("hi there".to_string()), Token::Int(1)]);
    assert_eq!(kinds("\"\""), vec![Token::Str(String::new())]);
    assert_eq!(lex_error("\"abc").kind, LexErrorKind::UnterminatedString);
}

#[test]
fn unexpected_character() {
    assert_eq!(lex_error("var x = @;"), LexError { kind: LexErrorKind::UnexpectedChar('@'), line: 1, col: 9 });
}

#[test]
fn empty_and_blank_sources() {
    assert!(kinds("").is_empty());
    assert!(kinds("  \n \n").is_empty());
}

#[test]
fn lexer_steps_one_token_at_a_time() {
    let mut lx = Lexer::new("print 1;".to_string());
    assert_eq!(lx.peek(0), 'p');
    assert_eq!(lx.next_token().unwrap().unwrap().token, Token::Print);
    let t = lx.next_token().unwrap().unwrap();
    assert_eq!((t.token, t.line, t.col), (Token::Int(1), 1, 7));
    assert_eq!(lx.next_token().unwrap().unwrap().token, Token::Semi);
    assert_eq!(lx.next_token().unwrap(), None);
    assert_eq!(lx.next_token().unwrap(), None);
}

#[test]
fn advance_tracks_lines() {
    let mut lx = Lexer::new("a\nb".to_string());
    assert_eq!(lx.advance(), 'a');
    assert_eq!((lx.line, lx.col), (1, 2));
    assert_eq!(lx.advance(), '\n');
    assert_eq!((lx.line, lx.col), (2, 1));
    assert_eq!(lx.advance(), 'b');
    assert_eq!((lx.pos, lx.line, lx.col), (3, 2, 2));
}

#[test]
fn identifier_character_classes() {
    assert!(starts_identifier('a') && starts_identifier('Z') && starts_identifier('é'));
    assert!(!starts_identifier('1') && !starts_identifier('_') && !starts_identifier(' '));
    assert!(continues_identifier('a') && continues_identifier('7') && continues_identifier('_'));
    assert!(!continues_identifier(';') && !continues_identifier(' ') && !continues_identifier('='));
}
