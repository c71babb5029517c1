use std::collections::VecDeque;
use logo_parser::lexer::lex;
use logo_parser::token::Token;

fn toks(input: &str) -> Vec<Token> {
    lex(input).into_iter().collect()
}

#[test]
fn scanning_twice_gives_the_same_tokens() {
    let text = "to square :side repeat 4 [ forward :side right 90 ] end square 5";
    let first: VecDeque<Token> = lex(text);
    let second: VecDeque<Token> = lex(text);
    assert_eq!(first, second);
}

#[test]
fn keywords_and_markers() {
    assert_eq!(
        toks("forward back right left repeat [ ] to end if > <"),
        vec![
            Token::Forward,
            Token::Back,
            Token::Right,
            Token::Left,
            Token::Repeat,
            Token::LBracket,
            Token::RBracket,
            Token::To,
            Token::End,
            Token::If,
            Token::Gtr,
            Token::Less,
        ]
    );
}

#[test]
fn numbers_identifiers_and_variables() {
    assert_eq!(
        toks("12 abc :x ::y x1y2"),
        vec![
            Token::Number(12),
            Token::Ident(String::from("abc")),
            Token::Var(String::from(":x")),
            Token::Var(String::from("::y")),
            Token::Ident(String::from("x1y2")),
        ]
    );
}

#[test]
fn number_at_and_past_the_32_bit_limit() {
    assert_eq!(
        toks("2147483647 2147483648 007"),
        vec![
            Token::Number(2147483647),
            Token::Ident(String::from("2147483648")),
            Token::Number(7),
        ]
    );
}

#[test]
fn comparison_operators() {
    assert_eq!(
        toks("<= >= == != ! < >"),
        vec![
            Token::Ident(String::from("<=")),
            Token::Ident(String::from(">=")),
            Token::Ident(String::from("==")),
            Token::Ident(String::from("!=")),
            Token::Ident(String::from("!")),
            Token::Less,
            Token::Gtr,
        ]
    );
}

#[test]
fn unmatched_characters_are_skipped() {
    assert_eq!(
        toks("forward-10"),
        vec![Token::Forward, Token::Number(10)]
    );
    assert_eq!(toks("= , . ;"), vec![]);
    assert_eq!(toks(": :"), vec![]);
    assert_eq!(toks(""), vec![]);
}

#[test]
fn mixed_digits_and_letters_are_identifiers() {
    assert_eq!(toks("123abc"), vec![Token::Ident(String::from("123abc"))]);
    assert_eq!(toks(":12"), vec![Token::Var(String::from(":12"))]);
}
