use std::collections::VecDeque;
use logo_parser::ast::Expression;
use logo_parser::lexer::lex;
use logo_parser::parser::{build, build_var, parse, parse_program, pop_stack, ParseError};
use logo_parser::token::Token;

fn num(n: i32) -> Box<Expression> {
    Box::new(Expression::Number(n))
}

fn var(name: &str) -> Expression {
    Expression::Var(String::from(name))
}

fn ident(name: &str) -> Box<Expression> {
    Box::new(Expression::Ident(String::from(name)))
}

#[test]
fn round_trip_of_four_commands() {
    let out = parse_program("forward 10 right 90 forward 10 right 90").unwrap();
    assert_eq!(
        out,
        vec![
            Expression::Forward(num(10)),
            Expression::Right(num(90)),
            Expression::Forward(num(10)),
            Expression::Right(num(90)),
        ]
    );
}

#[test]
fn nested_repeat_block() {
    let out = parse_program("repeat 4 [ forward 10 right 90 ]").unwrap();
    assert_eq!(
        out,
        vec![Expression::Repeat(
            num(4),
            vec![Expression::Forward(num(10)), Expression::Right(num(90))],
        )]
    );
}

#[test]
fn procedure_definition_and_call() {
    let out = parse_program("to square :side repeat 4 [ forward :side right 90 ] end square 5")
        .unwrap();
    assert_eq!(
        out,
        vec![
            Expression::To(
                ident("square"),
                vec![var(":side")],
                vec![Expression::Repeat(
                    num(4),
                    vec![
                        Expression::Forward(Box::new(var(":side"))),
                        Expression::Right(num(90)),
                    ],
                )],
            ),
            Expression::Call(ident("square"), vec![Expression::Number(5)]),
        ]
    );
}

#[test]
fn missing_bracket_is_an_unexpected_token() {
    assert_eq!(
        parse_program("repeat 4 forward 10"),
        Err(ParseError::UnexpectedToken)
    );
}

#[test]
fn closer_with_empty_stack_is_unmatched() {
    assert_eq!(
        parse_program("forward 10 ]"),
        Err(ParseError::UnmatchedCloser)
    );
}

#[test]
fn closer_of_the_wrong_kind_is_unmatched() {
    assert_eq!(
        parse_program("repeat 2 [ forward 1 end"),
        Err(ParseError::UnmatchedCloser)
    );
    assert_eq!(parse_program("to f end ]"), Err(ParseError::UnmatchedCloser));
}

#[test]
fn unclosed_blocks_are_reported() {
    assert_eq!(
        parse_program("repeat 4 [ forward 10"),
        Err(ParseError::UnclosedBlock)
    );
    assert_eq!(
        parse_program("to f :x forward 1"),
        Err(ParseError::UnclosedBlock)
    );
}

#[test]
fn truncated_command_is_an_unexpected_end() {
    assert_eq!(parse_program("forward"), Err(ParseError::UnexpectedEndOfInput));
    assert_eq!(parse_program("repeat 2"), Err(ParseError::UnexpectedEndOfInput));
}

#[test]
fn keyword_amount_is_an_unexpected_token() {
    assert_eq!(parse_program("forward left"), Err(ParseError::UnexpectedToken));
    assert_eq!(parse_program("to 5 end"), Err(ParseError::UnexpectedToken));
}

#[test]
fn empty_program_parses_to_nothing() {
    assert_eq!(parse_program(""), Ok(vec![]));
}

#[test]
fn variable_amounts_and_call_arguments() {
    let out = parse_program("forward :dist go 5 :x 7 back 1").unwrap();
    assert_eq!(
        out,
        vec![
            Expression::Forward(Box::new(var(":dist"))),
            Expression::Call(
                ident("go"),
                vec![Expression::Number(5), var(":x"), Expression::Number(7)],
            ),
            Expression::Back(num(1)),
        ]
    );
}

#[test]
fn doubly_nested_repeat() {
    let out = parse_program("repeat 2 [ repeat 3 [ forward 1 ] back 2 ]").unwrap();
    assert_eq!(
        out,
        vec![Expression::Repeat(
            num(2),
            vec![
                Expression::Repeat(num(3), vec![Expression::Forward(num(1))]),
                Expression::Back(num(2)),
            ],
        )]
    );
}

#[test]
fn sample_rectangle_program() {
    let text = "
to rect :arg1 :arg2
    repeat 2 [
        forward :arg1
        right 90
        forward :arg2
        right 90
    ]
end
rect 10 20
";
    let out = parse(lex(text)).unwrap();
    assert_eq!(
        out,
        vec![
            Expression::To(
                ident("rect"),
                vec![var(":arg1"), var(":arg2")],
                vec![Expression::Repeat(
                    num(2),
                    vec![
                        Expression::Forward(Box::new(var(":arg1"))),
                        Expression::Right(num(90)),
                        Expression::Forward(Box::new(var(":arg2"))),
                        Expression::Right(num(90)),
                    ],
                )],
            ),
            Expression::Call(ident("rect"), vec![Expression::Number(10), Expression::Number(20)]),
        ]
    );
}

#[test]
fn build_var_consumes_one_token() {
    let mut tokens: VecDeque<Token> = VecDeque::from(vec![Token::Number(3), Token::Forward]);
    assert_eq!(build_var(&mut tokens), Ok(Expression::Number(3)));
    assert_eq!(tokens, VecDeque::from(vec![Token::Forward]));

    let mut empty: VecDeque<Token> = VecDeque::new();
    assert_eq!(build_var(&mut empty), Err(ParseError::UnexpectedEndOfInput));
}

#[test]
fn pop_stack_checks_the_opener_kind() {
    let mut stack = vec![Token::LBracket];
    assert_eq!(pop_stack(Token::LBracket, Token::RBracket, &mut stack), Ok(()));
    assert_eq!(stack, vec![]);

    let mut empty: Vec<Token> = Vec::new();
    assert_eq!(
        pop_stack(Token::LBracket, Token::RBracket, &mut empty),
        Err(ParseError::UnmatchedCloser)
    );

    let mut wrong = vec![Token::To];
    assert_eq!(
        pop_stack(Token::LBracket, Token::RBracket, &mut wrong),
        Err(ParseError::UnmatchedCloser)
    );
}

#[test]
fn build_returns_to_its_caller_at_a_closer() {
    let mut tokens: VecDeque<Token> = VecDeque::from(vec![
        Token::Forward,
        Token::Number(1),
        Token::RBracket,
        Token::Back,
        Token::Number(2),
    ]);
    let mut stack = vec![Token::LBracket];
    let out = build(&mut tokens, &mut stack).unwrap();
    assert_eq!(out, vec![Expression::Forward(num(1))]);
    assert_eq!(stack, vec![]);
    assert_eq!(
        tokens,
        VecDeque::from(vec![Token::Back, Token::Number(2)])
    );
}
