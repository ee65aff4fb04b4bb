use rlisp::lexer::Token;
use rlisp::object::Object;
use rlisp::parser::{parse, parse_list};

fn integer(i: i64) -> Object {
    Object::Integer(i)
}

fn sym(s: &str) -> Object {
    Object::Symbol(s.to_string())
}

#[test]
fn atoms_of_every_kind() {
    assert_eq!(
        parse("(if x 1 2.5 \"s\" +)").unwrap(),
        Object::List(vec![
            Object::Keyword("if".to_string()),
            sym("x"),
            integer(1),
            Object::Float("2.5".to_string()),
            Object::String("s".to_string()),
            Object::BinaryOp("+".to_string()),
        ])
    );
}

#[test]
fn empty_list_parses() {
    assert_eq!(parse("()").unwrap(), Object::List(vec![]));
    assert_eq!(parse("(())").unwrap(), Object::List(vec![Object::List(vec![])]));
}

#[test]
fn missing_closing_parenthesis_is_an_error() {
    assert_eq!(parse("(+ 1 2").unwrap_err().err, "Did not find enough tokens");
    assert_eq!(parse("(+ 1 (* 2 3").unwrap_err().err, "Did not find enough tokens");
    assert_eq!(parse("(+ 1 (* 2 3)").unwrap_err().err, "Did not find enough tokens");
    assert_eq!(parse("(").unwrap_err().err, "Did not find enough tokens");
    assert_eq!(parse("((").unwrap_err().err, "Did not find enough tokens");
}

#[test]
fn nothing_may_follow_the_list() {
    assert_eq!(parse("(a))").unwrap_err().err, "Expected end of input, found RParen");
    assert_eq!(parse("(a) (b) c").unwrap_err().err, "Expected end of input, found LParen");
    assert_eq!(parse("(a) 1").unwrap_err().err, "Expected end of input, found Integer(1)");
    assert_eq!(
        parse("(a) b").unwrap_err().err,
        "Expected end of input, found Symbol(\"b\")"
    );
    assert_eq!(parse(" (a) \n").unwrap(), Object::List(vec![sym("a")]));
}

#[test]
fn balanced_lists_parse() {
    assert_eq!(
        parse("(+ 1 (* 2 3))").unwrap(),
        Object::List(vec![
            Object::BinaryOp("+".to_string()),
            integer(1),
            Object::List(vec![Object::BinaryOp("*".to_string()), integer(2), integer(3)]),
        ])
    );
    assert_eq!(
        parse("((a) ((b)) ())").unwrap(),
        Object::List(vec![
            Object::List(vec![sym("a")]),
            Object::List(vec![Object::List(vec![sym("b")])]),
            Object::List(vec![]),
        ])
    );
}

#[test]
fn text_must_start_with_a_parenthesis() {
    assert_eq!(parse("1 2").unwrap_err().err, "Expected LParen, found Some(Integer(1))");
    assert_eq!(parse("x").unwrap_err().err, "Expected LParen, found Some(Symbol(\"x\"))");
    assert_eq!(parse(")").unwrap_err().err, "Expected LParen, found Some(RParen)");
    assert_eq!(parse("2.5").unwrap_err().err, "Expected LParen, found Some(Float(2.5))");
    assert_eq!(parse("\"s\"").unwrap_err().err, "Expected LParen, found Some(String(\"s\"))");
    assert_eq!(parse("+").unwrap_err().err, "Expected LParen, found Some(BinaryOp(\"+\"))");
    assert_eq!(parse("car").unwrap_err().err, "Expected LParen, found Some(Keyword(\"car\"))");
    assert_eq!(parse("").unwrap_err().err, "Expected LParen, found None");
    assert_eq!(parse("   ").unwrap_err().err, "Expected LParen, found None");
}

#[test]
fn bad_number_is_a_tokenize_error() {
    assert_eq!(parse("(+ 1 2.3.4)").unwrap_err().err, "Tokenize error");
}

#[test]
fn unexpected_character_is_a_tokenize_error() {
    assert_eq!(parse("(+ 1 #) 2)").unwrap_err().err, "Tokenize error");
    assert_eq!(parse("  # (a)").unwrap_err().err, "Tokenize error");
    assert_eq!(parse("(a 'b)").unwrap_err().err, "Tokenize error");
}

#[test]
fn parse_list_fails_on_a_list_that_is_never_closed() {
    // The tokens of `(+ 1 2`, the next token last.
    let mut stack = vec![
        Token::Integer(2),
        Token::Integer(1),
        Token::BinaryOp("+".to_string()),
        Token::LParen,
    ];
    assert_eq!(parse_list(&mut stack).unwrap_err().err, "Did not find enough tokens");
    // The inner list is closed, the outer one is not.
    let mut stack = vec![Token::RParen, Token::LParen, Token::LParen];
    assert_eq!(parse_list(&mut stack).unwrap_err().err, "Did not find enough tokens");
}

#[test]
fn parse_list_takes_one_list_off_the_stack() {
    // The next token is the last of the stack: this is `(a (b)) c`.
    let mut stack = vec![
        Token::Symbol("c".to_string()),
        Token::RParen,
        Token::RParen,
        Token::Symbol("b".to_string()),
        Token::LParen,
        Token::Symbol("a".to_string()),
        Token::LParen,
    ];
    assert_eq!(
        parse_list(&mut stack).unwrap(),
        Object::List(vec![sym("a"), Object::List(vec![sym("b")])])
    );
    assert_eq!(stack, vec![Token::Symbol("c".to_string())]);
    assert_eq!(
        parse_list(&mut stack).unwrap_err().err,
        "Expected LParen, found Some(Symbol(\"c\"))"
    );
    assert_eq!(stack, vec![]);
    assert_eq!(parse_list(&mut stack).unwrap_err().err, "Expected LParen, found None");
}

#[test]
fn parse_error_is_shown_with_its_prefix() {
    assert_eq!(
        parse("(+ 1 2").unwrap_err().render(),
        "Parse error: Did not find enough tokens"
    );
    assert_eq!(parse("").unwrap_err().render(), "Parse error: Expected LParen, found None");
}
