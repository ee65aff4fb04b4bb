use rlisp::lexer::{
    classify, classify_all, is_float_literal, is_keyword, is_operator_char, tokenize,
    tokenize_classified, CharClass, Token, TokenError, Tokenizer,
};
use rlisp::text::{chars_of, parse_integer, string_of, text_eq, text_less};

fn sym(s: &str) -> Token {
    Token::Symbol(s.to_string())
}

#[test]
fn empty_text_has_no_tokens() {
    assert_eq!(tokenize(""), Ok(vec![]));
    assert_eq!(tokenize("   \n\t "), Ok(vec![]));
}

#[test]
fn string_literal_keeps_inner_spaces() {
    assert_eq!(
        tokenize("(+ \"hello \" \"world\")"),
        Ok(vec![
            Token::LParen,
            Token::BinaryOp("+".to_string()),
            Token::String("hello ".to_string()),
            Token::String("world".to_string()),
            Token::RParen,
        ])
    );
}

#[test]
fn unterminated_string_runs_to_the_end() {
    assert_eq!(
        tokenize("\"abc def"),
        Ok(vec![Token::String("abc def".to_string())])
    );
}

#[test]
fn empty_string_literal() {
    assert_eq!(tokenize("\"\" x"), Ok(vec![Token::String(String::new()), sym("x")]));
}

#[test]
fn float_token_holds_the_literal() {
    assert_eq!(
        tokenize("3.14 2. 10.50"),
        Ok(vec![
            Token::Float("3.14".to_string()),
            Token::Float("2.".to_string()),
            Token::Float("10.50".to_string()),
        ])
    );
}

#[test]
fn integer_token_holds_the_value() {
    assert_eq!(
        tokenize("0 007 9223372036854775807"),
        Ok(vec![
            Token::Integer(0),
            Token::Integer(7),
            Token::Integer(i64::MAX),
        ])
    );
}

#[test]
fn integer_out_of_range_is_an_error() {
    assert_eq!(tokenize("9223372036854775808"), Err(TokenError));
    assert_eq!(tokenize("(+ 1 99999999999999999999)"), Err(TokenError));
}

#[test]
fn float_with_two_points_is_an_error() {
    assert_eq!(tokenize("1.2.3"), Err(TokenError));
    assert_eq!(tokenize("(+ 1 1..2)"), Err(TokenError));
}

#[test]
fn digits_outside_ascii_are_an_error() {
    // Both are numeric characters, neither is an ASCII digit.
    assert_eq!(tokenize("\u{0663}"), Err(TokenError));
    assert_eq!(tokenize("1\u{00b2}.5"), Err(TokenError));
}

#[test]
fn number_ends_where_a_letter_starts() {
    assert_eq!(tokenize("12ab"), Ok(vec![Token::Integer(12), sym("ab")]));
}

#[test]
fn keywords_are_recognised() {
    for word in [
        "define", "lambda", "list", "print", "range", "cons", "car", "cdr", "length", "null?",
        "begin", "let", "if", "else", "cond",
    ] {
        assert_eq!(tokenize(word), Ok(vec![Token::Keyword(word.to_string())]));
        assert!(is_keyword(word));
    }
    assert!(!is_keyword("defined"));
    assert!(!is_keyword(""));
    assert_eq!(tokenize("iff"), Ok(vec![sym("iff")]));
}

#[test]
fn operators_take_the_whole_word() {
    assert_eq!(
        tokenize("<= -5 + |x &"),
        Ok(vec![
            Token::BinaryOp("<=".to_string()),
            Token::BinaryOp("-5".to_string()),
            Token::BinaryOp("+".to_string()),
            Token::BinaryOp("|x".to_string()),
            Token::BinaryOp("&".to_string()),
        ])
    );
    for c in ['+', '-', '*', '/', '%', '<', '>', '=', '|', '&'] {
        assert!(is_operator_char(c));
    }
    assert!(!is_operator_char('a'));
    assert!(!is_operator_char('('));
}

#[test]
fn symbols_may_hold_hyphens_and_digits() {
    assert_eq!(
        tokenize("sum-n add-5 x1"),
        Ok(vec![sym("sum-n"), sym("add-5"), sym("x1")])
    );
}

#[test]
fn symbol_ends_at_parenthesis_and_quote() {
    assert_eq!(
        tokenize("ab(cd)ef"),
        Ok(vec![sym("ab"), Token::LParen, sym("cd"), Token::RParen, sym("ef")])
    );
    // The quote ends the word, and starts no token itself.
    assert_eq!(tokenize("ab'cd"), Err(TokenError));
}

#[test]
fn a_character_that_starts_no_token_is_an_error() {
    assert_eq!(tokenize("(+ 1 # 2)"), Err(TokenError));
    assert_eq!(tokenize("#"), Err(TokenError));
    assert_eq!(tokenize("(a) _"), Err(TokenError));
    assert_eq!(tokenize("'"), Err(TokenError));
    assert_eq!(tokenize("?x"), Err(TokenError));
}

#[test]
fn characters_are_classified() {
    let class = |w, n, a| CharClass { whitespace: w, numeric: n, alphabetic: a };
    assert_eq!(classify(' '), class(true, false, false));
    assert_eq!(classify('\n'), class(true, false, false));
    assert_eq!(classify('\u{2003}'), class(true, false, false));
    assert_eq!(classify('7'), class(false, true, false));
    assert_eq!(classify('\u{00b2}'), class(false, true, false));
    assert_eq!(classify('a'), class(false, false, true));
    assert_eq!(classify('\u{4eac}'), class(false, false, true));
    assert_eq!(classify('('), class(false, false, false));
    assert_eq!(classify('+'), class(false, false, false));
    assert_eq!(
        classify_all(&vec!['(', 'a', ' ', '1']),
        vec![
            class(false, false, false),
            class(false, false, true),
            class(true, false, false),
            class(false, true, false),
        ]
    );
    assert_eq!(classify_all(&vec![]), vec![]);
}

#[test]
fn classes_decide_the_tokens() {
    let plain = CharClass { whitespace: false, numeric: false, alphabetic: false };
    let blank = CharClass { whitespace: true, numeric: false, alphabetic: false };
    let digit = CharClass { whitespace: false, numeric: true, alphabetic: false };
    let letter = CharClass { whitespace: false, numeric: false, alphabetic: true };
    assert_eq!(
        tokenize_classified(
            vec!['(', '+', ' ', '1', ' ', 'x', ')'],
            vec![plain, plain, blank, digit, blank, letter, plain]
        ),
        Ok(vec![
            Token::LParen,
            Token::BinaryOp("+".to_string()),
            Token::Integer(1),
            sym("x"),
            Token::RParen,
        ])
    );
    // The classes are taken as they are given: here `x` counts as white space.
    assert_eq!(
        tokenize_classified(vec!['1', 'x', '2'], vec![digit, blank, digit]),
        Ok(vec![Token::Integer(1), Token::Integer(2)])
    );
    // A character without a class starts no token, unless it is one by itself.
    assert_eq!(tokenize_classified(vec!['x'], vec![plain]), Err(TokenError));
    assert_eq!(tokenize_classified(vec!['('], vec![plain]), Ok(vec![Token::LParen]));
    assert_eq!(tokenize_classified(vec![], vec![]), Ok(vec![]));
    let mut t = Tokenizer::classified(vec!['a', 'b', ' ', 'c'], vec![letter, letter, blank, letter]);
    assert_eq!(t.next_token(), Ok(Some(sym("ab"))));
    assert_eq!(t.next_token(), Ok(Some(sym("c"))));
    assert_eq!(t.next_token(), Ok(None));
}

#[test]
fn unicode_letters_and_spaces() {
    // U+2003 is white space, the letters are alphabetic.
    assert_eq!(
        tokenize("\u{2003}\u{00e9}t\u{00e9}\u{2003}\u{4eac}"),
        Ok(vec![sym("\u{00e9}t\u{00e9}"), sym("\u{4eac}")])
    );
}

#[test]
fn tokenizer_hands_out_tokens_one_by_one() {
    let mut t = Tokenizer::new("  (car x)");
    assert_eq!(t.current_char(), Some(' '));
    assert_eq!(t.next_token(), Ok(Some(Token::LParen)));
    assert_eq!(t.current_char(), Some('c'));
    assert_eq!(t.next_token(), Ok(Some(Token::Keyword("car".to_string()))));
    assert_eq!(t.next_token(), Ok(Some(sym("x"))));
    assert_eq!(t.next_token(), Ok(Some(Token::RParen)));
    assert_eq!(t.next_token(), Ok(None));
    assert_eq!(t.next_token(), Ok(None));
    assert_eq!(t.current_char(), None);
}

#[test]
fn tokenizer_reports_a_bad_number() {
    let mut t = Tokenizer::new("1 2.3.4");
    assert_eq!(t.next_token(), Ok(Some(Token::Integer(1))));
    assert_eq!(t.next_token(), Err(TokenError));
}

#[test]
fn tokenizer_parts() {
    let mut t = Tokenizer::new("  \"ab\"12.5 name)");
    t.eat_whitespace();
    assert_eq!(t.current_char(), Some('"'));
    assert_eq!(t.read_string(), "ab");
    assert_eq!(t.current_char(), Some('1'));
    assert_eq!(t.read_number(), "12.5");
    assert_eq!(t.current_char(), Some(' '));
    t.advance();
    assert_eq!(t.read_symbol(), "name");
    assert_eq!(t.current_char(), Some(')'));
    t.advance();
    assert_eq!(t.current_char(), None);
    t.advance();
    assert_eq!(t.current_char(), None);
    assert_eq!(t.read_symbol(), "");
    assert_eq!(t.read_number(), "");
    // At the end of the text there is nothing to read.
    assert_eq!(t.read_string(), "");
    assert_eq!(t.current_char(), None);
    let mut t = Tokenizer::new("\"");
    assert_eq!(t.read_string(), "");
    assert_eq!(t.current_char(), None);
    // The character at the position is passed over, whatever it is.
    let mut t = Tokenizer::new("xab\"c");
    assert_eq!(t.read_string(), "ab");
    assert_eq!(t.current_char(), Some('c'));
}

#[test]
fn tokenizer_reports_a_character_that_starts_no_token() {
    let mut t = Tokenizer::new("a # b");
    assert_eq!(t.next_token(), Ok(Some(sym("a"))));
    assert_eq!(t.next_token(), Err(TokenError));
}

#[test]
fn float_literals() {
    let ok = |s: &str| {
        let v = chars_of(s);
        is_float_literal(&v, 0, v.len())
    };
    assert!(ok("1.5"));
    assert!(ok("0."));
    assert!(ok("123.456"));
    assert!(!ok(".5"));
    assert!(!ok("."));
    assert!(!ok("15"));
    assert!(!ok(""));
    assert!(!ok("1.5.2"));
    assert!(!ok("1.a"));
    assert!(!ok("a.1"));
}

#[test]
fn integers_are_parsed_exactly() {
    let parse = |s: &str| {
        let v = chars_of(s);
        parse_integer(&v, 0, v.len())
    };
    assert_eq!(parse("0"), Some(0));
    assert_eq!(parse("42"), Some(42));
    assert_eq!(parse("0042"), Some(42));
    assert_eq!(parse("9223372036854775807"), Some(i64::MAX));
    assert_eq!(parse("9223372036854775808"), None);
    assert_eq!(parse("92233720368547758070"), None);
    assert_eq!(parse(""), None);
    assert_eq!(parse("12a"), None);
    assert_eq!(parse("-1"), None);
    let v = chars_of("ab123cd");
    assert_eq!(parse_integer(&v, 2, 5), Some(123));
    assert_eq!(parse_integer(&v, 2, 2), None);
}

#[test]
fn text_helpers() {
    let v = chars_of("h\u{00e9}llo");
    assert_eq!(v, vec!['h', '\u{00e9}', 'l', 'l', 'o']);
    assert_eq!(string_of(&v, 1, 4), "\u{00e9}ll");
    assert_eq!(string_of(&v, 2, 2), "");
    assert!(text_eq("abc", "abc"));
    assert!(!text_eq("abc", "abd"));
    assert!(!text_eq("abc", "ab"));
    assert!(text_less("abcd", "abcf"));
    assert!(!text_less("abcf", "abcd"));
    assert!(text_less("ab", "abc"));
    assert!(!text_less("abc", "ab"));
    assert!(!text_less("abc", "abc"));
    assert!(text_less("", "a"));
    assert!(!text_less("", ""));
    assert!(text_less("A", "B"));
    assert!(text_less("Z", "a"));
    assert!(text_less("z", "\u{00e9}"));
}
