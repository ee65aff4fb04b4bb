//! The parser: from tokens to the tree that the evaluator walks.

use crate::lexer::{token_views, tokenize, tokens_of, Token, TokenModel};
use crate::object::{views, Object, Value};
use crate::text::{decimal, push_decimal};
use vstd::prelude::*;

verus! {

/// Why a text could not be parsed, in words.
#[derive(Debug, Clone)]
pub struct ParseError {
    pub err: String,
}

impl View for ParseError {
    type V = Seq<char>;

    open spec fn view(&self) -> Seq<char> {
        self.err@
    }
}

/// The text of a parse error as it is shown: "Parse error: " and the message.
pub open spec fn parse_error_text(message: Seq<char>) -> Seq<char> {
    "Parse error: "@ + message
}

impl ParseError {
    /// The text of this error as it is shown: "Parse error: " and the message.
    pub fn render(&self) -> (r: String)
        ensures
            r@ == parse_error_text(self@),
            r@ == "Parse error: "@ + self@,
    {
        let mut r = String::from_str("Parse error: ");
        r.append(self.err.as_str());
        r
    }
}

/// How a token is shown in an error message.
pub open spec fn token_text(token: TokenModel) -> Seq<char> {
    match token {
        TokenModel::Integer(i) => "Integer("@ + decimal(i) + ")"@,
        TokenModel::Symbol(s) => "Symbol(\""@ + s + "\")"@,
        TokenModel::LParen => "LParen"@,
        TokenModel::RParen => "RParen"@,
        TokenModel::Float(s) => "Float("@ + s + ")"@,
        TokenModel::String(s) => "String(\""@ + s + "\")"@,
        TokenModel::BinaryOp(s) => "BinaryOp(\""@ + s + "\")"@,
        TokenModel::Keyword(s) => "Keyword(\""@ + s + "\")"@,
    }
}

/// The message for a list that does not start with an opening parenthesis.
pub open spec fn expected_lparen(found: Option<TokenModel>) -> Seq<char> {
    "Expected LParen, found "@ + match found {
        Some(token) => "Some("@ + token_text(token) + ")"@,
        None => "None"@,
    }
}

/// The message for a list that is still open where the tokens end.
pub open spec fn unclosed_list() -> Seq<char> {
    "Did not find enough tokens"@
}

/// The message for a token that follows the list of a text.
pub open spec fn expected_end(found: TokenModel) -> Seq<char> {
    "Expected end of input, found "@ + token_text(found)
}

/// The message for a text whose tokens could not be read.
pub open spec fn tokenize_error() -> Seq<char> {
    "Tokenize error"@
}

/// The outcome of parsing from a stack of tokens: the tree or the error message, and
/// the tokens that are left.
pub struct Parsed {
    pub result: Result<Value, Seq<char>>,
    pub rest: Seq<TokenModel>,
}

/// The value of a token that is an atom of the tree; `Void` for a parenthesis.
pub open spec fn atom(token: TokenModel) -> Value {
    match token {
        TokenModel::Integer(i) => Value::Integer(i),
        TokenModel::Symbol(s) => Value::Symbol(s),
        TokenModel::Float(s) => Value::Float(s),
        TokenModel::String(s) => Value::String(s),
        TokenModel::BinaryOp(s) => Value::BinaryOp(s),
        TokenModel::Keyword(s) => Value::Keyword(s),
        TokenModel::LParen => Value::Void,
        TokenModel::RParen => Value::Void,
    }
}

/// Parses the items of a list whose opening parenthesis has been taken, and whose items
/// so far are `done`. The next token is the last of `stack`. The list ends at its
/// closing parenthesis. A list that is still open where the tokens end is a failure.
pub open spec fn parse_items(stack: Seq<TokenModel>, done: Seq<Value>) -> Parsed
    decreases stack.len(),
{
    if stack.len() == 0 {
        Parsed { result: Err(unclosed_list()), rest: stack }
    } else {
        let rest = stack.drop_last();
        match stack.last() {
            TokenModel::RParen => Parsed { result: Ok(Value::List(done)), rest },
            TokenModel::LParen => {
                let inner = parse_items(rest, Seq::empty());
                match inner.result {
                    Ok(list) => if inner.rest.len() < stack.len() {
                        parse_items(inner.rest, done.push(list))
                    } else {
                        inner
                    },
                    Err(_) => inner,
                }
            },
            token => parse_items(rest, done.push(atom(token))),
        }
    }
}

/// Parses one list from a stack of tokens whose next token is its last.
pub open spec fn parse_list_spec(stack: Seq<TokenModel>) -> Parsed {
    if stack.len() == 0 {
        Parsed { result: Err(expected_lparen(None)), rest: stack }
    } else if stack.last() != TokenModel::LParen {
        Parsed { result: Err(expected_lparen(Some(stack.last()))), rest: stack.drop_last() }
    } else {
        parse_items(stack.drop_last(), Seq::empty())
    }
}

/// The tree of a whole stack of tokens: the stack is one list and nothing after it.
pub open spec fn parse_all(stack: Seq<TokenModel>) -> Result<Value, Seq<char>> {
    let parsed = parse_list_spec(stack);
    match parsed.result {
        Ok(tree) => if parsed.rest.len() == 0 {
            Ok(tree)
        } else {
            Err(expected_end(parsed.rest.last()))
        },
        Err(message) => Err(message),
    }
}

/// The tree of a text. The text is one list with balanced parentheses, and nothing
/// but white space before and after it.
pub open spec fn parse_spec(text: Seq<char>) -> Result<Value, Seq<char>> {
    match tokens_of(text) {
        Some(tokens) => parse_all(tokens.reverse()),
        None => Err(tokenize_error()),
    }
}

/// Parsing never leaves more tokens than it was given. It succeeds only on balanced
/// parentheses: the last token that a successful parse takes is the closing
/// parenthesis of its list, and the tokens left are those below it.
pub proof fn lemma_parse_items_rest(stack: Seq<TokenModel>, done: Seq<Value>)
    ensures
        parse_items(stack, done).rest.len() <= stack.len(),
        parse_items(stack, done).result matches Ok(v) ==> {
            &&& v is List
            &&& parse_items(stack, done).rest.len() < stack.len()
            &&& stack[parse_items(stack, done).rest.len() as int] == TokenModel::RParen
            &&& parse_items(stack, done).rest == stack.take(
                parse_items(stack, done).rest.len() as int,
            )
        },
    decreases stack.len(),
{
    if stack.len() > 0 {
        let rest = stack.drop_last();
        match stack.last() {
            TokenModel::RParen => {},
            TokenModel::LParen => {
                lemma_parse_items_rest(rest, Seq::empty());
                let inner = parse_items(rest, Seq::empty());
                match inner.result {
                    Ok(list) => {
                        lemma_parse_items_rest(inner.rest, done.push(list));
                    },
                    Err(_) => {},
                }
            },
            token => {
                lemma_parse_items_rest(rest, done.push(atom(token)));
            },
        }
    }
}

/// Only balanced parentheses parse. A list is parsed only from a stack that starts with
/// its opening parenthesis, and the parse ends with the closing parenthesis that
/// matches it: that is the last token taken, and the tokens below it are left.
pub proof fn lemma_parse_list_balanced(stack: Seq<TokenModel>)
    requires
        parse_list_spec(stack).result is Ok,
    ensures
        ({
            let rest = parse_list_spec(stack).rest;
            &&& stack.len() >= 2
            &&& stack.last() == TokenModel::LParen
            &&& rest.len() + 2 <= stack.len()
            &&& stack[rest.len() as int] == TokenModel::RParen
            &&& rest == stack.take(rest.len() as int)
            &&& parse_list_spec(stack).result->Ok_0 is List
        }),
{
    let inside = stack.drop_last();
    lemma_parse_items_rest(inside, Seq::empty());
    let rest = parse_items(inside, Seq::empty()).rest;
    assert(inside.take(rest.len() as int) =~= stack.take(rest.len() as int));
}

fn push_token_text(out: &mut String, token: &Token)
    ensures
        final(out)@ == old(out)@ + token_text(token@),
{
    match token {
        Token::Integer(i) => {
            out.append("Integer(");
            push_decimal(out, *i);
            out.append(")");
            assert(final(out)@ =~= old(out)@ + token_text(token@));
        },
        Token::Symbol(s) => {
            out.append("Symbol(\"");
            out.append(s.as_str());
            out.append("\")");
            assert(final(out)@ =~= old(out)@ + token_text(token@));
        },
        Token::LParen => {
            out.append("LParen");
        },
        Token::RParen => {
            out.append("RParen");
        },
        Token::Float(s) => {
            out.append("Float(");
            out.append(s.as_str());
            out.append(")");
            assert(final(out)@ =~= old(out)@ + token_text(token@));
        },
        Token::String(s) => {
            out.append("String(\"");
            out.append(s.as_str());
            out.append("\")");
            assert(final(out)@ =~= old(out)@ + token_text(token@));
        },
        Token::BinaryOp(s) => {
            out.append("BinaryOp(\"");
            out.append(s.as_str());
            out.append("\")");
            assert(final(out)@ =~= old(out)@ + token_text(token@));
        },
        Token::Keyword(s) => {
            out.append("Keyword(\"");
            out.append(s.as_str());
            out.append("\")");
            assert(final(out)@ =~= old(out)@ + token_text(token@));
        },
    }
}

fn unexpected(found: &Option<Token>) -> (e: ParseError)
    ensures
        e@ == expected_lparen(
            match found {
                Some(token) => Some(token@),
                None => None,
            },
        ),
{
    let mut err = String::from_str("Expected LParen, found ");
    match found {
        Some(token) => {
            err.append("Some(");
            push_token_text(&mut err, token);
            err.append(")");
            assert(err@ =~= expected_lparen(Some(token@)));
        },
        None => {
            err.append("None");
        },
    }
    ParseError { err }
}

/// Whether the parse of `tokens` is the outcome `parsed`.
pub open spec fn parsed_as(
    r: Result<Object, ParseError>,
    rest: Seq<Token>,
    parsed: Parsed,
) -> bool {
    &&& token_views(rest) == parsed.rest
    &&& match parsed.result {
        Ok(v) => r matches Ok(o) && o@ == v,
        Err(message) => r matches Err(e) && e@ == message,
    }
}

/// Parses one list from `tokens`, a stack whose last token is the next one, and takes
/// the tokens of that list off the stack.
///
/// The list must start with an opening parenthesis and end at the closing parenthesis
/// that matches. Fails with "Expected LParen, found ..." if it does not start with
/// one, and with "Did not find enough tokens" if the tokens end before it is closed.
pub fn parse_list(tokens: &mut Vec<Token>) -> (r: Result<Object, ParseError>)
    ensures
        parsed_as(r, final(tokens)@, parse_list_spec(token_views(old(tokens)@))),
    decreases old(tokens)@.len(),
{
    let ghost whole = token_views(tokens@);
    let token = tokens.pop();
    proof {
        if whole.len() > 0 {
            assert(token_views(tokens@) =~= whole.drop_last());
        } else {
            assert(token_views(tokens@) =~= whole);
        }
    }
    match token {
        Some(Token::LParen) => {},
        _ => {
            return Err(unexpected(&token));
        },
    }
    let ghost goal = parse_items(whole.drop_last(), Seq::empty());
    let mut list: Vec<Object> = Vec::new();
    assert(views(list@) =~= Seq::empty());
    while tokens.len() > 0
        invariant
            tokens@.len() < old(tokens)@.len(),
            whole == token_views(old(tokens)@),
            whole.len() > 0,
            whole.last() == TokenModel::LParen,
            goal == parse_items(whole.drop_last(), Seq::empty()),
            parse_items(token_views(tokens@), views(list@)) == goal,
        decreases tokens@.len(),
    {
        let ghost stack = token_views(tokens@);
        let ghost done = views(list@);
        let t = tokens.pop().unwrap();
        proof {
            assert(token_views(tokens@) =~= stack.drop_last());
            assert(stack.last() == t@);
        }
        match t {
            Token::Keyword(k) => {
                list.push(Object::Keyword(k));
                assert(views(list@) =~= done.push(atom(stack.last())));
            },
            Token::BinaryOp(s) => {
                list.push(Object::BinaryOp(s));
                assert(views(list@) =~= done.push(atom(stack.last())));
            },
            Token::Integer(i) => {
                list.push(Object::Integer(i));
                assert(views(list@) =~= done.push(atom(stack.last())));
            },
            Token::Float(f) => {
                list.push(Object::Float(f));
                assert(views(list@) =~= done.push(atom(stack.last())));
            },
            Token::String(s) => {
                list.push(Object::String(s));
                assert(views(list@) =~= done.push(atom(stack.last())));
            },
            Token::Symbol(s) => {
                list.push(Object::Symbol(s));
                assert(views(list@) =~= done.push(atom(stack.last())));
            },
            Token::LParen => {
                tokens.push(Token::LParen);
                proof {
                    assert(token_views(tokens@) =~= stack);
                    lemma_parse_items_rest(stack.drop_last(), Seq::empty());
                }
                match parse_list(tokens) {
                    Ok(sub_list) => {
                        list.push(sub_list);
                        assert(views(list@) =~= done.push(sub_list@));
                    },
                    Err(e) => {
                        return Err(e);
                    },
                }
            },
            Token::RParen => {
                return Ok(Object::List(list));
            },
        }
    }
    proof {
        assert(token_views(tokens@) =~= Seq::empty());
    }
    Err(ParseError { err: String::from_str("Did not find enough tokens") })
}

/// The tokens in reverse order.
fn reversed(tokens: Vec<Token>) -> (r: Vec<Token>)
    ensures
        token_views(r@) == token_views(tokens@).reverse(),
{
    let mut tokens = tokens;
    let ghost whole = token_views(tokens@);
    let mut out: Vec<Token> = Vec::new();
    while tokens.len() > 0
        invariant
            tokens@.len() + out@.len() == whole.len(),
            token_views(tokens@) == whole.take(tokens@.len() as int),
            forall|i: int| 0 <= i < out@.len() ==> out@[i]@ == whole[whole.len() - 1 - i],
        decreases tokens@.len(),
    {
        let ghost before = token_views(tokens@);
        let t = tokens.pop().unwrap();
        proof {
            assert(before.last() == t@);
            assert(token_views(tokens@) =~= whole.take(tokens@.len() as int));
        }
        out.push(t);
    }
    assert(token_views(out@) =~= whole.reverse());
    out
}

/// Parses `input`, which is to hold one list and nothing after it.
///
/// Fails with "Tokenize error" if `input` cannot be split into tokens, with "Expected
/// LParen, found ..." if the first token is no opening parenthesis, with "Did not
/// find enough tokens" if a list is not closed, and with "Expected end of input,
/// found ..." if a token follows the list.
pub fn parse(input: &str) -> (r: Result<Object, ParseError>)
    ensures
        match parse_spec(input@) {
            Ok(v) => r matches Ok(o) && o@ == v,
            Err(message) => r matches Err(e) && e@ == message,
        },
{
    match tokenize(input) {
        Err(_) => Err(ParseError { err: String::from_str("Tokenize error") }),
        Ok(tokens) => {
            let mut stack = reversed(tokens);
            match parse_list(&mut stack) {
                Ok(tree) => {
                    if stack.len() == 0 {
                        Ok(tree)
                    } else {
                        let mut err = String::from_str("Expected end of input, found ");
                        push_token_text(&mut err, &stack[stack.len() - 1]);
                        Err(ParseError { err })
                    }
                },
                Err(e) => Err(e),
            }
        },
    }
}

} // verus!
