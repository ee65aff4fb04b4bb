//! The lexer: from source text to a flat sequence of tokens.

use crate::text::{
    all_digits, alphabetic, chars_of, is_alphabetic, is_numeric, is_whitespace, numeral_value,
    numeric, parse_integer, string_of, text_eq, whitespace,
};
use vstd::prelude::*;

verus! {

/// One token. A float token holds the literal as it was written.
#[derive(Debug, Clone, PartialEq)]
pub enum Token {
    Integer(i64),
    Symbol(String),
    LParen,
    RParen,
    Float(String),
    String(String),
    BinaryOp(String),
    Keyword(String),
}

/// The mathematical model of a [`Token`].
pub enum TokenModel {
    Integer(int),
    Symbol(Seq<char>),
    LParen,
    RParen,
    Float(Seq<char>),
    String(Seq<char>),
    BinaryOp(Seq<char>),
    Keyword(Seq<char>),
}

impl View for Token {
    type V = TokenModel;

    open spec fn view(&self) -> TokenModel {
        match self {
            Token::Integer(i) => TokenModel::Integer(*i as int),
            Token::Symbol(s) => TokenModel::Symbol(s@),
            Token::LParen => TokenModel::LParen,
            Token::RParen => TokenModel::RParen,
            Token::Float(s) => TokenModel::Float(s@),
            Token::String(s) => TokenModel::String(s@),
            Token::BinaryOp(s) => TokenModel::BinaryOp(s@),
            Token::Keyword(s) => TokenModel::Keyword(s@),
        }
    }
}

/// The models of a sequence of tokens.
pub open spec fn token_views(tokens: Seq<Token>) -> Seq<TokenModel> {
    Seq::new(tokens.len(), |i: int| tokens[i]@)
}

/// The text cannot be split into tokens. It holds a character that starts no token, or
/// a number that cannot be read: an integer that is not made of ASCII digits or does
/// not fit in 64 bits, or a float that is not digits, a point, digits.
#[derive(Debug, Clone, Copy, PartialEq, Eq)]
pub struct TokenError;

/// What the lexer asks of a character beyond its identity: the Unicode classes it is
/// in.
#[derive(Debug, Clone, Copy, PartialEq, Eq, Structural)]
pub struct CharClass {
    pub whitespace: bool,
    pub numeric: bool,
    pub alphabetic: bool,
}

/// The classes of `c`, as the standard library reports them.
pub open spec fn class_of(c: char) -> CharClass {
    CharClass { whitespace: whitespace(c), numeric: numeric(c), alphabetic: alphabetic(c) }
}

/// The classes of the characters of `text`, one for one.
pub open spec fn classes_of(text: Seq<char>) -> Seq<CharClass> {
    Seq::new(text.len(), |i: int| class_of(text[i]))
}

/// The kinds of runs of characters that the lexer reads in one go.
pub enum Run {
    /// White space between tokens.
    Blank,
    /// The inside of a string literal: everything up to the next double quote.
    Quoted,
    /// A number: numeric characters and points.
    Number,
    /// A symbol, keyword or operator: everything up to white space, a parenthesis or
    /// a single quote.
    Symbol,
}

/// Whether a run of kind `run` that has reached the character `c` of the classes
/// `class` goes on over it.
pub open spec fn continues(run: Run, c: char, class: CharClass) -> bool {
    match run {
        Run::Blank => class.whitespace,
        Run::Quoted => c != '"',
        Run::Number => class.numeric || c == '.',
        Run::Symbol => !(class.whitespace || c == '(' || c == ')' || c == '\''),
    }
}

/// Where a run of kind `run` that starts at `from` ends: the first position at or
/// after `from` whose character does not continue it, or the end of the text.
pub open spec fn run_end(text: Seq<char>, classes: Seq<CharClass>, from: int, run: Run) -> int
    decreases text.len() - from,
{
    if 0 <= from < text.len() && continues(run, text[from], classes[from]) {
        run_end(text, classes, from + 1, run)
    } else {
        from
    }
}

/// Whether `s` is one of the words that the lexer reserves.
pub open spec fn keyword(s: Seq<char>) -> bool {
    ||| s == "define"@
    ||| s == "lambda"@
    ||| s == "list"@
    ||| s == "print"@
    ||| s == "range"@
    ||| s == "cons"@
    ||| s == "car"@
    ||| s == "cdr"@
    ||| s == "length"@
    ||| s == "null?"@
    ||| s == "begin"@
    ||| s == "let"@
    ||| s == "if"@
    ||| s == "else"@
    ||| s == "cond"@
}

/// Whether `c` is one of the characters that start an operator.
pub open spec fn operator_char(c: char) -> bool {
    c == '+' || c == '-' || c == '*' || c == '/' || c == '%' || c == '<' || c == '>' || c == '='
        || c == '|' || c == '&'
}

/// Whether `s` is a float literal that can be read: one or more ASCII digits, a point,
/// and ASCII digits or nothing.
pub open spec fn float_literal(s: Seq<char>) -> bool {
    exists|k: int| #[trigger] float_literal_at(s, k)
}

/// `s` is a float literal whose point is at position `k`.
pub open spec fn float_literal_at(s: Seq<char>, k: int) -> bool {
    &&& 0 < k < s.len()
    &&& s[k] == '.'
    &&& all_digits(s.take(k))
    &&& all_digits(s.skip(k + 1))
}

/// What the lexer finds at a position where no white space is.
pub enum Lexeme {
    /// A token, and the position just after it.
    Token(TokenModel, int),
    /// The end of the text.
    Stop,
    /// A character that starts no token, or a number that cannot be read.
    Invalid,
}

/// The token written by a number's text.
pub open spec fn number_lexeme(word: Seq<char>, end: int) -> Lexeme {
    if word.contains('.') {
        if float_literal(word) {
            Lexeme::Token(TokenModel::Float(word), end)
        } else {
            Lexeme::Invalid
        }
    } else if all_digits(word) && numeral_value(word) <= i64::MAX {
        Lexeme::Token(TokenModel::Integer(numeral_value(word)), end)
    } else {
        Lexeme::Invalid
    }
}

/// The token written by a word that is no number.
pub open spec fn word_token(word: Seq<char>) -> TokenModel {
    if keyword(word) {
        TokenModel::Keyword(word)
    } else if word.len() > 0 && operator_char(word[0]) {
        TokenModel::BinaryOp(word)
    } else {
        TokenModel::Symbol(word)
    }
}

/// What the lexer finds at `pos`, a position that holds no white space. An opening or
/// closing parenthesis is a token. A double quote starts a string, which ends at the
/// next double quote or with the text. A numeric character starts a number. A letter
/// or an operator character starts a word: a keyword, an operator or a symbol. No
/// other character starts a token.
pub open spec fn lexeme_at(text: Seq<char>, classes: Seq<CharClass>, pos: int) -> Lexeme {
    if !(0 <= pos < text.len()) {
        Lexeme::Stop
    } else {
        let c = text[pos];
        let class = classes[pos];
        if c == '(' {
            Lexeme::Token(TokenModel::LParen, pos + 1)
        } else if c == ')' {
            Lexeme::Token(TokenModel::RParen, pos + 1)
        } else if c == '"' {
            let end = run_end(text, classes, pos + 1, Run::Quoted);
            Lexeme::Token(
                TokenModel::String(text.subrange(pos + 1, end)),
                if end < text.len() {
                    end + 1
                } else {
                    end
                },
            )
        } else if class.numeric {
            let end = run_end(text, classes, pos, Run::Number);
            number_lexeme(text.subrange(pos, end), end)
        } else if (class.alphabetic || operator_char(c)) && c != '\'' {
            let end = run_end(text, classes, pos, Run::Symbol);
            Lexeme::Token(word_token(text.subrange(pos, end)), end)
        } else {
            Lexeme::Invalid
        }
    }
}

/// The tokens of `text` from `pos` on, where `classes` holds the classes of its
/// characters; nothing if the text from `pos` on holds a character that starts no
/// token or a number that cannot be read.
pub open spec fn tokens_from(text: Seq<char>, classes: Seq<CharClass>, pos: int) -> Option<
    Seq<TokenModel>,
>
    decreases text.len() - pos,
{
    let start = run_end(text, classes, pos, Run::Blank);
    match lexeme_at(text, classes, start) {
        Lexeme::Stop => Some(Seq::empty()),
        Lexeme::Invalid => None,
        Lexeme::Token(token, next) => if pos < next <= text.len() {
            match tokens_from(text, classes, next) {
                Some(rest) => Some(seq![token] + rest),
                None => None,
            }
        } else {
            Some(Seq::empty())
        },
    }
}

/// The tokens of a whole text, with the classes of its characters as the standard
/// library reports them.
pub open spec fn tokens_of(text: Seq<char>) -> Option<Seq<TokenModel>> {
    tokens_from(text, classes_of(text), 0)
}

/// A run never ends before it starts, nor after the text.
pub proof fn lemma_run_end_bounds(text: Seq<char>, classes: Seq<CharClass>, from: int, run: Run)
    requires
        0 <= from <= text.len(),
    ensures
        from <= run_end(text, classes, from, run) <= text.len(),
        run_end(text, classes, from, run) < text.len() ==> !continues(
            run,
            text[run_end(text, classes, from, run)],
            classes[run_end(text, classes, from, run)],
        ),
        forall|i: int|
            from <= i < run_end(text, classes, from, run) ==> continues(
                run,
                #[trigger] text[i],
                classes[i],
            ),
    decreases text.len() - from,
{
    if from < text.len() && continues(run, text[from], classes[from]) {
        lemma_run_end_bounds(text, classes, from + 1, run);
    }
}

/// Every token takes up at least one character, and ends within the text.
pub proof fn lemma_lexeme_advances(text: Seq<char>, classes: Seq<CharClass>, pos: int)
    requires
        0 <= pos <= text.len(),
        pos < text.len() ==> !classes[pos].whitespace,
    ensures
        lexeme_at(text, classes, pos) matches Lexeme::Token(_, next) ==> pos < next <= text.len(),
{
    if pos < text.len() {
        lemma_run_end_bounds(text, classes, pos + 1, Run::Quoted);
        lemma_run_end_bounds(text, classes, pos, Run::Number);
        lemma_run_end_bounds(text, classes, pos, Run::Symbol);
        let c = text[pos];
        let class = classes[pos];
        if class.numeric {
            assert(continues(Run::Number, c, class));
        }
        if (class.alphabetic || operator_char(c)) && c != '\'' && c != '(' && c != ')' {
            assert(continues(Run::Symbol, c, class));
        }
    }
}

/// Whether `text` is one of the reserved words.
pub fn is_keyword(text: &str) -> (r: bool)
    ensures
        r == keyword(text@),
{
    text_eq(text, "define") || text_eq(text, "lambda") || text_eq(text, "list") || text_eq(
        text,
        "print",
    ) || text_eq(text, "range") || text_eq(text, "cons") || text_eq(text, "car") || text_eq(
        text,
        "cdr",
    ) || text_eq(text, "length") || text_eq(text, "null?") || text_eq(text, "begin") || text_eq(
        text,
        "let",
    ) || text_eq(text, "if") || text_eq(text, "else") || text_eq(text, "cond")
}

/// Whether `c` starts an operator.
pub fn is_operator_char(c: char) -> (r: bool)
    ensures
        r == operator_char(c),
{
    c == '+' || c == '-' || c == '*' || c == '/' || c == '%' || c == '<' || c == '>' || c == '='
        || c == '|' || c == '&'
}

/// Whether `chars[from..to]` is a float literal that can be read.
pub fn is_float_literal(chars: &Vec<char>, from: usize, to: usize) -> (r: bool)
    requires
        from <= to <= chars.len(),
    ensures
        r == float_literal(chars@.subrange(from as int, to as int)),
{
    let ghost word = chars@.subrange(from as int, to as int);
    let mut i: usize = from;
    while i < to && '0' <= chars[i] && chars[i] <= '9'
        invariant
            from <= i <= to <= chars.len(),
            word == chars@.subrange(from as int, to as int),
            all_digits(word.take(i - from)),
        decreases to - i,
    {
        assert forall|j: int| 0 <= j < i + 1 - from implies (#[trigger] crate::text::digit_value(
            word.take(i + 1 - from)[j],
        )) is Some by {
            if j < i - from {
                assert(word.take(i - from)[j] == word[j]);
            }
        }
        i += 1;
    }
    let point = i;
    if point == from || point >= to || chars[point] != '.' {
        proof {
            assert forall|k: int| !float_literal_at(word, k) by {
                if float_literal_at(word, k) {
                    let p = point - from;
                    if k < p {
                        assert(word.take(p)[k] == '.');
                        assert(crate::text::digit_value(word.take(p)[k]) is Some);
                    } else if k > p {
                        assert(word.take(k)[p] == word[p]);
                        assert(crate::text::digit_value(word.take(k)[p]) is Some);
                    }
                }
            }
        }
        return false;
    }
    let mut j: usize = point + 1;
    while j < to
        invariant
            from < point < j <= to <= chars.len(),
            word == chars@.subrange(from as int, to as int),
            all_digits(word.take(point - from)),
            word[point - from] == '.',
            all_digits(word.subrange(point - from + 1, j - from)),
        decreases to - j,
    {
        let c = chars[j];
        if c < '0' || c > '9' {
            proof {
                assert forall|k: int| !float_literal_at(word, k) by {
                    if float_literal_at(word, k) {
                        let p = point - from;
                        if k < p {
                            assert(word.take(p)[k] == '.');
                            assert(crate::text::digit_value(word.take(p)[k]) is Some);
                        } else if k > p {
                            assert(word.take(k)[p] == word[p]);
                            assert(crate::text::digit_value(word.take(k)[p]) is Some);
                        } else {
                            assert(word.skip(k + 1)[j - from - k - 1] == c);
                            assert(crate::text::digit_value(word.skip(k + 1)[j - from - k - 1]) is Some);
                        }
                    }
                }
            }
            return false;
        }
        proof {
            let wider = word.subrange(point - from + 1, j + 1 - from);
            let narrow = word.subrange(point - from + 1, j - from);
            assert forall|k: int| 0 <= k < wider.len() implies (#[trigger] crate::text::digit_value(
                wider[k],
            )) is Some by {
                if k < narrow.len() {
                    assert(narrow[k] == wider[k]);
                }
            }
        }
        j += 1;
    }
    proof {
        assert(word.subrange(point - from + 1, to - from) =~= word.skip(point - from + 1));
        assert(float_literal_at(word, point - from));
    }
    true
}

/// Whether `chars[from..to]` holds a point.
fn has_point(chars: &Vec<char>, from: usize, to: usize) -> (r: bool)
    requires
        from <= to <= chars.len(),
    ensures
        r == chars@.subrange(from as int, to as int).contains('.'),
{
    let ghost word = chars@.subrange(from as int, to as int);
    let mut i: usize = from;
    while i < to
        invariant
            from <= i <= to <= chars.len(),
            word == chars@.subrange(from as int, to as int),
            forall|j: int| 0 <= j < i - from ==> word[j] != '.',
        decreases to - i,
    {
        if chars[i] == '.' {
            assert(word[i - from] == '.');
            return true;
        }
        i += 1;
    }
    false
}

/// The classes of `c`, as the standard library reports them.
pub fn classify(c: char) -> (class: CharClass)
    ensures
        class == class_of(c),
{
    CharClass {
        whitespace: is_whitespace(c),
        numeric: is_numeric(c),
        alphabetic: is_alphabetic(c),
    }
}

/// The classes of the characters of `chars`, one for one.
pub fn classify_all(chars: &Vec<char>) -> (classes: Vec<CharClass>)
    ensures
        classes@ == classes_of(chars@),
{
    let mut classes: Vec<CharClass> = Vec::new();
    let mut i: usize = 0;
    while i < chars.len()
        invariant
            i <= chars.len(),
            classes@ == classes_of(chars@.take(i as int)),
        decreases chars.len() - i,
    {
        classes.push(classify(chars[i]));
        assert(classes@ =~= classes_of(chars@.take(i + 1)));
        i += 1;
    }
    assert(chars@.take(chars@.len() as int) =~= chars@);
    classes
}

/// The model of a [`Tokenizer`]: the text it reads, the classes of its characters, and
/// how far it has come.
pub struct Cursor {
    pub text: Seq<char>,
    pub classes: Seq<CharClass>,
    pub pos: int,
}

impl Cursor {
    /// The same text, read up to `pos`.
    pub open spec fn moved_to(self, pos: int) -> Cursor {
        Cursor { text: self.text, classes: self.classes, pos }
    }

    /// Where the run of kind `run` that starts at `from` ends.
    pub open spec fn run_from(self, from: int, run: Run) -> int {
        run_end(self.text, self.classes, from, run)
    }

    /// The position after the character at the position, or the position itself at the
    /// end of the text.
    pub open spec fn next(self) -> int {
        if self.pos < self.text.len() {
            self.pos + 1
        } else {
            self.pos
        }
    }
}

/// A lexer over one text, which hands out its tokens one by one.
pub struct Tokenizer {
    chars: Vec<char>,
    classes: Vec<CharClass>,
    pos: usize,
}

impl View for Tokenizer {
    type V = Cursor;

    closed spec fn view(&self) -> Cursor {
        Cursor { text: self.chars@, classes: self.classes@, pos: self.pos as int }
    }
}

impl Tokenizer {
    /// The position is within the text or at its end, and every character has its
    /// classes.
    pub closed spec fn wf(&self) -> bool {
        self.pos <= self.chars@.len() && self.classes@.len() == self.chars@.len()
    }

    /// A lexer at the start of `input`, with the classes of its characters as the
    /// standard library reports them.
    pub fn new(input: &str) -> (t: Tokenizer)
        ensures
            t.wf(),
            t@ == (Cursor { text: input@, classes: classes_of(input@), pos: 0 }),
    {
        let chars = chars_of(input);
        let classes = classify_all(&chars);
        Tokenizer { chars, classes, pos: 0 }
    }

    /// A lexer at the start of the text `chars`, whose characters have the classes
    /// `classes`, one for one.
    pub fn classified(chars: Vec<char>, classes: Vec<CharClass>) -> (t: Tokenizer)
        requires
            classes.len() == chars.len(),
        ensures
            t.wf(),
            t@ == (Cursor { text: chars@, classes: classes@, pos: 0 }),
    {
        Tokenizer { chars, classes, pos: 0 }
    }

    /// The character at the position, if the text has not ended.
    pub fn current_char(&self) -> (c: Option<char>)
        requires
            self.wf(),
        ensures
            c == if self@.pos < self@.text.len() {
                Some(self@.text[self@.pos])
            } else {
                None::<char>
            },
    {
        if self.pos < self.chars.len() {
            Some(self.chars[self.pos])
        } else {
            None
        }
    }

    /// Moves one character on, unless the text has ended.
    pub fn advance(&mut self)
        requires
            old(self).wf(),
        ensures
            final(self).wf(),
            final(self)@ == old(self)@.moved_to(old(self)@.next()),
    {
        if self.pos < self.chars.len() {
            self.pos += 1;
        }
    }

    /// Moves to the end of the run of kind `run` that starts at the position.
    fn skip_run(&mut self, run: Run)
        requires
            old(self).wf(),
        ensures
            final(self).wf(),
            final(self)@ == old(self)@.moved_to(old(self)@.run_from(old(self)@.pos, run)),
    {
        loop
            invariant
                self.wf(),
                self@ == old(self)@.moved_to(self@.pos),
                self@.run_from(old(self)@.pos, run) == self@.run_from(self@.pos, run),
            decreases self.chars@.len() - self.pos,
        {
            if self.pos >= self.chars.len() {
                return ;
            }
            let c = self.chars[self.pos];
            let class = self.classes[self.pos];
            let go_on = match run {
                Run::Blank => class.whitespace,
                Run::Quoted => c != '"',
                Run::Number => class.numeric || c == '.',
                Run::Symbol => !(class.whitespace || c == '(' || c == ')' || c == '\''),
            };
            if !go_on {
                return ;
            }
            self.pos += 1;
        }
    }

    /// Moves over the white space at the position.
    pub fn eat_whitespace(&mut self)
        requires
            old(self).wf(),
        ensures
            final(self).wf(),
            final(self)@ == old(self)@.moved_to(old(self)@.run_from(old(self)@.pos, Run::Blank)),
    {
        self.skip_run(Run::Blank);
    }

    /// Reads a string literal whose opening quote is at the position: moves over the
    /// character at the position, returns everything up to the next double quote or
    /// the end of the text, and moves over the closing quote. At the end of the text
    /// it returns the empty string and stays there.
    pub fn read_string(&mut self) -> (s: String)
        requires
            old(self).wf(),
        ensures
            final(self).wf(),
            ({
                let start = old(self)@.next();
                let end = old(self)@.run_from(start, Run::Quoted);
                &&& s@ == old(self)@.text.subrange(start, end)
                &&& final(self)@ == old(self)@.moved_to(old(self)@.moved_to(end).next())
            }),
    {
        self.advance();
        let start = self.pos;
        self.skip_run(Run::Quoted);
        proof {
            lemma_run_end_bounds(self.chars@, self.classes@, start as int, Run::Quoted);
        }
        let s = string_of(&self.chars, start, self.pos);
        self.advance();
        s
    }

    /// Reads the run of numeric characters and points at the position.
    pub fn read_number(&mut self) -> (s: String)
        requires
            old(self).wf(),
        ensures
            final(self).wf(),
            final(self)@ == old(self)@.moved_to(old(self)@.run_from(old(self)@.pos, Run::Number)),
            s@ == old(self)@.text.subrange(old(self)@.pos, final(self)@.pos),
    {
        let start = self.pos;
        self.skip_run(Run::Number);
        proof {
            lemma_run_end_bounds(self.chars@, self.classes@, start as int, Run::Number);
        }
        string_of(&self.chars, start, self.pos)
    }

    /// Reads the word at the position: everything up to white space, a parenthesis
    /// or a single quote.
    pub fn read_symbol(&mut self) -> (s: String)
        requires
            old(self).wf(),
        ensures
            final(self).wf(),
            final(self)@ == old(self)@.moved_to(old(self)@.run_from(old(self)@.pos, Run::Symbol)),
            s@ == old(self)@.text.subrange(old(self)@.pos, final(self)@.pos),
    {
        let start = self.pos;
        self.skip_run(Run::Symbol);
        proof {
            lemma_run_end_bounds(self.chars@, self.classes@, start as int, Run::Symbol);
        }
        string_of(&self.chars, start, self.pos)
    }

    /// The next token, after the white space at the position. `Ok(None)` at the end
    /// of the text. An error at a character that starts no token and at a number
    /// that cannot be read.
    pub fn next_token(&mut self) -> (r: Result<Option<Token>, TokenError>)
        requires
            old(self).wf(),
        ensures
            final(self).wf(),
            final(self)@ == old(self)@.moved_to(final(self)@.pos),
            ({
                let start = old(self)@.run_from(old(self)@.pos, Run::Blank);
                match lexeme_at(old(self)@.text, old(self)@.classes, start) {
                    Lexeme::Token(token, next) => {
                        &&& r matches Ok(Some(t))
                        &&& t@ == token
                        &&& final(self)@.pos == next
                    },
                    Lexeme::Stop => r == Ok::<Option<Token>, TokenError>(None) && final(self)@.pos
                        == start,
                    Lexeme::Invalid => r is Err,
                }
            }),
    {
        self.eat_whitespace();
        proof {
            lemma_run_end_bounds(self.chars@, self.classes@, old(self)@.pos, Run::Blank);
        }
        if self.pos >= self.chars.len() {
            return Ok(None);
        }
        let c = self.chars[self.pos];
        let class = self.classes[self.pos];
        if c == '(' {
            self.advance();
            Ok(Some(Token::LParen))
        } else if c == ')' {
            self.advance();
            Ok(Some(Token::RParen))
        } else if c == '"' {
            Ok(Some(Token::String(self.read_string())))
        } else if class.numeric {
            let start = self.pos;
            let word = self.read_number();
            proof {
                lemma_run_end_bounds(self.chars@, self.classes@, start as int, Run::Number);
            }
            if has_point(&self.chars, start, self.pos) {
                if is_float_literal(&self.chars, start, self.pos) {
                    Ok(Some(Token::Float(word)))
                } else {
                    Err(TokenError)
                }
            } else {
                match parse_integer(&self.chars, start, self.pos) {
                    Some(n) => Ok(Some(Token::Integer(n))),
                    None => {
                        assert(continues(Run::Number, c, class));
                        Err(TokenError)
                    },
                }
            }
        } else if (class.alphabetic || is_operator_char(c)) && c != '\'' {
            let start = self.pos;
            let word = self.read_symbol();
            proof {
                lemma_run_end_bounds(self.chars@, self.classes@, start as int, Run::Symbol);
                assert(continues(Run::Symbol, c, class));
            }
            if is_keyword(word.as_str()) {
                Ok(Some(Token::Keyword(word)))
            } else if is_operator_char(c) {
                assert(word@[0] == c);
                Ok(Some(Token::BinaryOp(word)))
            } else {
                assert(word@[0] == c);
                Ok(Some(Token::Symbol(word)))
            }
        } else {
            Err(TokenError)
        }
    }
}

/// The tokens of the text `chars`, whose characters have the classes `classes`, one
/// for one.
///
/// Fails if the text holds a character that starts no token, or a number that cannot
/// be read.
pub fn tokenize_classified(chars: Vec<char>, classes: Vec<CharClass>) -> (r: Result<
    Vec<Token>,
    TokenError,
>)
    requires
        classes.len() == chars.len(),
    ensures
        match tokens_from(chars@, classes@, 0) {
            Some(tokens) => r matches Ok(v) && token_views(v@) == tokens,
            None => r is Err,
        },
{
    let ghost text = chars@;
    let ghost kinds = classes@;
    let mut tokenizer = Tokenizer::classified(chars, classes);
    let mut tokens: Vec<Token> = Vec::new();
    loop
        invariant
            tokenizer.wf(),
            text == chars@,
            kinds == classes@,
            kinds.len() == text.len(),
            tokenizer@ == (Cursor { text, classes: kinds, pos: tokenizer@.pos }),
            0 <= tokenizer@.pos <= text.len(),
            match tokens_from(text, kinds, tokenizer@.pos) {
                Some(rest) => tokens_from(text, kinds, 0) == Some(token_views(tokens@) + rest),
                None => tokens_from(text, kinds, 0) is None,
            },
        decreases text.len() - tokenizer@.pos,
    {
        let ghost pos = tokenizer@.pos;
        let ghost start = run_end(text, kinds, pos, Run::Blank);
        proof {
            lemma_run_end_bounds(text, kinds, pos, Run::Blank);
            lemma_lexeme_advances(text, kinds, start);
        }
        match tokenizer.next_token() {
            Err(e) => {
                return Err(e);
            },
            Ok(None) => {
                assert(token_views(tokens@) + Seq::<TokenModel>::empty() =~= token_views(tokens@));
                return Ok(tokens);
            },
            Ok(Some(token)) => {
                let ghost before = token_views(tokens@);
                tokens.push(token);
                proof {
                    assert(token_views(tokens@) =~= before.push(token@));
                    match tokens_from(text, kinds, tokenizer@.pos) {
                        Some(rest) => {
                            assert(before + (seq![token@] + rest) =~= before.push(token@) + rest);
                        },
                        None => {},
                    }
                }
            },
        }
    }
}

/// The tokens of `input`.
///
/// Fails if `input` holds a character that starts no token, or a number that cannot
/// be read.
pub fn tokenize(input: &str) -> (r: Result<Vec<Token>, TokenError>)
    ensures
        match tokens_of(input@) {
            Some(tokens) => r matches Ok(v) && token_views(v@) == tokens,
            None => r is Err,
        },
{
    let chars = chars_of(input);
    let classes = classify_all(&chars);
    tokenize_classified(chars, classes)
}

} // verus!
