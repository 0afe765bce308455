//! From text to tokens.

use crate::error::{SyntaxError, SyntaxFailure};
use vstd::prelude::*;
use vstd::string::StrSliceExecFns;

verus! {

/// One token of the language.
#[derive(Debug, PartialEq)]
pub enum Token {
    /// A reserved word: `var`, `mut`, `if`, `else`, `elseif`, `while`,
    /// `break`, `continue`, `fun`, `return`, `out`.
    Keyword(String),
    /// A variable or function name.
    Identifier(String),
    /// An integer literal.
    Number(i32),
    /// An operator such as `+`, `<=` or `~`.
    Operator(String),
    /// One of `,`, `(`, `)`, `{`, `}`, `!`.
    Symbol(char),
    /// `=`, `+=`, `-=`, `*=`, `/=` or `%=`.
    Assigner(String),
}

/// The mathematical content of a [`Token`].
pub ghost enum Lexeme {
    Keyword(Seq<char>),
    Identifier(Seq<char>),
    Number(i32),
    Operator(Seq<char>),
    Symbol(char),
    Assigner(Seq<char>),
}

impl View for Token {
    type V = Lexeme;

    open spec fn view(&self) -> Lexeme {
        match *self {
            Token::Keyword(word) => Lexeme::Keyword(word@),
            Token::Identifier(word) => Lexeme::Identifier(word@),
            Token::Number(value) => Lexeme::Number(value),
            Token::Operator(op) => Lexeme::Operator(op@),
            Token::Symbol(c) => Lexeme::Symbol(c),
            Token::Assigner(op) => Lexeme::Assigner(op@),
        }
    }
}

impl Clone for Token {
    fn clone(&self) -> (copy: Token)
        ensures
            copy@ == self@,
    {
        match self {
            Token::Keyword(word) => Token::Keyword(word.clone()),
            Token::Identifier(word) => Token::Identifier(word.clone()),
            Token::Number(value) => Token::Number(*value),
            Token::Operator(op) => Token::Operator(op.clone()),
            Token::Symbol(c) => Token::Symbol(*c),
            Token::Assigner(op) => Token::Assigner(op.clone()),
        }
    }
}

/// The lexemes of a list of tokens, in order.
pub open spec fn lexemes(tokens: Seq<Token>) -> Seq<Lexeme> {
    Seq::new(tokens.len(), |i: int| tokens[i]@)
}

/// Whether `char::is_alphanumeric` holds of the character: whether Unicode
/// counts it among the letters or the numbers.
pub uninterp spec fn alphanumeric(c: char) -> bool;

/// Calls `char::is_alphanumeric` of the standard library, which answers from
/// the Unicode tables built into it and from nothing else. The contract gives
/// the answer a name and claims no more.
#[verifier::external_body]
fn is_alphanumeric(c: char) -> (answer: bool)
    ensures
        answer == alphanumeric(c),
{
    c.is_alphanumeric()
}

/// Whether the character separates tokens and means nothing else.
pub open spec fn is_blank(c: char) -> bool {
    c == ' ' || c == '\t' || c == '\n' || c == ';'
}

/// Whether the character is one of the ten digits.
pub open spec fn is_digit(c: char) -> bool {
    '0' <= c <= '9'
}

/// Whether a word may start with the character.
pub open spec fn starts_word(c: char) -> bool {
    'a' <= c <= 'z' || 'A' <= c <= 'Z' || c == '_'
}

/// Whether a word may go on with the character.
pub open spec fn continues_word(c: char) -> bool {
    alphanumeric(c) || c == '_'
}

/// Whether an operator or an assigner starts with the character.
pub open spec fn starts_operator(c: char) -> bool {
    c == '+' || c == '-' || c == '*' || c == '/' || c == '%' || c == '=' || c == '<' || c == '>'
        || c == '~' || c == '&' || c == '|'
}

/// Whether the character is a token by itself.
pub open spec fn is_symbol(c: char) -> bool {
    c == ',' || c == '(' || c == ')' || c == '{' || c == '}' || c == '!'
}

/// Whether the word is reserved.
pub open spec fn is_keyword(word: Seq<char>) -> bool {
    word == "var"@ || word == "mut"@ || word == "if"@ || word == "else"@ || word == "elseif"@
        || word == "while"@ || word == "break"@ || word == "continue"@ || word == "fun"@ || word
        == "return"@ || word == "out"@
}

/// Whether the operator text assigns.
pub open spec fn is_assigner(op: Seq<char>) -> bool {
    op == "="@ || op == "+="@ || op == "-="@ || op == "*="@ || op == "/="@ || op == "%="@
}

/// The number of digits in a row from `from` on.
pub open spec fn digits(text: Seq<char>, from: int) -> nat
    decreases text.len() - from,
{
    if from < 0 || from >= text.len() || !is_digit(text[from]) {
        0
    } else {
        1 + digits(text, from + 1)
    }
}

/// The number of characters in a row from `from` on that a word may go on
/// with.
pub open spec fn word_tail(text: Seq<char>, from: int) -> nat
    decreases text.len() - from,
{
    if from < 0 || from >= text.len() || !continues_word(text[from]) {
        0
    } else {
        1 + word_tail(text, from + 1)
    }
}

/// The number of characters from `from` up to and with the end of the line,
/// or up to the end of the text.
pub open spec fn rest_of_line(text: Seq<char>, from: int) -> nat
    decreases text.len() - from,
{
    if from < 0 || from >= text.len() {
        0
    } else if text[from] == '\n' {
        1
    } else {
        1 + rest_of_line(text, from + 1)
    }
}

/// The number of characters from `from` up to and with the first `]]`, or up
/// to the end of the text.
pub open spec fn rest_of_block(text: Seq<char>, from: int) -> nat
    decreases text.len() - from,
{
    if from < 0 || from >= text.len() {
        0
    } else if text[from] == ']' && from + 1 < text.len() && text[from + 1] == ']' {
        2
    } else {
        1 + rest_of_block(text, from + 1)
    }
}

/// The number that the digits from `from` up to `to` write in base ten.
pub open spec fn decimal(text: Seq<char>, from: int, to: int) -> nat
    decreases to - from,
{
    if to <= from {
        0
    } else {
        decimal(text, from, to - 1) * 10 + (text[to - 1] as nat - '0' as nat) as nat
    }
}

/// The tokens of the text from `from` on, after those in `before`.
///
/// Blanks and semicolons separate tokens. `#` starts a comment that ends with
/// the line, `#[` one that ends with the next `]]`. A row of digits is a
/// number, which must fit 32 bits. A letter or `_` starts a word, which is a
/// keyword or an identifier. An operator character, with an `=` right after
/// it if there is one, is an assigner or an operator. Any other character
/// that is no symbol is refused.
pub open spec fn scan(text: Seq<char>, from: int, before: Seq<Lexeme>) -> Result<
    Seq<Lexeme>,
    SyntaxFailure,
>
    decreases text.len() - from,
    via scan_advances
{
    if from < 0 || from >= text.len() {
        Ok(before)
    } else {
        let c = text[from];
        if is_blank(c) {
            scan(text, from + 1, before)
        } else if is_digit(c) {
            let end = from + 1 + digits(text, from + 1);
            if decimal(text, from, end) > i32::MAX {
                Err(SyntaxFailure::NumberOutOfRange)
            } else {
                scan(text, end, before.push(Lexeme::Number(decimal(text, from, end) as i32)))
            }
        } else if starts_word(c) {
            let end = from + 1 + word_tail(text, from + 1);
            let word = text.subrange(from, end);
            if is_keyword(word) {
                scan(text, end, before.push(Lexeme::Keyword(word)))
            } else {
                scan(text, end, before.push(Lexeme::Identifier(word)))
            }
        } else if starts_operator(c) {
            let end = if from + 1 < text.len() && text[from + 1] == '=' {
                from + 2
            } else {
                from + 1
            };
            let op = text.subrange(from, end);
            if is_assigner(op) {
                scan(text, end, before.push(Lexeme::Assigner(op)))
            } else {
                scan(text, end, before.push(Lexeme::Operator(op)))
            }
        } else if is_symbol(c) {
            scan(text, from + 1, before.push(Lexeme::Symbol(c)))
        } else if c == '#' {
            if from + 1 < text.len() && text[from + 1] == '[' {
                scan(text, from + 2 + rest_of_block(text, from + 2), before)
            } else {
                scan(text, from + 1 + rest_of_line(text, from + 1), before)
            }
        } else {
            Err(SyntaxFailure::UnexpectedCharacter(c))
        }
    }
}

/// None of the counts that `scan` skips by runs past the end of the text.
pub proof fn lemma_counts_end_in_text(text: Seq<char>, from: int)
    requires
        0 <= from <= text.len(),
    ensures
        from + digits(text, from) <= text.len(),
        from + word_tail(text, from) <= text.len(),
        from + rest_of_line(text, from) <= text.len(),
        from + rest_of_block(text, from) <= text.len(),
    decreases text.len() - from,
{
    if from < text.len() {
        lemma_counts_end_in_text(text, from + 1);
    }
}

#[via_fn]
proof fn scan_advances(text: Seq<char>, from: int, before: Seq<Lexeme>) {
    if 0 <= from < text.len() {
        lemma_counts_end_in_text(text, from + 1);
        if from + 2 <= text.len() {
            lemma_counts_end_in_text(text, from + 2);
        }
    }
}

/// The model of the outcome of a scan.
pub open spec fn tokens_outcome(outcome: Result<Vec<Token>, SyntaxError>) -> Result<
    Seq<Lexeme>,
    SyntaxFailure,
> {
    match outcome {
        Ok(tokens) => Ok(lexemes(tokens@)),
        Err(error) => Err(error@),
    }
}

/// The characters of a string, in order.
pub fn characters(input: &str) -> (list: Vec<char>)
    ensures
        list@ == input@,
{
    let mut list: Vec<char> = Vec::new();
    for c in it: input.chars()
        invariant
            list@ == it.seq().take(it.index() as int),
            it.seq() == input@,
    {
        list.push(c);
    }
    list
}

/// The index after the digits in a row from `from` on.
fn end_of_digits(text: &Vec<char>, from: usize) -> (end: usize)
    requires
        from <= text.len(),
    ensures
        end == from + digits(text@, from as int),
        end <= text.len(),
{
    let mut end = from;
    while end < text.len() && '0' <= text[end] && text[end] <= '9'
        invariant
            from <= end <= text.len(),
            digits(text@, from as int) == (end - from) + digits(text@, end as int),
        decreases text.len() - end,
    {
        end += 1;
    }
    end
}

/// The index after the characters in a row from `from` on that a word may go
/// on with.
fn end_of_word(text: &Vec<char>, from: usize) -> (end: usize)
    requires
        from <= text.len(),
    ensures
        end == from + word_tail(text@, from as int),
        end <= text.len(),
{
    let mut end = from;
    while end < text.len() && (is_alphanumeric(text[end]) || text[end] == '_')
        invariant
            from <= end <= text.len(),
            word_tail(text@, from as int) == (end - from) + word_tail(text@, end as int),
        decreases text.len() - end,
    {
        end += 1;
    }
    end
}

/// The index after the end of the line that `from` is in.
fn end_of_line(text: &Vec<char>, from: usize) -> (end: usize)
    requires
        from <= text.len(),
    ensures
        end == from + rest_of_line(text@, from as int),
        end <= text.len(),
{
    let mut end = from;
    while end < text.len()
        invariant
            from <= end <= text.len(),
            rest_of_line(text@, from as int) == (end - from) + rest_of_line(text@, end as int),
        decreases text.len() - end,
    {
        if text[end] == '\n' {
            return end + 1;
        }
        end += 1;
    }
    end
}

/// The index after the first `]]` at or after `from`.
fn end_of_block(text: &Vec<char>, from: usize) -> (end: usize)
    requires
        from <= text.len(),
    ensures
        end == from + rest_of_block(text@, from as int),
        end <= text.len(),
{
    let mut end = from;
    while end < text.len()
        invariant
            from <= end <= text.len(),
            rest_of_block(text@, from as int) == (end - from) + rest_of_block(text@, end as int),
        decreases text.len() - end,
    {
        if text[end] == ']' && end + 1 < text.len() && text[end + 1] == ']' {
            return end + 2;
        }
        end += 1;
    }
    end
}

/// The value of a digit.
fn digit_value(c: char) -> (value: u32)
    requires
        is_digit(c),
    ensures
        value == c as nat - '0' as nat,
        value <= 9,
{
    (c as u32) - ('0' as u32)
}

/// More digits never write a smaller number.
proof fn lemma_decimal_grows(text: Seq<char>, from: int, middle: int, to: int)
    requires
        0 <= from <= middle <= to <= text.len(),
        forall|i: int| from <= i < to ==> is_digit(#[trigger] text[i]),
    ensures
        decimal(text, from, middle) <= decimal(text, from, to),
    decreases to - middle,
{
    if middle < to {
        lemma_decimal_grows(text, from, middle, to - 1);
        assert(is_digit(text[to - 1]));
    }
}

/// The number that the digits from `from` up to `to` write, if it fits 32
/// bits.
fn number(text: &Vec<char>, from: usize, to: usize) -> (value: Option<i32>)
    requires
        from <= to <= text.len(),
        forall|i: int| from <= i < to ==> is_digit(#[trigger] text@[i]),
    ensures
        match value {
            Some(n) => n == decimal(text@, from as int, to as int),
            None => decimal(text@, from as int, to as int) > i32::MAX,
        },
{
    let mut value: u32 = 0;
    let mut i = from;
    while i < to
        invariant
            from <= i <= to <= text.len(),
            forall|k: int| from <= k < to ==> is_digit(#[trigger] text@[k]),
            value == decimal(text@, from as int, i as int),
            value <= i32::MAX,
        decreases to - i,
    {
        assert(is_digit(text@[i as int]));
        let digit = digit_value(text[i]);
        if value > (i32::MAX as u32 - digit) / 10 {
            proof {
                lemma_decimal_grows(text@, from as int, i + 1, to as int);
            }
            return None;
        }
        value = value * 10 + digit;
        i += 1;
    }
    Some(value as i32)
}

/// Whether the word is reserved.
fn keyword(word: &String) -> (reserved: bool)
    ensures
        reserved == is_keyword(word@),
{
    *word == "var".to_owned() || *word == "mut".to_owned() || *word == "if".to_owned() || *word
        == "else".to_owned() || *word == "elseif".to_owned() || *word == "while".to_owned()
        || *word == "break".to_owned() || *word == "continue".to_owned() || *word
        == "fun".to_owned() || *word == "return".to_owned() || *word == "out".to_owned()
}

/// Whether the operator text assigns.
fn assigner(op: &String) -> (assigns: bool)
    ensures
        assigns == is_assigner(op@),
{
    *op == "=".to_owned() || *op == "+=".to_owned() || *op == "-=".to_owned() || *op
        == "*=".to_owned() || *op == "/=".to_owned() || *op == "%=".to_owned()
}

/// Whether an operator or an assigner starts with the character.
fn operator_start(c: char) -> (starts: bool)
    ensures
        starts == starts_operator(c),
{
    c == '+' || c == '-' || c == '*' || c == '/' || c == '%' || c == '=' || c == '<' || c == '>'
        || c == '~' || c == '&' || c == '|'
}

/// Whether the character is a token by itself.
fn symbol(c: char) -> (single: bool)
    ensures
        single == is_symbol(c),
{
    c == ',' || c == '(' || c == ')' || c == '{' || c == '}' || c == '!'
}

/// The characters of `input` from `from` up to `to`, as a string. Where the
/// whole input is known to be ASCII the characters are found at once;
/// elsewhere they are counted from the start.
fn slice(input: &str, ascii: bool, from: usize, to: usize) -> (text: String)
    requires
        from <= to <= input@.len(),
        ascii ==> input.is_ascii(),
    ensures
        text@ == input@.subrange(from as int, to as int),
{
    if ascii {
        input.substring_ascii(from, to).to_owned()
    } else {
        input.substring_char(from, to).to_owned()
    }
}

/// Splits the text into tokens.
pub fn tokenize(input: &str) -> (outcome: Result<Vec<Token>, SyntaxError>)
    ensures
        tokens_outcome(outcome) == scan(input@, 0, Seq::empty()),
{
    let text = characters(input);
    let ascii = input.is_ascii();
    let mut tokens: Vec<Token> = Vec::new();
    let mut at: usize = 0;
    assert(lexemes(tokens@) =~= Seq::empty());
    while at < text.len()
        invariant
            at <= text.len(),
            text@ == input@,
            ascii ==> input.is_ascii(),
            scan(input@, 0, Seq::empty()) == scan(input@, at as int, lexemes(tokens@)),
        decreases text.len() - at,
    {
        let c = text[at];
        let ghost before = lexemes(tokens@);
        if c == ' ' || c == '\t' || c == '\n' || c == ';' {
            at += 1;
        } else if '0' <= c && c <= '9' {
            let end = end_of_digits(&text, at + 1);
            proof {
                lemma_digits_are_digits(text@, at + 1);
            }
            match number(&text, at, end) {
                Some(value) => {
                    tokens.push(Token::Number(value));
                    assert(lexemes(tokens@) =~= before.push(Lexeme::Number(value)));
                    at = end;
                },
                None => {
                    return Err(SyntaxError::NumberOutOfRange);
                },
            }
        } else if ('a' <= c && c <= 'z') || ('A' <= c && c <= 'Z') || c == '_' {
            let end = end_of_word(&text, at + 1);
            let word = slice(input, ascii, at, end);
            if keyword(&word) {
                tokens.push(Token::Keyword(word));
                assert(lexemes(tokens@) =~= before.push(Lexeme::Keyword(word@)));
            } else {
                tokens.push(Token::Identifier(word));
                assert(lexemes(tokens@) =~= before.push(Lexeme::Identifier(word@)));
            }
            at = end;
        } else if operator_start(c) {
            let end = if at + 1 < text.len() && text[at + 1] == '=' {
                at + 2
            } else {
                at + 1
            };
            let op = slice(input, ascii, at, end);
            if assigner(&op) {
                tokens.push(Token::Assigner(op));
                assert(lexemes(tokens@) =~= before.push(Lexeme::Assigner(op@)));
            } else {
                tokens.push(Token::Operator(op));
                assert(lexemes(tokens@) =~= before.push(Lexeme::Operator(op@)));
            }
            at = end;
        } else if symbol(c) {
            tokens.push(Token::Symbol(c));
            assert(lexemes(tokens@) =~= before.push(Lexeme::Symbol(c)));
            at += 1;
        } else if c == '#' {
            if at + 1 < text.len() && text[at + 1] == '[' {
                at = end_of_block(&text, at + 2);
            } else {
                at = end_of_line(&text, at + 1);
            }
        } else {
            return Err(SyntaxError::UnexpectedCharacter(c));
        }
    }
    Ok(tokens)
}

/// The characters that `digits` counts are digits.
proof fn lemma_digits_are_digits(text: Seq<char>, from: int)
    requires
        0 <= from,
    ensures
        from + digits(text, from) <= text.len() || digits(text, from) == 0,
        forall|i: int| from <= i < from + digits(text, from) ==> is_digit(#[trigger] text[i]),
    decreases text.len() - from,
{
    if from < text.len() && is_digit(text[from]) {
        lemma_digits_are_digits(text, from + 1);
    }
}

} // verus!
