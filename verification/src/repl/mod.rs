//! What an interactive front end needs to know of a text: whether the
//! brackets opened in it are closed.

use crate::ast::lexer::characters;
use vstd::prelude::*;

verus! {

/// What a character adds to the depth of nesting: one for an opening
/// bracket, minus one for a closing bracket, nothing for anything else.
pub open spec fn bracket(c: char) -> int {
    if c == '(' || c == '{' || c == '[' {
        1
    } else if c == ')' || c == '}' || c == ']' {
        -1
    } else {
        0
    }
}

/// The brackets opened and not closed among the first `upto` characters;
/// negative where more were closed than opened.
pub open spec fn nesting(text: Seq<char>, upto: int) -> int
    decreases upto,
{
    if upto <= 0 || upto > text.len() {
        0
    } else {
        nesting(text, upto - 1) + bracket(text[upto - 1])
    }
}

/// The depth of nesting never exceeds the number of characters.
pub proof fn lemma_nesting_is_bounded(text: Seq<char>, upto: int)
    requires
        0 <= upto <= text.len(),
    ensures
        -upto <= nesting(text, upto) <= upto,
    decreases upto,
{
    if upto > 0 {
        lemma_nesting_is_bounded(text, upto - 1);
    }
}

/// The number of brackets that the text opens and does not close. The text
/// holds a whole group of statements when this is not positive.
pub fn count_nesting(input: &str) -> (count: i32)
    requires
        input@.len() <= i32::MAX,
    ensures
        count == nesting(input@, input@.len() as int),
{
    let text = characters(input);
    let mut count: i32 = 0;
    let mut i: usize = 0;
    while i < text.len()
        invariant
            i <= text.len(),
            text@ == input@,
            text.len() <= i32::MAX,
            count == nesting(text@, i as int),
        decreases text.len() - i,
    {
        proof {
            lemma_nesting_is_bounded(text@, i as int);
        }
        let c = text[i];
        if c == '(' || c == '{' || c == '[' {
            count += 1;
        } else if c == ')' || c == '}' || c == ']' {
            count -= 1;
        }
        i += 1;
    }
    count
}

} // verus!
