//! Questions on the plain terminal, between the full-screen sessions: what is
//! printed, and what an answer means.
//!
//! An answer is a line of input, or `None` if the input has ended. The end of
//! input never agrees to anything.

use vstd::prelude::*;

use crate::text;
use crate::text::{lowered, trimmed};

verus! {

/// What is left of an answer: no white space around it, in lower case.
pub open spec fn plain_answer(line: Seq<char>) -> Seq<char> {
    lowered(trimmed(line))
}

/// What is left of an answer.
pub fn plain(line: &str) -> (r: Vec<char>)
    ensures
        r@ == plain_answer(line@),
{
    let all = text::chars(line);
    text::lower(text::trim(&all))
}

/// Whether the characters are those of the word.
pub fn is_word(s: &[char], word: &str) -> (r: bool)
    ensures
        r == (s@ == word@),
{
    text::same_chars(s, &text::chars(word))
}

/// Agrees where agreeing is the default: `y`, or nothing at all.
pub open spec fn agrees(answer: Option<Seq<char>>) -> bool {
    answer matches Some(line) && (trimmed(line).len() == 0 || plain_answer(line) == "y"@)
}

/// Agrees where declining is the default: `y` or `yes`.
pub open spec fn insists(answer: Option<Seq<char>>) -> bool {
    answer matches Some(line) && (plain_answer(line) == "y"@ || plain_answer(line) == "yes"@)
}

/// The characters of an optional answer.
pub open spec fn answer_view(answer: Option<&str>) -> Option<Seq<char>> {
    match answer {
        Some(line) => Some(line@),
        None => None,
    }
}

/// Whether the answer to a `[Y/n]` question agrees.
pub fn confirm(answer: Option<&str>) -> (r: bool)
    ensures
        r == agrees(answer_view(answer)),
{
    match answer {
        Some(line) => {
            let p = plain(line);
            let all = text::chars(line);
            text::trim(&all).len() == 0 || is_word(&p, "y")
        },
        None => false,
    }
}

/// Whether the answer to a `[y/N]` question agrees: for what is destructive or out
/// of the ordinary.
pub fn confirm_no(answer: Option<&str>) -> (r: bool)
    ensures
        r == insists(answer_view(answer)),
{
    match answer {
        Some(line) => {
            let p = plain(line);
            is_word(&p, "y") || is_word(&p, "yes")
        },
        None => false,
    }
}

/// The question as it is printed, with the hint what can be answered.
pub fn ask(question: &str, hint: &str) -> (r: String)
    ensures
        r@ == question@ + " "@ + hint@ + " "@,
{
    let mut out = question.to_string();
    out.append(" ");
    out.append(hint);
    out.append(" ");
    out
}

/// Chooses to abort rather than go on: `a`, or the end of input.
pub open spec fn aborts(answer: Option<Seq<char>>) -> bool {
    match answer {
        Some(line) => plain_answer(line) == "a"@,
        None => true,
    }
}

/// Whether the answer to the question that waits for conflicts to be resolved
/// chooses to abort.
pub fn prompt_abort_or_continue(answer: Option<&str>) -> (r: bool)
    ensures
        r == aborts(answer_view(answer)),
{
    match answer {
        Some(line) => is_word(&plain(line), "a"),
        None => true,
    }
}

/// The end of input declines every question, and gives up waiting.
pub proof fn end_of_input_declines()
    ensures
        !agrees(None),
        !insists(None),
        aborts(None),
{
}

/// An empty answer takes the default: it agrees where agreeing is the default,
/// declines where declining is, and goes on where the alternative is to abort.
pub proof fn empty_answer_takes_the_default(line: Seq<char>)
    requires
        trimmed(line).len() == 0,
    ensures
        agrees(Some(line)),
        !insists(Some(line)),
        !aborts(Some(line)),
{
    reveal_strlit("y");
    reveal_strlit("yes");
    reveal_strlit("a");
    assert(plain_answer(line).len() == 0);
}

/// What is answered, apart from the case and the white space around it, decides: `y`
/// agrees, to what is the default and to what is not; `yes` insists too; `a` aborts.
pub proof fn answers_mean_what_they_say(line: Seq<char>)
    ensures
        lowered(trimmed(line)) == "y"@ ==> agrees(Some(line)) && insists(Some(line)) && !aborts(
            Some(line),
        ),
        lowered(trimmed(line)) == "yes"@ ==> insists(Some(line)) && !agrees(Some(line)) && !aborts(
            Some(line),
        ),
        lowered(trimmed(line)) == "a"@ <==> aborts(Some(line)),
        lowered(trimmed(line)) == "a"@ ==> !agrees(Some(line)) && !insists(Some(line)),
        agrees(Some(line)) ==> trimmed(line).len() == 0 || lowered(trimmed(line)) == "y"@,
        insists(Some(line)) ==> lowered(trimmed(line)) == "y"@ || lowered(trimmed(line)) == "yes"@,
{
    reveal_strlit("y");
    reveal_strlit("yes");
    reveal_strlit("a");
    assert("y"@[0] == 'y');
    assert("a"@[0] == 'a');
    assert("yes"@.len() == 3);
    assert(lowered(trimmed(line)).len() == trimmed(line).len());
}

/// The case of an answer does not matter: a letter and its capital mean the same.
pub proof fn capitals_mean_the_same(line: Seq<char>)
    requires
        trimmed(line) == seq!['Y'] || trimmed(line) == seq!['y'],
    ensures
        agrees(Some(line)),
        insists(Some(line)),
{
    reveal_strlit("y");
    assert(plain_answer(line) =~= "y"@);
}

} // verus!
