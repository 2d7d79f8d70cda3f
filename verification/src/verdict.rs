//! From what came of a function and what the solver said of its query to
//! the verdict on the function.

use vstd::prelude::*;
use vstd::string::StrSliceExecFns;
use crate::driver::{Checked, CheckedModel, ErrorReported};
use crate::result::FixpointResult;
use crate::ty::FnId;

verus! {

/// `word` stands in `text` from the position `i` on.
pub open spec fn occurs_at(text: Seq<char>, word: Seq<char>, i: int) -> bool {
    0 <= i && i + word.len() <= text.len() && forall|k: int| 0 <= k < word.len() ==> text[i + k] == word[k]
}

/// `word` stands somewhere in `text`.
pub open spec fn occurs_spec(text: Seq<char>, word: Seq<char>) -> bool {
    exists|i: int| occurs_at(text, word, i)
}

/// The characters of a text.
pub fn chars_of(text: &str) -> (v: Vec<char>)
    ensures
        v@ == text@,
{
    let n = text.unicode_len();
    let mut v: Vec<char> = Vec::new();
    let mut i: usize = 0;
    while i < n
        invariant
            n == text@.len(),
            i <= n,
            v@ == text@.subrange(0, i as int),
        decreases n - i,
    {
        v.push(text.get_char(i));
        assert(v@ =~= text@.subrange(0, i + 1));
        i = i + 1;
    }
    assert(v@ =~= text@);
    v
}

/// Whether `word` stands in `text` from the position `i` on.
pub fn occurs_here(text: &Vec<char>, word: &Vec<char>, i: usize) -> (r: bool)
    ensures
        r == occurs_at(text@, word@, i as int),
{
    if word.len() > text.len() || i > text.len() - word.len() {
        return false;
    }
    let mut k: usize = 0;
    while k < word.len()
        invariant
            k <= word@.len(),
            i + word@.len() <= text@.len(),
            text@.len() <= usize::MAX,
            forall|j: int| 0 <= j < k ==> text@[i + j] == word@[j],
        decreases word@.len() - k,
    {
        if text[i + k] != word[k] {
            return false;
        }
        k = k + 1;
    }
    true
}

/// Whether `word` stands somewhere in `text`.
pub fn occurs(text: &Vec<char>, word: &Vec<char>) -> (r: bool)
    ensures
        r == occurs_spec(text@, word@),
{
    if word.len() > text.len() {
        assert forall|i: int| !occurs_at(text@, word@, i) by {}
        return false;
    }
    let last = text.len() - word.len();
    let mut i: usize = 0;
    while i < last
        invariant
            last == text@.len() - word@.len(),
            i <= last,
            forall|j: int| 0 <= j < i ==> !occurs_at(text@, word@, j),
        decreases last - i,
    {
        if occurs_here(text, word, i) {
            return true;
        }
        i = i + 1;
    }
    let r = occurs_here(text, word, last);
    assert forall|j: int| !r implies !occurs_at(text@, word@, j) by {}
    r
}

/// What the solver says of a query: the query holds if the answer has
/// `"Safe"` in it, quotation marks included; it fails if the answer has not,
/// and has `"Unsafe"` in it; any other answer is no verdict.
pub open spec fn read_answer_spec(answer: Seq<char>) -> Option<bool> {
    if occurs_spec(answer, "\"Safe\""@) {
        Some(true)
    } else if occurs_spec(answer, "\"Unsafe\""@) {
        Some(false)
    } else {
        None
    }
}

pub fn read_answer(answer: &str) -> (r: Option<bool>)
    ensures
        r == read_answer_spec(answer@),
{
    let text = chars_of(answer);
    if occurs(&text, &chars_of("\"Safe\"")) {
        Some(true)
    } else if occurs(&text, &chars_of("\"Unsafe\"")) {
        Some(false)
    } else {
        None
    }
}

/// The verdict on the function `func`. A function without a signature or
/// with a trusted one is safe, and so is one whose query the solver found
/// to hold; one whose query the solver found to fail is reported. Where
/// checking stopped, where the solver was not heard (`answer` is `None`)
/// or where it gave no verdict, an error was reported.
pub open spec fn verdict_of_spec(checked: CheckedModel, answer: Option<Seq<char>>, func: FnId) -> Result<
    Seq<FnId>,
    ErrorReported,
> {
    match checked {
        CheckedModel::Unannotated => Ok(Seq::empty()),
        CheckedModel::Trusted => Ok(Seq::empty()),
        CheckedModel::Constraint(_) => match answer {
            Some(text) => match read_answer_spec(text) {
                Some(true) => Ok(Seq::empty()),
                Some(false) => Ok(seq![func]),
                None => Err(ErrorReported),
            },
            None => Err(ErrorReported),
        },
        CheckedModel::Failed(_) => Err(ErrorReported),
    }
}

/// The answer as contracts see it.
pub open spec fn answer_model(answer: Option<&str>) -> Option<Seq<char>> {
    match answer {
        Some(text) => Some(text@),
        None => None,
    }
}

/// The functions that a verdict reports, or the error.
pub open spec fn verdict_model(r: Result<FixpointResult, ErrorReported>) -> Result<Seq<FnId>, ErrorReported> {
    match r {
        Ok(v) => Ok(v@),
        Err(e) => Err(e),
    }
}

/// The verdict on the function `func` from what came of checking it and
/// from the answer of the solver to its query, if the solver was asked
/// and answered.
pub fn verdict_of(checked: &Checked, answer: Option<&str>, func: FnId) -> (r: Result<
    FixpointResult,
    ErrorReported,
>)
    ensures
        verdict_model(r) == verdict_of_spec(checked@, answer_model(answer), func),
{
    match checked {
        Checked::Unannotated => Ok(FixpointResult::safe()),
        Checked::Trusted => Ok(FixpointResult::safe()),
        Checked::Constraint(_) => match answer {
            Some(text) => match read_answer(text) {
                Some(true) => Ok(FixpointResult::safe()),
                Some(false) => Ok(FixpointResult::unsafe_at(func)),
                None => Err(ErrorReported),
            },
            None => Err(ErrorReported),
        },
        Checked::Failed(_) => Err(ErrorReported),
    }
}

} // verus!
