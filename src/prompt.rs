use vstd::prelude::*;

use crate::specification::{PlaceholderItem, PlaceholderKind};
use crate::text::{copy_bytes, trim_exec, trim_line_ends, trim_whitespace};
use vstd::utf8::encode_utf8;

verus! {

/// Resolves placeholders from the lines a user typed.
pub struct CliPrompt {}

/// How a response left the placeholder.
#[derive(Clone, Copy, Debug, PartialEq, Eq, Structural)]
pub enum Resolution {
    Answered,
    /// A choice outside the list: the placeholder stays unanswered.
    OutOfRange,
}

pub enum PromptError {
    /// The response to a multiple-choice question is not a number.
    NotANumber(Vec<u8>),
}

pub open spec fn is_digit(b: u8) -> bool {
    48 <= b <= 57
}

/// The number that a run of decimal digits writes.
pub open spec fn digits_value(s: Seq<u8>) -> nat
    decreases s.len(),
{
    if s.len() == 0 {
        0
    } else {
        digits_value(s.drop_last()) * 10 + (s.last() - 48) as nat
    }
}

/// A run of decimal digits whose value fits in `usize`.
pub open spec fn is_digits_text(s: Seq<u8>) -> bool {
    &&& s.len() > 0
    &&& forall|k: int| 0 <= k < s.len() ==> is_digit(#[trigger] s[k])
    &&& digits_value(s) <= usize::MAX
}

/// The digits of a choice number, after an optional leading `+`.
pub open spec fn unsigned_part(s: Seq<u8>) -> Seq<u8> {
    if s.len() > 0 && s[0] == 43 {
        s.drop_first()
    } else {
        s
    }
}

/// A choice number: an optional `+`, then digits whose value fits in `usize`.
pub open spec fn is_index_text(s: Seq<u8>) -> bool {
    is_digits_text(unsigned_part(s))
}

/// The value of a choice number.
pub open spec fn index_value(s: Seq<u8>) -> nat {
    digits_value(unsigned_part(s))
}

proof fn lemma_digits_value_grows(s: Seq<u8>, n: int)
    requires
        0 <= n <= s.len(),
        forall|k: int| 0 <= k < s.len() ==> is_digit(#[trigger] s[k]),
    ensures
        digits_value(s.take(n)) <= digits_value(s),
    decreases s.len(),
{
    if n < s.len() {
        assert(s.drop_last().take(n) =~= s.take(n));
        lemma_digits_value_grows(s.drop_last(), n);
    } else {
        assert(s.take(n) =~= s);
    }
}

/// Reads a choice number: `None` where the text is not an optional `+` and a
/// run of digits, or does not fit.
pub fn parse_index(s: &[u8]) -> (r: Option<usize>)
    ensures
        r is Some <==> is_index_text(s@),
        r is Some ==> r->Some_0 == index_value(s@),
{
    if s.len() > 0 && s[0] == 43 {
        let d = vstd::slice::slice_subrange(s, 1, s.len());
        assert(d@ =~= s@.drop_first());
        parse_digits(d)
    } else {
        parse_digits(s)
    }
}

/// Reads a run of decimal digits: `None` where the text is not one or does not fit.
pub fn parse_digits(s: &[u8]) -> (r: Option<usize>)
    ensures
        r is Some <==> is_digits_text(s@),
        r is Some ==> r->Some_0 == digits_value(s@),
{
    if s.len() == 0 {
        return None;
    }
    let mut v: usize = 0;
    let mut i: usize = 0;
    while i < s.len()
        invariant
            i <= s@.len(),
            forall|k: int| 0 <= k < i ==> is_digit(#[trigger] s@[k]),
            v == digits_value(s@.take(i as int)),
        decreases s@.len() - i,
    {
        assert(s@.take(i + 1).drop_last() =~= s@.take(i as int));
        if s[i] < 48 || s[i] > 57 {
            return None;
        }
        let d = (s[i] - 48) as usize;
        match v.checked_mul(10) {
            None => {
                proof {
                    if forall|k: int| 0 <= k < s@.len() ==> is_digit(#[trigger] s@[k]) {
                        lemma_digits_value_grows(s@, i + 1);
                    }
                }
                return None;
            },
            Some(t) => match t.checked_add(d) {
                None => {
                    proof {
                        if forall|k: int| 0 <= k < s@.len() ==> is_digit(#[trigger] s@[k]) {
                            lemma_digits_value_grows(s@, i + 1);
                        }
                    }
                    return None;
                },
                Some(w) => {
                    v = w;
                },
            },
        }
        i = i + 1;
    }
    assert(s@.take(i as int) =~= s@);
    Some(v)
}

/// What a response does to a placeholder, and what the call returns.
pub open spec fn answer_outcome(
    before: PlaceholderItem,
    response: Seq<u8>,
    after: PlaceholderItem,
    r: Result<Resolution, PromptError>,
) -> bool {
    let t = trim_line_ends(response);
    let n = trim_whitespace(response);
    &&& after.template_key == before.template_key
    &&& after.prompt_message == before.prompt_message
    &&& after.kind == before.kind
    &&& match before.kind {
        PlaceholderKind::SingleChoice(d) => r == Ok::<Resolution, PromptError>(Resolution::Answered)
            && after.answer@ == (if t.len() == 0 { encode_utf8(d@) } else { t }),
        PlaceholderKind::MultipleChoice(options) => if !is_index_text(n) {
            r is Err && r->Err_0->NotANumber_0@ == n && after.answer@ == before.answer@
        } else if 1 <= index_value(n) <= options@.len() {
            r == Ok::<Resolution, PromptError>(Resolution::Answered)
                && after.answer@ == encode_utf8(options@[index_value(n) - 1]@)
        } else {
            r == Ok::<Resolution, PromptError>(Resolution::OutOfRange) && after.answer@ == before.answer@
        },
    }
}

impl CliPrompt {
    /// Resolves `item` from one line typed in response to it. A single choice
    /// takes the line without its line endings, or the default where that is
    /// empty. A multiple choice reads the line, without surrounding whitespace,
    /// as a 1-based position in its options; a position outside them leaves the
    /// item unanswered.
    pub fn get_answer(&self, item: &mut PlaceholderItem, response: &str) -> (r: Result<Resolution, PromptError>)
        ensures
            answer_outcome(*old(item), encode_utf8(response@), *final(item), r),
    {
        match &item.kind {
            PlaceholderKind::SingleChoice(d) => {
                let t = trim_exec(response.as_bytes(), false);
                if t.len() == 0 {
                    item.answer = copy_bytes(d.as_str().as_bytes());
                } else {
                    item.answer = t;
                }
                Ok(Resolution::Answered)
            },
            PlaceholderKind::MultipleChoice(options) => {
                let t = trim_exec(response.as_bytes(), true);
                match parse_index(t.as_slice()) {
                    None => Err(PromptError::NotANumber(t)),
                    Some(n) => {
                        if 1 <= n && n <= options.len() {
                            item.answer = copy_bytes(options[n - 1].as_str().as_bytes());
                            Ok(Resolution::Answered)
                        } else {
                            Ok(Resolution::OutOfRange)
                        }
                    },
                }
            },
        }
    }
}

} // verus!
