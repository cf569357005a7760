//! From a failure to a short, stable code.
//!
//! The code is made from the message of the innermost cause: the part
//! before the first `:` or `(`, without surrounding white space, in lower
//! case. The message is cut by the `regex` crate; what it hands back is
//! accepted only where it is that part.

use vstd::prelude::*;
use regex::Regex;
use crate::failure::{root_message, root_of, Failure};
use crate::text::{chars_of, lower, lowered, trim, trimmed};

verus! {

#[verifier::external_type_specification]
#[verifier::external_body]
pub struct ExRegexError(regex::Error);

/// What cutting `text` at the matches of `pattern` begins with: `None`
/// where `regex::Regex::new` refuses the pattern, else the first item of
/// `Regex::split`, itself `None` where the split yields no item.
pub uninterp spec fn split_head(pattern: Seq<char>, text: Seq<char>) -> Option<Option<Seq<char>>>;

/// Compiles `pattern` with `regex::Regex::new` and takes the first item of
/// `Regex::split` on `text`. The result is taken as the meaning of
/// `split_head`; nothing more is claimed of it.
#[verifier::external_body]
fn first_piece(pattern: &str, text: &str) -> (piece: Result<Option<String>, regex::Error>)
    ensures
        piece is Err <==> split_head(pattern@, text@) is None,
        piece matches Ok(Some(head)) ==> split_head(pattern@, text@) == Some(Some(head@)),
        piece matches Ok(None) ==> split_head(pattern@, text@) == Some(None::<Seq<char>>),
{
    let splitter = Regex::new(pattern)?;
    let head = splitter.split(text).next().map(String::from);
    Ok(head)
}

/// Why a message could not be turned into a code.
#[derive(Debug, PartialEq, Eq, Clone, Copy)]
pub enum NormalizeError {
    /// The pattern was refused as a regular expression.
    PatternRefused,
    /// The message was not cut before its first delimiter.
    SplitDisagrees,
}

/// The regular expression that matches a delimiter.
pub open spec fn delimiters() -> Seq<char> {
    ":|\\("@
}

/// Whether `c` ends the part of a message that the code is made from.
pub open spec fn is_delimiter(c: char) -> bool {
    c == ':' || c == '('
}

/// The number of characters of `text` before its first delimiter: all of
/// them where it has none.
pub open spec fn head_length(text: Seq<char>) -> nat
    decreases text.len(),
{
    if text.len() > 0 && !is_delimiter(text.first()) {
        1 + head_length(text.drop_first())
    } else {
        0
    }
}

/// The part of `text` before its first delimiter: all of it where it has
/// none.
pub open spec fn before_delimiter(text: Seq<char>) -> Seq<char> {
    text.subrange(0, head_length(text) as int)
}

/// The code of a message.
pub open spec fn code_of_message(message: Seq<char>) -> Seq<char> {
    lowered(trimmed(before_delimiter(message)))
}

/// The code of a failure: that of the message of its innermost cause.
pub open spec fn normalized(failure: Failure) -> Seq<char> {
    code_of_message(root_message(failure))
}

/// The text of the first item of a split: empty where there is no item.
pub open spec fn piece_text(piece: Option<Seq<char>>) -> Seq<char> {
    match piece {
        Some(head) => head,
        None => Seq::empty(),
    }
}

/// Whether cutting `message` by `pattern` gives the part before its first
/// delimiter.
pub open spec fn cut_agrees(pattern: Seq<char>, message: Seq<char>) -> bool {
    split_head(pattern, message) matches Some(piece) && piece_text(piece) == before_delimiter(
        message,
    )
}

/// The refusal that cutting `message` by `pattern` ends in, where it does
/// not give the part before the first delimiter.
pub open spec fn refusal(pattern: Seq<char>, message: Seq<char>) -> NormalizeError {
    if split_head(pattern, message) is None {
        NormalizeError::PatternRefused
    } else {
        NormalizeError::SplitDisagrees
    }
}

/// The part before the first delimiter holds no delimiter, and ends at a
/// delimiter or at the end of the text.
pub proof fn head_ends_at_first_delimiter(text: Seq<char>)
    ensures
        head_length(text) <= text.len(),
        forall|k: int| 0 <= k < head_length(text) ==> !is_delimiter(#[trigger] text[k]),
        head_length(text) < text.len() ==> is_delimiter(text[head_length(text) as int]),
    decreases text.len(),
{
    if text.len() > 0 && !is_delimiter(text.first()) {
        let rest = text.drop_first();
        head_ends_at_first_delimiter(rest);
        assert forall|k: int| 0 <= k < head_length(text) implies !is_delimiter(#[trigger] text[k]) by {
            if k > 0 {
                assert(text[k] == rest[k - 1]);
            }
        }
        if head_length(text) < text.len() {
            assert(text[head_length(text) as int] == rest[head_length(rest) as int]);
        }
    }
}

/// A place of `text` that no delimiter stands before, and at which a
/// delimiter stands or the text ends, is where its head ends.
pub proof fn head_length_found(text: Seq<char>, n: int)
    requires
        0 <= n <= text.len(),
        forall|k: int| 0 <= k < n ==> !is_delimiter(#[trigger] text[k]),
        n < text.len() ==> is_delimiter(text[n]),
    ensures
        head_length(text) == n,
    decreases n,
{
    if n > 0 {
        let rest = text.drop_first();
        assert(!is_delimiter(text[0]));
        assert forall|k: int| 0 <= k < n - 1 implies !is_delimiter(#[trigger] rest[k]) by {
            assert(rest[k] == text[k + 1]);
        }
        head_length_found(rest, n - 1);
    }
}

/// Whether `head` is the part of `message` before its first delimiter.
pub fn is_head_of(head: &str, message: &str) -> (same: bool)
    ensures
        same == (head@ == before_delimiter(message@)),
{
    let found = chars_of(head);
    let given = chars_of(message);
    proof {
        head_ends_at_first_delimiter(message@);
    }
    if found.len() > given.len() {
        return false;
    }
    let mut i: usize = 0;
    while i < found.len()
        invariant
            i <= found.len() <= given.len(),
            found@ == head@,
            given@ == message@,
            forall|k: int| 0 <= k < i ==> found@[k] == #[trigger] given@[k],
            forall|k: int| 0 <= k < i ==> !is_delimiter(#[trigger] given@[k]),
        decreases found.len() - i,
    {
        if found[i] != given[i] || given[i] == ':' || given[i] == '(' {
            proof {
                head_ends_at_first_delimiter(message@);
                if head@ == before_delimiter(message@) {
                    assert(before_delimiter(message@)[i as int] == given@[i as int]);
                }
            }
            return false;
        }
        i = i + 1;
    }
    if i < given.len() && !(given[i] == ':' || given[i] == '(') {
        proof {
            head_ends_at_first_delimiter(message@);
        }
        return false;
    }
    proof {
        head_length_found(message@, i as int);
        assert(head@ =~= before_delimiter(message@));
    }
    true
}

/// Makes the code of `message` from the first item that a split of it gave:
/// the item trimmed and in lower case. The item is accepted only where it
/// is the part of the message before the first delimiter.
pub fn code_from_piece(piece: Option<&str>, message: &str) -> (code: Result<String, NormalizeError>)
    ensures
        code is Ok <==> piece_text(
            match piece {
                Some(h) => Some(h@),
                None => None,
            },
        ) == before_delimiter(message@),
        code matches Ok(c) ==> c@ == code_of_message(message@),
        code matches Err(e) ==> e == NormalizeError::SplitDisagrees,
{
    proof {
        reveal_strlit("");
        assert(""@ =~= Seq::<char>::empty());
    }
    let head: &str = match piece {
        Some(h) => h,
        None => "",
    };
    if is_head_of(head, message) {
        Ok(lower(trim(head)))
    } else {
        Err(NormalizeError::SplitDisagrees)
    }
}

/// The code of `message`, cut by `pattern`.
pub fn code_under(pattern: &str, message: &str) -> (code: Result<String, NormalizeError>)
    ensures
        code is Ok <==> cut_agrees(pattern@, message@),
        code matches Ok(c) ==> c@ == code_of_message(message@),
        code matches Err(e) ==> e == refusal(pattern@, message@),
{
    match first_piece(pattern, message) {
        Err(_) => Err(NormalizeError::PatternRefused),
        Ok(None) => code_from_piece(None, message),
        Ok(Some(head)) => code_from_piece(Some(head.as_str()), message),
    }
}

/// The code of `message`.
pub fn code_of(message: &str) -> (code: Result<String, NormalizeError>)
    ensures
        code is Ok <==> cut_agrees(delimiters(), message@),
        code matches Ok(c) ==> c@ == code_of_message(message@),
        code matches Err(e) ==> e == refusal(delimiters(), message@),
{
    code_under(":|\\(", message)
}

/// The code of a failure: the code of the message of its innermost cause.
pub fn normalize(failure: &Failure) -> (code: Result<String, NormalizeError>)
    ensures
        code is Ok <==> cut_agrees(delimiters(), root_message(*failure)),
        code matches Ok(c) ==> c@ == normalized(*failure),
        code matches Err(e) ==> e == refusal(delimiters(), root_message(*failure)),
{
    code_of(failure.root().message.as_str())
}

/// Two failures whose innermost causes have the same message have the same
/// code, whatever wraps those causes; and where the one is refused, so is
/// the other, for the same reason.
pub proof fn code_depends_on_root_message_only(a: Failure, b: Failure)
    requires
        root_message(a) == root_message(b),
    ensures
        normalized(a) == normalized(b),
        cut_agrees(delimiters(), root_message(a)) == cut_agrees(delimiters(), root_message(b)),
        refusal(delimiters(), root_message(a)) == refusal(delimiters(), root_message(b)),
{
}

/// Wrapping a failure in another does not change its code.
pub proof fn wrapping_keeps_code(outer: Failure, inner: Failure)
    requires
        outer.cause == Some(Box::new(inner)),
    ensures
        normalized(outer) == normalized(inner),
{
    assert(root_of(outer) == root_of(inner));
}

/// A message without a delimiter is taken whole.
pub proof fn message_without_delimiter_is_whole(message: Seq<char>)
    requires
        forall|k: int| 0 <= k < message.len() ==> !is_delimiter(#[trigger] message[k]),
    ensures
        before_delimiter(message) == message,
        code_of_message(message) == lowered(trimmed(message)),
{
    head_length_found(message, message.len() as int);
    assert(before_delimiter(message) =~= message);
}

/// The empty message, and a message that starts with a delimiter, have the
/// empty code.
pub proof fn nothing_before_delimiter_is_empty_code(message: Seq<char>)
    requires
        message.len() == 0 || is_delimiter(message[0]),
    ensures
        code_of_message(message).len() == 0,
{
    assert(before_delimiter(message) =~= Seq::<char>::empty());
    assert(trimmed(Seq::<char>::empty()) =~= Seq::<char>::empty());
}

} // verus!
