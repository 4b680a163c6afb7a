//! Text operations that the page handlers rely on, each with the statement of
//! what it computes over the characters of its arguments.

use vstd::prelude::*;

verus! {

/// The characters of a text that may be missing.
pub open spec fn text_view(text: Option<String>) -> Option<Seq<char>> {
    match text {
        Some(t) => Some(t@),
        None => None,
    }
}

/// `needle` occurs in `text` as a run of consecutive characters.
pub open spec fn occurs_in(needle: Seq<char>, text: Seq<char>) -> bool {
    exists|at: int|
        0 <= at && at + needle.len() <= text.len() && #[trigger] text.subrange(
            at,
            at + needle.len(),
        ) == needle
}

/// The characters with the Unicode property `White_Space`.
pub open spec fn is_white_space(c: char) -> bool {
    let code = c as u32;
    (0x09 <= code && code <= 0x0D) || code == 0x20 || code == 0x85 || code == 0xA0 || code
        == 0x1680 || (0x2000 <= code && code <= 0x200A) || code == 0x2028 || code == 0x2029
        || code == 0x202F || code == 0x205F || code == 0x3000
}

/// `text` without its leading white space.
pub open spec fn trimmed_start(text: Seq<char>) -> Seq<char>
    decreases text.len(),
{
    if text.len() > 0 && is_white_space(text.first()) {
        trimmed_start(text.drop_first())
    } else {
        text
    }
}

/// `text` without its trailing white space.
pub open spec fn trimmed_end(text: Seq<char>) -> Seq<char>
    decreases text.len(),
{
    if text.len() > 0 && is_white_space(text.last()) {
        trimmed_end(text.drop_last())
    } else {
        text
    }
}

/// `text` without its leading and trailing white space.
pub open spec fn trimmed(text: Seq<char>) -> Seq<char> {
    trimmed_end(trimmed_start(text))
}

/// `text` with `with` in the place of each occurrence of the character `from`.
pub open spec fn replaced(text: Seq<char>, from: char, with: Seq<char>) -> Seq<char>
    decreases text.len(),
{
    if text.len() == 0 {
        text
    } else if text.first() == from {
        with + replaced(text.drop_first(), from, with)
    } else {
        seq![text.first()] + replaced(text.drop_first(), from, with)
    }
}

/// What the regular expression engine answers when it is asked whether the
/// expression `pattern` matches anywhere in `text`: `None` where `pattern` is
/// no expression that the engine compiles.
pub uninterp spec fn pattern_match(pattern: Seq<char>, text: Seq<char>) -> Option<bool>;

/// Tells whether the regular expression `pattern` matches anywhere in `text`.
///
/// Trusted: compiles the expression with `regex::Regex::new` and searches
/// with `Regex::is_match`. Both depend on their arguments alone, so the
/// answer is given a name; nothing else is claimed of it.
#[verifier::external_body]
pub(crate) fn matches_pattern(pattern: &str, text: &str) -> (found: Option<bool>)
    ensures
        found == pattern_match(pattern@, text@),
{
    regex::Regex::new(pattern).ok().map(|expression| expression.is_match(text))
}

/// Tells whether `needle` occurs in `text`.
///
/// Trusted: calls `str::contains` with a string pattern, which std documents
/// to answer whether the pattern matches a sub-slice of the text.
#[verifier::external_body]
pub(crate) fn contains(text: &str, needle: &str) -> (found: bool)
    ensures
        found == occurs_in(needle@, text@),
{
    text.contains(needle)
}

/// Removes the white space around `text`.
///
/// Trusted: calls `str::trim`, which std documents to remove the leading and
/// trailing characters that have the Unicode property `White_Space`.
#[verifier::external_body]
pub(crate) fn trim(text: &str) -> (inner: &str)
    ensures
        inner@ == trimmed(text@),
{
    text.trim()
}

/// Replaces each occurrence of a character by a text.
///
/// Trusted: calls `str::replace` with a character pattern, which std
/// documents to replace every match of the pattern by the given text.
#[verifier::external_body]
pub(crate) fn replace(text: &str, from: char, with: &str) -> (out: String)
    ensures
        out@ == replaced(text@, from, with@),
{
    text.replace(from, with)
}

/// Replacing a character in a text that holds it nowhere leaves the text as
/// it is.
pub proof fn lemma_replaced_without(text: Seq<char>, from: char, with: Seq<char>)
    requires
        !text.contains(from),
    ensures
        replaced(text, from, with) == text,
    decreases text.len(),
{
    if text.len() > 0 {
        let rest = text.drop_first();
        assert forall|c: char| rest.contains(c) implies text.contains(c) by {
            let i = choose|i: int| 0 <= i < rest.len() && rest[i] == c;
            assert(text[i + 1] == c);
        }
        assert(text[0] == text.first());
        lemma_replaced_without(rest, from, with);
        assert(seq![text.first()] + rest =~= text);
    }
}

/// A replacement whose new text is free of the replaced character leaves
/// that character nowhere in its result.
pub proof fn lemma_replaced_is_free(text: Seq<char>, from: char, with: Seq<char>)
    requires
        !with.contains(from),
    ensures
        !replaced(text, from, with).contains(from),
    decreases text.len(),
{
    if text.len() > 0 {
        let rest = replaced(text.drop_first(), from, with);
        lemma_replaced_is_free(text.drop_first(), from, with);
        let head = if text.first() == from {
            with
        } else {
            seq![text.first()]
        };
        assert(replaced(text, from, with) == head + rest);
        assert forall|i: int| 0 <= i < (head + rest).len() implies (head + rest)[i] != from by {
            if i < head.len() {
                assert(head[i] == (head + rest)[i]);
                if head.contains(from) {
                }
                assert(head.contains(head[i]));
            } else {
                assert(rest[i - head.len()] == (head + rest)[i]);
                assert(rest.contains(rest[i - head.len()]));
            }
        }
    }
}

} // verus!
