//! What the `regex` crate and Unicode tables of std do for the library. Nothing
//! in this file is proved; each contract says what is taken on trust.

use vstd::prelude::*;

verus! {

/// No line feed stands after position `i`.
pub open spec fn to_end_of_line(s: Seq<char>, i: int) -> bool {
    forall|j: int| i < j < s.len() ==> s[j] != '\n'
}

/// Position `i` holds the first `?` after which no line feed stands up to the
/// end.
pub open spec fn is_query_start(s: Seq<char>, i: int) -> bool {
    &&& 0 <= i < s.len()
    &&& s[i] == '?'
    &&& to_end_of_line(s, i)
    &&& forall|k: int| 0 <= k < i ==> !(s[k] == '?' && to_end_of_line(s, k))
}

/// Where the query of an address begins, if it has one.
pub open spec fn query_start(s: Seq<char>) -> Option<int> {
    if exists|i: int| is_query_start(s, i) {
        Some(choose|i: int| is_query_start(s, i))
    } else {
        None
    }
}

/// An address without its query.
pub open spec fn without_query(s: Seq<char>) -> Seq<char> {
    match query_start(s) {
        Some(i) => s.subrange(0, i),
        None => s,
    }
}

/// The query of an address, from its `?` on.
pub open spec fn query_of(s: Seq<char>) -> Option<Seq<char>> {
    match query_start(s) {
        Some(i) => Some(s.subrange(i, s.len() as int)),
        None => None,
    }
}

/// `Regex::replace` with the pattern `\?.*$` and an empty replacement: the text
/// up to the first `?` that is followed by no line feed, or the whole text.
#[verifier::external_body]
pub(crate) fn strip_query(text: &str) -> (r: String)
    ensures
        r@ == without_query(text@),
{
    regex::Regex::new(r"\?.*$").unwrap().replace(text, "").to_string()
}

/// `Regex::find` with the pattern `\?.*$`: the text from the first `?` that is
/// followed by no line feed, up to the end.
#[verifier::external_body]
pub(crate) fn find_query(text: &str) -> (r: Option<String>)
    ensures
        match r {
            Some(q) => query_of(text@) == Some(q@),
            None => query_of(text@) is None,
        },
{
    regex::Regex::new(r"\?.*$").unwrap().find(text).map(|m| m.as_str().to_string())
}

/// The first `e` characters hold no line feed and end in `output.` or `input.`
/// with at least one character before it.
pub open spec fn is_context_end(s: Seq<char>, e: int) -> bool {
    &&& 0 <= e <= s.len()
    &&& forall|j: int| 0 <= j < e ==> s[j] != '\n'
    &&& (e >= 8 && s.subrange(e - 7, e) == "output."@) || (e >= 7 && s.subrange(e - 6, e)
        == "input."@)
}

/// The context that a text begins with: its longest start that is a context
/// end, if it has one.
pub open spec fn context_prefix(s: Seq<char>) -> Option<Seq<char>> {
    if exists|e: int| is_context_end(s, e) {
        Some(
            s.subrange(
                0,
                choose|e: int|
                    is_context_end(s, e) && forall|f: int| is_context_end(s, f) ==> f <= e,
            ),
        )
    } else {
        None
    }
}

/// `Regex::captures` with the pattern `^((.*).(output|input)\.)`, and the text
/// of its first group, which is the whole match. The match begins at the start
/// of the text; the dot takes any character but a line feed; the greedy `.*`
/// makes the match the longest one.
#[verifier::external_body]
pub(crate) fn find_context_prefix(text: &str) -> (r: Option<String>)
    ensures
        match r {
            Some(p) => context_prefix(text@) == Some(p@),
            None => context_prefix(text@) is None,
        },
{
    let pattern = regex::Regex::new("^((.*).(output|input)\\.)").unwrap();
    pattern.captures(text).map(|c| c.get(1).unwrap().as_str().to_string())
}

/// The upper case of a text, as `str::to_uppercase` gives it.
pub uninterp spec fn upper(text: Seq<char>) -> Seq<char>;

/// `str::to_uppercase`.
#[verifier::external_body]
pub(crate) fn to_upper(text: &str) -> (r: String)
    ensures
        r@ == upper(text@),
{
    text.to_uppercase()
}

/// The lower case of one character, as `char::to_lowercase` gives it.
pub uninterp spec fn lower_of(c: char) -> Seq<char>;

/// `char::to_lowercase`, collected.
#[verifier::external_body]
pub(crate) fn char_to_lower(c: char) -> (r: Vec<char>)
    ensures
        r@ == lower_of(c),
{
    c.to_lowercase().collect()
}

/// Whether a character is an upper case letter for `char::is_uppercase`.
pub uninterp spec fn is_upper(c: char) -> bool;

/// `char::is_uppercase`.
#[verifier::external_body]
pub(crate) fn char_is_upper(c: char) -> (r: bool)
    ensures
        r == is_upper(c),
{
    c.is_uppercase()
}

/// Whether a character is numeric for `char::is_numeric`.
pub uninterp spec fn is_numeric(c: char) -> bool;

/// `char::is_numeric`.
#[verifier::external_body]
pub(crate) fn char_is_numeric(c: char) -> (r: bool)
    ensures
        r == is_numeric(c),
{
    c.is_numeric()
}

/// A fresh random identifier: `Uuid::new_v4` in its hyphenated form. Nothing is
/// known of it.
#[verifier::external_body]
pub(crate) fn new_id() -> String {
    uuid::Uuid::new_v4().to_string()
}

/// The time now, in milliseconds since the start of 1970 (`SystemTime::now`);
/// zero for a clock that stands before that. Nothing is known of it.
#[verifier::external_body]
pub fn current_timestamp() -> u64 {
    std::time::SystemTime::now()
        .duration_since(std::time::UNIX_EPOCH)
        .map_or(0, |d| d.as_millis() as u64)
}

} // verus!
