//! Text helpers: form validation, file-name sanitising and the few std
//! character routines the ledger relies on.
use vstd::prelude::*;
use vstd::string::StrSliceExecFns;

verus! {

/// What `str::to_lowercase` returns: it depends on the characters alone.
pub uninterp spec fn lower_of(s: Seq<char>) -> Seq<char>;

/// What `str::to_uppercase` returns: it depends on the characters alone.
pub uninterp spec fn upper_of(s: Seq<char>) -> Seq<char>;

/// Whether `char::is_alphanumeric` holds of a character.
pub uninterp spec fn alphanumeric(c: char) -> bool;

/// The characters of a string slice, in order.
pub(crate) fn chars_of(s: &str) -> (r: Vec<char>)
    ensures
        r@ == s@,
{
    let n = s.unicode_len();
    let mut out: Vec<char> = Vec::new();
    let mut i: usize = 0;
    while i < n
        invariant
            n == s@.len(),
            i <= n,
            out@ == s@.take(i as int),
        decreases n - i,
    {
        let c = s.get_char(i);
        assert(s@.take(i as int + 1) == s@.take(i as int).push(c));
        out.push(c);
        i += 1;
    }
    assert(s@.take(n as int) == s@);
    out
}

/// Relies on `String: FromIterator<&char>`: the characters, in order.
#[verifier::external_body]
pub(crate) fn string_of(v: &Vec<char>) -> (r: String)
    ensures
        r@ == v@,
{
    v.iter().collect()
}

/// Relies on `str::to_lowercase`; an empty string stays empty.
#[verifier::external_body]
fn lowercase(s: &str) -> (r: String)
    ensures
        r@ == lower_of(s@),
        s@.len() == 0 ==> r@.len() == 0,
{
    s.to_lowercase()
}

/// Relies on `str::to_uppercase`, which maps every character to one or
/// more characters, so the result is never shorter than its argument.
#[verifier::external_body]
pub(crate) fn uppercase(s: &str) -> (r: String)
    ensures
        r@ == upper_of(s@),
        r@.len() >= s@.len(),
{
    s.to_uppercase()
}

/// Relies on `char::is_alphanumeric`.
#[verifier::external_body]
fn is_alphanumeric(c: char) -> (r: bool)
    ensures
        r == alphanumeric(c),
{
    c.is_alphanumeric()
}

/// The message shown beside an empty required field.
pub open spec fn empty_input_message() -> Seq<char> {
    "Input cannot be empty"@
}

/// Returns a message when a required text field is left empty.
pub fn validate_text_input(input: &str) -> (r: Option<String>)
    ensures
        r is Some <==> input@.len() == 0,
        r is Some ==> r->Some_0@ == empty_input_message(),
{
    if input.is_empty() {
        Some(String::from_str("Input cannot be empty"))
    } else {
        None
    }
}

/// A character kept in a file name, or `_` in its place.
pub open spec fn file_char(c: char) -> char {
    if alphanumeric(c) {
        c
    } else {
        '_'
    }
}

/// The file-name form of an already lowercased text.
pub open spec fn sanitized(lower: Seq<char>) -> Seq<char> {
    lower.map_values(|c: char| file_char(c))
}

/// Lowercases the text and replaces every character that is not
/// alphanumeric with `_`.
pub fn sanitize_string(input: &str) -> (r: String)
    ensures
        r@ == sanitized(lower_of(input@)),
{
    let lower = lowercase(input);
    let cs = chars_of(lower.as_str());
    let mut out: Vec<char> = Vec::new();
    let mut i: usize = 0;
    while i < cs.len()
        invariant
            cs@ == lower_of(input@),
            i <= cs@.len(),
            out@ == sanitized(cs@.take(i as int)),
        decreases cs@.len() - i,
    {
        let c = cs[i];
        if is_alphanumeric(c) {
            out.push(c);
        } else {
            out.push('_');
        }
        assert(cs@.take(i as int + 1) == cs@.take(i as int).push(c));
        i += 1;
    }
    assert(cs@.take(cs@.len() as int) == cs@);
    string_of(&out)
}

} // verus!
