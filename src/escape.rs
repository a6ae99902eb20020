//! Backslash-escape resolution of literal text.

use vstd::prelude::*;
use crate::format::{chars_of, string_from_chars};

verus! {

/// What snailquote's `unescape` returns for a string: its decoded text, or
/// `None` where it reports a malformed escape.
pub uninterp spec fn unescaped(s: Seq<char>) -> Option<Seq<char>>;

/// Relies on snailquote::unescape, which decodes quoted sections and backslash
/// escapes and fails on a malformed escape; its result depends on the text alone.
#[verifier::external_body]
fn unescape_str(s: &str) -> (r: Option<String>)
    ensures
        match r {
            Some(v) => unescaped(s@) == Some(v@),
            None => unescaped(s@) is None,
        },
{
    snailquote::unescape(s).ok()
}

/// The text wrapped in double quotes.
pub open spec fn quoted(t: Seq<char>) -> Seq<char> {
    seq!['"'] + t + seq!['"']
}

/// A literal after escape resolution: the decoded form of the quoted text, or
/// the text unchanged when decoding fails.
pub open spec fn resolved(t: Seq<char>) -> Seq<char> {
    match unescaped(quoted(t)) {
        Some(v) => v,
        None => t,
    }
}

/// Chooses the text of a literal once decoding has been tried: the decoded
/// text when there is one, otherwise the original text.
pub fn decoded_or_kept(text: String, decoded: Option<String>) -> (r: String)
    ensures
        r@ == (match decoded {
            Some(v) => v@,
            None => text@,
        }),
{
    match decoded {
        Some(v) => v,
        None => text,
    }
}

/// Resolves the backslash escapes of a literal, as inside a double-quoted
/// string; a malformed escape leaves the literal unchanged.
pub fn resolve_literal(text: &String) -> (r: String)
    ensures
        r@ == resolved(text@),
{
    let mut q: Vec<char> = vec!['"'];
    let mut body = chars_of(text.as_str());
    q.append(&mut body);
    q.push('"');
    let wrapped = string_from_chars(&q);
    assert(wrapped@ =~= quoted(text@));
    let decoded = unescape_str(wrapped.as_str());
    decoded_or_kept(text.clone(), decoded)
}

} // verus!
