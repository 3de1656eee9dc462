//! Extraction of a braced resource reference — `#{...}` — from a picture
//! description: the reference names the image bytes to fetch, and the
//! description keeps everything around it.

use vstd::prelude::*;

verus! {

/// What extracting the first braced group with a regular expression
/// returns for a pattern and a text: the text with the leftmost match
/// removed, and what group one captured; nothing when the text does not
/// match (or the pattern does not compile).
pub uninterp spec fn regex_extract_of(pattern: Seq<char>, text: Seq<char>) -> Option<
    (Seq<char>, Seq<char>),
>;

/// Relies on regex::Regex::new, Regex::captures and Regex::replace: for one
/// pattern, whether the text matches, what group one captured, and the text
/// with the leftmost match replaced by nothing all depend on the pattern
/// and the text alone.
#[verifier::external_body]
fn regex_extract(pattern: &str, text: &str) -> (r: Option<(String, String)>)
    ensures
        r is Some <==> regex_extract_of(pattern@, text@) is Some,
        r matches Some(p) ==> regex_extract_of(pattern@, text@) matches Some(sp) && p.0@ == sp.0
            && p.1@ == sp.1,
{
    let re = match regex::Regex::new(pattern) {
        Ok(re) => re,
        Err(_) => return None,
    };
    let caps = match re.captures(text) {
        Some(c) => c,
        None => return None,
    };
    let cap = match caps.get(1) {
        Some(m) => m.as_str().to_string(),
        None => String::new(),
    };
    Some((re.replace(text, "").into_owned(), cap))
}

/// The braced resource reference of a description: the description with
/// the `#{...}` reference removed, and the reference itself; nothing when
/// the description carries no such reference.
pub fn extract_url(value: &str) -> (r: Option<(String, String)>)
    ensures
        r is Some <==> regex_extract_of("#\\{(.*)\\}"@, value@) is Some,
        r matches Some(p) ==> regex_extract_of("#\\{(.*)\\}"@, value@) matches Some(sp) && p.0@
            == sp.0 && p.1@ == sp.1,
{
    regex_extract("#\\{(.*)\\}", value)
}

} // verus!
