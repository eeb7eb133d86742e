//! What the clients of other services share: the replies they read and the
//! header they send.

use crate::text;
use vstd::prelude::*;

verus! {

broadcast use vstd::string::group_string_axioms;

/// What came of a request.
pub enum Reply<T> {
    /// It was not answered, for this reason.
    Unsent(String),
    /// It was answered with a status that is no success.
    Refused { status: String, body: String },
    /// The answer could not be read, for this reason.
    Unreadable(String),
    Answered(T),
}

/// A request to another service.
pub struct Request<T> {
    pub url: String,
    pub body: T,
    /// The value of the `Authorization` header, if one is sent.
    pub authorization: Option<String>,
}

/// Whether a character may stand in the value of a header: no control
/// character but the tab.
pub open spec fn header_char(c: char) -> bool {
    (c as u32 >= 32 && c as u32 != 127) || c == '\t'
}

/// Whether a text may be the value of a header.
pub open spec fn header_text(s: Seq<char>) -> bool {
    forall|i: int| 0 <= i < s.len() ==> header_char(#[trigger] s[i])
}

/// The value of the `Authorization` header for a key; none where there is no
/// key, or the key cannot stand in a header.
pub open spec fn bearer_value(key: Option<Seq<char>>) -> Option<Seq<char>> {
    match key {
        Some(k) => if header_text(k) {
            Some("Bearer "@ + k)
        } else {
            None
        },
        None => None,
    }
}

/// The value of the `Authorization` header for a key.
pub fn bearer(key: Option<&str>) -> (r: Option<String>)
    ensures
        crate::store::opt_view(r) == bearer_value(crate::chunker::opt_text(key)),
{
    match key {
        Some(k) => {
            let v: Vec<char> = text::chars_of(k);
            let mut i: usize = 0;
            while i < v.len()
                invariant
                    v@ == k@,
                    crate::chunker::opt_text(key) == Some(k@),
                    i <= v@.len(),
                    forall|j: int| 0 <= j < i ==> header_char(#[trigger] k@[j]),
                decreases v@.len() - i,
            {
                let c: char = v[i];
                if !((c as u32 >= 32 && c as u32 != 127) || c == '\t') {
                    assert(!header_char(k@[i as int]));
                    return None;
                }
                i = i + 1;
            }
            Some(text::cat2("Bearer ", k))
        },
        None => None,
    }
}

/// A key as it is lent out.
pub fn lent(key: &Option<String>) -> (r: Option<&str>)
    ensures
        crate::chunker::opt_text(r) == crate::store::opt_view(*key),
{
    match key {
        Some(k) => Some(k.as_str()),
        None => None,
    }
}

} // verus!
