//! API key check of incoming requests.

use vstd::prelude::*;

verus! {

/// A request is let in when its `Authorization` header is `Bearer <api key>`.
pub open spec fn authorized(header: Option<Seq<char>>, api_key: Seq<char>) -> bool {
    header == Some("Bearer "@ + api_key)
}

/// Checks the `Authorization` header of a request against the API key.
pub fn is_authorized(header: Option<&str>, api_key: &str) -> (r: bool)
    ensures
        r == authorized(
            match header {
                Some(h) => Some(h@),
                None => None,
            },
            api_key@,
        ),
{
    match header {
        Some(h) => {
            let mut expected = "Bearer ".to_string();
            crate::text::push_str(&mut expected, api_key);
            crate::json::same_text(h, expected.as_str())
        },
        None => false,
    }
}

} // verus!
