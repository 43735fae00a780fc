//! Request and response handling for the OpenAI-compatible inference server.

use vstd::prelude::*;
use base64::Engine;
use crate::text::{
    chars_of, find, find_chars, lemma_find_from_bounds, occurs_at, push_str, slice_chars,
    string_of, trim, trim_bounds, trim_end_char,
};

verus! {

/// The tag that closes a thinking block.
pub open spec fn closing_tag() -> Seq<char> {
    seq!['<', 'c', 'h', 'a', 'n', 'n', 'e', 'l', '|', '>']
}

/// The tag that opens a thinking block.
pub open spec fn opening_tag() -> Seq<char> {
    seq!['<', '|', 'c', 'h', 'a', 'n', 'n', 'e', 'l', '>']
}

/// The marker that starts a thinking block's first line.
pub open spec fn thought_marker() -> Seq<char> {
    seq!['t', 'h', 'o', 'u', 'g', 'h', 't']
}

/// LLM output with its thinking channel removed: what follows the closing
/// tag, trimmed, when that is not empty; else what follows the opening tag
/// (without a first `thought` line) up to the closing tag, if any, trimmed;
/// else the text unchanged.
pub open spec fn without_thinking(t: Seq<char>) -> Seq<char> {
    let after_close = match find(t, closing_tag()) {
        Some(end) => trim(t.subrange(end + 10, t.len() as int)),
        None => seq![],
    };
    if find(t, closing_tag()) is Some && after_close.len() > 0 {
        after_close
    } else {
        match find(t, opening_tag()) {
            Some(start) => {
                let after_tag = t.subrange(start + 10, t.len() as int);
                let content = if after_tag.len() >= 7 && after_tag.subrange(0, 7) == thought_marker() {
                    match find(after_tag, seq!['\n']) {
                        Some(i) => after_tag.subrange(i + 1, after_tag.len() as int),
                        None => after_tag,
                    }
                } else {
                    after_tag
                };
                let body = match find(content, closing_tag()) {
                    Some(e) => content.subrange(0, e),
                    None => content,
                };
                trim(body)
            },
            None => t,
        }
    }
}

fn trimmed_chars(v: &Vec<char>) -> (r: Vec<char>)
    ensures
        r@ == trim(v@),
{
    let (b, e) = trim_bounds(v);
    slice_chars(v, b, e)
}

/// Strips the Gemma thinking channel from LLM output (see [`without_thinking`]).
pub fn strip_thinking_channel(text: &str) -> (r: String)
    ensures
        r@ == without_thinking(text@),
{
    let t = chars_of(text);
    let close = vec!['<', 'c', 'h', 'a', 'n', 'n', 'e', 'l', '|', '>'];
    let open = vec!['<', '|', 'c', 'h', 'a', 'n', 'n', 'e', 'l', '>'];
    assert(close@ =~= closing_tag());
    assert(open@ =~= opening_tag());
    match find_chars(&t, &close) {
        Some(end) => {
            proof {
                lemma_find_from_bounds(t@, close@, 0);
                assert(occurs_at(t@, closing_tag(), end as int));
            }
            assert(end + 10 <= t.len());
            let after = slice_chars(&t, end + 10, t.len());
            let trimmed = trimmed_chars(&after);
            if trimmed.len() > 0 {
                return string_of(trimmed.as_slice());
            }
        },
        None => {},
    }
    match find_chars(&t, &open) {
        Some(start) => {
            proof {
                lemma_find_from_bounds(t@, open@, 0);
                assert(occurs_at(t@, opening_tag(), start as int));
            }
            assert(start + 10 <= t.len());
            let after_tag = slice_chars(&t, start + 10, t.len());
            let marker = vec!['t', 'h', 'o', 'u', 'g', 'h', 't'];
            assert(marker@ =~= thought_marker());
            let starts = crate::text::matches_at(&after_tag, &marker, 0);
            assert(starts == (after_tag@.len() >= 7 && after_tag@.subrange(0, 7)
                == thought_marker()));
            let content = if starts {
                let nl = vec!['\n'];
                assert(nl@ =~= seq!['\n']);
                match find_chars(&after_tag, &nl) {
                    Some(i) => {
                        proof {
                            lemma_find_from_bounds(after_tag@, nl@, 0);
                        }
                        slice_chars(&after_tag, i + 1, after_tag.len())
                    },
                    None => after_tag,
                }
            } else {
                after_tag
            };
            let body = match find_chars(&content, &close) {
                Some(e) => {
                    proof {
                        lemma_find_from_bounds(content@, close@, 0);
                    }
                    slice_chars(&content, 0, e)
                },
                None => content,
            };
            let trimmed = trimmed_chars(&body);
            string_of(trimmed.as_slice())
        },
        None => text.to_string(),
    }
}

/// An endpoint URL without trailing slashes (`trim_end_matches('/')`).
pub fn trim_trailing_slashes(url: &str) -> (r: String)
    ensures
        r@ == trim_end_char(url@, '/'),
{
    let v = chars_of(url);
    let mut e = v.len();
    assert(v@.subrange(0, v@.len() as int) =~= v@);
    while e > 0 && v[e - 1] == '/'
        invariant
            e <= v@.len(),
            trim_end_char(v@, '/') == trim_end_char(v@.subrange(0, e as int), '/'),
        decreases e,
    {
        assert(v@.subrange(0, e as int).drop_last() =~= v@.subrange(0, e - 1));
        e = e - 1;
    }
    let r = slice_chars(&v, 0, e);
    string_of(r.as_slice())
}

/// The character of a 6-bit value in the standard Base64 alphabet
/// (`A-Z`, `a-z`, `0-9`, `+`, `/`).
pub open spec fn b64_char(v: int) -> char {
    if v < 26 {
        (65 + v) as char
    } else if v < 52 {
        (97 + v - 26) as char
    } else if v < 62 {
        (48 + v - 52) as char
    } else if v == 62 {
        '+'
    } else {
        '/'
    }
}

/// The standard Base64 encoding (RFC 4648, with `=` padding): every three
/// bytes become four characters of six bits each; a last group of one or
/// two bytes is padded with `=`.
pub open spec fn base64_standard(bytes: Seq<u8>) -> Seq<char>
    decreases bytes.len(),
{
    if bytes.len() == 0 {
        seq![]
    } else if bytes.len() == 1 {
        let a = bytes[0] as int;
        seq![b64_char(a / 4), b64_char((a % 4) * 16), '=', '=']
    } else if bytes.len() == 2 {
        let a = bytes[0] as int;
        let b = bytes[1] as int;
        seq![b64_char(a / 4), b64_char((a % 4) * 16 + b / 16), b64_char((b % 16) * 4), '=']
    } else {
        let a = bytes[0] as int;
        let b = bytes[1] as int;
        let c = bytes[2] as int;
        seq![
            b64_char(a / 4),
            b64_char((a % 4) * 16 + b / 16),
            b64_char((b % 16) * 4 + c / 64),
            b64_char(c % 64),
        ] + base64_standard(bytes.subrange(3, bytes.len() as int))
    }
}

/// Length of the standard Base64 encoding of `n` bytes.
pub open spec fn base64_len(n: int) -> int {
    (n / 3) * 4 + if n % 3 > 0 { 4int } else { 0int }
}

/// Calls `base64::engine::general_purpose::STANDARD.encode`. Claimed: the
/// result is [`base64_standard`] of the bytes. The encoder panics when the
/// encoded length overflows `usize`; `requires` leaves those inputs out.
#[verifier::external_body]
fn encode_base64(bytes: &[u8]) -> (r: String)
    requires
        base64_len(bytes@.len() as int) <= usize::MAX,
    ensures
        r@ == base64_standard(bytes@),
{
    base64::engine::general_purpose::STANDARD.encode(bytes)
}

/// The `data:` URL that carries a JPEG document photo to the OCR pass.
pub fn image_data_url(image_bytes: &[u8]) -> (r: String)
    requires
        base64_len(image_bytes@.len() as int) <= usize::MAX,
    ensures
        r@ == "data:image/jpeg;base64,"@ + base64_standard(image_bytes@),
{
    let encoded = encode_base64(image_bytes);
    let mut url = "data:image/jpeg;base64,".to_string();
    push_str(&mut url, encoded.as_str());
    url
}


/// Output without thinking-channel tags is left unchanged.
pub proof fn lemma_no_channel_unchanged(t: Seq<char>)
    requires
        find(t, closing_tag()) is None,
        find(t, opening_tag()) is None,
    ensures
        without_thinking(t) == t,
{
}

} // verus!
