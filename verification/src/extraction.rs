//! Recovering the JSON object an LLM meant to send from what it actually sent.

use vstd::prelude::*;
use crate::errors::AppError;
use crate::documents::{ExtractedEntity, ExtractionResult};
use crate::json::{JsonValue, lemma_lookup_split, lookup, member, opt_chars, string_value};
use vstd::utf8::{decode_utf8, is_char_boundary};
use vstd::string::StringSliceAdditionalSpecFns;
use crate::text::{
    push_str, lowercase, replace_char, replace_char_exec, to_lowercase,
    occurs_at, chars_of, find, find_chars, lemma_find_from_bounds, lemma_rfind_before_bounds, rfind, rfind_char,
    slice_chars, string_of, trim, trim_bounds, trim_end, trim_end_bound, trim_start,
};

verus! {

/// The Markdown code-fence marker.
pub open spec fn fence() -> Seq<char> {
    seq!['`', '`', '`']
}

/// The text between a code fence and its closing fence, trimmed.
///
/// The first fence's line (its optional language tag) is skipped; an
/// unclosed fence keeps everything after that line. Text without a fence is
/// returned unchanged.
pub open spec fn stripped_of_fences(t: Seq<char>) -> Seq<char> {
    match find(t, fence()) {
        Some(start) => {
            let after = t.subrange(start + 3, t.len() as int);
            let content_start = match find(after, seq!['\n']) {
                Some(i) => i + 1,
                None => 0,
            };
            let content = after.subrange(content_start, after.len() as int);
            match find(content, fence()) {
                Some(end) => trim(content.subrange(0, end)),
                None => trim(content),
            }
        },
        None => t,
    }
}

/// From the first `{` to the last `}`, when the last `}` comes after the first `{`.
pub open spec fn braced_part(t: Seq<char>) -> Option<Seq<char>> {
    match (find(t, seq!['{']), rfind(t, '}')) {
        (Some(start), Some(end)) => if end > start {
            Some(t.subrange(start, end + 1))
        } else {
            None
        },
        _ => None,
    }
}

/// Nesting state of a left-to-right scan over JSON text: the brackets and
/// braces still open, innermost last; whether some `}` or `]` closed what
/// was not open; inside a string; after a backslash in a string.
pub type ScanState = (Seq<char>, bool, bool, bool);

/// The opener that a closing `}` or `]` closes.
pub open spec fn opener_of(ch: char) -> char {
    if ch == '}' { '{' } else { '[' }
}

/// The closer of an opening `{` or `[`.
pub open spec fn closer_of(ch: char) -> char {
    if ch == '{' { '}' } else { ']' }
}

/// One character of the scan.
pub open spec fn scan_step(st: ScanState, ch: char) -> ScanState {
    let (open, broken, in_string, escape) = st;
    if escape {
        (open, broken, in_string, false)
    } else if ch == '\\' && in_string {
        (open, broken, in_string, true)
    } else if ch == '"' {
        (open, broken, !in_string, escape)
    } else if in_string {
        st
    } else if ch == '{' || ch == '[' {
        (open.push(ch), broken, in_string, escape)
    } else if ch == '}' || ch == ']' {
        if open.len() > 0 && open.last() == opener_of(ch) {
            (open.drop_last(), broken, in_string, escape)
        } else {
            (open, true, in_string, escape)
        }
    } else {
        st
    }
}

/// The scan state after reading all of `s`.
pub open spec fn scan(s: Seq<char>) -> ScanState
    decreases s.len(),
{
    if s.len() == 0 {
        (seq![], false, false, false)
    } else {
        scan_step(scan(s.drop_last()), s.last())
    }
}

/// How often `c` occurs in `s`.
pub open spec fn count_char(s: Seq<char>, c: char) -> nat
    decreases s.len(),
{
    if s.len() == 0 {
        0
    } else {
        count_char(s.drop_last(), c) + if s.last() == c { 1nat } else { 0nat }
    }
}

/// The closers of the open brackets and braces, innermost first.
pub open spec fn closers(open: Seq<char>) -> Seq<char>
    decreases open.len(),
{
    if open.len() == 0 {
        seq![]
    } else {
        seq![closer_of(open.last())] + closers(open.drop_last())
    }
}

/// Truncated JSON closed up: from the first `{`, an open string is closed, a
/// trailing comma dropped, then the open brackets and braces closed, the
/// innermost first. Refused when the text closes what it has not opened or
/// leaves more than five braces or more than five brackets open.
pub open spec fn repaired(t: Seq<char>) -> Option<Seq<char>> {
    match find(t, seq!['{']) {
        None => None,
        Some(start) => {
            let frag = t.subrange(start, t.len() as int);
            let (open, broken, in_string, _escape) = scan(frag);
            if broken || count_char(open, '{') > 5 || count_char(open, '[') > 5 {
                None
            } else {
                let r0 = trim_end(frag);
                let r1 = if in_string {
                    r0.push('"')
                } else {
                    r0
                };
                let tr = trim_end(r1);
                let r2 = if tr.len() > 0 && tr.last() == ',' {
                    tr.drop_last()
                } else {
                    r1
                };
                Some(r2 + closers(open))
            }
        },
    }
}

fn fence_chars() -> (v: Vec<char>)
    ensures
        v@ == fence(),
{
    let v = vec!['`', '`', '`'];
    assert(v@ =~= fence());
    v
}

/// [`stripped_of_fences`] on characters.
pub fn strip_fences_chars(t: &Vec<char>) -> (r: Vec<char>)
    ensures
        r@ == stripped_of_fences(t@),
{
    let fence_v = fence_chars();
    match find_chars(t, &fence_v) {
        None => {
            let r = slice_chars(t, 0, t.len());
            assert(r@ =~= t@);
            r
        },
        Some(start) => {
            proof {
                lemma_find_from_bounds(t@, fence_v@, 0);
                assert(occurs_at(t@, fence(), start as int));
                assert(fence().len() == 3);
            }
            assert(start + 3 <= t.len());
            let after = slice_chars(t, start + 3, t.len());
            let nl = vec!['\n'];
            assert(nl@ =~= seq!['\n']);
            let content_start = match find_chars(&after, &nl) {
                Some(i) => {
                    proof {
                        lemma_find_from_bounds(after@, nl@, 0);
                    }
                    i + 1
                },
                None => 0,
            };
            let content = slice_chars(&after, content_start, after.len());
            match find_chars(&content, &fence_v) {
                Some(end) => {
                    proof {
                        lemma_find_from_bounds(content@, fence_v@, 0);
                    }
                    let inner = slice_chars(&content, 0, end);
                    let (b, e) = trim_bounds(&inner);
                    slice_chars(&inner, b, e)
                },
                None => {
                    let (b, e) = trim_bounds(&content);
                    slice_chars(&content, b, e)
                },
            }
        },
    }
}

/// Strips Markdown code fences around LLM output (see [`stripped_of_fences`]).
pub fn strip_fences(text: &str) -> (r: String)
    ensures
        r@ == stripped_of_fences(text@),
{
    let t = chars_of(text);
    let r = strip_fences_chars(&t);
    string_of(r.as_slice())
}

/// [`braced_part`] on characters.
pub fn extract_braced_chars(t: &Vec<char>) -> (r: Option<Vec<char>>)
    ensures
        r matches Some(v) ==> braced_part(t@) == Some(v@),
        r is None ==> braced_part(t@) is None,
{
    let open = vec!['{'];
    assert(open@ =~= seq!['{']);
    match find_chars(t, &open) {
        None => None,
        Some(start) => {
            proof {
                lemma_find_from_bounds(t@, open@, 0);
            }
            match rfind_char(t, '}') {
                None => None,
                Some(end) => {
                    proof {
                        lemma_rfind_before_bounds(t@, '}', t@.len() as int);
                    }
                    assert(end < t.len());
                    if end > start {
                        Some(slice_chars(t, start, end + 1))
                    } else {
                        None
                    }
                },
            }
        },
    }
}

/// The outermost `{ ... }` of the text (see [`braced_part`]).
pub fn extract_braced(text: &str) -> (r: Option<String>)
    ensures
        r matches Some(s) ==> braced_part(text@) == Some(s@),
        r is None ==> braced_part(text@) is None,
{
    let t = chars_of(text);
    match extract_braced_chars(&t) {
        Some(v) => Some(string_of(v.as_slice())),
        None => None,
    }
}

/// [`repaired`] on characters.
pub fn repair_truncated_chars(t: &Vec<char>) -> (r: Option<Vec<char>>)
    ensures
        r matches Some(v) ==> repaired(t@) == Some(v@),
        r is None ==> repaired(t@) is None,
{
    let open_brace = vec!['{'];
    assert(open_brace@ =~= seq!['{']);
    let start = match find_chars(t, &open_brace) {
        None => {
            return None;
        },
        Some(s) => s,
    };
    proof {
        lemma_find_from_bounds(t@, open_brace@, 0);
    }
    let frag = slice_chars(t, start, t.len());
    let mut open: Vec<char> = Vec::new();
    let mut broken = false;
    let mut in_string = false;
    let mut escape = false;
    let mut i: usize = 0;
    while i < frag.len()
        invariant
            i <= frag@.len(),
            scan(frag@.subrange(0, i as int)) == (open@, broken, in_string, escape),
        decreases frag@.len() - i,
    {
        let ch = frag[i];
        proof {
            let p = frag@.subrange(0, i as int + 1);
            assert(p.drop_last() =~= frag@.subrange(0, i as int));
        }
        if escape {
            escape = false;
        } else if ch == '\\' && in_string {
            escape = true;
        } else if ch == '"' {
            in_string = !in_string;
        } else if in_string {
        } else if ch == '{' || ch == '[' {
            open.push(ch);
        } else if ch == '}' || ch == ']' {
            let want = if ch == '}' { '{' } else { '[' };
            let n = open.len();
            if n > 0 && open[n - 1] == want {
                open.pop();
            } else {
                broken = true;
            }
        }
        i = i + 1;
    }
    assert(frag@.subrange(0, frag@.len() as int) =~= frag@);
    if broken {
        return None;
    }
    let mut braces: usize = 0;
    let mut brackets: usize = 0;
    let mut j: usize = 0;
    while j < open.len()
        invariant
            j <= open@.len(),
            braces == count_char(open@.take(j as int), '{'),
            brackets == count_char(open@.take(j as int), '['),
            braces <= j,
            brackets <= j,
        decreases open@.len() - j,
    {
        assert(open@.take(j as int + 1).drop_last() =~= open@.take(j as int));
        if open[j] == '{' {
            braces = braces + 1;
        } else if open[j] == '[' {
            brackets = brackets + 1;
        }
        j = j + 1;
    }
    assert(open@.take(open@.len() as int) =~= open@);
    if braces > 5 || brackets > 5 {
        return None;
    }
    let e0 = trim_end_bound(&frag, frag.len());
    let mut repaired_v = slice_chars(&frag, 0, e0);
    if in_string {
        repaired_v.push('"');
    }
    let e1 = trim_end_bound(&repaired_v, repaired_v.len());
    assert(repaired_v@.subrange(0, repaired_v@.len() as int) =~= repaired_v@);
    if e1 > 0 && repaired_v[e1 - 1] == ',' {
        repaired_v = slice_chars(&repaired_v, 0, e1 - 1);
    }
    let ghost base = repaired_v@;
    let mut k: usize = open.len();
    assert(open@.take(k as int) =~= open@);
    while k > 0
        invariant
            k <= open@.len(),
            repaired_v@ + closers(open@.take(k as int)) == base + closers(open@),
        decreases k,
    {
        let c = if open[k - 1] == '{' { '}' } else { ']' };
        proof {
            let tk = open@.take(k as int);
            assert(tk.drop_last() =~= open@.take(k - 1));
            assert(tk.last() == open@[k - 1]);
            assert(closers(tk) == seq![c] + closers(open@.take(k - 1)));
            assert(repaired_v@.push(c) + closers(open@.take(k - 1)) =~= repaired_v@ + closers(tk));
        }
        repaired_v.push(c);
        k = k - 1;
    }
    assert(open@.take(0) =~= Seq::<char>::empty());
    assert(repaired_v@ + closers(open@.take(0)) =~= repaired_v@);
    Some(repaired_v)
}

/// Closes up truncated JSON (see [`repaired`]).
pub fn repair_truncated(text: &str) -> (r: Option<String>)
    ensures
        r matches Some(s) ==> repaired(text@) == Some(s@),
        r is None ==> repaired(text@) is None,
{
    let t = chars_of(text);
    match repair_truncated_chars(&t) {
        Some(v) => Some(string_of(v.as_slice())),
        None => None,
    }
}


/// Whether `serde_json` reads the text as a JSON value that is an object.
/// Defined by `serde_json`'s grammar; it depends on the text alone.
pub uninterp spec fn parses_as_json_object(text: Seq<char>) -> bool;

/// Calls `serde_json::from_str::<serde_json::Value>` on the text and tells
/// whether it parsed to an object. Claimed: the answer is
/// [`parses_as_json_object`] of the text; nothing more is stated of the grammar.
#[verifier::external_body]
fn is_json_object(text: &str) -> (b: bool)
    ensures
        b == parses_as_json_object(text@),
{
    matches!(serde_json::from_str::<serde_json::Value>(text), Ok(serde_json::Value::Object(_)))
}

/// The JSON text an LLM answer yields: the answer trimmed and stripped of code
/// fences if that is an object; else its outermost `{ ... }` if that is one;
/// else its repair (see [`repaired`]) if that is one; else nothing.
pub open spec fn chosen_json(raw: Seq<char>) -> Option<Seq<char>> {
    let s = stripped_of_fences(trim(raw));
    if parses_as_json_object(s) {
        Some(s)
    } else if braced_part(s) is Some && parses_as_json_object(braced_part(s)->0) {
        braced_part(s)
    } else if repaired(s) is Some && parses_as_json_object(repaired(s)->0) {
        repaired(s)
    } else {
        None
    }
}

/// The message of the error for an answer with no JSON object in it: it
/// quotes the answer's first 200 bytes.
pub open spec fn no_json_message(raw: &str) -> Seq<char> {
    let n = raw.spec_bytes().len();
    let cut = if n < 200 { n } else { 200 };
    "could not extract valid JSON from LLM response: "@ + decode_utf8(raw.spec_bytes().subrange(0, cut as int))
}

/// Finds the JSON object text in an LLM answer (see [`chosen_json`]).
pub fn select_json(raw: &str) -> (r: Option<String>)
    ensures
        r matches Some(s) ==> chosen_json(raw@) == Some(s@),
        r is None ==> chosen_json(raw@) is None,
{
    let all = chars_of(raw);
    let (b, e) = trim_bounds(&all);
    let text = slice_chars(&all, b, e);
    let stripped = strip_fences_chars(&text);
    let s = string_of(stripped.as_slice());
    if is_json_object(s.as_str()) {
        return Some(s);
    }
    match extract_braced_chars(&stripped) {
        Some(v) => {
            let js = string_of(v.as_slice());
            if is_json_object(js.as_str()) {
                return Some(js);
            }
        },
        None => {},
    }
    match repair_truncated_chars(&stripped) {
        Some(v) => {
            let js = string_of(v.as_slice());
            if is_json_object(js.as_str()) {
                return Some(js);
            }
        },
        None => {},
    }
    None
}

fn no_json_error(raw: &str) -> (e: AppError)
    requires
        raw.spec_bytes().len() <= 200 || is_char_boundary(raw.spec_bytes(), 200),
    ensures
        e matches AppError::Inference(m) && m@ == no_json_message(raw),
{
    broadcast use vstd::utf8::encode_utf8_decode_utf8, vstd::utf8::encode_utf8_valid_utf8,
        vstd::utf8::is_char_boundary_start_end_of_seq;

    let n = raw.as_bytes().len();
    proof {
        vstd::utf8::encode_utf8_valid_utf8(raw@);
        vstd::utf8::is_char_boundary_start_end_of_seq(raw.spec_bytes());
    }
    let cut = if n < 200 {
        n
    } else {
        200
    };
    let (head, _) = raw.split_at(cut);
    proof {
        vstd::utf8::encode_utf8_decode_utf8(head@);
    }
    assert(head@ == decode_utf8(encode_utf8_of(head)));
    let mut m = "could not extract valid JSON from LLM response: ".to_string();
    push_str(&mut m, head);
    AppError::Inference(m)
}

spec fn encode_utf8_of(s: &str) -> Seq<u8> {
    s.spec_bytes()
}

/// Extracts valid JSON from raw LLM output: handles Markdown fences,
/// preamble and trailing text, and truncated output. Returns the JSON text
/// of the object found (see [`chosen_json`]); turning it into a value is left
/// to the caller's JSON library.
pub fn parse_llm_json(raw: &str) -> (r: Result<String, AppError>)
    requires
        chosen_json(raw@) is Some || raw.spec_bytes().len() <= 200 || is_char_boundary(
            raw.spec_bytes(),
            200,
        ),
    ensures
        chosen_json(raw@) matches Some(j) ==> (r matches Ok(s) && s@ == j),
        chosen_json(raw@) is None ==> (r matches Err(AppError::Inference(m)) && m@ == no_json_message(raw)),
{
    match select_json(raw) {
        Some(s) => Ok(s),
        None => Err(no_json_error(raw)),
    }
}

/// [`parse_llm_json`] on every answer: `None` exactly for the answers on
/// which no JSON object is found and whose 200-byte quote would split a
/// character.
pub fn parse_llm_json_checked(raw: &str) -> (r: Option<Result<String, AppError>>)
    ensures
        r is None <==> (chosen_json(raw@) is None && !(raw.spec_bytes().len() <= 200
            || is_char_boundary(raw.spec_bytes(), 200))),
        r matches Some(x) ==> (chosen_json(raw@) matches Some(j) ==> (x matches Ok(s) && s@ == j)),
        r matches Some(x) ==> (chosen_json(raw@) is None ==> (x matches Err(AppError::Inference(m))
            && m@ == no_json_message(raw))),
{
    let found = select_json(raw);
    let n = raw.as_bytes().len();
    let fits = n <= 200;
    let boundary = raw.is_char_boundary(200);
    assert(fits == (raw.spec_bytes().len() <= 200));
    if found.is_some() || fits || boundary {
        Some(parse_llm_json(raw))
    } else {
        None
    }
}


/// The names of the answer's members that the extraction reads, in order.
pub open spec fn field_names() -> Seq<Seq<char>> {
    seq![
        "language"@,
        "sender"@,
        "sender_normalized"@,
        "document_date"@,
        "document_type"@,
        "subject"@,
        "extracted_text"@,
        "amounts"@,
        "dates"@,
        "reference_ids"@,
        "tags"@,
        "confidence"@,
        "entities"@,
    ]
}

/// A tag in the archive's form: lowercase, with spaces and hyphens turned into
/// underscores.
pub open spec fn normalized_tag(t: Seq<char>) -> Seq<char> {
    replace_char(replace_char(lowercase(t), ' ', '_'), '-', '_')
}

/// The string items of an array, in order; other items are skipped.
pub open spec fn string_items(items: Seq<JsonValue>) -> Seq<Seq<char>>
    decreases items.len(),
{
    if items.len() == 0 {
        seq![]
    } else {
        let rest = string_items(items.drop_last());
        match items.last() {
            JsonValue::Str(s) => rest.push(s@),
            _ => rest,
        }
    }
}

/// The strings of an array of string values.
pub open spec fn array_strings(items: Seq<JsonValue>) -> Option<Seq<Seq<char>>>
    decreases items.len(),
{
    if items.len() == 0 {
        Some(seq![])
    } else {
        match (array_strings(items.drop_last()), items.last()) {
            (Some(rest), JsonValue::Str(s)) => Some(rest.push(s@)),
            _ => None,
        }
    }
}

/// (type, value, role) of an entity entry: entries without a string `type`
/// or `value` are skipped; a missing role reads as `referenced`.
pub open spec fn entity_of(e: JsonValue) -> Option<(Seq<char>, Seq<char>, Seq<char>)> {
    match (string_value(member(e, "type"@)), string_value(member(e, "value"@))) {
        (Some(t), Some(v)) => Some(
            (
                t,
                v,
                match string_value(member(e, "role"@)) {
                    Some(r) => r,
                    None => "referenced"@,
                },
            ),
        ),
        _ => None,
    }
}

/// The entities of an `entities` array, in order.
pub open spec fn entities_of(items: Seq<JsonValue>) -> Seq<(Seq<char>, Seq<char>, Seq<char>)>
    decreases items.len(),
{
    if items.len() == 0 {
        seq![]
    } else {
        let rest = entities_of(items.drop_last());
        match entity_of(items.last()) {
            Some(t) => rest.push(t),
            None => rest,
        }
    }
}

/// The (type, value, role) triples of extracted entities.
pub open spec fn entity_triples(es: Seq<ExtractedEntity>) -> Seq<(Seq<char>, Seq<char>, Seq<char>)> {
    es.map_values(|e: ExtractedEntity| (e.entity_type@, e.value@, e.role@))
}

/// A member kept only when it is an array.
pub open spec fn array_member(entries: Seq<(String, JsonValue)>, key: Seq<char>) -> Option<
    JsonValue,
> {
    match lookup(entries, key) {
        Some(JsonValue::Array(v)) => Some(JsonValue::Array(v)),
        _ => None,
    }
}

/// The document date: a string member that is neither empty nor `null`.
pub open spec fn date_member(entries: Seq<(String, JsonValue)>) -> Option<Seq<char>> {
    match string_value(lookup(entries, "document_date"@)) {
        Some(d) => if d.len() > 0 && d != "null"@ {
            Some(d)
        } else {
            None
        },
        None => None,
    }
}

/// What [`parse`] makes of an answer object with members `entries`.
pub open spec fn parsed_fields(entries: Seq<(String, JsonValue)>, r: ExtractionResult) -> bool {
    let sender = string_value(lookup(entries, "sender"@));
    &&& opt_chars(r.language) == string_value(lookup(entries, "language"@))
    &&& opt_chars(r.sender) == sender
    &&& opt_chars(r.sender_normalized) == match string_value(
        lookup(entries, "sender_normalized"@),
    ) {
        Some(s) => Some(s),
        None => sender,
    }
    &&& opt_chars(r.document_date) == date_member(entries)
    &&& opt_chars(r.document_type) == match string_value(lookup(entries, "document_type"@)) {
        Some(t) => Some(lowercase(t)),
        None => None,
    }
    &&& opt_chars(r.subject) == string_value(lookup(entries, "subject"@))
    &&& opt_chars(r.extracted_text) == string_value(lookup(entries, "extracted_text"@))
    &&& r.amounts == array_member(entries, "amounts"@)
    &&& r.dates == array_member(entries, "dates"@)
    &&& r.reference_ids == array_member(entries, "reference_ids"@)
    &&& match lookup(entries, "tags"@) {
        Some(JsonValue::Array(items)) => r.tags matches Some(JsonValue::Array(out)) && array_strings(
            out@,
        ) == Some(string_items(items@).map_values(|t: Seq<char>| normalized_tag(t))),
        _ => r.tags is None,
    }
    &&& opt_chars(r.confidence) == match lookup(entries, "confidence"@) {
        Some(JsonValue::Number(n)) => Some(n@),
        _ => None,
    }
    &&& entity_triples(r.entities@) == match lookup(entries, "entities"@) {
        Some(JsonValue::Array(items)) => entities_of(items@),
        _ => seq![],
    }
}

/// Index of the key equal to `k`, if any.
fn key_index(k: &str, keys: &Vec<&str>) -> (r: Option<usize>)
    ensures
        r matches Some(j) ==> j < keys@.len() && keys@[j as int]@ == k@,
        r is None ==> forall|j: int| 0 <= j < keys@.len() ==> keys@[j]@ != k@,
{
    let mut j: usize = 0;
    while j < keys.len()
        invariant
            j <= keys@.len(),
            forall|i: int| 0 <= i < j ==> keys@[i]@ != k@,
        decreases keys@.len() - j,
    {
        if crate::json::same_text(keys[j], k) {
            return Some(j);
        }
        j = j + 1;
    }
    None
}

/// Moves the members named by `keys` out of an object: slot `j` holds the
/// first member named `keys[j]`.
fn take_fields(entries: Vec<(String, JsonValue)>, keys: &Vec<&str>) -> (slots: Vec<
    Option<JsonValue>,
>)
    requires
        forall|i: int, j: int| 0 <= i < j < keys@.len() ==> keys@[i]@ != keys@[j]@,
    ensures
        slots@.len() == keys@.len(),
        forall|j: int| 0 <= j < keys@.len() ==> slots@[j] == lookup(entries@, keys@[j]@),
{
    let ghost orig = entries@;
    let mut entries = entries;
    let mut slots: Vec<Option<JsonValue>> = Vec::new();
    let mut j: usize = 0;
    while j < keys.len()
        invariant
            j <= keys@.len(),
            slots@.len() == j,
            forall|i: int| 0 <= i < j ==> slots@[i] is None,
        decreases keys@.len() - j,
    {
        slots.push(None);
        j = j + 1;
    }
    assert(orig.subrange(orig.len() as int, orig.len() as int).len() == 0);
    while entries.len() > 0
        invariant
            slots@.len() == keys@.len(),
            entries@.len() <= orig.len(),
            entries@ == orig.subrange(0, entries@.len() as int),
            forall|i: int, j: int| 0 <= i < j < keys@.len() ==> keys@[i]@ != keys@[j]@,
            forall|j: int|
                0 <= j < keys@.len() ==> slots@[j] == lookup(
                    #[trigger] orig.subrange(entries@.len() as int, orig.len() as int),
                    keys@[j]@,
                ),
        decreases entries@.len(),
    {
        let ghost n: int = entries@.len() as int;
        let (k, v) = entries.pop().unwrap();
        proof {
            lemma_lookup_split(orig, n - 1, seq![]);
            assert forall|j: int| 0 <= j < keys@.len() implies lookup(
                orig.subrange(n - 1, orig.len() as int),
                keys@[j]@,
            ) == if orig[n - 1].0@ == keys@[j]@ {
                Some(orig[n - 1].1)
            } else {
                lookup(orig.subrange(n, orig.len() as int), keys@[j]@)
            } by {
                lemma_lookup_split(orig, n - 1, keys@[j]@);
            }
        }
        match key_index(k.as_str(), keys) {
            Some(j) => {
                slots[j] = Some(v);
            },
            None => {},
        }
    }
    assert(orig.subrange(0, orig.len() as int) =~= orig);
    slots
}

/// The normalized strings of a `tags` array.
fn normalize_tags(items: &Vec<JsonValue>) -> (out: Vec<JsonValue>)
    ensures
        array_strings(out@) == Some(string_items(items@).map_values(|t: Seq<char>| normalized_tag(t))),
{
    let mut out: Vec<JsonValue> = Vec::new();
    let mut i: usize = 0;
    while i < items.len()
        invariant
            i <= items@.len(),
            array_strings(out@) == Some(
                string_items(items@.subrange(0, i as int)).map_values(
                    |t: Seq<char>| normalized_tag(t),
                ),
            ),
        decreases items@.len() - i,
    {
        proof {
            assert(items@.subrange(0, i as int + 1).drop_last() =~= items@.subrange(0, i as int));
        }
        match &items[i] {
            JsonValue::Str(t) => {
                let low = to_lowercase(t.as_str());
                let a = replace_char_exec(low.as_str(), ' ', '_');
                let b = replace_char_exec(a.as_str(), '-', '_');
                let ghost prev = out@;
                out.push(JsonValue::Str(b));
                proof {
                    assert(out@.drop_last() =~= prev);
                    assert(string_items(items@.subrange(0, i as int + 1)) == string_items(
                        items@.subrange(0, i as int),
                    ).push(t@));
                    assert(string_items(items@.subrange(0, i as int + 1)).map_values(
                        |t: Seq<char>| normalized_tag(t),
                    ) =~= string_items(items@.subrange(0, i as int)).map_values(
                        |t: Seq<char>| normalized_tag(t),
                    ).push(normalized_tag(t@)));
                }
            },
            _ => {},
        }
        i = i + 1;
    }
    assert(items@.subrange(0, items@.len() as int) =~= items@);
    out
}

/// The entities of an `entities` array.
fn collect_entities(items: &Vec<JsonValue>) -> (out: Vec<ExtractedEntity>)
    ensures
        entity_triples(out@) == entities_of(items@),
{
    let mut out: Vec<ExtractedEntity> = Vec::new();
    let mut i: usize = 0;
    while i < items.len()
        invariant
            i <= items@.len(),
            entity_triples(out@) == entities_of(items@.subrange(0, i as int)),
        decreases items@.len() - i,
    {
        proof {
            assert(items@.subrange(0, i as int + 1).drop_last() =~= items@.subrange(0, i as int));
        }
        let e = &items[i];
        let t = e.get("type");
        let v = e.get("value");
        let r = e.get("role");
        let ts = match t {
            Some(x) => x.as_str(),
            None => None,
        };
        let vs = match v {
            Some(x) => x.as_str(),
            None => None,
        };
        let rs = match r {
            Some(x) => x.as_str(),
            None => None,
        };
        match (ts, vs) {
            (Some(ty), Some(val)) => {
                let role = match rs {
                    Some(x) => x.clone(),
                    None => "referenced".to_string(),
                };
                let ghost prev = out@;
                out.push(ExtractedEntity { entity_type: ty.clone(), value: val.clone(), role });
                proof {
                    assert(entity_triples(out@) =~= entity_triples(prev).push(
                        entity_of(items@[i as int])->0,
                    ));
                }
            },
            _ => {},
        }
        i = i + 1;
    }
    assert(items@.subrange(0, items@.len() as int) =~= items@);
    out
}

fn opt_string(v: &Option<JsonValue>) -> (r: Option<String>)
    ensures
        opt_chars(r) == string_value(*v),
{
    match v {
        Some(JsonValue::Str(s)) => Some(s.clone()),
        _ => None,
    }
}

fn only_array(v: Option<JsonValue>) -> (r: Option<JsonValue>)
    ensures
        r == match v {
            Some(JsonValue::Array(a)) => Some(JsonValue::Array(a)),
            _ => None,
        },
{
    match v {
        Some(JsonValue::Array(a)) => Some(JsonValue::Array(a)),
        _ => None,
    }
}

/// Parses and checks the LLM's JSON extraction answer. `raw_response` is the
/// answer as the JSON library prints it back, kept for reprocessing.
pub fn parse(raw: JsonValue, raw_response: String) -> (r: Result<ExtractionResult, AppError>)
    ensures
        raw matches JsonValue::Object(entries) ==> (r matches Ok(x) && parsed_fields(entries@, x)
            && x.raw_response == raw_response),
        raw matches JsonValue::Object(entries) ==> (lookup(entries@, "amounts"@) matches Some(
            JsonValue::Array(a),
        ) ==> (r matches Ok(x) && x.amounts == Some(JsonValue::Array(a)))),
        raw matches JsonValue::Object(entries) ==> (lookup(entries@, "dates"@) matches Some(
            JsonValue::Array(a),
        ) ==> (r matches Ok(x) && x.dates == Some(JsonValue::Array(a)))),
        raw matches JsonValue::Object(entries) ==> (lookup(entries@, "reference_ids"@) matches Some(
            JsonValue::Array(a),
        ) ==> (r matches Ok(x) && x.reference_ids == Some(JsonValue::Array(a)))),
        !(raw is Object) ==> (r matches Err(AppError::Inference(m)) && m@
            == "extraction response is not a JSON object"@),
{
    let entries = match raw {
        JsonValue::Object(e) => e,
        _ => {
            return Err(AppError::Inference("extraction response is not a JSON object".to_string()));
        },
    };
    let ghost orig = entries@;
    let keys: Vec<&str> = vec![
        "language",
        "sender",
        "sender_normalized",
        "document_date",
        "document_type",
        "subject",
        "extracted_text",
        "amounts",
        "dates",
        "reference_ids",
        "tags",
        "confidence",
        "entities",
    ];
    proof {
        reveal_strlit("language");
        reveal_strlit("sender");
        reveal_strlit("sender_normalized");
        reveal_strlit("document_date");
        reveal_strlit("document_type");
        reveal_strlit("subject");
        reveal_strlit("extracted_text");
        reveal_strlit("amounts");
        reveal_strlit("dates");
        reveal_strlit("reference_ids");
        reveal_strlit("tags");
        reveal_strlit("confidence");
        reveal_strlit("entities");
        assert(keys@ =~= seq![
            "language",
            "sender",
            "sender_normalized",
            "document_date",
            "document_type",
            "subject",
            "extracted_text",
            "amounts",
            "dates",
            "reference_ids",
            "tags",
            "confidence",
            "entities",
        ]);
        assert forall|i: int, j: int| 0 <= i < j < keys@.len() implies keys@[i]@ != keys@[j]@ by {
            let a = keys@[i]@;
            let b = keys@[j]@;
            assert(a.len() != b.len() || a[0] != b[0] || a[9] != b[9]);
        }
    }
    let mut slots = take_fields(entries, &keys);
    let ghost s0 = slots@;
    proof {
        assert(s0[0] == lookup(orig, "language"@));
        assert(s0[1] == lookup(orig, "sender"@));
        assert(s0[2] == lookup(orig, "sender_normalized"@));
        assert(s0[3] == lookup(orig, "document_date"@));
        assert(s0[4] == lookup(orig, "document_type"@));
        assert(s0[5] == lookup(orig, "subject"@));
        assert(s0[6] == lookup(orig, "extracted_text"@));
        assert(s0[7] == lookup(orig, "amounts"@));
        assert(s0[8] == lookup(orig, "dates"@));
        assert(s0[9] == lookup(orig, "reference_ids"@));
        assert(s0[10] == lookup(orig, "tags"@));
        assert(s0[11] == lookup(orig, "confidence"@));
        assert(s0[12] == lookup(orig, "entities"@));
    }
    let entities_v = slots.pop().unwrap();
    let confidence_v = slots.pop().unwrap();
    let tags_v = slots.pop().unwrap();
    let reference_ids_v = slots.pop().unwrap();
    let dates_v = slots.pop().unwrap();
    let amounts_v = slots.pop().unwrap();
    let extracted_text_v = slots.pop().unwrap();
    let subject_v = slots.pop().unwrap();
    let document_type_v = slots.pop().unwrap();
    let document_date_v = slots.pop().unwrap();
    let sender_normalized_v = slots.pop().unwrap();
    let sender_v = slots.pop().unwrap();
    let language_v = slots.pop().unwrap();

    let language = opt_string(&language_v);
    let sender = opt_string(&sender_v);
    let sender_normalized = match opt_string(&sender_normalized_v) {
        Some(s) => Some(s),
        None => match &sender {
            Some(s) => Some(s.clone()),
            None => None,
        },
    };
    let document_date = match &document_date_v {
        Some(JsonValue::Str(d)) => {
            proof {
                reveal_strlit("null");
            }
            if d.unicode_len() > 0 && !crate::json::same_text(d.as_str(), "null") {
                Some(d.clone())
            } else {
                None
            }
        },
        _ => None,
    };
    let document_type = match &document_type_v {
        Some(JsonValue::Str(t)) => Some(to_lowercase(t.as_str())),
        _ => None,
    };
    let subject = opt_string(&subject_v);
    let extracted_text = opt_string(&extracted_text_v);
    let amounts = only_array(amounts_v);
    let dates = only_array(dates_v);
    let reference_ids = only_array(reference_ids_v);
    let tags = match &tags_v {
        Some(JsonValue::Array(items)) => Some(JsonValue::Array(normalize_tags(items))),
        _ => None,
    };
    let confidence = match &confidence_v {
        Some(JsonValue::Number(n)) => Some(n.clone()),
        _ => None,
    };
    let entities = match &entities_v {
        Some(JsonValue::Array(items)) => collect_entities(items),
        _ => Vec::new(),
    };
    let result = ExtractionResult {
        language,
        sender,
        sender_normalized,
        document_date,
        document_type,
        subject,
        extracted_text,
        amounts,
        dates,
        reference_ids,
        tags,
        confidence,
        raw_response,
        entities,
    };
    proof {
        assert(language_v == s0[0]);
        assert(entities_v == s0[12]);
        let x = result;
        let entries = orig;
        let sender = string_value(lookup(entries, "sender"@));
        assert(opt_chars(x.language) == string_value(lookup(entries, "language"@)));
        assert(opt_chars(x.sender) == sender);
        assert(opt_chars(x.document_date) == date_member(entries));
        assert(x.amounts == array_member(entries, "amounts"@));
        assert(opt_chars(x.confidence) == match lookup(entries, "confidence"@) {
            Some(JsonValue::Number(n)) => Some(n@),
            _ => None,
        });
        assert(opt_chars(x.sender_normalized) == match string_value(
            lookup(entries, "sender_normalized"@),
        ) {
            Some(s) => Some(s),
            None => sender,
        });
        assert(opt_chars(x.document_type) == match string_value(lookup(entries, "document_type"@)) {
            Some(t) => Some(lowercase(t)),
            None => None,
        });
        assert(opt_chars(x.subject) == string_value(lookup(entries, "subject"@)));
        assert(x.dates == array_member(entries, "dates"@));
        assert(x.reference_ids == array_member(entries, "reference_ids"@));
        assert(match lookup(entries, "tags"@) {
            Some(JsonValue::Array(items)) => x.tags matches Some(JsonValue::Array(out)) && array_strings(
                out@,
            ) == Some(string_items(items@).map_values(|t: Seq<char>| normalized_tag(t))),
            _ => x.tags is None,
        });
        assert(entity_triples(x.entities@) == match lookup(entries, "entities"@) {
            Some(JsonValue::Array(items)) => entities_of(items@),
            _ => seq![],
        });
        assert(parsed_fields(orig, result));
    }
    Ok(result)
}


/// An answer that is a bare JSON object (no code fence) is taken as it is,
/// without surrounding whitespace.
pub proof fn lemma_clean_json_kept(raw: Seq<char>)
    requires
        find(trim(raw), fence()) is None,
        parses_as_json_object(trim(raw)),
    ensures
        chosen_json(raw) == Some(trim(raw)),
{
}

/// Whatever JSON text is found in an answer parses as a JSON object.
pub proof fn lemma_chosen_is_object(raw: Seq<char>)
    ensures
        chosen_json(raw) matches Some(j) ==> parses_as_json_object(j),
{
}

/// The braced part of a text starts with `{` and ends with `}`.
pub proof fn lemma_braced_delimited(t: Seq<char>)
    ensures
        braced_part(t) matches Some(b) ==> b.len() >= 2 && b[0] == '{' && b.last() == '}',
{
    if let (Some(start), Some(end)) = (find(t, seq!['{']), rfind(t, '}')) {
        lemma_find_from_bounds(t, seq!['{'], 0);
        lemma_rfind_before_bounds(t, '}', t.len() as int);
        assert(t.subrange(start, start + 1) == seq!['{']);
        assert(t[start] == t.subrange(start, start + 1)[0]);
    }
}

/// Tags in the archive's form contain no spaces and no hyphens.
pub proof fn lemma_normalized_tag_clean(t: Seq<char>)
    ensures
        forall|i: int|
            0 <= i < normalized_tag(t).len() ==> #[trigger] normalized_tag(t)[i] != ' '
                && normalized_tag(t)[i] != '-',
{
}

/// JSON that is already complete after its first `{` (every brace and
/// bracket closed, no open string, no trailing comma) is left as it is,
/// up to trailing whitespace.
pub proof fn lemma_complete_json_unrepaired(t: Seq<char>, start: int)
    requires
        find(t, seq!['{']) == Some(start),
        scan(t.subrange(start, t.len() as int)) == (Seq::<char>::empty(), false, false, false),
        !(trim_end(t.subrange(start, t.len() as int)).len() > 0 && trim_end(
            t.subrange(start, t.len() as int),
        ).last() == ','),
    ensures
        repaired(t) == Some(trim_end(t.subrange(start, t.len() as int))),
{
    let frag = t.subrange(start, t.len() as int);
    crate::text::lemma_trim_end_idempotent(frag);
    assert(closers(Seq::<char>::empty()) =~= Seq::<char>::empty());
    assert(trim_end(frag) + closers(Seq::<char>::empty()) =~= trim_end(frag));
}


/// The value of `key` in an answer object, read as text: `Some` of the
/// characters for a string member, nothing for any other member or none.
pub open spec fn text_member(entries: Seq<(String, JsonValue)>, key: Seq<char>) -> Option<Seq<char>> {
    match lookup(entries, key) {
        Some(JsonValue::Str(s)) => Some(s@),
        _ => None,
    }
}

/// What the extraction keeps of each member of the answer: the string
/// members `language`, `sender`, `subject` and `extracted_text` as they are;
/// `sender_normalized` as it is, else the sender; `document_type`
/// lowercased; the array members `amounts`, `dates` and `reference_ids` as
/// the same arrays, and nothing when they are no arrays; the `confidence`
/// number's text; and the raw answer unchanged.
pub proof fn lemma_parse_keeps_members(raw: JsonValue, raw_response: String, r: Result<ExtractionResult, AppError>)
    requires
        raw matches JsonValue::Object(entries) ==> (r matches Ok(x) && parsed_fields(entries@, x)
            && x.raw_response == raw_response),
        raw is Object,
    ensures
        r matches Ok(x) && x.raw_response == raw_response && (raw matches JsonValue::Object(entries) && {
            let es = entries@;
            &&& opt_chars(x.language) == text_member(es, "language"@)
            &&& opt_chars(x.sender) == text_member(es, "sender"@)
            &&& opt_chars(x.subject) == text_member(es, "subject"@)
            &&& opt_chars(x.extracted_text) == text_member(es, "extracted_text"@)
            &&& (text_member(es, "sender_normalized"@) is Some ==> opt_chars(x.sender_normalized)
                == text_member(es, "sender_normalized"@))
            &&& (text_member(es, "sender_normalized"@) is None ==> opt_chars(x.sender_normalized)
                == text_member(es, "sender"@))
            &&& (text_member(es, "document_type"@) matches Some(t) ==> opt_chars(x.document_type)
                == Some(lowercase(t)))
            &&& (text_member(es, "document_type"@) is None ==> x.document_type is None)
            &&& (lookup(es, "amounts"@) matches Some(JsonValue::Array(a)) ==> x.amounts == Some(
                JsonValue::Array(a),
            ))
            &&& (lookup(es, "dates"@) matches Some(JsonValue::Array(a)) ==> x.dates == Some(
                JsonValue::Array(a),
            ))
            &&& (lookup(es, "reference_ids"@) matches Some(JsonValue::Array(a)) ==> x.reference_ids == Some(
                JsonValue::Array(a),
            ))
            &&& (!(lookup(es, "amounts"@) matches Some(JsonValue::Array(_))) ==> x.amounts is None)
            &&& (!(lookup(es, "dates"@) matches Some(JsonValue::Array(_))) ==> x.dates is None)
            &&& (!(lookup(es, "reference_ids"@) matches Some(JsonValue::Array(_))) ==> x.reference_ids is None)
            &&& (lookup(es, "confidence"@) matches Some(JsonValue::Number(n)) ==> opt_chars(x.confidence)
                == Some(n@))
        }),
{
}

} // verus!
