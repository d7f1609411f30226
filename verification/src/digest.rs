//! SHA-256 identifiers and JSON string lists.
use vstd::prelude::*;
use vstd::string::StringSliceAdditionalSpecFns;
use crate::text;

verus! {

broadcast use vstd::string::group_string_axioms;

/// The SHA-256 digest of a byte sequence.
pub uninterp spec fn sha256(data: Seq<u8>) -> Seq<u8>;

/// `sha2::Sha256::digest`. The contract claims that the result is the
/// SHA-256 digest of the input, named `sha256`, and that it is 32 bytes long
/// (the digest size of SHA-256); the hash function itself is not restated.
#[verifier::external_body]
fn sha256_digest(data: &[u8]) -> (r: Vec<u8>)
    ensures
        r@ == sha256(data@),
        r@.len() == 32,
{
    <sha2::Sha256 as sha2::Digest>::digest(data).to_vec()
}

/// The lowercase hexadecimal digit of a value below 16.
pub open spec fn hex_digit(d: int) -> char {
    if d < 10 {
        ((d + 48) as u32) as char
    } else {
        ((d + 87) as u32) as char
    }
}

/// Lowercase hexadecimal, two digits per byte (`{:x}` of a digest).
pub open spec fn hex_lower(bytes: Seq<u8>) -> Seq<char>
    decreases bytes.len(),
{
    if bytes.len() == 0 {
        Seq::<char>::empty()
    } else {
        hex_lower(bytes.drop_last()) + seq![hex_digit((bytes.last() / 16) as int), hex_digit((bytes.last() % 16) as int)]
    }
}

pub proof fn lemma_hex_len(bytes: Seq<u8>)
    ensures
        hex_lower(bytes).len() == 2 * bytes.len(),
    decreases bytes.len(),
{
    if bytes.len() > 0 {
        lemma_hex_len(bytes.drop_last());
    }
}

fn hex_digit_exec(d: u8) -> (c: char)
    requires
        d < 16,
    ensures
        c == hex_digit(d as int),
{
    if d < 10 {
        ((d + 48) as u8) as char
    } else {
        ((d + 87) as u8) as char
    }
}

/// Lowercase hexadecimal of a byte sequence.
pub fn to_hex_lower(bytes: &[u8]) -> (r: Vec<char>)
    ensures
        r@ == hex_lower(bytes@),
{
    let mut r: Vec<char> = Vec::new();
    let mut i: usize = 0;
    while i < bytes.len()
        invariant
            i <= bytes@.len(),
            r@ == hex_lower(bytes@.take(i as int)),
        decreases bytes@.len() - i,
    {
        let b = bytes[i];
        assert(bytes@.take(i + 1).drop_last() =~= bytes@.take(i as int));
        r.push(hex_digit_exec(b / 16));
        r.push(hex_digit_exec(b % 16));
        assert(r@ =~= hex_lower(bytes@.take(i + 1)));
        i += 1;
    }
    assert(bytes@.take(bytes@.len() as int) =~= bytes@);
    r
}

/// The identifier derived from a key: the first 16 lowercase hex digits of
/// the SHA-256 digest of its UTF-8 bytes.
pub open spec fn short_digest_id(key: Seq<char>) -> Seq<char> {
    hex_lower(sha256(vstd::utf8::encode_utf8(key))).take(16)
}

/// First 16 hex digits of the SHA-256 of `key` (used for conversation and
/// thread identifiers).
pub fn short_digest(key: &str) -> (r: String)
    ensures
        r@ == short_digest_id(key@),
        r@.len() == 16,
{
    let bytes = key.as_bytes();
    let d = sha256_digest(bytes);
    let h = to_hex_lower(d.as_slice());
    proof { lemma_hex_len(d@); }
    text::chars_to_string(text::slice_to_vec(h.as_slice(), 0, 16).as_slice())
}

/// Lowercase hexadecimal of the first `n` bytes of the SHA-256 digest of a
/// text's UTF-8 bytes.
pub fn hex_of_digest_prefix(s: &str, n: usize) -> (r: String)
    requires
        n <= 32,
    ensures
        r@ == hex_lower(sha256(vstd::utf8::encode_utf8(s@)).take(n as int)),
{
    let d = sha256_digest(s.as_bytes());
    let mut prefix: Vec<u8> = Vec::new();
    let mut i: usize = 0;
    while i < n
        invariant
            i <= n <= d@.len(),
            prefix@ == d@.take(i as int),
        decreases n - i,
    {
        prefix.push(d[i]);
        assert(d@.take(i + 1) =~= d@.take(i as int).push(d@[i as int]));
        i += 1;
    }
    let h = to_hex_lower(prefix.as_slice());
    text::chars_to_string(h.as_slice())
}

/// The conversation identifier of a participant key.
pub fn compute_conversation_id(participant_key: &str) -> (r: String)
    ensures
        r@ == short_digest_id(participant_key@),
        r@.len() == 16,
{
    short_digest(participant_key)
}

/// The thread identifier of a thread's root message identifier.
pub fn compute_thread_id(root_message_id: &str) -> (r: String)
    ensures
        r@ == short_digest_id(root_message_id@),
        r@.len() == 16,
{
    short_digest(root_message_id)
}

// ── JSON string lists (serde_json) ──────────────────────────────────────────

/// What `serde_json::to_string` gives for a list of strings: a compact JSON
/// array of JSON strings.
pub uninterp spec fn json_string_list(items: Seq<Seq<char>>) -> Seq<char>;

/// `serde_json::to_string` on a list of strings. The contract claims the
/// result is the compact JSON array of the strings, named `json_string_list`,
/// and that parsing it back gives an array of exactly those strings (serde's
/// round trip); the escaping rules are not restated. Serializing strings
/// cannot fail.
#[verifier::external_body]
pub(crate) fn to_json_string_list(items: &Vec<String>) -> (r: String)
    ensures
        r@ == json_string_list(items@.map_values(|s: String| s@)),
        crate::classifier::json_array_items(r@) == Some(items@.map_values(|s: String| Some(s@))),
{
    serde_json::to_string(items).unwrap_or_default()
}

/// What `serde_json::to_string` gives for a map from strings to strings whose
/// keys are `keys` (in increasing order) and whose values are `values`: a
/// compact JSON object with the keys in that order.
pub uninterp spec fn json_string_map(keys: Seq<Seq<char>>, values: Seq<Seq<char>>) -> Seq<char>;

/// `serde_json::to_string` on a `BTreeMap` of strings built from `keys` and
/// `values`, paired in order. The keys are strictly increasing, so the map
/// holds each pair once and walks them in the given order. The contract
/// claims the result is the compact JSON object, named `json_string_map`;
/// a map with string keys and string values always serializes.
#[verifier::external_body]
pub(crate) fn to_json_string_map(keys: &Vec<String>, values: &Vec<String>) -> (r: String)
    requires
        keys@.len() == values@.len(),
        crate::sorted_set::sorted_strict(keys@.map_values(|s: String| s@)),
    ensures
        r@ == json_string_map(keys@.map_values(|s: String| s@), values@.map_values(|s: String| s@)),
{
    let m: std::collections::BTreeMap<&String, &String> = keys.iter().zip(values.iter()).collect();
    serde_json::to_string(&m).unwrap_or_default()
}

} // verus!
