//! MIME body structures: attachments, the text part to fetch, part numbers
//! and transfer decoding.
use vstd::prelude::*;
use crate::text;
use crate::crypto;

verus! {

broadcast use vstd::string::group_string_axioms;

/// Errors of the mail client.
pub enum EddieError {
    AccountNotFound(String),
    Auth(String),
    Backend(String),
    Config(String),
    Credential(String),
    Database(String),
    InvalidInput(String),
    MessageNotFound(String),
    Network(String),
    Parse(String),
    ReadOnlyMode,
}

/// The transfer encoding of a body part.
pub enum ContentEncoding {
    SevenBit,
    EightBit,
    Binary,
    Base64,
    QuotedPrintable,
    Other(String),
}

/// The structure of a message body, as the server describes it: each part
/// with its media type and subtype, its disposition and (for single parts)
/// its transfer encoding.
pub enum BodyPart {
    /// A single part that is not text.
    Basic { ty: String, subtype: String, disposition: Option<String>, encoding: ContentEncoding },
    /// A text part.
    Text { ty: String, subtype: String, disposition: Option<String>, encoding: ContentEncoding },
    /// An encapsulated message.
    Message { ty: String, subtype: String, disposition: Option<String>, encoding: ContentEncoding, body: Box<BodyPart> },
    /// A multipart with its parts.
    Multipart { ty: String, subtype: String, disposition: Option<String>, bodies: Vec<BodyPart> },
}

// ── Attachments ─────────────────────────────────────────────────────────────

/// Whether a body has attachments: a single non-text part counts, as does
/// any part whose disposition is `attachment` (in any case); text parts do
/// not; an encapsulated message has the attachments of its body; a
/// multipart, those of any of its parts.
pub open spec fn has_attachment(b: BodyPart) -> bool
    decreases b, 0int,
{
    match b {
        BodyPart::Basic { ty, disposition, .. } => {
            (disposition matches Some(d) && text::lowercase(d@) == "attachment"@)
                || text::lowercase(ty@) != "text"@
        },
        BodyPart::Text { .. } => false,
        BodyPart::Message { body, .. } => has_attachment(*body),
        BodyPart::Multipart { bodies, .. } => any_attachment(bodies@, 0),
    }
}

/// Whether some part from `i` on has attachments.
pub open spec fn any_attachment(bs: Seq<BodyPart>, i: int) -> bool
    decreases bs, bs.len() - i,
{
    if 0 <= i < bs.len() {
        has_attachment(bs[i]) || any_attachment(bs, i + 1)
    } else {
        false
    }
}

/// Whether the lowercase form of `s` is `lit`.
fn lower_is(s: &String, lit: &str) -> (r: bool)
    ensures
        r == (text::lowercase(s@) == lit@),
{
    let l = text::lower_chars(text::string_chars(s).as_slice());
    text::chars_eq(l.as_slice(), text::str_chars(lit).as_slice())
}

/// Whether a body has attachments (see [`has_attachment`]).
pub fn has_attachments(body: &BodyPart) -> (r: bool)
    ensures
        r == has_attachment(*body),
    decreases body,
{
    match body {
        BodyPart::Basic { ty, disposition, .. } => {
            match disposition {
                Some(d) => {
                    if lower_is(d, "attachment") {
                        return true;
                    }
                },
                None => {},
            }
            !lower_is(ty, "text")
        },
        BodyPart::Text { .. } => false,
        BodyPart::Message { body: inner, .. } => has_attachments(inner),
        BodyPart::Multipart { bodies, .. } => {
            let mut i: usize = 0;
            while i < bodies.len()
                invariant
                    i <= bodies@.len(),
                    *body is Multipart,
                    body->Multipart_bodies == *bodies,
                    has_attachment(*body) == any_attachment(bodies@, 0),
                    any_attachment(bodies@, 0) == any_attachment(bodies@, i as int),
                decreases bodies@.len() - i,
            {
                assert(decreases_to!(*body => *bodies));
                assert(decreases_to!(*bodies => bodies@));
                assert(decreases_to!(bodies@ => bodies@[i as int]));
                if has_attachments(&bodies[i]) {
                    return true;
                }
                i += 1;
            }
            false
        },
    }
}


// ── The text part ───────────────────────────────────────────────────────────

/// The part number of a single part reached through `prefix`: `1` for the
/// top level.
pub open spec fn part_path(prefix: Seq<u32>) -> Seq<u32> {
    if prefix.len() == 0 {
        seq![1u32]
    } else {
        prefix
    }
}

/// The first part of subtype `subtype` (lowercase) under text, depth first:
/// its part number (below `prefix`) and its transfer encoding. A text part
/// matches by its subtype, another single part when its media type is
/// `text/<subtype>` (in lowercase); the parts of a multipart are numbered
/// from 1; an encapsulated message is searched under its own number.
pub open spec fn find_part(b: BodyPart, prefix: Seq<u32>, subtype: Seq<char>) -> Option<(Seq<u32>, ContentEncoding)>
    decreases b, 0int,
{
    match b {
        BodyPart::Text { subtype: st, encoding, .. } => if text::lowercase(st@) == subtype {
            Some((part_path(prefix), encoding))
        } else {
            None
        },
        BodyPart::Basic { ty, subtype: st, encoding, .. } => if text::lowercase(ty@) + "/"@ + text::lowercase(st@) == "text/"@ + subtype {
            Some((part_path(prefix), encoding))
        } else {
            None
        },
        BodyPart::Multipart { bodies, .. } => find_in_parts(bodies@, prefix, subtype, 0),
        BodyPart::Message { body, .. } => find_part(*body, part_path(prefix), subtype),
    }
}

/// The first match among the parts from `i` on.
pub open spec fn find_in_parts(bs: Seq<BodyPart>, prefix: Seq<u32>, subtype: Seq<char>, i: int) -> Option<(Seq<u32>, ContentEncoding)>
    decreases bs, bs.len() - i,
{
    if 0 <= i < bs.len() {
        match find_part(bs[i], prefix.push((i + 1) as u32), subtype) {
            Some(f) => Some(f),
            None => find_in_parts(bs, prefix, subtype, i + 1),
        }
    } else {
        None
    }
}

/// A copy of a part number.
fn copy_part(prefix: &[u32]) -> (r: Vec<u32>)
    ensures
        r@ == prefix@,
{
    let mut v: Vec<u32> = Vec::new();
    let mut i: usize = 0;
    while i < prefix.len()
        invariant
            i <= prefix@.len(),
            v@ == prefix@.take(i as int),
        decreases prefix@.len() - i,
    {
        v.push(prefix[i]);
        assert(prefix@.take(i + 1) =~= prefix@.take(i as int).push(prefix@[i as int]));
        i += 1;
    }
    assert(prefix@.take(prefix@.len() as int) =~= prefix@);
    v
}

/// The part number for a single part.
fn part_path_exec(prefix: &[u32]) -> (r: Vec<u32>)
    ensures
        r@ == part_path(prefix@),
{
    if prefix.len() == 0 {
        let mut v: Vec<u32> = Vec::new();
        v.push(1);
        assert(v@ =~= seq![1u32]);
        v
    } else {
        copy_part(prefix)
    }
}

/// The lowercase form of a string.
fn lower_of(s: &String) -> (r: Vec<char>)
    ensures
        r@ == text::lowercase(s@),
{
    text::lower_chars(text::string_chars(s).as_slice())
}

/// The first part of the given subtype under text (see [`find_part`]).
pub fn find_mime_part<'a>(body: &'a BodyPart, prefix: &[u32], subtype: &str) -> (r: Option<(Vec<u32>, &'a ContentEncoding)>)
    ensures
        match r {
            Some((p, e)) => find_part(*body, prefix@, subtype@) == Some((p@, *e)),
            None => find_part(*body, prefix@, subtype@) is None,
        },
    decreases body,
{
    match body {
        BodyPart::Text { subtype: st, encoding, .. } => {
            let l = lower_of(st);
            if text::chars_eq(l.as_slice(), text::str_chars(subtype).as_slice()) {
                Some((part_path_exec(prefix), encoding))
            } else {
                None
            }
        },
        BodyPart::Basic { ty, subtype: st, encoding, .. } => {
            let mut mime = lower_of(ty);
            mime.push('/');
            let ls = lower_of(st);
            text::append_chars(&mut mime, ls.as_slice());
            let want = text::lit_then("text/", text::str_chars(subtype).as_slice());
            proof { reveal_strlit("/"); }
            assert(mime@ =~= text::lowercase(ty@) + "/"@ + text::lowercase(st@));
            if text::chars_eq(mime.as_slice(), want.as_slice()) {
                Some((part_path_exec(prefix), encoding))
            } else {
                None
            }
        },
        BodyPart::Multipart { bodies, .. } => {
            let mut i: usize = 0;
            while i < bodies.len()
                invariant
                    i <= bodies@.len(),
                    *body is Multipart,
                    body->Multipart_bodies == *bodies,
                    find_part(*body, prefix@, subtype@) == find_in_parts(bodies@, prefix@, subtype@, 0),
                    find_in_parts(bodies@, prefix@, subtype@, 0) == find_in_parts(bodies@, prefix@, subtype@, i as int),
                decreases bodies@.len() - i,
            {
                let mut path = copy_part(prefix);
                let n: u32 = ((i + 1) as u32);
                path.push(n);
                assert(decreases_to!(*body => *bodies));
                assert(decreases_to!(*bodies => bodies@));
                assert(decreases_to!(bodies@ => bodies@[i as int]));
                match find_mime_part(&bodies[i], path.as_slice(), subtype) {
                    Some(found) => {
                        return Some(found);
                    },
                    None => {},
                }
                i += 1;
            }
            None
        },
        BodyPart::Message { body: inner, .. } => {
            let path = part_path_exec(prefix);
            find_mime_part(inner, path.as_slice(), subtype)
        },
    }
}

/// The name of a transfer encoding (lowercase).
pub open spec fn encoding_name(e: ContentEncoding) -> Seq<char> {
    match e {
        ContentEncoding::SevenBit => "7bit"@,
        ContentEncoding::EightBit => "8bit"@,
        ContentEncoding::Binary => "binary"@,
        ContentEncoding::Base64 => "base64"@,
        ContentEncoding::QuotedPrintable => "quoted-printable"@,
        ContentEncoding::Other(s) => text::lowercase(s@),
    }
}

/// The name of a transfer encoding.
pub fn encoding_to_string(enc: &ContentEncoding) -> (r: String)
    ensures
        r@ == encoding_name(*enc),
{
    match enc {
        ContentEncoding::SevenBit => "7bit".to_string(),
        ContentEncoding::EightBit => "8bit".to_string(),
        ContentEncoding::Binary => "binary".to_string(),
        ContentEncoding::Base64 => "base64".to_string(),
        ContentEncoding::QuotedPrintable => "quoted-printable".to_string(),
        ContentEncoding::Other(s) => text::to_lowercase(s.as_str()),
    }
}

/// A part number as text: its numbers in decimal, joined with dots.
pub open spec fn part_text(part: Seq<u32>) -> Seq<char>
    decreases part.len(),
{
    if part.len() == 0 {
        Seq::empty()
    } else if part.len() == 1 {
        text::decimal(part[0] as nat)
    } else {
        part_text(part.drop_last()) + seq!['.'] + text::decimal(part.last() as nat)
    }
}

/// A part number as text (`1.2.3`).
pub fn part_to_string(part: &[u32]) -> (r: String)
    ensures
        r@ == part_text(part@),
{
    let mut out: Vec<char> = Vec::new();
    let mut i: usize = 0;
    assert(part@.take(0) =~= Seq::<u32>::empty());
    while i < part.len()
        invariant
            i <= part@.len(),
            out@ == part_text(part@.take(i as int)),
        decreases part@.len() - i,
    {
        assert(part@.take(i + 1).drop_last() =~= part@.take(i as int));
        assert(part@.take(i + 1).last() == part@[i as int]);
        let ghost o0 = out@;
        if i > 0 {
            out.push('.');
        }
        text::push_decimal(&mut out, part[i] as u64);
        proof {
            if i == 0 {
                assert(out@ =~= text::decimal(part@[0] as nat));
            } else {
                assert(out@ =~= o0 + seq!['.'] + text::decimal(part@[i as int] as nat));
            }
        }
        i += 1;
    }
    assert(part@.take(part@.len() as int) =~= part@);
    text::chars_to_string(out.as_slice())
}


// ── Transfer decoding ───────────────────────────────────────────────────────

/// The bytes `quoted_printable::decode` gives for its input in robust mode,
/// or `None` when it reports an error.
pub uninterp spec fn quoted_printable_bytes(input: Seq<u8>) -> Option<Seq<u8>>;

/// `quoted_printable::decode` in `ParseMode::Robust`. The contract claims
/// the outcome is the one named `quoted_printable_bytes`; the error is not
/// stated.
#[verifier::external_body]
fn quoted_printable_decode(input: &[u8]) -> (r: Option<Vec<u8>>)
    ensures
        match r {
            Some(b) => quoted_printable_bytes(input@) == Some(b@),
            None => quoted_printable_bytes(input@) is None,
        },
{
    quoted_printable::decode(input, quoted_printable::ParseMode::Robust).ok()
}

/// Whether a byte is ASCII whitespace (`u8::is_ascii_whitespace`: space,
/// tab, line feed, form feed, carriage return).
pub open spec fn is_ascii_space(b: u8) -> bool {
    b == 0x20 || b == 0x09 || b == 0x0A || b == 0x0C || b == 0x0D
}

/// The bytes without ASCII whitespace.
pub open spec fn without_ascii_space(bs: Seq<u8>) -> Seq<u8>
    decreases bs.len(),
{
    if bs.len() == 0 {
        Seq::empty()
    } else if is_ascii_space(bs.last()) {
        without_ascii_space(bs.drop_last())
    } else {
        without_ascii_space(bs.drop_last()).push(bs.last())
    }
}

/// The bytes a body holds once its transfer encoding is undone:
/// quoted-printable (robust) or base64 (ignoring ASCII whitespace), each
/// falling back to the raw bytes when decoding fails; any other encoding
/// leaves them raw.
pub open spec fn body_bytes(raw: Seq<u8>, encoding: Seq<char>) -> Seq<u8> {
    if encoding == "quoted-printable"@ {
        match quoted_printable_bytes(raw) {
            Some(b) => b,
            None => raw,
        }
    } else if encoding == "base64"@ {
        match crypto::base64_bytes(without_ascii_space(raw)) {
            Some(b) => b,
            None => raw,
        }
    } else {
        raw
    }
}

/// A copy of bytes.
fn copy_bytes(b: &[u8]) -> (r: Vec<u8>)
    ensures
        r@ == b@,
{
    let mut r: Vec<u8> = Vec::new();
    let mut i: usize = 0;
    while i < b.len()
        invariant
            i <= b@.len(),
            r@ == b@.take(i as int),
        decreases b@.len() - i,
    {
        r.push(b[i]);
        assert(b@.take(i + 1) =~= b@.take(i as int).push(b@[i as int]));
        i += 1;
    }
    assert(b@.take(b@.len() as int) =~= b@);
    r
}

/// The text of a body: its transfer encoding undone (see [`body_bytes`])
/// and read as UTF-8, invalid sequences replaced. Decoding never fails.
pub fn decode_body(raw: &[u8], encoding: &str) -> (r: Result<String, EddieError>)
    ensures
        r matches Ok(s) && s@ == text::utf8_lossy(body_bytes(raw@, encoding@)),
{
    let enc = text::str_chars(encoding);
    let bytes = if text::chars_eq(enc.as_slice(), text::str_chars("quoted-printable").as_slice()) {
        match quoted_printable_decode(raw) {
            Some(b) => b,
            None => copy_bytes(raw),
        }
    } else if text::chars_eq(enc.as_slice(), text::str_chars("base64").as_slice()) {
        let mut cleaned: Vec<u8> = Vec::new();
        let mut i: usize = 0;
        assert(raw@.take(0) =~= Seq::<u8>::empty());
        while i < raw.len()
            invariant
                i <= raw@.len(),
                cleaned@ == without_ascii_space(raw@.take(i as int)),
            decreases raw@.len() - i,
        {
            assert(raw@.take(i + 1).drop_last() =~= raw@.take(i as int));
            assert(raw@.take(i + 1).last() == raw@[i as int]);
            let b = raw[i];
            if !(b == 0x20 || b == 0x09 || b == 0x0A || b == 0x0C || b == 0x0D) {
                cleaned.push(b);
            }
            i += 1;
        }
        assert(raw@.take(raw@.len() as int) =~= raw@);
        match crypto::base64_decode(cleaned.as_slice()) {
            Ok(b) => b,
            Err(_) => copy_bytes(raw),
        }
    } else {
        copy_bytes(raw)
    };
    Ok(text::from_utf8_lossy(bytes.as_slice()))
}

} // verus!
