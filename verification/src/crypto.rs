//! Device-bound encryption of stored passwords: AES-256-GCM under a key
//! derived with Argon2id from the machine identifier, the user name and an
//! application salt; ciphertexts are stored as base64 of nonce and sealed
//! data.
use vstd::prelude::*;
use vstd::string::StringSliceAdditionalSpecFns;
use aes_gcm::aead::{Aead, KeyInit};
use aes_gcm::aead::rand_core::RngCore;
use base64::Engine;
use crate::text;

verus! {

broadcast use vstd::string::group_string_axioms;

// ── Outside primitives ──────────────────────────────────────────────────────

/// The bytes `base64` (standard alphabet, padded) encodes into the text.
pub uninterp spec fn base64_text(bytes: Seq<u8>) -> Seq<char>;

/// The bytes the standard base64 engine decodes from its input, or `None`
/// when the input is not canonical padded base64.
pub uninterp spec fn base64_bytes(input: Seq<u8>) -> Option<Seq<u8>>;

/// `base64::engine::general_purpose::STANDARD.encode`. The contract claims
/// the text is the one named `base64_text`, that it is four characters for
/// every three bytes or part of them (padded), and that decoding the text
/// with the same engine gives the bytes back (the engine's round trip).
#[verifier::external_body]
pub(crate) fn base64_encode(bytes: &[u8]) -> (r: String)
    ensures
        r@ == base64_text(bytes@),
        r@.len() == 4 * ((bytes@.len() + 2) / 3),
        base64_bytes(vstd::utf8::encode_utf8(r@)) == Some(bytes@),
{
    base64::engine::general_purpose::STANDARD.encode(bytes)
}

/// `base64::engine::general_purpose::STANDARD.decode`. The contract claims
/// the outcome is the one named `base64_bytes`; the error's text is not
/// stated.
#[verifier::external_body]
pub(crate) fn base64_decode(input: &[u8]) -> (r: Result<Vec<u8>, String>)
    ensures
        match r {
            Ok(b) => base64_bytes(input@) == Some(b@),
            Err(_) => base64_bytes(input@) is None,
        },
{
    base64::engine::general_purpose::STANDARD.decode(input).map_err(|e| e.to_string())
}

/// The AES-256-GCM sealing of a plaintext under a key and nonce.
pub uninterp spec fn aes_gcm_seal(key: Seq<u8>, nonce: Seq<u8>, plaintext: Seq<u8>) -> Seq<u8>;

/// The AES-256-GCM opening of sealed data under a key and nonce, or `None`
/// when the data does not authenticate.
pub uninterp spec fn aes_gcm_open(key: Seq<u8>, nonce: Seq<u8>, sealed: Seq<u8>) -> Option<Seq<u8>>;

/// `Aes256Gcm::encrypt` with a 32-byte key and a 12-byte nonce. The
/// contract claims that it succeeds on every plaintext of at most 2^36 bytes
/// (the crate refuses only longer ones, `P_MAX`), that the sealed data is the
/// one named `aes_gcm_seal`, the plaintext's length plus the 16-byte tag,
/// and that opening it under the same key and nonce gives the plaintext back
/// (the correctness of an AEAD); the error's text is not stated.
#[verifier::external_body]
fn aes_gcm_encrypt(key: &[u8], nonce: &[u8], plaintext: &[u8]) -> (r: Result<Vec<u8>, String>)
    requires
        key@.len() == 32,
        nonce@.len() == 12,
    ensures
        plaintext@.len() <= 0x1000000000 ==> r is Ok,
        r matches Ok(c) ==> c@ == aes_gcm_seal(key@, nonce@, plaintext@)
            && c@.len() == plaintext@.len() + 16
            && aes_gcm_open(key@, nonce@, c@) == Some(plaintext@),
{
    let cipher = aes_gcm::Aes256Gcm::new(aes_gcm::Key::<aes_gcm::Aes256Gcm>::from_slice(key));
    cipher.encrypt(aes_gcm::Nonce::from_slice(nonce), plaintext).map_err(|e| e.to_string())
}

/// `Aes256Gcm::decrypt` with a 32-byte key and a 12-byte nonce. The
/// contract claims the outcome is the one named `aes_gcm_open`; the error's
/// text is not stated.
#[verifier::external_body]
fn aes_gcm_decrypt(key: &[u8], nonce: &[u8], sealed: &[u8]) -> (r: Result<Vec<u8>, String>)
    requires
        key@.len() == 32,
        nonce@.len() == 12,
    ensures
        match r {
            Ok(p) => aes_gcm_open(key@, nonce@, sealed@) == Some(p@),
            Err(_) => aes_gcm_open(key@, nonce@, sealed@) is None,
        },
{
    let cipher = aes_gcm::Aes256Gcm::new(aes_gcm::Key::<aes_gcm::Aes256Gcm>::from_slice(key));
    cipher.decrypt(aes_gcm::Nonce::from_slice(nonce), sealed).map_err(|e| e.to_string())
}

/// `OsRng::fill_bytes` on 12 bytes: a fresh random nonce. The contract
/// claims only its length.
#[verifier::external_body]
fn random_nonce() -> (r: Vec<u8>)
    ensures
        r@.len() == 12,
{
    let mut nonce = [0u8; 12];
    aes_gcm::aead::OsRng.fill_bytes(&mut nonce);
    nonce.to_vec()
}

/// The 32-byte key Argon2id (version 0x13) derives from key material and a
/// salt with the given memory, time and parallelism costs.
pub uninterp spec fn argon2id_key(material: Seq<u8>, salt: Seq<u8>, m_cost: u32, t_cost: u32, p_cost: u32) -> Seq<u8>;

/// `argon2::ParamsBuilder::build` with the given costs, then
/// `Argon2::hash_password_into` (Argon2id, version 0x13) into 32 bytes. The
/// contract claims that it succeeds whenever the crate's checks pass (memory
/// at least 8 blocks and 8 per lane, at least one pass, 1 to 2^24 - 1 lanes,
/// key material of at most 2^32 - 1 bytes, a salt of 8 to 2^32 - 1 bytes),
/// that the key is the one named `argon2id_key` and is 32 bytes long; an
/// error says whether building the parameters failed (`true`) or hashing
/// did, with the error's text, which is not stated. The crate computes
/// `8 * p_cost` in `u32` before it checks the lane count, so larger lane
/// counts are left out.
#[verifier::external_body]
fn argon2id_derive(material: &[u8], salt: &[u8], m_cost: u32, t_cost: u32, p_cost: u32) -> (r: Result<Vec<u8>, (bool, String)>)
    requires
        p_cost <= 0xFFFFFF,
    ensures
        8 <= m_cost && 8 * p_cost <= m_cost && 1 <= t_cost && 1 <= p_cost <= 0xFFFFFF
            && material@.len() <= 0xFFFFFFFF && 8 <= salt@.len() <= 0xFFFFFFFF ==> r is Ok,
        r matches Ok(k) ==> k@ == argon2id_key(material@, salt@, m_cost, t_cost, p_cost) && k@.len() == 32,
{
    let params = argon2::ParamsBuilder::new().m_cost(m_cost).t_cost(t_cost).p_cost(p_cost).build()
        .map_err(|e| (true, e.to_string()))?;
    let mut out = [0u8; 32];
    argon2::Argon2::new(argon2::Algorithm::Argon2id, argon2::Version::V0x13, params)
        .hash_password_into(material, salt, &mut out)
        .map_err(|e| (false, e.to_string()))?;
    Ok(out.to_vec())
}

/// `String::from_utf8`. The contract claims what its documentation says:
/// it succeeds exactly on valid UTF-8, with the text the bytes encode.
#[verifier::external_body]
fn utf8_string(bytes: Vec<u8>) -> (r: Result<String, String>)
    ensures
        match r {
            Ok(s) => vstd::utf8::valid_utf8(bytes@) && s@ == vstd::utf8::decode_utf8(bytes@),
            Err(_) => !vstd::utf8::valid_utf8(bytes@),
        },
{
    String::from_utf8(bytes).map_err(|e| e.to_string())
}


// ── Device encryption ───────────────────────────────────────────────────────

/// Errors of device encryption.
pub enum EncryptionError {
    KeyDerivation(String),
    Encryption(String),
    Decryption(String),
    InvalidFormat(String),
    DeviceId(String),
}

impl EncryptionError {
    /// The kind of the error (in declaration order) and its message.
    pub open spec fn parts(self) -> (int, Seq<char>) {
        match self {
            EncryptionError::KeyDerivation(m) => (0, m@),
            EncryptionError::Encryption(m) => (1, m@),
            EncryptionError::Decryption(m) => (2, m@),
            EncryptionError::InvalidFormat(m) => (3, m@),
            EncryptionError::DeviceId(m) => (4, m@),
        }
    }

    /// How the error reads.
    pub open spec fn display(self) -> Seq<char> {
        match self {
            EncryptionError::KeyDerivation(m) => "Failed to derive encryption key: "@ + m@,
            EncryptionError::Encryption(m) => "Encryption failed: "@ + m@,
            EncryptionError::Decryption(m) => "Decryption failed: "@ + m@,
            EncryptionError::InvalidFormat(m) => "Invalid encrypted data format: "@ + m@,
            EncryptionError::DeviceId(m) => "Failed to get device identifier: "@ + m@,
        }
    }

    /// How the error reads (see [`EncryptionError::display`]).
    pub fn to_text(&self) -> (r: String)
        ensures
            r@ == self.display(),
    {
        match self {
            EncryptionError::KeyDerivation(m) => message("Failed to derive encryption key: ", m),
            EncryptionError::Encryption(m) => message("Encryption failed: ", m),
            EncryptionError::Decryption(m) => message("Decryption failed: ", m),
            EncryptionError::InvalidFormat(m) => message("Invalid encrypted data format: ", m),
            EncryptionError::DeviceId(m) => message("Failed to get device identifier: ", m),
        }
    }
}

/// The application salt of key derivation.
pub open spec fn app_salt() -> Seq<u8> {
    vstd::utf8::encode_utf8("eddie.chat.v1.encryption.salt.2026"@)
}

/// The key material of a device: the bytes of its machine identifier, of
/// the user name and of the application salt.
pub open spec fn key_material(machine_id: Seq<char>, username: Seq<char>) -> Seq<u8> {
    vstd::utf8::encode_utf8(machine_id) + vstd::utf8::encode_utf8(username) + app_salt()
}

/// The device key: Argon2id of the key material, salted with the
/// application salt, with 64 MiB of memory, 3 passes and 4 lanes.
pub open spec fn device_key(machine_id: Seq<char>, username: Seq<char>) -> Seq<u8> {
    argon2id_key(key_material(machine_id, username), app_salt(), 65536, 3, 4)
}

/// The user name for the device key: `USER`, else `USERNAME`, else
/// `default`.
pub fn device_username(user: Option<String>, username: Option<String>) -> (r: String)
    ensures
        r@ == match user {
            Some(u) => u@,
            None => match username {
                Some(n) => n@,
                None => "default"@,
            },
        },
{
    match user {
        Some(u) => u,
        None => match username {
            Some(n) => n,
            None => "default".to_string(),
        },
    }
}

/// Appends bytes.
fn append_bytes(out: &mut Vec<u8>, b: &[u8])
    ensures
        final(out)@ == old(out)@ + b@,
{
    let mut i: usize = 0;
    while i < b.len()
        invariant
            i <= b@.len(),
            out@ == old(out)@ + b@.take(i as int),
        decreases b@.len() - i,
    {
        out.push(b[i]);
        assert(b@.take(i + 1) =~= b@.take(i as int).push(b@[i as int]));
        i += 1;
    }
    assert(b@.take(b@.len() as int) =~= b@);
}

/// The bytes `b[from..to]`.
fn byte_range(b: &[u8], from: usize, to: usize) -> (r: Vec<u8>)
    requires
        from <= to <= b@.len(),
    ensures
        r@ == b@.subrange(from as int, to as int),
{
    let mut r: Vec<u8> = Vec::new();
    let mut i: usize = from;
    while i < to
        invariant
            from <= i <= to <= b@.len(),
            r@ == b@.subrange(from as int, i as int),
        decreases to - i,
    {
        r.push(b[i]);
        assert(b@.subrange(from as int, i + 1) =~= b@.subrange(from as int, i as int).push(b@[i as int]));
        i += 1;
    }
    r
}

/// Text with a message after a prefix.
fn message(prefix: &str, detail: &String) -> (r: String)
    ensures
        r@ == prefix@ + detail@,
{
    text::chars_to_string(text::lit_then(prefix, text::string_chars(detail).as_slice()).as_slice())
}

/// Derives the device key from the machine identifier and the user name
/// (see [`device_key`]).
pub fn derive_device_key(machine_id: &str, username: &str) -> (r: Result<Vec<u8>, EncryptionError>)
    ensures
        key_material(machine_id@, username@).len() <= 0xFFFFFFFF ==> r is Ok,
        match r {
            Ok(k) => k@ == device_key(machine_id@, username@) && k@.len() == 32,
            Err(e) => e is KeyDerivation && (text::starts_with(e.parts().1, "Failed to build Argon2 params: "@)
                || text::starts_with(e.parts().1, "Argon2 key derivation failed: "@)),
        },
{
    let salt = "eddie.chat.v1.encryption.salt.2026".as_bytes();
    proof {
        reveal_strlit("eddie.chat.v1.encryption.salt.2026");
        assert(vstd::string::is_ascii("eddie.chat.v1.encryption.salt.2026"));
        vstd::string::is_ascii_spec_bytes("eddie.chat.v1.encryption.salt.2026");
        assert(salt@.len() == 34);
    }
    let mut material: Vec<u8> = Vec::new();
    append_bytes(&mut material, machine_id.as_bytes());
    append_bytes(&mut material, username.as_bytes());
    append_bytes(&mut material, salt);
    match argon2id_derive(material.as_slice(), salt, 65536, 3, 4) {
        Ok(k) => Ok(k),
        Err((params, e)) => {
            let m = if params {
                message("Failed to build Argon2 params: ", &e)
            } else {
                message("Argon2 key derivation failed: ", &e)
            };
            proof {
                reveal_strlit("Failed to build Argon2 params: ");
                reveal_strlit("Argon2 key derivation failed: ");
                assert(text::starts_with(m@, "Failed to build Argon2 params: "@) || text::starts_with(m@, "Argon2 key derivation failed: "@)) by {
                    if params {
                        assert(m@.subrange(0, "Failed to build Argon2 params: "@.len() as int) =~= "Failed to build Argon2 params: "@);
                    } else {
                        assert(m@.subrange(0, "Argon2 key derivation failed: "@.len() as int) =~= "Argon2 key derivation failed: "@);
                    }
                }
            }
            Err(EncryptionError::KeyDerivation(m))
        },
    }
}

/// Encryption under a device key.
pub struct DeviceEncryption {
    key: Vec<u8>,
}

/// What decrypting a stored text gives under a key: the base64 text decoded
/// into nonce (its first 12 bytes) and sealed data, opened, and read as
/// UTF-8; `None` when any step fails or the text is empty.
pub open spec fn opened(key: Seq<u8>, stored: Seq<char>) -> Option<Seq<char>> {
    if stored.len() == 0 {
        None
    } else {
        match base64_bytes(vstd::utf8::encode_utf8(stored)) {
            None => None,
            Some(combined) => if combined.len() < 12 {
                None
            } else {
                match aes_gcm_open(key, combined.take(12), combined.skip(12)) {
                    None => None,
                    Some(p) => if vstd::utf8::valid_utf8(p) {
                        Some(vstd::utf8::decode_utf8(p))
                    } else {
                        None
                    },
                }
            },
        }
    }
}

/// Why decrypting a stored text fails: the kind of error and its message,
/// as far as it does not come from the outside code (`prefix` is a prefix
/// of the message).
pub open spec fn decrypt_failure(key: Seq<u8>, stored: Seq<char>) -> (int, Seq<char>) {
    if stored.len() == 0 {
        (3, "Cannot decrypt empty string"@)
    } else {
        match base64_bytes(vstd::utf8::encode_utf8(stored)) {
            None => (3, "Invalid base64 encoding: "@),
            Some(combined) => if combined.len() < 12 {
                (3, "Encrypted data too short: "@ + text::decimal(combined.len()) + " bytes"@)
            } else {
                match aes_gcm_open(key, combined.take(12), combined.skip(12)) {
                    None => (2, "AES-GCM decryption failed (possibly wrong key or corrupted data): "@),
                    Some(_) => (2, "Decrypted data is not valid UTF-8: "@),
                }
            },
        }
    }
}

impl DeviceEncryption {
    #[verifier::type_invariant]
    spec fn key_is_aes256(self) -> bool {
        self.key@.len() == 32
    }

    /// The key.
    pub closed spec fn key(self) -> Seq<u8> {
        self.key@
    }

    /// Encryption under the key derived for this device (see
    /// [`device_key`]).
    pub fn for_device(machine_id: &str, username: &str) -> (r: Result<DeviceEncryption, EncryptionError>)
        ensures
            key_material(machine_id@, username@).len() <= 0xFFFFFFFF ==> r is Ok,
            match r {
                Ok(e) => e.key() == device_key(machine_id@, username@),
                Err(e) => e is KeyDerivation && (text::starts_with(e.parts().1, "Failed to build Argon2 params: "@)
                    || text::starts_with(e.parts().1, "Argon2 key derivation failed: "@)),
            },
    {
        let key = derive_device_key(machine_id, username)?;
        Ok(DeviceEncryption { key })
    }

    /// The stored text of `plaintext` sealed under the key and `nonce`: the
    /// base64 of the nonce followed by the sealed text.
    pub open spec fn sealed_text(self, nonce: Seq<u8>, plaintext: Seq<char>) -> Seq<char> {
        base64_text(nonce + aes_gcm_seal(self.key(), nonce, vstd::utf8::encode_utf8(plaintext)))
    }

    /// Encrypts a non-empty text under a given 12-byte nonce: the nonce
    /// followed by the text sealed under the key and that nonce, in base64.
    /// The stored text decodes to the nonce, the text's bytes and the 16-byte
    /// tag, is longer than the text, and decrypts back to the text.
    pub fn encrypt_with_nonce(&self, plaintext: &str, nonce: &[u8]) -> (r: Result<String, EncryptionError>)
        requires
            nonce@.len() == 12,
        ensures
            plaintext@.len() == 0 ==> (r matches Err(e) && e.parts() == (1int, "Cannot encrypt empty plaintext"@)),
            plaintext@.len() > 0 && vstd::utf8::encode_utf8(plaintext@).len() <= 0x1000000000 ==> r is Ok,
            plaintext@.len() > 0 ==> match r {
                Ok(c) => {
                    &&& c@ == self.sealed_text(nonce@, plaintext@)
                    &&& base64_bytes(vstd::utf8::encode_utf8(c@))
                        == Some(nonce@ + aes_gcm_seal(self.key(), nonce@, vstd::utf8::encode_utf8(plaintext@)))
                    &&& aes_gcm_seal(self.key(), nonce@, vstd::utf8::encode_utf8(plaintext@)).len()
                        == vstd::utf8::encode_utf8(plaintext@).len() + 16
                    &&& c@.len() == 4 * ((vstd::utf8::encode_utf8(plaintext@).len() + 30) / 3)
                    &&& c@.len() > plaintext@.len()
                    &&& opened(self.key(), c@) == Some(plaintext@)
                },
                Err(e) => e is Encryption && text::starts_with(e.parts().1, "AES-GCM encryption failed: "@),
            },
    {
        proof { use_type_invariant(self); }
        if plaintext.is_empty() {
            return Err(EncryptionError::Encryption("Cannot encrypt empty plaintext".to_string()));
        }
        let pt = plaintext.as_bytes();
        let sealed = match aes_gcm_encrypt(self.key.as_slice(), nonce, pt) {
            Ok(c) => c,
            Err(e) => {
                let m = message("AES-GCM encryption failed: ", &e);
                assert(m@.subrange(0, "AES-GCM encryption failed: "@.len() as int) =~= "AES-GCM encryption failed: "@);
                return Err(EncryptionError::Encryption(m));
            },
        };
        let mut combined: Vec<u8> = Vec::new();
        append_bytes(&mut combined, nonce);
        append_bytes(&mut combined, sealed.as_slice());
        let encoded = base64_encode(combined.as_slice());
        proof {
            let p = vstd::utf8::encode_utf8(plaintext@);
            assert(pt@ == p);
            assert(combined@.take(12) =~= nonce@);
            assert(combined@.skip(12) =~= sealed@);
            assert(combined@.len() >= 12);
            assert(encoded@.len() > 0);
            vstd::utf8::encode_utf8_valid_utf8(plaintext@);
            vstd::utf8::encode_utf8_decode_utf8(plaintext@);
            assert(opened(self.key(), encoded@) == Some(plaintext@));
            lemma_utf8_len(plaintext@);
            assert(combined@.len() == p.len() + 28);
            assert(4 * ((p.len() + 30) / 3) >= p.len() + 1) by (nonlinear_arith)
                requires p.len() >= 0;
        }
        Ok(encoded)
    }

    /// Encrypts a non-empty text under a fresh random nonce (see
    /// [`DeviceEncryption::encrypt_with_nonce`]).
    pub fn encrypt(&self, plaintext: &str) -> (r: Result<String, EncryptionError>)
        ensures
            plaintext@.len() == 0 ==> (r matches Err(e) && e.parts() == (1int, "Cannot encrypt empty plaintext"@)),
            plaintext@.len() > 0 && vstd::utf8::encode_utf8(plaintext@).len() <= 0x1000000000 ==> r is Ok,
            plaintext@.len() > 0 ==> match r {
                Ok(c) => (exists|nonce: Seq<u8>| {
                    &&& nonce.len() == 12
                    &&& c@ == self.sealed_text(nonce, plaintext@)
                    &&& base64_bytes(vstd::utf8::encode_utf8(c@))
                        == Some(nonce + aes_gcm_seal(self.key(), nonce, vstd::utf8::encode_utf8(plaintext@)))
                    &&& aes_gcm_seal(self.key(), nonce, vstd::utf8::encode_utf8(plaintext@)).len()
                        == vstd::utf8::encode_utf8(plaintext@).len() + 16
                })
                    && c@.len() == 4 * ((vstd::utf8::encode_utf8(plaintext@).len() + 30) / 3)
                    && c@.len() > plaintext@.len()
                    && opened(self.key(), c@) == Some(plaintext@),
                Err(e) => e is Encryption && text::starts_with(e.parts().1, "AES-GCM encryption failed: "@),
            },
    {
        let nonce = random_nonce();
        self.encrypt_with_nonce(plaintext, nonce.as_slice())
    }

    /// Decrypts a stored text (see [`opened`] and [`decrypt_failure`]).
    pub fn decrypt(&self, encrypted: &str) -> (r: Result<String, EncryptionError>)
        ensures
            match r {
                Ok(s) => opened(self.key(), encrypted@) == Some(s@),
                Err(e) => opened(self.key(), encrypted@) is None
                    && e.parts().0 == decrypt_failure(self.key(), encrypted@).0
                    && text::starts_with(e.parts().1, decrypt_failure(self.key(), encrypted@).1),
            },
    {
        proof { use_type_invariant(self); }
        if encrypted.is_empty() {
            let r = EncryptionError::InvalidFormat("Cannot decrypt empty string".to_string());
            proof { lemma_starts_with_self(r.parts().1); }
            return Err(r);
        }
        let bytes = encrypted.as_bytes();
        let combined = match base64_decode(bytes) {
            Ok(c) => c,
            Err(e) => {
                let m = message("Invalid base64 encoding: ", &e);
                assert(m@.subrange(0, "Invalid base64 encoding: "@.len() as int) =~= "Invalid base64 encoding: "@);
                return Err(EncryptionError::InvalidFormat(m));
            },
        };
        if combined.len() < 12 {
            let mut m = text::str_chars("Encrypted data too short: ");
            text::push_decimal(&mut m, combined.len() as u64);
            let tail = text::str_chars(" bytes");
            text::append_chars(&mut m, tail.as_slice());
            let r = EncryptionError::InvalidFormat(text::chars_to_string(m.as_slice()));
            proof { lemma_starts_with_self(r.parts().1); }
            return Err(r);
        }
        let n: usize = combined.len();
        let nonce = byte_range(combined.as_slice(), 0, 12);
        let sealed = byte_range(combined.as_slice(), 12, n);
        assert(nonce@ =~= combined@.take(12));
        assert(sealed@ =~= combined@.skip(12));
        let plain = match aes_gcm_decrypt(self.key.as_slice(), nonce.as_slice(), sealed.as_slice()) {
            Ok(p) => p,
            Err(e) => {
                let m = message("AES-GCM decryption failed (possibly wrong key or corrupted data): ", &e);
                assert(m@.subrange(0, "AES-GCM decryption failed (possibly wrong key or corrupted data): "@.len() as int)
                    =~= "AES-GCM decryption failed (possibly wrong key or corrupted data): "@);
                return Err(EncryptionError::Decryption(m));
            },
        };
        match utf8_string(plain) {
            Ok(s) => Ok(s),
            Err(e) => {
                let m = message("Decrypted data is not valid UTF-8: ", &e);
                assert(m@.subrange(0, "Decrypted data is not valid UTF-8: "@.len() as int) =~= "Decrypted data is not valid UTF-8: "@);
                Err(EncryptionError::Decryption(m))
            },
        }
    }
}

/// A text takes at least one byte per character in UTF-8.
pub proof fn lemma_utf8_len(s: Seq<char>)
    ensures
        vstd::utf8::encode_utf8(s).len() >= s.len(),
    decreases s.len(),
{
    if s.len() > 0 {
        lemma_utf8_len(s.drop_first());
        assert(vstd::utf8::encode_scalar(s[0] as u32).len() >= 1);
    }
}

/// Stored texts sealed under different nonces differ: a stored text decodes
/// to its nonce first.
pub proof fn law_fresh_nonce_fresh_text(c1: Seq<char>, c2: Seq<char>, n1: Seq<u8>, n2: Seq<u8>, s1: Seq<u8>, s2: Seq<u8>)
    requires
        n1.len() == 12,
        n2.len() == 12,
        n1 != n2,
        base64_bytes(vstd::utf8::encode_utf8(c1)) == Some(n1 + s1),
        base64_bytes(vstd::utf8::encode_utf8(c2)) == Some(n2 + s2),
    ensures
        c1 != c2,
{
    if c1 == c2 {
        assert((n1 + s1).take(12) =~= n1);
        assert((n2 + s2).take(12) =~= n2);
    }
}

/// The device key depends on the machine identifier and the user name
/// alone: two encryptions made for the same device hold the same key.
pub proof fn law_device_key_determined(e1: DeviceEncryption, e2: DeviceEncryption, machine_id: Seq<char>, username: Seq<char>)
    requires
        e1.key() == device_key(machine_id, username),
        e2.key() == device_key(machine_id, username),
    ensures
        e1.key() == e2.key(),
{
}

pub proof fn lemma_starts_with_self(s: Seq<char>)
    ensures
        text::starts_with(s, s),
{
    assert(s.subrange(0, s.len() as int) =~= s);
}

} // verus!
