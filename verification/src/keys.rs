//! Node keys: generating an ed25519 or sr25519 key, and inspecting a key
//! given in hex. The curve arithmetic is the ed25519-dalek and schnorrkel
//! crates' and the hex codec the hex crate's; which key a string denotes,
//! and what is reported of it, is decided here.
use vstd::prelude::*;
use vstd::utf8::encode_utf8;

verus! {

/// Length of a secret, a seed and a public key, in bytes.
pub const KEY_LENGTH: usize = 32;

/// Length of an ed25519 secret followed by its public key.
pub const KEYPAIR_LENGTH: usize = 64;

/// The public key of the ed25519 signing key whose secret is `secret`.
pub uninterp spec fn ed25519_public_key(secret: Seq<u8>) -> Seq<u8>;

/// The public key of the sr25519 keypair expanded (in ed25519 mode) from
/// the mini secret `seed`.
pub uninterp spec fn sr25519_public_key(seed: Seq<u8>) -> Seq<u8>;

/// The lowercase hex digit of `n` (0 to 15).
pub open spec fn hex_digit(n: int) -> char {
    if n < 10 {
        (48 + n) as char
    } else {
        (87 + n) as char
    }
}

/// Lowercase hex of `b`: two digits per byte, high nibble first.
pub open spec fn spec_hex_encode(b: Seq<u8>) -> Seq<char> {
    Seq::new(2 * b.len(), |i: int| hex_digit(if i % 2 == 0 { (b[i / 2] / 16) as int } else { (b[i / 2] % 16) as int }))
}

/// `c` is an ASCII hex digit, of either case.
pub open spec fn is_hex_byte(c: u8) -> bool {
    (48 <= c <= 57) || (65 <= c <= 70) || (97 <= c <= 102)
}

pub open spec fn hex_value(c: u8) -> int {
    if 48 <= c <= 57 {
        c - 48
    } else if 65 <= c <= 70 {
        c - 55
    } else {
        c - 87
    }
}

/// The bytes that the hex digits `s` (an even number of them) denote.
pub open spec fn spec_hex_decode(s: Seq<u8>) -> Seq<u8> {
    Seq::new(s.len() / 2, |i: int| (hex_value(s[2 * i]) * 16 + hex_value(s[2 * i + 1])) as u8)
}

/// Index of the first byte of `s` that is not a hex digit, if any.
pub open spec fn first_non_hex(s: Seq<u8>) -> Option<int> {
    if exists|k: int| 0 <= k < s.len() && !is_hex_byte(s[k]) {
        Some(choose|k: int| 0 <= k < s.len() && !is_hex_byte(s[k]) && forall|j: int| 0 <= j < k ==> is_hex_byte(s[j]))
    } else {
        None
    }
}

/// Why hex text does not decode.
#[derive(Debug, Clone, Copy, PartialEq, Eq)]
pub enum HexError {
    /// The first byte that is not a hex digit, and its position.
    InvalidHexCharacter { c: char, index: usize },
    /// Two digits make a byte: an odd count cannot be decoded.
    OddLength,
    InvalidStringLength,
}

/// The outcome `hex::decode` gives for `s`.
pub open spec fn spec_hex_decode_result(s: Seq<u8>) -> Result<Seq<u8>, HexError> {
    if s.len() % 2 == 1 {
        Err(HexError::OddLength)
    } else {
        match first_non_hex(s) {
            None => Ok(spec_hex_decode(s)),
            Some(k) => Err(HexError::InvalidHexCharacter { c: s[k] as char, index: k as usize }),
        }
    }
}

/// Lowercase hex of `data` (`hex::encode`): for each byte its high then
/// its low nibble, as digits of "0123456789abcdef".
#[verifier::external_body]
fn hex_encode(data: &[u8]) -> (r: String)
    ensures
        r@ == spec_hex_encode(data@),
{
    hex::encode(data)
}

/// Bytes of the hex text `data` (`hex::decode`): an odd length is refused
/// first; otherwise the first byte (in order) that is not a digit of either
/// case is reported with its position; otherwise each pair of digits gives
/// a byte, high nibble first.
#[verifier::external_body]
fn hex_decode(data: &[u8]) -> (r: Result<Vec<u8>, HexError>)
    ensures
        match r {
            Ok(v) => spec_hex_decode_result(data@) == Ok::<Seq<u8>, HexError>(v@),
            Err(e) => spec_hex_decode_result(data@) == Err::<Seq<u8>, HexError>(e),
        },
{
    match hex::decode(data) {
        Ok(v) => Ok(v),
        Err(hex::FromHexError::InvalidHexCharacter { c, index }) => Err(HexError::InvalidHexCharacter { c, index }),
        Err(hex::FromHexError::OddLength) => Err(HexError::OddLength),
        Err(hex::FromHexError::InvalidStringLength) => Err(HexError::InvalidStringLength),
    }
}

/// The public key of an ed25519 secret (`SigningKey::from_bytes`, then its
/// verifying key's bytes); a function of the secret alone.
#[verifier::external_body]
fn ed25519_public_of(secret: &[u8; 32]) -> (pk: [u8; 32])
    ensures
        pk@ == ed25519_public_key(secret@),
{
    ed25519_dalek::SigningKey::from_bytes(secret).verifying_key().to_bytes()
}

/// A fresh ed25519 secret from the operating system's randomness
/// (`SigningKey::generate` with `OsRng`). Nothing is claimed of its value.
#[verifier::external_body]
fn ed25519_generate_secret() -> (secret: [u8; 32]) {
    ed25519_dalek::SigningKey::generate(&mut rand::rngs::OsRng).to_bytes()
}

/// The sr25519 public key of a mini secret (`MiniSecretKey::from_bytes`,
/// expanded in ed25519 mode). `from_bytes` refuses only a length other than
/// 32, so for these 32 bytes a key always comes back.
#[verifier::external_body]
fn sr25519_public_of(seed: &[u8; 32]) -> (pk: Option<[u8; 32]>)
    ensures
        pk is Some,
        pk matches Some(k) ==> k@ == sr25519_public_key(seed@),
{
    match schnorrkel::MiniSecretKey::from_bytes(seed) {
        Ok(mini) => Some(mini.expand_to_keypair(schnorrkel::ExpansionMode::Ed25519).public.to_bytes()),
        Err(_) => None,
    }
}

/// A fresh sr25519 mini secret from the operating system's randomness
/// (`MiniSecretKey::generate`). Nothing is claimed of its value.
#[verifier::external_body]
fn sr25519_generate_seed() -> (seed: [u8; 32]) {
    schnorrkel::MiniSecretKey::generate().to_bytes()
}

#[derive(Debug, Clone, Copy, PartialEq, Eq, Structural)]
pub enum KeyScheme {
    Ed25519,
    Sr25519,
}

#[derive(Debug, Clone, Copy, PartialEq, Eq, Structural)]
pub enum KeyFormat {
    Json,
    Hex,
}

#[derive(Debug, Clone, PartialEq, Eq)]
pub enum KeyError {
    UnknownScheme(String),
    UnknownFormat(String),
    InvalidHex(HexError),
    /// An ed25519 key must be 32 (secret) or 64 (keypair) bytes.
    InvalidEd25519Length(usize),
    /// An sr25519 key must be a 32-byte seed.
    InvalidSr25519Length(usize),
}

/// The scheme named `s`, if any.
pub open spec fn spec_scheme(s: Seq<char>) -> Option<KeyScheme> {
    if s == "ed25519"@ {
        Some(KeyScheme::Ed25519)
    } else if s == "sr25519"@ {
        Some(KeyScheme::Sr25519)
    } else {
        None
    }
}

/// The output format named `s`, if any.
pub open spec fn spec_format(s: Seq<char>) -> Option<KeyFormat> {
    if s == "json"@ {
        Some(KeyFormat::Json)
    } else if s == "hex"@ {
        Some(KeyFormat::Hex)
    } else {
        None
    }
}

fn str_eq(a: &str, b: &str) -> (r: bool)
    ensures
        r == (a@ == b@),
{
    a.to_owned() == b.to_owned()
}

/// The scheme named `scheme`: "ed25519" or "sr25519".
pub fn parse_scheme(scheme: &str) -> (r: Result<KeyScheme, KeyError>)
    ensures
        match r {
            Ok(k) => spec_scheme(scheme@) == Some(k),
            Err(e) => spec_scheme(scheme@) is None && (e matches KeyError::UnknownScheme(n) && n@ == scheme@),
        },
{
    if str_eq(scheme, "ed25519") {
        Ok(KeyScheme::Ed25519)
    } else if str_eq(scheme, "sr25519") {
        Ok(KeyScheme::Sr25519)
    } else {
        Err(KeyError::UnknownScheme(scheme.to_owned()))
    }
}

/// The output format named `format`: "json" or "hex".
pub fn parse_format(format: &str) -> (r: Result<KeyFormat, KeyError>)
    ensures
        match r {
            Ok(f) => spec_format(format@) == Some(f),
            Err(e) => spec_format(format@) is None && (e matches KeyError::UnknownFormat(n) && n@ == format@),
        },
{
    if str_eq(format, "json") {
        Ok(KeyFormat::Json)
    } else if str_eq(format, "hex") {
        Ok(KeyFormat::Hex)
    } else {
        Err(KeyError::UnknownFormat(format.to_owned()))
    }
}

/// A generated key, with the hex of its secret (or seed) and public key.
pub struct GeneratedKey {
    pub scheme: KeyScheme,
    pub format: KeyFormat,
    pub secret: [u8; 32],
    pub public: [u8; 32],
    pub secret_hex: String,
    pub public_hex: String,
}

/// The public key of `secret` in `scheme`.
pub open spec fn public_key_of(scheme: KeyScheme, secret: Seq<u8>) -> Seq<u8> {
    match scheme {
        KeyScheme::Ed25519 => ed25519_public_key(secret),
        KeyScheme::Sr25519 => sr25519_public_key(secret),
    }
}

/// The public key of `secret` in `scheme`, and its hex.
fn derive_public(scheme: KeyScheme, secret: &[u8; 32]) -> (pk: [u8; 32])
    ensures
        pk@ == public_key_of(scheme, secret@),
{
    match scheme {
        KeyScheme::Ed25519 => ed25519_public_of(secret),
        KeyScheme::Sr25519 => match sr25519_public_of(secret) {
            Some(pk) => pk,
            None => [0u8; 32],
        },
    }
}

/// Generates a key of the named scheme (whatever the format, which is
/// checked after the key is made): a random secret and its public key.
pub fn generate_key(scheme: &str, format: &str) -> (r: Result<GeneratedKey, KeyError>)
    ensures
        spec_scheme(scheme@) is None ==> (r matches Err(KeyError::UnknownScheme(n)) && n@ == scheme@),
        spec_scheme(scheme@) is Some && spec_format(format@) is None ==> (r matches Err(KeyError::UnknownFormat(n))
            && n@ == format@),
        r is Ok <==> spec_scheme(scheme@) is Some && spec_format(format@) is Some,
        match r {
            Ok(k) => {
                &&& spec_scheme(scheme@) == Some(k.scheme)
                &&& spec_format(format@) == Some(k.format)
                &&& k.public@ == public_key_of(k.scheme, k.secret@)
                &&& k.secret_hex@ == spec_hex_encode(k.secret@)
                &&& k.public_hex@ == spec_hex_encode(k.public@)
            },
            Err(_) => true,
        },
{
    let scheme = match parse_scheme(scheme) {
        Ok(k) => k,
        Err(e) => {
            return Err(e);
        },
    };
    let secret = match scheme {
        KeyScheme::Ed25519 => ed25519_generate_secret(),
        KeyScheme::Sr25519 => sr25519_generate_seed(),
    };
    let public = derive_public(scheme, &secret);
    let format = match parse_format(format) {
        Ok(f) => f,
        Err(e) => {
            return Err(e);
        },
    };
    let secret_hex = hex_encode(&secret);
    let public_hex = hex_encode(&public);
    Ok(GeneratedKey { scheme, format, secret, public, secret_hex, public_hex })
}

/// What a key given in hex turned out to be.
#[derive(Debug, Clone, PartialEq, Eq)]
pub enum InspectedKey {
    /// A 32-byte ed25519 secret, with its public key (also the account id).
    Ed25519Secret { public: [u8; 32], public_hex: String },
    /// 64 bytes: an ed25519 secret followed by its public key.
    Ed25519Keypair { secret_hex: String, public_hex: String },
    /// A 32-byte sr25519 seed, with its public key (also the account id).
    Sr25519Seed { public: [u8; 32], public_hex: String },
}

/// `b` without a leading "0x".
pub open spec fn strip_0x(b: Seq<u8>) -> Seq<u8> {
    if b.len() >= 2 && b[0] == 48 && b[1] == 120 {
        b.subrange(2, b.len() as int)
    } else {
        b
    }
}

/// The bytes of `v` as an array.
fn to_array32(v: &[u8]) -> (a: [u8; 32])
    requires
        v@.len() == 32,
    ensures
        a@ == v@,
{
    let mut a = [0u8; 32];
    let mut i: usize = 0;
    while i < 32
        invariant
            i <= 32,
            v@.len() == 32,
            forall|j: int| 0 <= j < i ==> a@[j] == v@[j],
        decreases 32 - i,
    {
        a[i] = v[i];
        i = i + 1;
    }
    assert(a@ =~= v@);
    a
}

/// The bytes `v[from..to]` as a vector.
fn copy_range(v: &[u8], from: usize, to: usize) -> (r: Vec<u8>)
    requires
        from <= to <= v@.len(),
    ensures
        r@ == v@.subrange(from as int, to as int),
{
    let mut r: Vec<u8> = Vec::new();
    let mut i: usize = from;
    while i < to
        invariant
            from <= i <= to,
            to <= v@.len(),
            r@ == v@.subrange(from as int, i as int),
        decreases to - i,
    {
        r.push(v[i]);
        i = i + 1;
        assert(r@ =~= v@.subrange(from as int, i as int));
    }
    r
}

/// The error of inspecting the key whose bytes are `key` (hex, with an
/// optional "0x") as a `scheme` key, if any.
pub open spec fn inspect_error(key: Seq<u8>, scheme: KeyScheme) -> Option<KeyError> {
    match spec_hex_decode_result(strip_0x(key)) {
        Err(e) => Some(KeyError::InvalidHex(e)),
        Ok(bytes) => match scheme {
            KeyScheme::Ed25519 => if bytes.len() == 32 || bytes.len() == 64 {
                None
            } else {
                Some(KeyError::InvalidEd25519Length(bytes.len() as usize))
            },
            KeyScheme::Sr25519 => if bytes.len() == 32 {
                None
            } else {
                Some(KeyError::InvalidSr25519Length(bytes.len() as usize))
            },
        },
    }
}

/// Inspects a key given in hex, with or without "0x": for ed25519, 32
/// bytes are a secret (its public key is derived) and 64 bytes a secret
/// followed by a public key; for sr25519, 32 bytes are a seed (its public
/// key is derived).
pub fn inspect_key(key: &str, scheme: &str) -> (r: Result<InspectedKey, KeyError>)
    ensures
        spec_scheme(scheme@) is None ==> (r matches Err(KeyError::UnknownScheme(n)) && n@ == scheme@),
        spec_scheme(scheme@) is Some ==> match inspect_error(encode_utf8(key@), spec_scheme(scheme@)->0) {
            Some(e) => r == Err::<InspectedKey, KeyError>(e),
            None => r is Ok,
        },
        match r {
            Ok(InspectedKey::Ed25519Secret { public, public_hex }) => {
                &&& spec_scheme(scheme@) == Some(KeyScheme::Ed25519)
                &&& spec_hex_decode_result(strip_0x(encode_utf8(key@))) matches Ok(bytes) && bytes.len() == 32
                    && public@ == ed25519_public_key(bytes)
                &&& public_hex@ == spec_hex_encode(public@)
            },
            Ok(InspectedKey::Ed25519Keypair { secret_hex, public_hex }) => {
                &&& spec_scheme(scheme@) == Some(KeyScheme::Ed25519)
                &&& spec_hex_decode_result(strip_0x(encode_utf8(key@))) matches Ok(bytes) && bytes.len() == 64
                    && secret_hex@ == spec_hex_encode(bytes.subrange(0, 32)) && public_hex@ == spec_hex_encode(
                    bytes.subrange(32, 64),
                )
            },
            Ok(InspectedKey::Sr25519Seed { public, public_hex }) => {
                &&& spec_scheme(scheme@) == Some(KeyScheme::Sr25519)
                &&& spec_hex_decode_result(strip_0x(encode_utf8(key@))) matches Ok(bytes) && bytes.len() == 32
                    && public@ == sr25519_public_key(bytes)
                &&& public_hex@ == spec_hex_encode(public@)
            },
            Err(_) => true,
        },
{
    let scheme_kind = match parse_scheme(scheme) {
        Ok(k) => k,
        Err(e) => {
            return Err(e);
        },
    };
    let bytes = key.as_bytes();
    let stripped = if bytes.len() >= 2 && bytes[0] == 48 && bytes[1] == 120 {
        copy_range(bytes, 2, bytes.len())
    } else {
        copy_range(bytes, 0, bytes.len())
    };
    proof {
        assert(bytes@.subrange(0, bytes@.len() as int) =~= bytes@);
    }
    let key_bytes = match hex_decode(stripped.as_slice()) {
        Ok(v) => v,
        Err(e) => {
            return Err(KeyError::InvalidHex(e));
        },
    };
    match scheme_kind {
        KeyScheme::Ed25519 => {
            if key_bytes.len() == 32 {
                let secret = to_array32(key_bytes.as_slice());
                let public = ed25519_public_of(&secret);
                let public_hex = hex_encode(&public);
                Ok(InspectedKey::Ed25519Secret { public, public_hex })
            } else if key_bytes.len() == 64 {
                let secret = copy_range(key_bytes.as_slice(), 0, 32);
                let public = copy_range(key_bytes.as_slice(), 32, 64);
                let secret_hex = hex_encode(secret.as_slice());
                let public_hex = hex_encode(public.as_slice());
                Ok(InspectedKey::Ed25519Keypair { secret_hex, public_hex })
            } else {
                Err(KeyError::InvalidEd25519Length(key_bytes.len()))
            }
        },
        KeyScheme::Sr25519 => {
            if key_bytes.len() == 32 {
                let seed = to_array32(key_bytes.as_slice());
                let public = derive_public(KeyScheme::Sr25519, &seed);
                let public_hex = hex_encode(&public);
                Ok(InspectedKey::Sr25519Seed { public, public_hex })
            } else {
                Err(KeyError::InvalidSr25519Length(key_bytes.len()))
            }
        },
    }
}

} // verus!
