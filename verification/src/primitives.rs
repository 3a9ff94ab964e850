use crate::error::ChainError;
use bitcoincash_addr::AddressCodec;
use crypto::digest::Digest;
use rand::Rng;
use vstd::prelude::*;

verus! {

/// The SHA-256 digest of a byte string, as the `crypto` crate computes it.
pub uninterp spec fn sha256_digest(data: Seq<u8>) -> Seq<u8>;

/// The RIPEMD-160 digest of a byte string, as the `crypto` crate computes it.
pub uninterp spec fn ripemd160_digest(data: Seq<u8>) -> Seq<u8>;

/// The Ed25519 signature of `message` under the 64-byte secret key `secret_key`.
pub uninterp spec fn ed25519_signature(message: Seq<u8>, secret_key: Seq<u8>) -> Seq<u8>;

/// Whether `signature` is a valid Ed25519 signature of `message` for `public_key`.
pub uninterp spec fn ed25519_verifies(
    message: Seq<u8>,
    public_key: Seq<u8>,
    signature: Seq<u8>,
) -> bool;

/// The Ed25519 key pair (secret key, public key) derived from a seed.
pub uninterp spec fn ed25519_keypair(seed: Seq<u8>) -> (Seq<u8>, Seq<u8>);

/// The Base58 text of an address with the given body, for a script hash on the main network.
pub uninterp spec fn base58_address_text(body: Seq<u8>) -> Seq<char>;

/// The body of the Base58 address written as `text`, if `text` is one.
pub uninterp spec fn base58_address_body(text: Seq<char>) -> Option<Seq<u8>>;

/// The digest functions take fewer bytes than this: they count their input in bits, in 64 bits.
pub const HASH_INPUT_LIMIT: u64 = 0x2000_0000_0000_0000;

/// Length of a SHA-256 digest in hexadecimal, in characters.
pub const HASH_HEX_LEN: usize = 64;

/// Length of a SHA-256 digest in bytes.
pub const SHA256_LEN: usize = 32;

/// Length of a public-key hash in bytes.
pub const PUB_KEY_HASH_LEN: usize = 20;

/// Length of an Ed25519 seed and of a public key in bytes.
pub const KEY_LEN: usize = 32;

/// Length of an Ed25519 secret key and of a signature in bytes.
pub const SIGNATURE_LEN: usize = 64;

/// Whether the digest functions accept `data`.
pub open spec fn hashable(data: Seq<u8>) -> bool {
    data.len() < HASH_INPUT_LIMIT
}

/// The lower-case hexadecimal digit for a value below 16.
pub open spec fn hex_digit(n: int) -> char {
    if n < 10 {
        ((48 + n) as u8) as char
    } else {
        ((87 + n) as u8) as char
    }
}

/// The lower-case hexadecimal text of a byte string, two digits per byte.
pub open spec fn hex_of(bytes: Seq<u8>) -> Seq<char> {
    Seq::new(
        2 * bytes.len(),
        |i: int|
            if i % 2 == 0 {
                hex_digit(bytes[i / 2] as int / 16)
            } else {
                hex_digit(bytes[i / 2] as int % 16)
            },
    )
}

/// The hash of a public key: RIPEMD-160 of its SHA-256.
pub open spec fn pub_key_hash(pub_key: Seq<u8>) -> Seq<u8> {
    ripemd160_digest(sha256_digest(pub_key))
}

/// Calls `Sha256::new`, `input` and `result` of the `crypto` crate. Claims that the 32 bytes
/// written are the named digest of `data`. Inputs of 2^61 bytes or more, on which `input`
/// panics, are excluded.
#[verifier::external_body]
fn sha256_raw(data: &[u8]) -> (digest: Vec<u8>)
    requires
        hashable(data@),
    ensures
        digest@ == sha256_digest(data@),
        digest@.len() == SHA256_LEN,
{
    let mut hasher = crypto::sha2::Sha256::new();
    hasher.input(data);
    let mut out = vec![0u8; 32];
    hasher.result(&mut out);
    out
}

/// Calls `Sha256::new`, `input` and `result_str` of the `crypto` crate. Claims that the text
/// returned is the lower-case hexadecimal form of the named digest of `data`, 64 characters
/// long. Inputs of 2^61 bytes or more, on which `input` panics, are excluded.
#[verifier::external_body]
fn sha256_hex_raw(data: &[u8]) -> (text: String)
    requires
        hashable(data@),
    ensures
        text@ == hex_of(sha256_digest(data@)),
        text@.len() == HASH_HEX_LEN,
{
    let mut hasher = crypto::sha2::Sha256::new();
    hasher.input(data);
    hasher.result_str()
}

/// Calls `Ripemd160::new`, `input` and `result` of the `crypto` crate. Claims that the 20
/// bytes written are the named digest of `data`. Inputs of 2^61 bytes or more, on which
/// `input` panics, are excluded.
#[verifier::external_body]
fn ripemd160_raw(data: &[u8]) -> (digest: Vec<u8>)
    requires
        hashable(data@),
    ensures
        digest@ == ripemd160_digest(data@),
        digest@.len() == PUB_KEY_HASH_LEN,
{
    let mut hasher = crypto::ripemd160::Ripemd160::new();
    hasher.input(data);
    let mut out = vec![0u8; 20];
    hasher.result(&mut out);
    out
}

/// Calls `ed25519::signature` of the `crypto` crate. Claims that the 64 bytes returned are the
/// named signature. Keys that are not 64 bytes long, which the function slices blindly, are
/// excluded.
#[verifier::external_body]
fn ed25519_sign_raw(message: &[u8], secret_key: &[u8]) -> (signature: Vec<u8>)
    requires
        secret_key@.len() == SIGNATURE_LEN,
    ensures
        signature@ == ed25519_signature(message@, secret_key@),
        signature@.len() == SIGNATURE_LEN,
{
    crypto::ed25519::signature(message, secret_key).to_vec()
}

/// Calls `ed25519::verify` of the `crypto` crate. Claims that the answer is the named
/// predicate. Public keys that are not 32 bytes long and signatures that are not 64 bytes
/// long, which the function slices blindly, are excluded.
#[verifier::external_body]
fn ed25519_verify_raw(message: &[u8], public_key: &[u8], signature: &[u8]) -> (valid: bool)
    requires
        public_key@.len() == KEY_LEN,
        signature@.len() == SIGNATURE_LEN,
    ensures
        valid == ed25519_verifies(message@, public_key@, signature@),
{
    crypto::ed25519::verify(message, public_key, signature)
}

/// Calls `ed25519::keypair` of the `crypto` crate. Claims that the two keys returned are the
/// named pair for `seed`, 64 and 32 bytes long.
#[verifier::external_body]
fn ed25519_keypair_raw(seed: &[u8]) -> (keys: (Vec<u8>, Vec<u8>))
    ensures
        (keys.0@, keys.1@) == ed25519_keypair(seed@),
        keys.0@.len() == SIGNATURE_LEN,
        keys.1@.len() == KEY_LEN,
{
    let (secret_key, public_key) = crypto::ed25519::keypair(seed);
    (secret_key.to_vec(), public_key.to_vec())
}

/// Calls `thread_rng` and `Rng::fill_bytes` of the `rand` crate on a buffer of 32 bytes.
/// Claims only the length of what comes back. `thread_rng` panics where the system has no
/// entropy to give.
#[verifier::external_body]
fn random_bytes_raw() -> (bytes: Vec<u8>)
    ensures
        bytes@.len() == KEY_LEN,
{
    let mut key = vec![0u8; 32];
    rand::thread_rng().fill_bytes(&mut key);
    key
}

/// Calls `Address::encode` of the `bitcoincash_addr` crate on a Base58 address for a script
/// hash on the main network. Claims that the text returned is the named text of `body`, and
/// that a body of 20 bytes is what `Base58Codec::decode` reads back from that text.
#[verifier::external_body]
fn base58_encode_raw(body: &[u8]) -> (text: String)
    ensures
        text@ == base58_address_text(body@),
        body@.len() == PUB_KEY_HASH_LEN ==> base58_address_body(text@) == Some(body@),
{
    let address = bitcoincash_addr::Address {
        body: body.to_vec(),
        scheme: bitcoincash_addr::Scheme::Base58,
        hash_type: bitcoincash_addr::HashType::Script,
        network: bitcoincash_addr::Network::Main,
    };
    address.encode().unwrap()
}

/// Calls `Base58Codec::decode` of the `bitcoincash_addr` crate. Claims that it succeeds
/// exactly on the texts that have a named body, that it then returns that body, and that
/// such a body has 20 bytes.
#[verifier::external_body]
fn base58_decode_raw(text: &str) -> (body: Option<Vec<u8>>)
    ensures
        match body {
            Some(b) => base58_address_body(text@) == Some(b@) && b@.len() == PUB_KEY_HASH_LEN,
            None => base58_address_body(text@) is None,
        },
{
    bitcoincash_addr::Base58Codec::decode(text).ok().map(|address| address.body)
}

/// `std::time::SystemTime`, taken as it is.
#[verifier::external_type_specification]
#[verifier::external_body]
pub struct ExSystemTime(std::time::SystemTime);

/// `std::time::SystemTimeError`, taken as it is.
#[verifier::external_type_specification]
#[verifier::external_body]
pub struct ExSystemTimeError(std::time::SystemTimeError);

/// Calls `SystemTime::now`. Nothing is claimed of the time that it reads.
#[verifier::external_body]
fn system_time_now() -> (now: std::time::SystemTime) {
    std::time::SystemTime::now()
}

/// Calls `SystemTime::duration_since` with the Unix epoch. Nothing is claimed of the outcome,
/// which is an error where the clock is set before the epoch.
#[verifier::external_body]
fn since_unix_epoch(time: &std::time::SystemTime) -> (elapsed: Result<
    core::time::Duration,
    std::time::SystemTimeError,
>) {
    time.duration_since(std::time::UNIX_EPOCH)
}

/// Calls `Duration::as_millis`. Nothing is claimed of the number.
#[verifier::external_body]
fn whole_millis(elapsed: &core::time::Duration) -> (millis: u128) {
    elapsed.as_millis()
}

/// The timestamp for a time that the clock gave, as the time since the Unix epoch: its
/// whole milliseconds, and `Clock` exactly when the clock is set before the epoch.
pub fn stamp_of(elapsed: Result<core::time::Duration, std::time::SystemTimeError>) -> (stamp: Result<
    u128,
    ChainError,
>)
    ensures
        stamp is Ok <==> elapsed is Ok,
        stamp matches Err(e) ==> e == ChainError::Clock,
{
    match elapsed {
        Ok(elapsed) => Ok(whole_millis(&elapsed)),
        Err(_) => Err(ChainError::Clock),
    }
}

/// Milliseconds since the Unix epoch by the system clock; `Clock` where the clock is set
/// before the epoch.
pub fn now_ms() -> (stamp: Result<u128, ChainError>)
    ensures
        stamp matches Err(e) ==> e == ChainError::Clock,
{
    let now = system_time_now();
    stamp_of(since_unix_epoch(&now))
}

/// SHA-256 of `data`; `None` exactly when `data` is too long to hash.
pub fn sha256(data: &[u8]) -> (digest: Option<Vec<u8>>)
    ensures
        digest is Some <==> hashable(data@),
        digest matches Some(d) ==> d@ == sha256_digest(data@) && d@.len() == SHA256_LEN,
{
    if data.len() as u64 >= HASH_INPUT_LIMIT {
        None
    } else {
        Some(sha256_raw(data))
    }
}

/// SHA-256 of `data` in lower-case hexadecimal; `None` exactly when `data` is too long to
/// hash.
pub fn sha256_hex(data: &[u8]) -> (text: Option<String>)
    ensures
        text is Some <==> hashable(data@),
        text matches Some(t) ==> t@ == hex_of(sha256_digest(data@)) && t@.len() == HASH_HEX_LEN,
{
    if data.len() as u64 >= HASH_INPUT_LIMIT {
        None
    } else {
        Some(sha256_hex_raw(data))
    }
}

/// Replaces a public key by its 20-byte hash, RIPEMD-160 of SHA-256.
pub fn hash_pub_key(pub_key: &mut Vec<u8>)
    requires
        hashable(old(pub_key)@),
    ensures
        final(pub_key)@ == pub_key_hash(old(pub_key)@),
        final(pub_key)@.len() == PUB_KEY_HASH_LEN,
{
    let inner = sha256_raw(pub_key.as_slice());
    let outer = ripemd160_raw(inner.as_slice());
    *pub_key = outer;
}

/// The hash of a public key without touching the key; `None` exactly when the key is too
/// long to hash.
pub fn hash_of_pub_key(pub_key: &[u8]) -> (hash: Option<Vec<u8>>)
    ensures
        hash is Some <==> hashable(pub_key@),
        hash matches Some(h) ==> h@ == pub_key_hash(pub_key@) && h@.len() == PUB_KEY_HASH_LEN,
{
    match sha256(pub_key) {
        Some(inner) => Some(ripemd160_raw(inner.as_slice())),
        None => None,
    }
}

/// The Base58 address text for a public-key hash.
pub fn address_encode(pub_key_hash: &[u8]) -> (text: String)
    ensures
        text@ == base58_address_text(pub_key_hash@),
        pub_key_hash@.len() == PUB_KEY_HASH_LEN ==> base58_address_body(text@) == Some(
            pub_key_hash@,
        ),
{
    base58_encode_raw(pub_key_hash)
}

/// The public-key hash that a Base58 address text carries; `Corrupt` exactly when the text
/// is no such address.
pub fn address_decode(address: &str) -> (body: Result<Vec<u8>, ChainError>)
    ensures
        match body {
            Ok(b) => base58_address_body(address@) == Some(b@) && b@.len() == PUB_KEY_HASH_LEN,
            Err(e) => e == ChainError::Corrupt && base58_address_body(address@) is None,
        },
{
    match base58_decode_raw(address) {
        Some(b) => Ok(b),
        None => Err(ChainError::Corrupt),
    }
}

/// An Ed25519 signature of `message`.
pub fn sign_message(message: &[u8], secret_key: &[u8]) -> (signature: Vec<u8>)
    requires
        secret_key@.len() == SIGNATURE_LEN,
    ensures
        signature@ == ed25519_signature(message@, secret_key@),
        signature@.len() == SIGNATURE_LEN,
{
    ed25519_sign_raw(message, secret_key)
}

/// Whether `signature` signs `message` for `public_key`. A key or a signature of the wrong
/// length signs nothing.
pub open spec fn signature_valid(message: Seq<u8>, public_key: Seq<u8>, signature: Seq<u8>) -> bool {
    &&& public_key.len() == KEY_LEN
    &&& signature.len() == SIGNATURE_LEN
    &&& ed25519_verifies(message, public_key, signature)
}

/// Checks an Ed25519 signature.
pub fn verify_message(message: &[u8], public_key: &[u8], signature: &[u8]) -> (valid: bool)
    ensures
        valid == signature_valid(message@, public_key@, signature@),
{
    if public_key.len() != KEY_LEN || signature.len() != SIGNATURE_LEN {
        false
    } else {
        ed25519_verify_raw(message, public_key, signature)
    }
}

/// A fresh Ed25519 key pair (secret key, public key) from 32 random bytes.
pub fn generate_keypair() -> (keys: (Vec<u8>, Vec<u8>))
    ensures
        keys.0@.len() == SIGNATURE_LEN,
        keys.1@.len() == KEY_LEN,
        exists|seed: Seq<u8>| seed.len() == KEY_LEN && (keys.0@, keys.1@) == ed25519_keypair(seed),
{
    let seed = random_bytes_raw();
    ed25519_keypair_raw(seed.as_slice())
}

/// Thirty-two bytes from the thread's random number generator.
pub fn random_key() -> (bytes: Vec<u8>)
    ensures
        bytes@.len() == KEY_LEN,
{
    random_bytes_raw()
}

/// Whether two byte strings are equal.
pub fn bytes_equal(a: &[u8], b: &[u8]) -> (same: bool)
    ensures
        same == (a@ == b@),
{
    if a.len() != b.len() {
        return false;
    }
    let mut i: usize = 0;
    while i < a.len()
        invariant
            a@.len() == b@.len(),
            i <= a@.len(),
            forall|k: int| 0 <= k < i ==> a@[k] == b@[k],
        decreases a@.len() - i,
    {
        if a[i] != b[i] {
            return false;
        }
        i += 1;
    }
    assert(a@ =~= b@);
    true
}

/// Whether two texts are equal.
pub fn str_equal(a: &str, b: &str) -> (same: bool)
    ensures
        same == (a@ == b@),
{
    proof {
        vstd::utf8::encode_utf8_decode_utf8(a@);
        vstd::utf8::encode_utf8_decode_utf8(b@);
    }
    bytes_equal(a.as_bytes(), b.as_bytes())
}

/// A copy of a byte string.
pub fn copy_bytes(bytes: &[u8]) -> (copy: Vec<u8>)
    ensures
        copy@ == bytes@,
{
    let mut copy: Vec<u8> = Vec::new();
    let mut i: usize = 0;
    while i < bytes.len()
        invariant
            i <= bytes@.len(),
            copy@ == bytes@.take(i as int),
        decreases bytes@.len() - i,
    {
        copy.push(bytes[i]);
        assert(bytes@.take(i + 1) =~= bytes@.take(i as int).push(bytes@[i as int]));
        i += 1;
    }
    assert(bytes@.take(bytes@.len() as int) =~= bytes@);
    copy
}

} // verus!
