//! Password-based encryption of the stored API keys: a key is derived from
//! the password with Argon2 and a random salt, and the data is sealed with
//! AES-256-GCM under a random nonce.
use aes_gcm::aead::{Aead, KeyInit};
use aes_gcm::{Aes256Gcm, Nonce};
use argon2::Argon2;
use rand::RngCore;
use vstd::prelude::*;

verus! {

#[derive(Clone, Copy, Debug, PartialEq, Eq, Structural)]
pub enum Error {
    DecryptionError,
    KeyDerivationError,
}

/// Bytes of the salt, then of the nonce, at the front of a sealed text.
pub const SALT_LEN: usize = 16;
pub const NONCE_LEN: usize = 12;
/// Bytes of the authentication tag at the end of a sealed text.
pub const TAG_LEN: usize = 16;
/// The longest plaintext that AES-GCM seals (`aes_gcm::P_MAX`).
pub const PLAINTEXT_MAX: u64 = 0x10_0000_0000;
/// The longest password that Argon2 takes (`argon2::MAX_PWD_LEN`).
pub const PASSWORD_MAX: u64 = 0xFFFF_FFFF;

/// The 32-byte key that `Argon2::default()` (Argon2id, version 0x13,
/// default cost parameters) derives from a password and a salt.
pub uninterp spec fn argon2_key(password: Seq<u8>, salt: Seq<u8>) -> Seq<u8>;

/// What `Aes256Gcm::encrypt` gives for a key, a nonce and a plaintext,
/// without associated data: the ciphertext followed by the tag.
pub uninterp spec fn aes256_gcm_seal(key: Seq<u8>, nonce: Seq<u8>, plaintext: Seq<u8>) -> Seq<u8>;

/// What `Aes256Gcm::decrypt` gives for a key, a nonce and a sealed text:
/// the plaintext, or `None` where the tag does not authenticate the text.
pub uninterp spec fn aes256_gcm_open(key: Seq<u8>, nonce: Seq<u8>, sealed: Seq<u8>) -> Option<Seq<u8>>;

/// `Argon2::default().hash_password_into(password, salt, &mut [0u8; 32])`
/// (argon2 crate). The contract claims: it succeeds exactly when the
/// password has at most `MAX_PWD_LEN` bytes and the salt between
/// `MIN_SALT_LEN` and `MAX_SALT_LEN` (the checks of `verify_inputs`; a 32-byte
/// output is within the default output bounds), and then gives the named
/// 32-byte key. Its error becomes `None`.
#[verifier::external_body]
fn argon2_hash(password: &[u8], salt: &[u8]) -> (r: Option<Vec<u8>>)
    ensures
        r.is_some() <==> (password@.len() <= PASSWORD_MAX && 8 <= salt@.len() <= 0xFFFF_FFFF),
        r matches Some(k) ==> k@ == argon2_key(password@, salt@) && k@.len() == 32,
{
    let mut key = [0u8; 32];
    match Argon2::default().hash_password_into(password, salt, &mut key) {
        Ok(()) => Some(key.to_vec()),
        Err(_) => None,
    }
}

/// `Aes256Gcm::new_from_slice(key)` and `encrypt(Nonce::from_slice(nonce),
/// plaintext)` (aes-gcm crate). The contract claims: it fails exactly when
/// the plaintext is longer than `P_MAX`, and otherwise gives the named
/// sealed text, which is 16 bytes (the tag) longer than the plaintext.
/// Its error becomes `None`.
#[verifier::external_body]
fn aes_seal(key: &[u8], nonce: &[u8], plaintext: &[u8]) -> (r: Option<Vec<u8>>)
    requires
        key@.len() == 32,
        nonce@.len() == 12,
    ensures
        r.is_some() <==> plaintext@.len() <= PLAINTEXT_MAX,
        r matches Some(c) ==> c@ == aes256_gcm_seal(key@, nonce@, plaintext@) && c@.len()
            == plaintext@.len() + TAG_LEN,
{
    let cipher = Aes256Gcm::new_from_slice(key).unwrap();
    cipher.encrypt(Nonce::from_slice(nonce), plaintext).ok()
}

/// `Aes256Gcm::new_from_slice(key)` and `decrypt(Nonce::from_slice(nonce),
/// sealed)` (aes-gcm crate). The contract claims: the result is the named
/// opening, and, as for any AEAD, opening with the key and nonce that
/// sealed a plaintext gives that plaintext back. Its error becomes `None`.
#[verifier::external_body]
fn aes_open(key: &[u8], nonce: &[u8], sealed: &[u8]) -> (r: Option<Vec<u8>>)
    requires
        key@.len() == 32,
        nonce@.len() == 12,
    ensures
        match aes256_gcm_open(key@, nonce@, sealed@) {
            Some(p) => r matches Some(v) && v@ == p,
            None => r is None,
        },
        r matches Some(v) ==> forall|pt: Seq<u8>|
            pt.len() <= PLAINTEXT_MAX && #[trigger] aes256_gcm_seal(key@, nonce@, pt) == sealed@ ==> v@ == pt,
        r is None ==> forall|pt: Seq<u8>|
            pt.len() <= PLAINTEXT_MAX ==> #[trigger] aes256_gcm_seal(key@, nonce@, pt) != sealed@,
{
    let cipher = Aes256Gcm::new_from_slice(key).unwrap();
    cipher.decrypt(Nonce::from_slice(nonce), sealed).ok()
}

/// `rand::rng().fill_bytes` (rand crate) on `n` zero bytes: only the number
/// of bytes is promised.
#[verifier::external_body]
fn random_bytes(n: usize) -> (r: Vec<u8>)
    ensures
        r@.len() == n,
{
    let mut bytes = vec![0u8; n];
    rand::rng().fill_bytes(&mut bytes);
    bytes
}

/// Derives a 32-byte key from a password and a salt.
pub fn derive_key(password: &[u8], salt: &[u8]) -> (r: Result<Vec<u8>, Error>)
    ensures
        password@.len() <= PASSWORD_MAX && 8 <= salt@.len() <= 0xFFFF_FFFF ==> (r matches Ok(k)
            && k@ == argon2_key(password@, salt@) && k@.len() == 32),
        !(password@.len() <= PASSWORD_MAX && 8 <= salt@.len() <= 0xFFFF_FFFF) ==> r
            == Err::<Vec<u8>, Error>(Error::KeyDerivationError),
{
    match argon2_hash(password, salt) {
        Some(k) => Ok(k),
        None => Err(Error::KeyDerivationError),
    }
}

/// `sealed` is `data` encrypted under `password`: a salt, a nonce, then
/// `data` sealed with the key derived from the password and that salt.
pub open spec fn sealed_with(sealed: Seq<u8>, data: Seq<u8>, password: Seq<u8>) -> bool {
    &&& data.len() <= PLAINTEXT_MAX
    &&& sealed.len() == SALT_LEN + NONCE_LEN + data.len() + TAG_LEN
    &&& sealed.subrange(28, sealed.len() as int) == aes256_gcm_seal(
        argon2_key(password, sealed.subrange(0, 16)),
        sealed.subrange(16, 28),
        data,
    )
}

/// Encrypts data. The result holds the salt (16 bytes), the nonce (12
/// bytes) and the sealed data.
pub fn encrypt(data: &[u8], password: &[u8]) -> (r: Vec<u8>)
    requires
        password@.len() <= PASSWORD_MAX,
        data@.len() <= PLAINTEXT_MAX,
    ensures
        sealed_with(r@, data@, password@),
{
    let salt = random_bytes(SALT_LEN);
    let key = match derive_key(password, salt.as_slice()) {
        Ok(k) => k,
        Err(_) => {
            return Vec::new();
        },
    };
    let nonce = random_bytes(NONCE_LEN);
    let sealed = match aes_seal(key.as_slice(), nonce.as_slice(), data) {
        Some(c) => c,
        None => {
            return Vec::new();
        },
    };
    let mut output: Vec<u8> = Vec::new();
    let mut i: usize = 0;
    while i < SALT_LEN
        invariant
            i <= SALT_LEN,
            salt@.len() == SALT_LEN,
            output@ == salt@.take(i as int),
        decreases SALT_LEN - i,
    {
        output.push(salt[i]);
        assert(salt@.take(i + 1) =~= salt@.take(i as int).push(salt@[i as int]));
        i += 1;
    }
    assert(salt@.take(16) =~= salt@);
    let mut j: usize = 0;
    while j < NONCE_LEN
        invariant
            j <= NONCE_LEN,
            nonce@.len() == NONCE_LEN,
            output@ == salt@ + nonce@.take(j as int),
        decreases NONCE_LEN - j,
    {
        output.push(nonce[j]);
        assert(nonce@.take(j + 1) =~= nonce@.take(j as int).push(nonce@[j as int]));
        j += 1;
    }
    assert(nonce@.take(12) =~= nonce@);
    let mut k: usize = 0;
    while k < sealed.len()
        invariant
            k <= sealed@.len(),
            output@ == salt@ + nonce@ + sealed@.take(k as int),
        decreases sealed@.len() - k,
    {
        output.push(sealed[k]);
        assert(sealed@.take(k + 1) =~= sealed@.take(k as int).push(sealed@[k as int]));
        k += 1;
    }
    assert(sealed@.take(sealed@.len() as int) =~= sealed@);
    assert(output@.subrange(0, 16) =~= salt@);
    assert(output@.subrange(16, 28) =~= nonce@);
    assert(output@.subrange(28, output@.len() as int) =~= sealed@);
    output
}

fn copy_range(data: &[u8], from: usize, to: usize) -> (r: Vec<u8>)
    requires
        from <= to <= data@.len(),
    ensures
        r@ == data@.subrange(from as int, to as int),
{
    let mut r: Vec<u8> = Vec::new();
    let mut i = from;
    while i < to
        invariant
            from <= i <= to,
            to <= data@.len(),
            r@ == data@.subrange(from as int, i as int),
        decreases to - i,
    {
        r.push(data[i]);
        assert(data@.subrange(from as int, i + 1) =~= data@.subrange(from as int, i as int).push(
            data@[i as int],
        ));
        i += 1;
    }
    r
}

/// What `decrypt` opens a text to, where it does: the plaintext that the
/// key derived from the password and the text's salt authenticates.
pub open spec fn decryption(data: Seq<u8>, password: Seq<u8>) -> Option<Seq<u8>> {
    if data.len() < SALT_LEN + NONCE_LEN + TAG_LEN || password.len() > PASSWORD_MAX {
        None
    } else {
        aes256_gcm_open(
            argon2_key(password, data.subrange(0, 16)),
            data.subrange(16, 28),
            data.subrange(28, data.len() as int),
        )
    }
}

/// Decrypts data sealed by `encrypt`. Data too short to hold a salt, a
/// nonce and a tag, and data that the derived key does not authenticate,
/// are refused.
pub fn decrypt(data: &[u8], password: &[u8]) -> (r: Result<Vec<u8>, Error>)
    ensures
        data@.len() < SALT_LEN + NONCE_LEN + TAG_LEN ==> r == Err::<Vec<u8>, Error>(
            Error::DecryptionError,
        ),
        data@.len() >= SALT_LEN + NONCE_LEN + TAG_LEN && password@.len() > PASSWORD_MAX ==> r
            == Err::<Vec<u8>, Error>(Error::KeyDerivationError),
        data@.len() >= SALT_LEN + NONCE_LEN + TAG_LEN && password@.len() <= PASSWORD_MAX ==> match aes256_gcm_open(
            argon2_key(password@, data@.subrange(0, 16)),
            data@.subrange(16, 28),
            data@.subrange(28, data@.len() as int),
        ) {
            Some(p) => r matches Ok(v) && v@ == p,
            None => r == Err::<Vec<u8>, Error>(Error::DecryptionError),
        },
        r is Ok <==> decryption(data@, password@) is Some,
        r matches Ok(v) ==> decryption(data@, password@) == Some(v@),
        // What `encrypt` sealed under a password, `decrypt` opens with it.
        forall|d: Seq<u8>|
            password@.len() <= PASSWORD_MAX && #[trigger] sealed_with(data@, d, password@) ==> (r matches Ok(
                v,
            ) && v@ == d),
{
    if data.len() < SALT_LEN + NONCE_LEN + TAG_LEN {
        return Err(Error::DecryptionError);
    }
    let salt = copy_range(data, 0, 16);
    let nonce = copy_range(data, 16, 28);
    let sealed = copy_range(data, 28, data.len());
    let key = match derive_key(password, salt.as_slice()) {
        Ok(k) => k,
        Err(e) => {
            return Err(e);
        },
    };
    match aes_open(key.as_slice(), nonce.as_slice(), sealed.as_slice()) {
        Some(p) => Ok(p),
        None => Err(Error::DecryptionError),
    }
}

} // verus!
