use neukgu::crypt::{decrypt, derive_key, encrypt, Error};

#[test]
fn decrypt_gives_back_what_encrypt_sealed() {
    let data = b"{\"OPENAI_API_KEY\": \"sk-1234\"}";
    let sealed = encrypt(data, b"hunter2");
    assert_eq!(sealed.len(), 16 + 12 + data.len() + 16);
    assert_ne!(&sealed[28..28 + data.len()], &data[..]);
    assert_eq!(decrypt(&sealed, b"hunter2").unwrap(), data.to_vec());
}

#[test]
fn a_wrong_password_is_refused() {
    let sealed = encrypt(b"secret", b"right");
    assert_eq!(decrypt(&sealed, b"wrong"), Err(Error::DecryptionError));
}

#[test]
fn short_or_tampered_data_is_refused() {
    assert_eq!(decrypt(&[0u8; 43], b"pw"), Err(Error::DecryptionError));
    let mut sealed = encrypt(b"secret", b"pw");
    let last = sealed.len() - 1;
    sealed[last] ^= 1;
    assert_eq!(decrypt(&sealed, b"pw"), Err(Error::DecryptionError));
}

#[test]
fn every_encryption_draws_a_new_salt() {
    let a = encrypt(b"same", b"pw");
    let b = encrypt(b"same", b"pw");
    assert_ne!(a, b);
    assert_eq!(decrypt(&a, b"pw").unwrap(), decrypt(&b, b"pw").unwrap());
}

#[test]
fn key_derivation_needs_a_long_enough_salt() {
    let k1 = derive_key(b"pw", b"saltsalt").unwrap();
    let k2 = derive_key(b"pw", b"saltsalt").unwrap();
    assert_eq!(k1.len(), 32);
    assert_eq!(k1, k2);
    assert_ne!(derive_key(b"pw2", b"saltsalt").unwrap(), k1);
    assert_eq!(derive_key(b"pw", b"short"), Err(Error::KeyDerivationError));
}

#[test]
fn an_empty_plaintext_round_trips() {
    let sealed = encrypt(b"", b"");
    assert_eq!(sealed.len(), 44);
    assert_eq!(decrypt(&sealed, b"").unwrap(), Vec::<u8>::new());
}
