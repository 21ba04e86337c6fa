use encryption_cli::crypto::{decrypt, encrypt, generate_key_from_password, key_for_password, seal_with_nonce};
use encryption_cli::error::CliError;
use encryption_cli::test_utils;

#[test]
fn test_encrypt_decrypt() {
    let data = test_utils::random_bytes();
    let pw = test_utils::new_random_password(10);
    let key = generate_key_from_password(&pw);

    let cyphertext = encrypt(&key, data.as_slice()).unwrap();
    let plaintext = decrypt(&key, &cyphertext).unwrap();

    assert_eq!(data, plaintext);
}

#[test]
fn sealed_length_is_data_tag_and_nonce() {
    let key = generate_key_from_password("pw");
    for n in [0usize, 1, 57] {
        let data = vec![3u8; n];
        assert_eq!(encrypt(&key, &data).unwrap().len(), n + 16 + 12);
    }
}

#[test]
fn key_depends_on_password_only() {
    let a = generate_key_from_password("secret");
    let b = generate_key_from_password("secret");
    let c = generate_key_from_password("secreT");
    assert_eq!(a, b);
    assert_ne!(a, c);
    // bytes past the password's length stay zero
    assert!(a[6..].iter().all(|&x| x == 0));
    assert_ne!(&a[..6], b"secret");
    assert_eq!(generate_key_from_password(""), [0u8; 32]);
}

#[test]
fn long_password_is_refused() {
    let pw = "a".repeat(33);
    assert!(matches!(key_for_password(&pw), Err(CliError::PasswordTooLong)));
    assert_eq!(key_for_password(&pw).unwrap_err().to_string(), "password is too long");
    let pw = "a".repeat(32);
    assert_eq!(key_for_password(&pw).unwrap(), generate_key_from_password(&pw));
}

#[test]
fn sealing_appends_nonce_and_tag() {
    let key = generate_key_from_password("pw");
    let nonce = [7u8; 12];
    let data = b"hello world".to_vec();
    let sealed = seal_with_nonce(&key, &nonce, &data);
    assert_eq!(sealed.len(), data.len() + 16 + 12);
    assert_eq!(&sealed[sealed.len() - 12..], &nonce);
    assert_ne!(&sealed[..data.len()], &data[..]);
    assert_eq!(decrypt(&key, &sealed).unwrap(), data);
    // the same key and nonce seal the same way
    assert_eq!(seal_with_nonce(&key, &nonce, &data), sealed);
}

#[test]
fn wrong_password_is_reported() {
    let key = generate_key_from_password("right");
    let other = generate_key_from_password("wrong");
    let sealed = encrypt(&key, b"contents").unwrap();
    let err = decrypt(&other, &sealed).unwrap_err();
    assert!(matches!(err, CliError::WrongPassword));
    assert_eq!(err.to_string(), "wrong password");
}

#[test]
fn corrupted_ciphertext_is_refused() {
    let key = generate_key_from_password("pw");
    let mut sealed = encrypt(&key, b"some file contents").unwrap();
    sealed[3] ^= 1;
    assert!(decrypt(&key, &sealed).is_err());
    let nonce_only = [0u8; 12];
    assert!(matches!(decrypt(&key, &nonce_only), Err(CliError::WrongPassword)));
}

#[test]
fn random_passwords_are_alphanumeric() {
    let pw = test_utils::new_random_password(10);
    assert_eq!(pw.len(), 10);
    assert!(pw.chars().all(|c| c.is_ascii_alphanumeric()));
    assert!(test_utils::random_bytes().len() < 100);
}
