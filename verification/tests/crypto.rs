use tresor::crypto::{
    align, decrypt, encrypt, opened_text, payload_of, sealed_text, Cause, Error, KEY_MASK,
    KEY_WIDTH, NONCE_MASK, NONCE_WIDTH,
};

#[test]
fn encrypt_works() {
    let secret = "12345";
    let nonce = "randomstring";
    let value = "data to test";

    let result = encrypt(secret, nonce, value);

    assert!(matches!(result, Ok(_)));
    assert_ne!(result.unwrap().len(), 0);
}

#[test]
fn decrypt_works() -> Result<(), Error> {
    let secret = "12345";
    let nonce = "randomstring";
    let value = "data to test";

    let ciphertext = encrypt(secret, nonce, value).unwrap();
    let result = decrypt(secret, nonce, &ciphertext)?;

    assert_eq!(value, result);
    Ok(())
}

#[test]
fn masks_have_the_cipher_widths() {
    assert_eq!(KEY_MASK.len(), KEY_WIDTH);
    assert_eq!(NONCE_MASK.len(), NONCE_WIDTH);
    assert_eq!(KEY_WIDTH, 32);
    assert_eq!(NONCE_WIDTH, 12);
    assert!(KEY_MASK.bytes().all(|b| b == b'1'));
    assert!(NONCE_MASK.bytes().all(|b| b == b'1'));
}

#[test]
fn align_leaves_exact_width_unchanged() {
    assert_eq!(align("abcd", "1111", false), Ok(b"abcd".to_vec()));
    assert_eq!(align("abcd", "1111", true), Ok(b"abcd".to_vec()));
}

#[test]
fn align_pads_with_mask_suffix() {
    assert_eq!(align("ab", "wxyz", false), Ok(b"abyz".to_vec()));
    assert_eq!(align("", "wxyz", false), Ok(b"wxyz".to_vec()));
    assert_eq!(align("abc", "wxyz", true), Ok(b"abcz".to_vec()));
    assert_eq!(
        align("12345", KEY_MASK, false),
        Ok(b"12345111111111111111111111111111".to_vec())
    );
}

#[test]
fn align_truncates_to_prefix_when_allowed() {
    assert_eq!(align("abcdef", "1111", true), Ok(b"abcd".to_vec()));
    assert_eq!(align("randomstring!", NONCE_MASK, true), Ok(b"randomstring".to_vec()));
    assert_eq!(align("abc", "", true), Ok(Vec::new()));
}

#[test]
fn align_rejects_long_value_when_truncation_is_off() {
    assert_eq!(align("abcde", "1111", false), Err(Error(Cause::KeyTooLong(4))));
    let long = "x".repeat(33);
    assert_eq!(align(&long, KEY_MASK, false), Err(Error(Cause::KeyTooLong(32))));
}

#[test]
fn align_counts_bytes_not_characters() {
    // Two characters, four bytes.
    assert_eq!(align("éé", "1111", false), Ok("éé".as_bytes().to_vec()));
    assert_eq!(align("éé", "111", false), Err(Error(Cause::KeyTooLong(3))));
    // Cutting inside a character keeps its first byte.
    assert_eq!(align("éé", "111", true), Ok("éé".as_bytes()[..3].to_vec()));
    assert_eq!(align("é", "wxyz", false), Ok(vec![0xc3, 0xa9, b'y', b'z']));
}

#[test]
fn align_is_deterministic() {
    for value in ["", "a", "12345", "exactly-twelve", "much longer than any mask here"] {
        for mask in ["", "1", "111111111111", KEY_MASK] {
            for truncate in [false, true] {
                assert_eq!(align(value, mask, truncate), align(value, mask, truncate));
            }
        }
    }
}

#[test]
fn encrypt_gives_the_known_ciphertext() {
    assert_eq!(
        encrypt("12345", "randomstring", "data to test"),
        Ok("v8z+bGllhQyC3bv8EcPZPbASiwkSelAwgbkLUA==".to_string())
    );
    assert_eq!(
        encrypt("pw1", "1700000000", "secret"),
        Ok("9PrjA8zihavhp9kBbxYpxQto7jdYfg==".to_string())
    );
    assert_eq!(encrypt("", "", ""), Ok("5aUAbU+s5QzJCG8HDK4R4A==".to_string()));
}

#[test]
fn decrypt_reads_the_known_ciphertext() {
    assert_eq!(
        decrypt("12345", "randomstring", "v8z+bGllhQyC3bv8EcPZPbASiwkSelAwgbkLUA=="),
        Ok("data to test".to_string())
    );
    assert_eq!(decrypt("", "", "5aUAbU+s5QzJCG8HDK4R4A=="), Ok(String::new()));
}

#[test]
fn round_trip_gives_the_plaintext_back() {
    let passwords = ["", "p", "12345", "pässwörd", "exactly thirty-two bytes long!!!"];
    let salts = ["", "0", "1700000000", "randomstring", "a salt longer than twelve bytes"];
    let values = ["", "v", "data to test", "ünïcödé ✓", "line one\nline two"];
    for password in passwords {
        assert!(password.len() <= 32);
        for salt in salts {
            for value in values {
                let ciphertext = encrypt(password, salt, value).unwrap();
                assert_eq!(decrypt(password, salt, &ciphertext), Ok(value.to_string()));
            }
        }
    }
}

#[test]
fn password_of_key_width_is_accepted() {
    let password = "x".repeat(32);
    let ciphertext = encrypt(&password, "salt", "value").unwrap();
    assert_eq!(decrypt(&password, "salt", &ciphertext), Ok("value".to_string()));
}

#[test]
fn long_password_is_rejected_with_the_key_width() {
    let password = "x".repeat(33);
    assert_eq!(encrypt(&password, "salt", "value"), Err(Error(Cause::KeyTooLong(32))));
    assert_eq!(
        decrypt(&password, "salt", "5aUAbU+s5QzJCG8HDK4R4A=="),
        Err(Error(Cause::KeyTooLong(32)))
    );
}

#[test]
fn long_salt_is_cut_to_the_nonce_width() {
    let ciphertext = encrypt("12345", "randomstring and more", "data to test").unwrap();
    assert_eq!(ciphertext, "v8z+bGllhQyC3bv8EcPZPbASiwkSelAwgbkLUA==");
    assert_eq!(decrypt("12345", "randomstringX", &ciphertext), Ok("data to test".to_string()));
}

#[test]
fn flipping_any_byte_of_the_payload_is_detected() {
    let ciphertext = encrypt("12345", "randomstring", "data to test").unwrap();
    let alphabet = b"ABCDEFGHIJKLMNOPQRSTUVWXYZabcdefghijklmnopqrstuvwxyz0123456789+/=!";
    for position in 0..ciphertext.len() {
        for &replacement in alphabet.iter() {
            let mut bytes = ciphertext.clone().into_bytes();
            if bytes[position] == replacement {
                continue;
            }
            bytes[position] = replacement;
            let tampered = String::from_utf8(bytes).unwrap();
            assert_eq!(
                decrypt("12345", "randomstring", &tampered),
                Err(Error(Cause::Decryption))
            );
        }
    }
}

#[test]
fn truncated_or_extended_payload_is_rejected() {
    let ciphertext = encrypt("12345", "randomstring", "data to test").unwrap();
    // The text ends in two padding characters; every shorter cut loses data.
    assert!(ciphertext.ends_with("==") && !ciphertext.ends_with("==="));
    for cut in 0..ciphertext.len() - 2 {
        assert_eq!(
            decrypt("12345", "randomstring", &ciphertext[..cut]),
            Err(Error(Cause::Decryption))
        );
    }
    let extended = format!("{}AAAA", ciphertext);
    assert_eq!(decrypt("12345", "randomstring", &extended), Err(Error(Cause::Decryption)));
}

#[test]
fn wrong_password_is_rejected() {
    let ciphertext = encrypt("pw1", "1700000000", "secret").unwrap();
    assert_eq!(decrypt("pw2", "1700000000", &ciphertext), Err(Error(Cause::Decryption)));
    assert_eq!(decrypt("", "1700000000", &ciphertext), Err(Error(Cause::Decryption)));
    assert_eq!(decrypt("pw1x", "1700000000", &ciphertext), Err(Error(Cause::Decryption)));
}

#[test]
fn wrong_salt_is_rejected() {
    let ciphertext = encrypt("pw1", "1700000000", "secret").unwrap();
    assert_eq!(decrypt("pw1", "1700000001", &ciphertext), Err(Error(Cause::Decryption)));
}

#[test]
fn passwords_that_align_to_one_key_decrypt_alike() {
    // The mask pads with '1', so these two stand for the same key.
    let ciphertext = encrypt("pw", "1700000000", "secret").unwrap();
    assert_eq!(decrypt("pw1", "1700000000", &ciphertext), Ok("secret".to_string()));
    assert_eq!(decrypt("pw11", "1700000000", &ciphertext), Ok("secret".to_string()));
    assert_eq!(encrypt("pw1", "1700000000", "secret"), Ok(ciphertext));
}

#[test]
fn text_that_is_not_base64_is_rejected() {
    for text in ["not base64!", "*", "AAA", "A===", "v8z+bGll hQyC"] {
        assert_eq!(decrypt("12345", "randomstring", text), Err(Error(Cause::Decryption)));
    }
}

#[test]
fn payload_shorter_than_a_tag_is_rejected() {
    assert_eq!(decrypt("12345", "randomstring", ""), Err(Error(Cause::Decryption)));
    assert_eq!(decrypt("12345", "randomstring", "AAAA"), Err(Error(Cause::Decryption)));
}

#[test]
fn sealed_text_is_standard_base64() {
    assert_eq!(sealed_text(Some(b"hello world".to_vec())), Ok("aGVsbG8gd29ybGQ=".to_string()));
    assert_eq!(sealed_text(Some(vec![0xfb, 0xff])), Ok("+/8=".to_string()));
    assert_eq!(sealed_text(Some(Vec::new())), Ok(String::new()));
    assert_eq!(sealed_text(None), Err(Error(Cause::Encryption)));
}

#[test]
fn payload_of_keeps_decoded_bytes() {
    assert_eq!(payload_of(Ok(vec![1, 2, 3])), Ok(vec![1, 2, 3]));
    assert_eq!(payload_of(Ok(Vec::new())), Ok(Vec::new()));
    assert_eq!(payload_of(base64::decode("aGVsbG8gd29ybGQ=")), Ok(b"hello world".to_vec()));
    assert_eq!(
        payload_of(Err(base64::DecodeError::InvalidLength)),
        Err(Error(Cause::Decryption))
    );
    assert_eq!(payload_of(base64::decode("not base64!")), Err(Error(Cause::Decryption)));
}

#[test]
fn opened_text_reads_utf8_only() {
    assert_eq!(opened_text(Some(b"abc".to_vec())), Ok("abc".to_string()));
    assert_eq!(opened_text(Some("ünï".as_bytes().to_vec())), Ok("ünï".to_string()));
    assert_eq!(opened_text(Some(Vec::new())), Ok(String::new()));
    assert_eq!(opened_text(Some(vec![0xff])), Err(Error(Cause::Decryption)));
    assert_eq!(opened_text(Some(vec![0xc3])), Err(Error(Cause::Decryption)));
    assert_eq!(opened_text(None), Err(Error(Cause::Decryption)));
}

#[test]
fn error_messages() {
    assert_eq!(
        Error(Cause::KeyTooLong(32)).to_string(),
        "length must be less than 32 characters"
    );
    assert_eq!(Error(Cause::KeyTooLong(0)).to_string(), "length must be less than 0 characters");
    assert_eq!(Error(Cause::Encryption).to_string(), "encryption failed");
    assert_eq!(Error(Cause::Decryption).to_string(), "decryption failed");
}
