use text_encode::atbash::atbash_cipher;
use text_encode::caeser::{caesar_decrypt, caesar_encrypt};

#[test]
fn test_atbash_basic_mapping() {
    // Test uppercase letters
    let input_upper = "ABC";
    let expected_upper = "ZYX";
    assert_eq!(atbash_cipher(input_upper), expected_upper);

    // Test lowercase letters
    let input_lower = "abc";
    let expected_lower = "zyx";
    assert_eq!(atbash_cipher(input_lower), expected_lower);
}

#[test]
fn test_atbash_mixed_case_non_alphabetic() {
    let input = "Hello, World!";
    let expected = "Svool, Dliow!";
    assert_eq!(atbash_cipher(input), expected);
}

#[test]
fn test_atbash_full_alphabet() {
    let input = "ABCDEFGHIJKLMNOPQRSTUVWXYZabcdefghijklmnopqrstuvwxyz";
    let expected = "ZYXWVUTSRQPONMLKJIHGFEDCBAzyxwvutsrqponmlkjihgfedcba";
    assert_eq!(atbash_cipher(input), expected);
}

#[test]
fn test_atbash_applied_twice_is_identity() {
    let input = "Mirror, mirror: 42!";
    assert_eq!(atbash_cipher(&atbash_cipher(input)), input);
}

#[test]
fn test_caesar_encrypt_wrap_around() {
    assert_eq!(caesar_encrypt("XYZ", 3), "ABC");
    assert_eq!(caesar_encrypt("xyz", 3), "abc");
}

#[test]
fn test_caesar_decrypt_wrap_around() {
    assert_eq!(caesar_decrypt("ABC", 3), "XYZ");
    assert_eq!(caesar_decrypt("abc", 3), "xyz");
}

#[test]
fn test_caesar_encrypt_mixed_case() {
    let plaintext = "Hello, World!";
    let expected = "Khoor, Zruog!";
    assert_eq!(caesar_encrypt(plaintext, 3), expected);
}

#[test]
fn test_caesar_decrypt_mixed_case() {
    let encrypted = "Khoor, Zruog!";
    let expected = "Hello, World!";
    assert_eq!(caesar_decrypt(encrypted, 3), expected);
}

#[test]
fn test_caesar_non_alphabetic() {
    let plaintext = "123!@#";
    let expected = "123!@#";
    assert_eq!(caesar_encrypt(plaintext, 5), expected);
    assert_eq!(caesar_decrypt(plaintext, 5), expected);
}

#[test]
fn test_caesar_shift_zero() {
    let plaintext = "No Change!";
    assert_eq!(caesar_encrypt(plaintext, 0), plaintext);
    assert_eq!(caesar_decrypt(plaintext, 0), plaintext);
}

#[test]
fn test_caesar_shift_26() {
    let plaintext = "Full Circle!";
    assert_eq!(caesar_encrypt(plaintext, 26), plaintext);
    assert_eq!(caesar_decrypt(plaintext, 26), plaintext);
}

#[test]
fn test_caesar_shift_greater_than_26() {
    let plaintext = "Shift by 29!";
    let encrypted = caesar_encrypt(plaintext, 29); // Equivalent to shift 3
    let expected = "Vkliw eb 29!";
    assert_eq!(encrypted, expected);

    let decrypted = caesar_decrypt(&encrypted, 29);
    assert_eq!(decrypted, plaintext);
}
