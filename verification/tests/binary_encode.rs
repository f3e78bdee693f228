use num_bigint::BigInt;
use text_encode::binary_encode::{bin2num, num2bin};

#[test]
fn num2bin_test() {
    let inter = bin2num(b"hello world").unwrap();
    let result = num2bin(inter).unwrap();
    assert_eq!(result, b"hello world")
}

#[test]
fn bin2num_test_simple() {
    let result = bin2num(b"hello world").unwrap();
    println!("result: {}", result);
}

// Test encoding and decoding the same "hello world" text
#[test]
fn num2bin_test_simple() {
    let inter = bin2num(b"hello world").unwrap();
    let result = num2bin(inter).unwrap();
    assert_eq!(result, b"hello world");
}

// Test with an empty string
#[test]
fn bin2num_test_empty() {
    let result = bin2num(b"").unwrap();
    assert_eq!(result.to_string(), "0"); // Empty string should result in 0
}

// Test encoding and decoding a string with special characters
#[test]
fn bin2num_test_special_chars() {
    let special_str = b"@|<+-*/=>";
    let result = bin2num(special_str).unwrap();
    println!("Encoded and decoded result: {}", result);
}

// Test long string
#[test]
fn bin2num_test_long_string() {
    let long_str = b"This is a long string used to test encoding and decoding. This is a long string used to test encoding and decoding. This is a long string used to test encoding and decoding. This is a long string used to test encoding and decoding. This is a long string used to test encoding and decoding. This is a long string used to test encoding and decoding.";
    let result = bin2num(long_str).unwrap();
    let decoded = num2bin(result).unwrap();
    assert_eq!(decoded, long_str); // Check if the decoded result matches the original input
}

// Test handling invalid input (should report a malformed encoding)
#[test]
fn num2bin_test_invalid_base64() {
    let invalid_number = BigInt::from(123456789);
    let result = num2bin(invalid_number);
    assert!(result.is_err()); // Expect an error due to invalid format
}

// Test encoding and decoding with non-ASCII characters
#[test]
fn bin2num_test_non_ascii() {
    let non_ascii_str = "你好，世界"; // "Hello, world" in Chinese
    let result = bin2num(non_ascii_str.as_bytes()).unwrap();
    println!("Encoded and decoded result: {}", result);
}

// Test round-trip encoding and decoding of a string with numbers and symbols
#[test]
fn bin2num_test_numbers_and_symbols() {
    let mixed_str = b"1234!@#$%^&*()";
    let result = bin2num(mixed_str).unwrap();
    let decoded = num2bin(result).unwrap();
    assert_eq!(decoded, mixed_str); // Check if the decoded result matches the original input
}
