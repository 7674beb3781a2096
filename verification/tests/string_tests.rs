use nt_hive::NtHiveNameString;
use nt_hive::NtHiveString;

#[test]
fn test_eq() {
    assert_eq!(NtHiveString::Ascii(b"Hello"), "Hello");
    assert_eq!(
        NtHiveString::Utf16LE(&[b'H', 0, b'e', 0, b'l', 0, b'l', 0, b'o', 0]),
        "Hello"
    );
    assert_ne!(NtHiveString::Ascii(b"Hello"), "hello");
    assert_ne!(
        NtHiveString::Utf16LE(&[b'H', 0, b'e', 0, b'l', 0, b'l', 0, b'o', 0]),
        "hello"
    );
    assert_ne!(NtHiveString::Ascii(b"Hello"), "Hell");
    assert_ne!(
        NtHiveString::Utf16LE(&[b'H', 0, b'e', 0, b'l', 0, b'l', 0, b'o', 0]),
        "Hell"
    );
}

#[test]
fn test_eq_ignore_ascii_case() {
    assert!(NtHiveString::Ascii(b"Hello").eq_ignore_ascii_case("Hello"));
    assert!(
        NtHiveString::Utf16LE(&[b'H', 0, b'e', 0, b'l', 0, b'l', 0, b'o', 0])
            .eq_ignore_ascii_case("Hello")
    );
    assert!(NtHiveString::Ascii(b"Hello").eq_ignore_ascii_case("hello"));
    assert!(
        NtHiveString::Utf16LE(&[b'H', 0, b'e', 0, b'l', 0, b'l', 0, b'o', 0])
            .eq_ignore_ascii_case("hello")
    );
    assert!(!NtHiveString::Ascii(b"Hello").eq_ignore_ascii_case("Hell"));
    assert!(
        !NtHiveString::Utf16LE(&[b'H', 0, b'e', 0, b'l', 0, b'l', 0, b'o', 0])
            .eq_ignore_ascii_case("Hell")
    );
}

#[test]
fn test_is_empty() {
    assert!(NtHiveString::Ascii(b"").is_empty());
    assert!(NtHiveString::Utf16LE(&[]).is_empty());
    assert!(!NtHiveString::Ascii(b"Hello").is_empty());
    assert!(!NtHiveString::Utf16LE(&[b'H', 0, b'e', 0, b'l', 0, b'l', 0, b'o', 0]).is_empty());
}

#[test]
fn test_len() {
    assert_eq!(NtHiveString::Ascii(b"Hello").len(), 5);
    assert_eq!(
        NtHiveString::Utf16LE(&[b'H', 0, b'e', 0, b'l', 0, b'l', 0, b'o', 0]).len(),
        10
    );
}

#[test]
fn test_to_string_checked() {
    assert_eq!(
        NtHiveString::Ascii(b"Hello").to_string_checked(),
        Some(String::from("Hello"))
    );
    assert_eq!(NtHiveString::Ascii(&[0x80]).to_string_checked(), None);
    assert_eq!(
        NtHiveString::Utf16LE(&[b'H', 0, b'i', 0]).to_string_checked(),
        Some(String::from("Hi"))
    );
    // An unpaired high surrogate does not decode.
    assert_eq!(
        NtHiveString::Utf16LE(&[0x00, 0xD8]).to_string_checked(),
        None
    );
}

#[test]
fn test_to_string_lossy() {
    assert_eq!(NtHiveString::Ascii(b"Hello").to_string_lossy(), "Hello");
    assert_eq!(NtHiveString::Ascii(&[b'A', 0x80]).to_string_lossy(), "A\u{FFFD}");
    assert_eq!(
        NtHiveString::Utf16LE(&[0x00, 0xD8, b'x', 0]).to_string_lossy(),
        "\u{FFFD}x"
    );
    // A surrogate pair decodes to one character outside the BMP.
    assert_eq!(
        NtHiveString::Utf16LE(&[0x01, 0xD8, 0x37, 0xDC]).to_string_lossy(),
        "\u{10437}"
    );
}

#[test]
fn test_name_string_eq() {
    assert_eq!(NtHiveNameString::Latin1(&[0xE4]), "ä");
    assert_ne!(NtHiveNameString::Latin1(&[0xE4]), "a");
    assert_eq!(NtHiveNameString::Utf16LE(&[b'a', 0]), "a");
    assert_eq!(NtHiveNameString::Latin1(&[0xE4]).to_string_lossy(), "ä");
    assert_eq!(
        NtHiveNameString::Latin1(b"abc").to_string_checked(),
        Some(String::from("abc"))
    );
}
