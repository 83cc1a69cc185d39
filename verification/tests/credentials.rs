use ffi_marshal::credentials_str_into_bytes;
use libc::c_char;

fn chars(bytes: &[u8]) -> Vec<c_char> {
    bytes.iter().map(|b| *b as c_char).collect()
}

#[test]
fn absent_buffer_gives_no_bytes() {
    assert_eq!(credentials_str_into_bytes(None, 0), Vec::<u8>::new());
}

#[test]
fn absent_buffer_gives_no_bytes_whatever_the_length() {
    assert_eq!(credentials_str_into_bytes(None, 1), Vec::<u8>::new());
    assert_eq!(credentials_str_into_bytes(None, 4096), Vec::<u8>::new());
    assert_eq!(credentials_str_into_bytes(None, usize::MAX), Vec::<u8>::new());
}

#[test]
fn present_buffer_gives_its_bytes() {
    let buffer = chars(b"password");
    assert_eq!(credentials_str_into_bytes(Some(&buffer), 8), b"password".to_vec());
}

#[test]
fn present_buffer_gives_only_the_first_len_bytes() {
    let buffer = chars(b"user\0tail");
    assert_eq!(credentials_str_into_bytes(Some(&buffer), 4), b"user".to_vec());
    assert_eq!(credentials_str_into_bytes(Some(&buffer), 5), b"user\0".to_vec());
}

#[test]
fn present_buffer_with_length_zero_gives_no_bytes() {
    let buffer = chars(b"abc");
    assert_eq!(credentials_str_into_bytes(Some(&buffer), 0), Vec::<u8>::new());
    let empty: [c_char; 0] = [];
    assert_eq!(credentials_str_into_bytes(Some(&empty), 0), Vec::<u8>::new());
}

#[test]
fn every_byte_value_comes_through_unchanged() {
    let all: Vec<u8> = (0u8..=255).collect();
    let buffer = chars(&all);
    assert_eq!(credentials_str_into_bytes(Some(&buffer), 256), all);
}

#[test]
fn high_bytes_keep_their_bit_pattern() {
    let buffer = chars(&[0x7F, 0x80, 0xFF]);
    assert_eq!(credentials_str_into_bytes(Some(&buffer), 3), vec![0x7Fu8, 0x80, 0xFF]);
}
