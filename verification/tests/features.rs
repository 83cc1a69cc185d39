use ffi_marshal::{str_encode_utf16, TransportFeatures};

#[test]
fn narrow_encoder_is_off_without_a_transport() {
    let features = TransportFeatures { scard: false, tsssp: false };
    assert!(!features.has_narrow_encoding());
    assert_eq!(features.encode_narrow("ab"), None);
}

#[test]
fn narrow_encoder_is_on_with_either_transport() {
    let scard = TransportFeatures { scard: true, tsssp: false };
    let tsssp = TransportFeatures { scard: false, tsssp: true };
    let both = TransportFeatures { scard: true, tsssp: true };
    assert!(scard.has_narrow_encoding());
    assert!(tsssp.has_narrow_encoding());
    assert!(both.has_narrow_encoding());
    assert_eq!(scard.encode_narrow("ab"), Some(vec![0x61u8, 0x00, 0x62, 0x00]));
    assert_eq!(tsssp.encode_narrow("\u{20ac}"), Some(vec![0xACu8, 0x20]));
    assert_eq!(both.encode_narrow("\u{1f600}"), Some(str_encode_utf16("\u{1f600}")));
}
