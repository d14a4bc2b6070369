//! The envelope of encrypted tags.

use oxideav_rtmp::error::Error;
use oxideav_rtmp::flv_crypt::{
    EncryptedTag, FILTER_NAME_ENCRYPTION, FILTER_NAME_SELECTIVE, FilterParams, IV_LEN,
    NUM_FILTERS, parse_encrypted_body,
};

fn iv16(seed: u8) -> [u8; IV_LEN] {
    let mut iv = [0u8; IV_LEN];
    for (i, b) in iv.iter_mut().enumerate() {
        *b = seed.wrapping_add(i as u8);
    }
    iv
}

#[test]
fn encryption_filter_round_trips() {
    let tag = EncryptedTag {
        filter_name: FILTER_NAME_ENCRYPTION.into(),
        params: FilterParams::Encryption { iv: iv16(0x10) },
        body: vec![0xAA; 48],
    };
    let bytes = tag.encode();
    assert_eq!(bytes.len(), 1 + 10 + 1 + 3 + 16 + 48);
    assert_eq!(bytes[0], NUM_FILTERS);
    assert_eq!(&bytes[12..15], &[0, 0, 16]);
    let parsed = parse_encrypted_body(&bytes).expect("parse");
    assert_eq!(parsed, tag);
    assert!(parsed.is_encrypted());
    assert_eq!(parsed.iv(), Some(&iv16(0x10)));
}

#[test]
fn selective_encrypted_round_trips() {
    let tag = EncryptedTag {
        filter_name: FILTER_NAME_SELECTIVE.into(),
        params: FilterParams::Selective {
            iv: Some(iv16(0x20)),
        },
        body: vec![0xBB; 16],
    };
    let bytes = tag.encode();
    let parsed = parse_encrypted_body(&bytes).expect("parse");
    assert_eq!(parsed, tag);
    assert!(parsed.is_encrypted());
    assert_eq!(parsed.iv(), Some(&iv16(0x20)));
}

#[test]
fn selective_unencrypted_round_trips() {
    let tag = EncryptedTag {
        filter_name: FILTER_NAME_SELECTIVE.into(),
        params: FilterParams::Selective { iv: None },
        body: vec![1, 2, 3, 4, 5],
    };
    let bytes = tag.encode();
    let parsed = parse_encrypted_body(&bytes).expect("parse");
    assert_eq!(parsed, tag);
    assert!(!parsed.is_encrypted());
    assert_eq!(parsed.iv(), None);
    assert_eq!(parsed.body, vec![1, 2, 3, 4, 5]);
}

#[test]
fn selective_flags_reserved_bits_set_still_decodes_encrypted() {
    let mut bytes = Vec::new();
    bytes.push(NUM_FILTERS);
    bytes.extend_from_slice(b"SE\0");
    bytes.extend_from_slice(&[0, 0, 17]);
    bytes.push(0xFF);
    bytes.extend_from_slice(&iv16(0x30));
    bytes.extend_from_slice(&[0xCC; 32]);
    let parsed = parse_encrypted_body(&bytes).expect("parse");
    assert!(parsed.is_encrypted());
    assert_eq!(parsed.iv(), Some(&iv16(0x30)));
}

#[test]
fn rejects_num_filters_not_one() {
    let mut bytes = Vec::new();
    bytes.push(2);
    bytes.extend_from_slice(b"Encryption\0");
    bytes.extend_from_slice(&[0, 0, 16]);
    bytes.extend_from_slice(&iv16(0));
    let err = parse_encrypted_body(&bytes).unwrap_err();
    assert!(
        matches!(err, Error::Other(ref m) if m.contains("NumFilters")),
        "{err:?}"
    );
}

#[test]
fn rejects_unknown_filter_name() {
    let mut bytes = Vec::new();
    bytes.push(NUM_FILTERS);
    bytes.extend_from_slice(b"Bogus\0");
    bytes.extend_from_slice(&[0, 0, 0]);
    let err = parse_encrypted_body(&bytes).unwrap_err();
    assert!(
        matches!(err, Error::Other(ref m) if m.contains("FilterName")),
        "{err:?}"
    );
}

#[test]
fn rejects_unterminated_filter_name() {
    let mut bytes = Vec::new();
    bytes.push(NUM_FILTERS);
    bytes.extend_from_slice(b"Encryption");
    let err = parse_encrypted_body(&bytes).unwrap_err();
    assert!(
        matches!(err, Error::Other(ref m) if m.contains("FilterName")),
        "{err:?}"
    );
}

#[test]
fn rejects_length_overrun() {
    let mut bytes = Vec::new();
    bytes.push(NUM_FILTERS);
    bytes.extend_from_slice(b"Encryption\0");
    bytes.extend_from_slice(&[0xFF, 0xFF, 0xFF]);
    bytes.extend_from_slice(&iv16(0));
    let err = parse_encrypted_body(&bytes).unwrap_err();
    assert!(
        matches!(err, Error::Other(ref m) if m.contains("overruns")),
        "{err:?}"
    );
}

#[test]
fn rejects_encryption_params_too_short_for_iv() {
    let mut bytes = Vec::new();
    bytes.push(NUM_FILTERS);
    bytes.extend_from_slice(b"Encryption\0");
    bytes.extend_from_slice(&[0, 0, 8]);
    bytes.extend_from_slice(&[0u8; 8]);
    let err = parse_encrypted_body(&bytes).unwrap_err();
    assert!(
        matches!(err, Error::Other(ref m) if m.contains("IV")),
        "{err:?}"
    );
}

#[test]
fn empty_body_truncated_num_filters() {
    let err = parse_encrypted_body(&[]).unwrap_err();
    assert!(
        matches!(err, Error::Other(ref m) if m.contains("NumFilters")),
        "{err:?}"
    );
}
