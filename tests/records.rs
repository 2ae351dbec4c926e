use sapling_crypto::zip32::ExtendedSpendingKey;
use zwl_parser::error::{Field, WalletError};
use zwl_parser::primitives::{
    decode_byte_vector, decode_compact_size, decode_optional_byte_vector, decode_optional_u32,
    decode_u32, encode_byte_vector, encode_compact_size, encode_optional_u32, encode_u32,
};
use zwl_parser::wallet::{CanonicalWallet, KeyListFormat};
use zwl_parser::walletzkey::{WalletZKey, WalletZKeyType};

struct Keys {
    extsk: Vec<u8>,
    extfvk: Vec<u8>,
    address: Vec<u8>,
}

#[allow(deprecated)]
fn keys(seed: u8) -> Keys {
    let xsk = ExtendedSpendingKey::master(&[seed; 32]).unwrap();
    let xfvk = xsk.to_extended_full_viewing_key();
    let mut extfvk = Vec::new();
    xfvk.write(&mut extfvk).unwrap();
    Keys {
        extsk: xsk.to_bytes().to_vec(),
        extfvk,
        address: xfvk.default_address().1.to_bytes().to_vec(),
    }
}

fn record(
    version: u8,
    kind: u32,
    locked: u8,
    extsk: Option<&[u8]>,
    extfvk: &[u8],
    hd: Option<u32>,
    enc: Option<&[u8]>,
    nonce: Option<&[u8]>,
) -> Vec<u8> {
    let mut b = vec![version];
    b.extend_from_slice(&kind.to_le_bytes());
    b.push(locked);
    match extsk {
        Some(k) => {
            b.push(1);
            b.extend_from_slice(k);
        }
        None => b.push(0),
    }
    b.extend_from_slice(extfvk);
    match hd {
        Some(n) => {
            b.push(1);
            b.extend_from_slice(&n.to_le_bytes());
        }
        None => b.push(0),
    }
    for v in [enc, nonce] {
        match v {
            Some(x) => {
                b.push(1);
                b.push(x.len() as u8);
                b.extend_from_slice(x);
            }
            None => b.push(0),
        }
    }
    b
}

#[test]
fn hd_record_decodes_with_derived_address() {
    let k = keys(1);
    let b = record(1, 0, 0, Some(&k.extsk), &k.extfvk, Some(5), None, None);
    let (z, end) = WalletZKey::read(&b, 0).unwrap();
    assert_eq!(end, b.len());
    assert_eq!(z.keytype, WalletZKeyType::HdKey);
    assert!(!z.is_locked());
    assert_eq!(z.extsk, Some(k.extsk.clone()));
    assert_eq!(z.extfvk, k.extfvk);
    assert_eq!(z.zaddress, k.address);
    assert_eq!(z.zaddress.len(), 43);
    assert_eq!(z.hdkey_num, Some(5));
    assert_eq!(z.enc_key, None);
    assert_eq!(z.nonce, None);
}

#[test]
fn record_read_at_offset() {
    let k = keys(2);
    let mut b = vec![0xaa, 0xbb];
    b.extend(record(0, 1, 0, Some(&k.extsk), &k.extfvk, None, None, None));
    b.push(0xcc);
    let (z, end) = WalletZKey::read(&b, 2).unwrap();
    assert_eq!(end, b.len() - 1);
    assert_eq!(z.keytype, WalletZKeyType::ImportedSpendingKey);
    assert_eq!(z.hdkey_num, None);
}

#[test]
fn unknown_key_kind_is_rejected() {
    let k = keys(3);
    let b = record(1, 99, 0, None, &k.extfvk, None, None, None);
    assert_eq!(WalletZKey::read(&b, 0), Err(WalletError::UnknownKeyKind(99)));
    assert_eq!(WalletZKey::read(&[1, 99, 0, 0, 0], 0), Err(WalletError::UnknownKeyKind(99)));
}

#[test]
fn version_above_one_is_rejected() {
    let k = keys(4);
    let b = record(2, 0, 0, Some(&k.extsk), &k.extfvk, Some(5), None, None);
    assert_eq!(WalletZKey::read(&b, 0), Err(WalletError::UnsupportedVersion(2)));
    assert_eq!(WalletZKey::read(&[2], 0), Err(WalletError::UnsupportedVersion(2)));
    assert_eq!(WalletZKey::serialized_version(), 1);
}

#[test]
fn view_key_record_has_no_spending_key() {
    let k = keys(5);
    let b = record(1, 2, 0, None, &k.extfvk, None, None, None);
    let (z, _) = WalletZKey::read(&b, 0).unwrap();
    assert_eq!(z.keytype, WalletZKeyType::ImportedViewKey);
    assert_eq!(z.extsk, None);
    let b = record(1, 2, 0, Some(&k.extsk), &k.extfvk, None, None, None);
    assert_eq!(WalletZKey::read(&b, 0), Err(WalletError::EncodingError(Field::SpendingKey)));
}

#[test]
fn lock_fields_are_consistent() {
    let k = keys(6);
    let b = record(1, 0, 1, None, &k.extfvk, Some(0), Some(&[9; 48]), Some(&[8; 24]));
    let (z, _) = WalletZKey::read(&b, 0).unwrap();
    assert!(z.is_locked());
    assert_eq!(z.enc_key, Some(vec![9; 48]));
    assert_eq!(z.nonce, Some(vec![8; 24]));
    let b = record(1, 0, 1, None, &k.extfvk, Some(0), Some(&[9; 48]), None);
    assert_eq!(WalletZKey::read(&b, 0), Err(WalletError::EncodingError(Field::Nonce)));
    let b = record(1, 0, 1, None, &k.extfvk, Some(0), None, None);
    assert_eq!(WalletZKey::read(&b, 0), Err(WalletError::EncodingError(Field::EncKey)));
}

#[test]
fn unlocked_record_with_encrypted_key_is_rejected() {
    let k = keys(12);
    let b = record(1, 0, 0, Some(&k.extsk), &k.extfvk, Some(0), Some(&[]), Some(&[]));
    assert_eq!(WalletZKey::read(&b, 0), Err(WalletError::EncodingError(Field::EncKey)));
    let b = record(1, 1, 0, Some(&k.extsk), &k.extfvk, None, Some(&[9; 48]), Some(&[8; 24]));
    assert_eq!(WalletZKey::read(&b, 0), Err(WalletError::EncodingError(Field::EncKey)));
}

#[test]
fn spending_key_presence_follows_lock() {
    let k = keys(13);
    let b = record(1, 0, 0, None, &k.extfvk, Some(0), None, None);
    assert_eq!(WalletZKey::read(&b, 0), Err(WalletError::EncodingError(Field::SpendingKey)));
    let b = record(1, 1, 1, Some(&k.extsk), &k.extfvk, None, Some(&[9; 48]), Some(&[8; 24]));
    assert_eq!(WalletZKey::read(&b, 0), Err(WalletError::EncodingError(Field::SpendingKey)));
}

#[test]
fn view_key_record_has_no_encrypted_key() {
    let k = keys(14);
    let b = record(1, 2, 0, None, &k.extfvk, None, Some(&[9; 48]), Some(&[8; 24]));
    assert_eq!(WalletZKey::read(&b, 0), Err(WalletError::EncodingError(Field::EncKey)));
    let b = record(1, 2, 1, None, &k.extfvk, None, Some(&[]), Some(&[]));
    assert_eq!(WalletZKey::read(&b, 0), Err(WalletError::EncodingError(Field::EncKey)));
    let b = record(1, 2, 0, None, &k.extfvk, None, None, Some(&[8; 24]));
    assert_eq!(WalletZKey::read(&b, 0), Err(WalletError::EncodingError(Field::Nonce)));
}

#[test]
fn truncated_and_malformed_fields() {
    let k = keys(7);
    assert_eq!(WalletZKey::read(&[], 0), Err(WalletError::EncodingError(Field::Version)));
    assert_eq!(WalletZKey::read(&[1, 0, 0], 0), Err(WalletError::EncodingError(Field::KeyType)));
    assert_eq!(WalletZKey::read(&[1, 0, 0, 0, 0], 0), Err(WalletError::EncodingError(Field::Locked)));
    let b = record(1, 0, 0, Some(&[0xff; 169]), &k.extfvk, None, None, None);
    assert_eq!(WalletZKey::read(&b, 0), Err(WalletError::EncodingError(Field::SpendingKey)));
    let b = record(1, 0, 0, Some(&k.extsk), &k.extfvk[..100], None, None, None);
    assert_eq!(WalletZKey::read(&b[..b.len() - 3], 0), Err(WalletError::EncodingError(Field::ViewingKey)));
    let b = record(1, 0, 0, Some(&k.extsk), &[0xff; 169], None, None, None);
    assert_eq!(WalletZKey::read(&b, 0), Err(WalletError::EncodingError(Field::ViewingKey)));
    let b = record(1, 0, 0, Some(&[0; 169]), &k.extfvk, None, None, None);
    assert_eq!(WalletZKey::read(&b, 0), Err(WalletError::EncodingError(Field::SpendingKey)));
    let b = record(1, 0, 0, Some(&k.extsk), &[0; 169], None, None, None);
    assert_eq!(WalletZKey::read(&b, 0), Err(WalletError::EncodingError(Field::ViewingKey)));
    let b = record(1, 0, 0, Some(&k.extsk), &k.extfvk, Some(3), None, None);
    assert_eq!(WalletZKey::read(&b[..b.len() - 4], 0), Err(WalletError::EncodingError(Field::HdKeyNum)));
    let b = record(1, 0, 0, Some(&k.extsk), &k.extfvk, None, Some(&[1, 2, 3]), Some(&[4]));
    assert_eq!(WalletZKey::read(&b[..b.len() - 4], 0), Err(WalletError::EncodingError(Field::EncKey)));
    assert_eq!(WalletZKey::read(&b[..b.len() - 1], 0), Err(WalletError::EncodingError(Field::Nonce)));
}

#[test]
fn nonzero_presence_flag_means_present() {
    let k = keys(8);
    let mut b = record(1, 0, 0, Some(&k.extsk), &k.extfvk, Some(5), None, None);
    b[6] = 7;
    let (z, _) = WalletZKey::read(&b, 0).unwrap();
    assert_eq!(z.extsk, Some(k.extsk.clone()));
    assert_eq!(decode_optional_u32(&[0x80, 1, 0, 0, 0], 0), Some((Some(1), 5)));
}

#[test]
fn record_write_inverts_read() {
    let k = keys(9);
    let b = record(1, 0, 1, None, &k.extfvk, Some(12), Some(&[1, 2, 3]), Some(&[4, 5]));
    let (z, _) = WalletZKey::read(&b, 0).unwrap();
    assert!(z.is_encodable());
    let mut out = vec![0x55];
    z.write(&mut out);
    assert_eq!(&out[1..], &b[..]);
    let (z2, end) = WalletZKey::read(&out, 1).unwrap();
    assert_eq!(end, out.len());
    assert_eq!(z2, z);
}

#[test]
fn key_type_codes() {
    assert_eq!(WalletZKeyType::from_u32(0), Ok(WalletZKeyType::HdKey));
    assert_eq!(WalletZKeyType::from_u32(1), Ok(WalletZKeyType::ImportedSpendingKey));
    assert_eq!(WalletZKeyType::from_u32(2), Ok(WalletZKeyType::ImportedViewKey));
    assert_eq!(WalletZKeyType::from_u32(3), Err(WalletError::UnknownKeyKind(3)));
    assert_eq!(WalletZKeyType::ImportedViewKey.to_u32(), 2);
}

#[test]
fn compact_sizes() {
    assert_eq!(decode_compact_size(&[252], 0), Some((252, 1)));
    assert_eq!(decode_compact_size(&[253, 0x2c, 0x01], 0), Some((300, 3)));
    assert_eq!(decode_compact_size(&[253, 0x10, 0x00], 0), None);
    assert_eq!(decode_compact_size(&[254, 0x00, 0x00, 0x01, 0x00], 0), Some((0x10000, 5)));
    assert_eq!(decode_compact_size(&[254, 0x01, 0x00, 0x00, 0x02], 0), None);
    assert_eq!(decode_compact_size(&[255, 0, 0, 0, 0, 1, 0, 0, 0], 0), None);
    assert_eq!(decode_compact_size(&[253, 1], 0), None);
    let mut out = Vec::new();
    encode_compact_size(&mut out, 300);
    encode_compact_size(&mut out, 0x10000);
    encode_compact_size(&mut out, 7);
    assert_eq!(out, vec![253, 0x2c, 0x01, 254, 0, 0, 1, 0, 7]);
}

#[test]
fn integers_and_byte_sequences() {
    assert_eq!(decode_u32(&[9, 0x78, 0x56, 0x34, 0x12], 1), Some((0x12345678, 5)));
    assert_eq!(decode_u32(&[1, 2, 3], 0), None);
    let mut out = Vec::new();
    encode_u32(&mut out, 0x12345678);
    encode_optional_u32(&mut out, Some(5));
    encode_optional_u32(&mut out, None);
    assert_eq!(out, vec![0x78, 0x56, 0x34, 0x12, 1, 5, 0, 0, 0, 0]);
    let mut out = Vec::new();
    encode_byte_vector(&mut out, &[7, 8, 9]);
    assert_eq!(out, vec![3, 7, 8, 9]);
    assert_eq!(decode_byte_vector(&out, 0), Some((vec![7, 8, 9], 4)));
    assert_eq!(decode_byte_vector(&out[..3], 0), None);
    assert_eq!(decode_optional_byte_vector(&[0], 0), Some((None, 1)));
    assert_eq!(decode_optional_byte_vector(&[1, 1, 6], 0), Some((Some(vec![6]), 3)));
    let long = vec![0xab; 300];
    let mut out = Vec::new();
    encode_byte_vector(&mut out, &long);
    assert_eq!(&out[..3], &[253, 0x2c, 0x01]);
    assert_eq!(decode_byte_vector(&out, 0), Some((long, 303)));
}

fn two_key_file() -> Vec<u8> {
    let a = keys(10);
    let b = keys(11);
    let mut f = vec![1, 0, 0, 0, 2];
    f.extend(record(1, 0, 0, Some(&a.extsk), &a.extfvk, Some(0), None, None));
    f.extend(record(1, 2, 0, None, &b.extfvk, None, None, None));
    f
}

#[test]
fn wallet_parse_and_write_round_trip() {
    let f = two_key_file();
    let w = KeyListFormat::parse(&f).unwrap();
    assert_eq!(w.version, 1);
    assert_eq!(w.keys.len(), 2);
    assert_eq!(w.keys[0].keytype, WalletZKeyType::HdKey);
    assert_eq!(w.keys[1].keytype, WalletZKeyType::ImportedViewKey);
    assert!(KeyListFormat::is_encodable(&w));
    let bytes = KeyListFormat::write(&w);
    assert_eq!(bytes, f);
    assert_eq!(KeyListFormat::parse(&bytes), Ok(w));
}

#[test]
fn empty_wallet_round_trip() {
    let w = CanonicalWallet { version: 0, keys: Vec::new() };
    let bytes = KeyListFormat::write(&w);
    assert_eq!(bytes, vec![0, 0, 0, 0, 0]);
    assert_eq!(KeyListFormat::parse(&bytes), Ok(w));
}

#[test]
fn wallet_errors() {
    assert_eq!(KeyListFormat::parse(&[2, 0, 0, 0, 0]), Err(WalletError::UnsupportedVersion(2)));
    assert_eq!(KeyListFormat::parse(&[1, 0]), Err(WalletError::EncodingError(Field::Version)));
    assert_eq!(KeyListFormat::parse(&[1, 0, 0, 0]), Err(WalletError::EncodingError(Field::KeyCount)));
    assert_eq!(
        KeyListFormat::parse(&[1, 0, 0, 0, 253, 3, 0]),
        Err(WalletError::EncodingError(Field::KeyCount))
    );
    assert_eq!(KeyListFormat::parse(&[1, 0, 0, 0, 0, 0]), Err(WalletError::EncodingError(Field::TrailingBytes)));
    let mut f = two_key_file();
    f[4] = 3;
    assert_eq!(KeyListFormat::parse(&f), Err(WalletError::EncodingError(Field::Version)));
    let mut f = two_key_file();
    f[6] = 99;
    assert_eq!(KeyListFormat::parse(&f), Err(WalletError::UnknownKeyKind(99)));
}
