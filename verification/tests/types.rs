use ink_types_node_runtime::compact::decode_compact;
use ink_types_node_runtime::identifier::Identifier;
use ink_types_node_runtime::index::IndexInt;
use ink_types_node_runtime::AccountId;
use std::convert::TryFrom;

#[test]
fn account_id_keeps_its_bytes() {
    let mut bytes = [0u8; 32];
    for (i, b) in bytes.iter_mut().enumerate() {
        *b = i as u8;
    }
    let id = AccountId::from(bytes);
    assert_eq!(id.to_bytes(), bytes);
    assert_eq!(AccountId::try_from(&bytes[..]).unwrap(), id);
}

#[test]
fn account_id_needs_exactly_32_bytes() {
    assert!(AccountId::try_from(&[0u8; 31][..]).is_err());
    assert!(AccountId::try_from(&[0u8; 33][..]).is_err());
    assert!(AccountId::try_from(&[][..]).is_err());
    assert!(AccountId::try_from(&[0u8; 32][..]).is_ok());
}

#[test]
fn hash_keeps_its_bytes() {
    let bytes = [0xC3u8; 32];
    let hash = ink_types_node_runtime::Hash::from(bytes);
    assert_eq!(hash.to_bytes(), bytes);
    assert_eq!(ink_types_node_runtime::Hash::try_from(&bytes[..]).unwrap(), hash);
    assert!(ink_types_node_runtime::Hash::try_from(&bytes[..31]).is_err());
}

#[test]
fn identifier_travels_as_its_bytes() {
    let mut bytes = [0u8; 32];
    bytes[0] = 1;
    bytes[31] = 2;
    let id = AccountId::from(bytes);
    let mut out = vec![9];
    Identifier::encode_to(&id, &mut out);
    assert_eq!(out.len(), 33);
    assert_eq!(&out[1..], &bytes[..]);
    out.push(4);
    let (back, rest) = <AccountId as Identifier>::decode(&out[1..]).unwrap();
    assert_eq!(back, id);
    assert_eq!(rest, &[4]);
    assert!(<AccountId as Identifier>::decode(&bytes[..31]).is_none());
}

#[test]
fn index_types_narrow_and_widen() {
    assert_eq!(7u32.narrow(), Some(7));
    assert_eq!(u32::MAX.narrow(), Some(u32::MAX));
    assert_eq!(0xFFFF_FFFFu64.narrow(), Some(u32::MAX));
    assert_eq!(0x1_0000_0000u64.narrow(), None);
    assert_eq!(<u32 as IndexInt>::widen(5), 5u32);
    assert_eq!(<u64 as IndexInt>::widen(u32::MAX), 0xFFFF_FFFFu64);
}

#[test]
fn index_types_travel_low_byte_first() {
    let mut out = Vec::new();
    IndexInt::encode_to(0x0102_0304u32, &mut out);
    assert_eq!(out, vec![4, 3, 2, 1]);
    let mut out = Vec::new();
    IndexInt::encode_to(0x0102_0304_0506_0708u64, &mut out);
    assert_eq!(out, vec![8, 7, 6, 5, 4, 3, 2, 1]);
    assert_eq!(
        <u32 as IndexInt>::decode(&[4, 3, 2, 1, 0]),
        Some((0x0102_0304, &[0][..]))
    );
    assert_eq!(
        <u64 as IndexInt>::decode(&[8, 7, 6, 5, 4, 3, 2, 1]),
        Some((0x0102_0304_0506_0708, &[][..]))
    );
    assert_eq!(<u32 as IndexInt>::decode(&[4, 3, 2]), None);
    assert_eq!(<u64 as IndexInt>::decode(&[8, 7, 6, 5, 4, 3, 2]), None);
}

#[test]
fn compact_amounts_decode_from_their_shortest_form_only() {
    assert_eq!(decode_compact(&[0x00]), Some((0, &[][..])));
    assert_eq!(decode_compact(&[0xFC]), Some((63, &[][..])));
    assert_eq!(decode_compact(&[0x01, 0x01]), Some((64, &[][..])));
    assert_eq!(decode_compact(&[0xFD, 0xFF, 0x00]), Some((16383, &[0][..])));
    assert_eq!(decode_compact(&[0x02, 0x00, 0x01, 0x00]), Some((16384, &[][..])));
    assert_eq!(decode_compact(&[0xFE, 0xFF, 0xFF, 0xFF]), Some(((1 << 30) - 1, &[][..])));
    assert_eq!(decode_compact(&[0x03, 0, 0, 0, 0x40]), Some((1 << 30, &[][..])));
    assert_eq!(decode_compact(&[0x07, 0, 0, 0, 0, 1]), Some((1 << 32, &[][..])));
    let mut max = vec![0x33];
    max.extend_from_slice(&[0xFF; 16]);
    assert_eq!(decode_compact(max.as_slice()), Some((u128::MAX, &[][..])));

    assert_eq!(decode_compact(&[]), None);
    assert_eq!(decode_compact(&[0x01]), None);
    assert_eq!(decode_compact(&[0x01, 0x00]), None);
    assert_eq!(decode_compact(&[0x02, 0x00, 0x00, 0x00]), None);
    assert_eq!(decode_compact(&[0x03, 0xFF, 0xFF, 0xFF, 0x3F]), None);
    assert_eq!(decode_compact(&[0x07, 1, 0, 0, 0, 0]), None);
    assert_eq!(decode_compact(&[0x37, 1, 0, 0, 0, 0]), None);
}
