use ink_types_node_runtime::address::{Address, AddressError};
use ink_types_node_runtime::AccountId;

type Narrow = Address<AccountId, u32>;
type Wide = Address<AccountId, u64>;

fn decoded(a: Narrow) -> Result<(Narrow, &'static [u8]), AddressError> {
    Ok((a, &[][..]))
}

#[test]
fn tier_boundaries() {
    assert_eq!(Narrow::Index(0).encode(), vec![0x00]);
    assert_eq!(Narrow::Index(0xEF).encode(), vec![0xEF]);
    assert_eq!(Narrow::Index(0xF0).encode(), vec![0xFC, 0xF0, 0x00]);
    assert_eq!(Narrow::Index(0xFFFF).encode(), vec![0xFC, 0xFF, 0xFF]);
    assert_eq!(Narrow::Index(0x10000).encode(), vec![0xFD, 0x00, 0x00, 0x01, 0x00]);
    assert_eq!(Narrow::Index(u32::MAX).encode(), vec![0xFD, 0xFF, 0xFF, 0xFF, 0xFF]);
    let mut expected = vec![0xFF];
    expected.extend_from_slice(&[0u8; 32]);
    assert_eq!(Narrow::Id(AccountId::from([0u8; 32])).encode(), expected);
}

#[test]
fn wide_index_uses_the_full_width_above_32_bits() {
    assert_eq!(Wide::Index(0xEF).encode(), vec![0xEF]);
    assert_eq!(Wide::Index(0xFFFF_FFFF).encode(), vec![0xFD, 0xFF, 0xFF, 0xFF, 0xFF]);
    assert_eq!(
        Wide::Index(0x1_0000_0000).encode(),
        vec![0xFE, 0, 0, 0, 0, 1, 0, 0, 0]
    );
    assert_eq!(
        Wide::Index(0x0102_0304_0506_0708).encode(),
        vec![0xFE, 8, 7, 6, 5, 4, 3, 2, 1]
    );
    assert_eq!(
        Wide::decode(&[0xFE, 8, 7, 6, 5, 4, 3, 2, 1, 0x55]),
        Ok((Wide::Index(0x0102_0304_0506_0708), &[0x55][..]))
    );
}

#[test]
fn short_values_in_a_long_form_are_rejected() {
    assert_eq!(Narrow::decode(&[0xFC, 0xE0, 0x00]), Err(AddressError::NonCanonical));
    assert_eq!(Narrow::decode(&[0xFC, 0xEF, 0x00]), Err(AddressError::NonCanonical));
    assert_eq!(
        Narrow::decode(&[0xFD, 0xFF, 0xFF, 0x00, 0x00]),
        Err(AddressError::NonCanonical)
    );
    assert_eq!(
        Wide::decode(&[0xFE, 0xFF, 0xFF, 0xFF, 0xFF, 0, 0, 0, 0]),
        Err(AddressError::NonCanonical)
    );
    // No 32-bit index is above 32 bits, so the full form never holds one.
    assert_eq!(
        Narrow::decode(&[0xFE, 0xFF, 0xFF, 0xFF, 0xFF]),
        Err(AddressError::NonCanonical)
    );
}

#[test]
fn decoding_follows_the_tag() {
    assert_eq!(Narrow::decode(&[2]), decoded(Narrow::Index(2)));
    assert_eq!(Narrow::decode(&[0xEF]), decoded(Narrow::Index(0xEF)));
    assert_eq!(Narrow::decode(&[252, 240, 0]), decoded(Narrow::Index(240)));
    assert_eq!(Narrow::decode(&[252, 48, 1]), decoded(Narrow::Index(304)));
    assert_eq!(Narrow::decode(&[253, 0, 0, 1, 0]), decoded(Narrow::Index(0x10000)));
    let mut bytes = vec![255];
    bytes.extend_from_slice(&[42, 69].repeat(16));
    let mut id = [0u8; 32];
    id.copy_from_slice(&[42, 69].repeat(16));
    assert_eq!(
        Narrow::decode(bytes.as_slice()),
        Ok((Narrow::Id(AccountId::from(id)), &[][..]))
    );
}

#[test]
fn unused_tags_are_invalid() {
    for tag in 0xF0u8..=0xFB {
        assert_eq!(
            Narrow::decode(&[tag, 0, 0, 0, 0, 0, 0, 0, 0]),
            Err(AddressError::InvalidTag)
        );
    }
}

#[test]
fn missing_bytes_are_truncation() {
    assert_eq!(Narrow::decode(&[]), Err(AddressError::Truncated));
    assert_eq!(Narrow::decode(&[0xFC, 0xF0]), Err(AddressError::Truncated));
    assert_eq!(Narrow::decode(&[0xFD, 0, 0, 1]), Err(AddressError::Truncated));
    assert_eq!(Narrow::decode(&[0xFE, 0, 0, 1]), Err(AddressError::Truncated));
    assert_eq!(
        Wide::decode(&[0xFE, 0, 0, 0, 0, 1, 0, 0]),
        Err(AddressError::Truncated)
    );
    assert_eq!(Narrow::decode(&[0xFF; 32]), Err(AddressError::Truncated));
}

#[test]
fn references_round_trip_and_leave_the_tail() {
    let samples = [
        Wide::Index(0),
        Wide::Index(0xEF),
        Wide::Index(0xF0),
        Wide::Index(0xFFFF),
        Wide::Index(0x1_0000),
        Wide::Index(0xFFFF_FFFF),
        Wide::Index(0x1_0000_0000),
        Wide::Index(u64::MAX),
        Wide::Id(AccountId::from([0x5A; 32])),
    ];
    for a in samples.iter() {
        let mut bytes = a.encode();
        bytes.push(0x77);
        let (back, rest) = Wide::decode(bytes.as_slice()).unwrap();
        assert_eq!(&back, a);
        assert_eq!(rest, &[0x77]);
    }
}

#[test]
fn every_two_byte_string_decodes_only_from_its_own_encoding() {
    // Whatever decodes with nothing left over must be what encoding gives.
    for first in 0u8..=255 {
        for second in 0u8..=255 {
            for bytes in [vec![first], vec![first, second], vec![first, second, 0]] {
                if let Ok((a, rest)) = Narrow::decode(bytes.as_slice()) {
                    let used = bytes.len() - rest.len();
                    assert_eq!(a.encode(), bytes[..used].to_vec());
                }
            }
        }
    }
}

#[test]
fn encode_to_appends() {
    let mut out = vec![1, 2];
    Narrow::Index(0x1234).encode_to(&mut out);
    assert_eq!(out, vec![1, 2, 0xFC, 0x34, 0x12]);
}

#[test]
fn identifiers_of_another_width() {
    type Short = Address<[u8; 8], u32>;
    fn compare(a: Option<Short>, d: &[u8]) {
        if let Some(ref a) = a {
            assert_eq!(d, &a.encode()[..]);
        }
        assert_eq!(Short::decode(d).ok().map(|(a, _)| a), a);
    }
    compare(Some(Short::Index(2)), &[2][..]);
    compare(None, &[240][..]);
    compare(None, &[252, 239, 0][..]);
    compare(Some(Short::Index(240)), &[252, 240, 0][..]);
    compare(Some(Short::Index(304)), &[252, 48, 1][..]);
    compare(None, &[253, 255, 255, 0, 0][..]);
    compare(Some(Short::Index(0x10000)), &[253, 0, 0, 1, 0][..]);
    compare(
        Some(Short::Id([42, 69, 42, 69, 42, 69, 42, 69])),
        &[255, 42, 69, 42, 69, 42, 69, 42, 69][..],
    );
    assert_eq!(Short::decode(&[255, 1, 2, 3, 4, 5, 6, 7]), Err(AddressError::Truncated));
}

#[test]
fn longer_forms_of_a_short_index_are_all_rejected() {
    // 0x20 fits one byte: the two-byte, four-byte and full-width forms of
    // it are refused.
    assert_eq!(Wide::Index(0x20).encode(), vec![0x20]);
    assert_eq!(Wide::decode(&[0xFC, 0x20, 0]), Err(AddressError::NonCanonical));
    assert_eq!(Wide::decode(&[0xFD, 0x20, 0, 0, 0]), Err(AddressError::NonCanonical));
    assert_eq!(
        Wide::decode(&[0xFE, 0x20, 0, 0, 0, 0, 0, 0, 0]),
        Err(AddressError::NonCanonical)
    );
}
