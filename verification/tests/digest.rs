use block_primitives::compact;
use block_primitives::{
    ChangesTrieConfiguration, ChangesTrieSignal, DecodeError, Digest, DigestItem, DigestItemRef,
    DigestItemType,
};
use parity_scale_codec::Encode;

fn aura() -> [u8; 4] {
    [b'A', b'U', b'R', b'A']
}

fn one_of_each() -> Vec<DigestItem> {
    vec![
        DigestItem::ChangesTrieRoot([7; 32]),
        DigestItem::PreRuntime(aura(), vec![0x01, 0x02]),
        DigestItem::Consensus([b'B', b'A', b'B', b'E'], vec![]),
        DigestItem::Seal(aura(), vec![0xff; 64]),
        DigestItem::ChangesTrieSignal(ChangesTrieSignal::NewConfiguration(None)),
        DigestItem::ChangesTrieSignal(ChangesTrieSignal::NewConfiguration(Some(
            ChangesTrieConfiguration { digest_interval: 0x0102_0304, digest_levels: 5 },
        ))),
        DigestItem::Other(vec![9, 9, 9]),
        DigestItem::Other(vec![]),
    ]
}

#[test]
fn item_types_have_their_own_tags() {
    assert_eq!(DigestItemType::Other.tag(), 0);
    assert_eq!(DigestItemType::ChangesTrieRoot.tag(), 2);
    assert_eq!(DigestItemType::Consensus.tag(), 4);
    assert_eq!(DigestItemType::Seal.tag(), 5);
    assert_eq!(DigestItemType::PreRuntime.tag(), 6);
    assert_eq!(DigestItemType::ChangesTrieSignal.tag(), 7);
}

#[test]
fn tags_name_their_item_types() {
    assert_eq!(DigestItemType::from_tag(0), Some(DigestItemType::Other));
    assert_eq!(DigestItemType::from_tag(2), Some(DigestItemType::ChangesTrieRoot));
    assert_eq!(DigestItemType::from_tag(4), Some(DigestItemType::Consensus));
    assert_eq!(DigestItemType::from_tag(5), Some(DigestItemType::Seal));
    assert_eq!(DigestItemType::from_tag(6), Some(DigestItemType::PreRuntime));
    assert_eq!(DigestItemType::from_tag(7), Some(DigestItemType::ChangesTrieSignal));
    assert_eq!(DigestItemType::from_tag(1), None);
    assert_eq!(DigestItemType::from_tag(3), None);
    assert_eq!(DigestItemType::from_tag(8), None);
    assert_eq!(DigestItemType::from_tag(u64::MAX), None);
}

#[test]
fn item_type_is_written_as_a_compact_number() {
    assert_eq!(DigestItemType::Other.encode(), vec![0x00]);
    assert_eq!(DigestItemType::ChangesTrieRoot.encode(), vec![0x08]);
    assert_eq!(DigestItemType::Consensus.encode(), vec![0x10]);
    assert_eq!(DigestItemType::Seal.encode(), vec![0x14]);
    assert_eq!(DigestItemType::PreRuntime.encode(), vec![0x18]);
    assert_eq!(DigestItemType::ChangesTrieSignal.encode(), vec![0x1c]);
    assert_eq!(DigestItemType::decode(&[0x18, 0x00]), Ok((DigestItemType::PreRuntime, 1)));
    assert_eq!(DigestItemType::decode(&[0x04]), Err(DecodeError::InvalidDiscriminant));
    assert_eq!(DigestItemType::decode(&[]), Err(DecodeError::Truncated));
}

#[test]
fn pre_runtime_digest_round_trips_with_tag_six() {
    let digest = Digest { logs: vec![DigestItem::PreRuntime(aura(), vec![0x01, 0x02])] };
    let bytes = digest.encode();
    assert_eq!(bytes, vec![0x04, 0x18, b'A', b'U', b'R', b'A', 0x08, 0x01, 0x02]);
    assert_eq!(compact::decode_at(&bytes, 1), Ok((6, 2)));
    assert_eq!(Digest::decode(&bytes), Ok((digest, bytes.len())));
}

#[test]
fn each_item_has_its_exact_bytes() {
    let mut root = vec![0x08];
    root.extend_from_slice(&[7; 32]);
    assert_eq!(DigestItem::ChangesTrieRoot([7; 32]).encode(), root);
    assert_eq!(
        DigestItem::PreRuntime(aura(), vec![0x01, 0x02]).encode(),
        vec![0x18, b'A', b'U', b'R', b'A', 0x08, 0x01, 0x02]
    );
    assert_eq!(
        DigestItem::Consensus(aura(), vec![]).encode(),
        vec![0x10, b'A', b'U', b'R', b'A', 0x00]
    );
    assert_eq!(
        DigestItem::Seal(aura(), vec![5]).encode(),
        vec![0x14, b'A', b'U', b'R', b'A', 0x04, 5]
    );
    assert_eq!(
        DigestItem::ChangesTrieSignal(ChangesTrieSignal::NewConfiguration(None)).encode(),
        vec![0x1c, 0x00]
    );
    assert_eq!(
        DigestItem::ChangesTrieSignal(ChangesTrieSignal::NewConfiguration(Some(
            ChangesTrieConfiguration { digest_interval: 0x0102_0304, digest_levels: 5 }
        )))
        .encode(),
        vec![0x1c, 0x01, 0x04, 0x03, 0x02, 0x01, 0x05, 0x00, 0x00, 0x00]
    );
    assert_eq!(DigestItem::Other(vec![9, 9, 9]).encode(), vec![0x00, 0x0c, 9, 9, 9]);
}

#[test]
fn long_payload_has_a_two_byte_length() {
    let item = DigestItem::Seal(aura(), vec![0xee; 64]);
    let bytes = item.encode();
    assert_eq!(bytes.len(), 1 + 4 + 2 + 64);
    assert_eq!(&bytes[..7], &[0x14, b'A', b'U', b'R', b'A', 0x01, 0x01]);
    assert_eq!(DigestItem::decode(&bytes), Ok((item, bytes.len())));
}

#[test]
fn payload_is_written_as_the_scale_codec_writes_bytes() {
    for len in [0usize, 1, 63, 64, 300, 16384] {
        let payload = vec![0x5a; len];
        let bytes = DigestItem::Other(payload.clone()).encode();
        assert_eq!(&bytes[1..], &payload.encode()[..]);
    }
}

#[test]
fn every_item_round_trips() {
    for item in one_of_each() {
        let bytes = item.encode();
        assert_eq!(DigestItem::decode(&bytes), Ok((item, bytes.len())));
    }
}

#[test]
fn item_decode_leaves_what_follows() {
    let mut bytes = DigestItem::Other(vec![1]).encode();
    let first = bytes.len();
    bytes.extend_from_slice(&DigestItem::ChangesTrieRoot([3; 32]).encode());
    assert_eq!(DigestItem::decode(&bytes), Ok((DigestItem::Other(vec![1]), first)));
    assert_eq!(
        DigestItem::decode_at(&bytes, first),
        Ok((DigestItem::ChangesTrieRoot([3; 32]), bytes.len()))
    );
}

#[test]
fn borrowed_item_encodes_like_the_owned_one() {
    for item in one_of_each() {
        assert_eq!(item.dref().encode(), item.encode());
    }
    let id = aura();
    let payload = vec![1u8, 2, 3];
    let root = [4u8; 32];
    let signal = ChangesTrieSignal::NewConfiguration(None);
    assert_eq!(
        DigestItemRef::PreRuntime(&id, &payload).encode(),
        DigestItem::PreRuntime(id, payload.clone()).encode()
    );
    assert_eq!(
        DigestItemRef::Consensus(&id, &payload).encode(),
        DigestItem::Consensus(id, payload.clone()).encode()
    );
    assert_eq!(
        DigestItemRef::Seal(&id, &payload).encode(),
        DigestItem::Seal(id, payload.clone()).encode()
    );
    assert_eq!(
        DigestItemRef::ChangesTrieRoot(&root).encode(),
        DigestItem::ChangesTrieRoot(root).encode()
    );
    assert_eq!(
        DigestItemRef::ChangesTrieSignal(&signal).encode(),
        DigestItem::ChangesTrieSignal(signal.clone()).encode()
    );
    assert_eq!(
        DigestItemRef::Other(&payload).encode(),
        DigestItem::Other(payload.clone()).encode()
    );
}

#[test]
fn dref_keeps_the_variant_and_the_content() {
    let item = DigestItem::Seal(aura(), vec![1, 2]);
    assert_eq!(item.dref(), DigestItemRef::Seal(&aura(), &vec![1, 2]));
    let other = DigestItem::Other(vec![]);
    assert_eq!(other.dref(), DigestItemRef::Other(&vec![]));
}

#[test]
fn borrowed_item_appends_to_what_is_there() {
    let payload = vec![7u8];
    let mut dest = vec![0xaa];
    DigestItemRef::Other(&payload).encode_to(&mut dest);
    DigestItem::Other(vec![8]).encode_to(&mut dest);
    assert_eq!(dest, vec![0xaa, 0x00, 0x04, 7, 0x00, 0x04, 8]);
}

#[test]
fn unknown_tag_is_an_invalid_discriminant() {
    for tag in [1u64, 3, 8, 9, 63, 64, 255, 16384, 1 << 30, 1 << 32, u64::MAX] {
        let mut bytes = compact::encode(tag);
        bytes.extend_from_slice(&[0u8; 40]);
        assert_eq!(DigestItem::decode(&bytes), Err(DecodeError::InvalidDiscriminant));
        let mut digest = vec![0x04];
        digest.extend_from_slice(&bytes);
        assert_eq!(Digest::decode(&digest), Err(DecodeError::InvalidDiscriminant));
    }
}

#[test]
fn known_tag_is_never_an_invalid_discriminant() {
    for tag in [0u64, 2, 4, 5, 6, 7] {
        let mut bytes = compact::encode(tag);
        bytes.extend_from_slice(&[0u8; 40]);
        assert!(DigestItem::decode(&bytes).is_ok());
    }
}

#[test]
fn item_that_ends_early_is_truncated() {
    assert_eq!(DigestItem::decode(&[]), Err(DecodeError::Truncated));
    let mut root = vec![0x08];
    root.extend_from_slice(&[7; 31]);
    assert_eq!(DigestItem::decode(&root), Err(DecodeError::Truncated));
    assert_eq!(DigestItem::decode(&[0x18, b'A', b'U']), Err(DecodeError::Truncated));
    assert_eq!(DigestItem::decode(&[0x18, b'A', b'U', b'R', b'A']), Err(DecodeError::Truncated));
    assert_eq!(DigestItem::decode(&[0x1c]), Err(DecodeError::Truncated));
    assert_eq!(DigestItem::decode(&[0x1c, 0x01, 0, 0, 0, 0, 0, 0, 0]), Err(DecodeError::Truncated));
    assert_eq!(DigestItem::decode(&[0x00]), Err(DecodeError::Truncated));
    assert_eq!(DigestItem::decode(&[0x00, 0x01]), Err(DecodeError::Truncated));
}

#[test]
fn length_beyond_the_stream_is_an_invalid_length() {
    assert_eq!(DigestItem::decode(&[0x00, 0x0c, 9, 9]), Err(DecodeError::InvalidLength));
    assert_eq!(DigestItem::decode(&[0x00, 0x04]), Err(DecodeError::InvalidLength));
    assert_eq!(
        DigestItem::decode(&[0x14, b'A', b'U', b'R', b'A', 0x01, 0x01, 0, 0]),
        Err(DecodeError::InvalidLength)
    );
    assert_eq!(
        DigestItem::decode(&[0x00, 0x13, 0xff, 0xff, 0xff, 0xff, 0xff, 0xff, 0xff, 0xff]),
        Err(DecodeError::InvalidLength)
    );
}

#[test]
fn longer_spelling_of_a_number_is_malformed() {
    assert_eq!(DigestItem::decode(&[0x19, 0x00]), Err(DecodeError::Malformed));
    assert_eq!(DigestItem::decode(&[0x00, 0x01, 0x00]), Err(DecodeError::Malformed));
    assert_eq!(Digest::decode(&[0x01, 0x00]), Err(DecodeError::Malformed));
}

#[test]
fn presence_flag_is_zero_or_one() {
    assert_eq!(
        ChangesTrieSignal::decode(&[0x00]),
        Ok((ChangesTrieSignal::NewConfiguration(None), 1))
    );
    assert_eq!(
        ChangesTrieSignal::decode(&[0x01, 1, 0, 0, 0, 2, 0, 0, 0]),
        Ok((
            ChangesTrieSignal::NewConfiguration(Some(ChangesTrieConfiguration {
                digest_interval: 1,
                digest_levels: 2
            })),
            9
        ))
    );
    assert_eq!(ChangesTrieSignal::decode(&[0x02]), Err(DecodeError::InvalidDiscriminant));
    assert_eq!(DigestItem::decode(&[0x1c, 0xff]), Err(DecodeError::InvalidDiscriminant));
    assert_eq!(ChangesTrieSignal::decode(&[]), Err(DecodeError::Truncated));
}

#[test]
fn configuration_is_two_fixed_width_numbers() {
    let config = ChangesTrieConfiguration { digest_interval: 0xdead_beef, digest_levels: 1 };
    let bytes = config.encode();
    assert_eq!(bytes, vec![0xef, 0xbe, 0xad, 0xde, 0x01, 0x00, 0x00, 0x00]);
    let mut theirs = 0xdead_beefu32.encode();
    theirs.extend_from_slice(&1u32.encode());
    assert_eq!(bytes, theirs);
    assert_eq!(ChangesTrieConfiguration::decode(&bytes), Ok((config, 8)));
    assert_eq!(ChangesTrieConfiguration::decode(&bytes[..7]), Err(DecodeError::Truncated));
    assert_eq!(ChangesTrieConfiguration::decode(&bytes[..3]), Err(DecodeError::Truncated));
}

#[test]
fn default_configuration_makes_no_digests() {
    assert_eq!(
        ChangesTrieConfiguration::default(),
        ChangesTrieConfiguration { digest_interval: 0, digest_levels: 0 }
    );
}

#[test]
fn signal_appends_to_what_is_there() {
    let mut dest = vec![0x55];
    ChangesTrieSignal::NewConfiguration(None).encode_to(&mut dest);
    ChangesTrieSignal::NewConfiguration(Some(ChangesTrieConfiguration::default()))
        .encode_to(&mut dest);
    assert_eq!(dest, vec![0x55, 0x00, 0x01, 0, 0, 0, 0, 0, 0, 0, 0]);
}

#[test]
fn empty_digest_is_one_zero_byte() {
    let digest = Digest { logs: vec![] };
    assert_eq!(digest.encode(), vec![0x00]);
    assert_eq!(Digest::decode(&[0x00]), Ok((digest, 1)));
}

#[test]
fn digest_keeps_the_order_of_its_items() {
    let digest = Digest { logs: one_of_each() };
    let bytes = digest.encode();
    let mut expected = vec![0x20];
    for item in one_of_each() {
        expected.extend_from_slice(&item.encode());
    }
    assert_eq!(bytes, expected);
    assert_eq!(Digest::decode(&bytes), Ok((digest, bytes.len())));
}

#[test]
fn digest_with_a_count_beyond_the_stream_is_an_invalid_length() {
    assert_eq!(Digest::decode(&[0x0c]), Err(DecodeError::InvalidLength));
    assert_eq!(Digest::decode(&[0x08, 0x00]), Err(DecodeError::InvalidLength));
    assert_eq!(
        Digest::decode(&[0x03, 0xff, 0xff, 0xff, 0xff, 0x00, 0x00]),
        Err(DecodeError::InvalidLength)
    );
}

#[test]
fn digest_that_ends_inside_an_item_is_truncated() {
    assert_eq!(Digest::decode(&[]), Err(DecodeError::Truncated));
    assert_eq!(Digest::decode(&[0x04, 0x18, b'A']), Err(DecodeError::Truncated));
    assert_eq!(Digest::decode(&[0x08, 0x00, 0x00, 0x08]), Err(DecodeError::Truncated));
}

#[test]
fn encoding_twice_gives_the_same_bytes() {
    for item in one_of_each() {
        assert_eq!(item.encode(), item.clone().encode());
        assert_eq!(item.encode(), item.encode());
    }
    let digest = Digest { logs: one_of_each() };
    assert_eq!(digest.encode(), digest.clone().encode());
}
