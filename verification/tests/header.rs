use block_primitives::{
    Block, BlockHash, DecodeError, Digest, DigestItem, Extrinsic, Header,
};

fn zero_header() -> Header {
    Header {
        parent_hash: [0; 32],
        number: 0,
        state_root: [0; 32],
        extrinsics_root: [0; 32],
        digest: Digest { logs: vec![] },
    }
}

fn sample_header() -> Header {
    Header {
        parent_hash: [1; 32],
        number: 1,
        state_root: [2; 32],
        extrinsics_root: [3; 32],
        digest: Digest {
            logs: vec![DigestItem::PreRuntime([b'A', b'U', b'R', b'A'], vec![0x01, 0x02])],
        },
    }
}

#[test]
fn zero_header_is_ninety_eight_zero_bytes() {
    assert_eq!(zero_header().encode(), vec![0u8; 98]);
}

#[test]
fn zero_header_hashes_to_the_golden_vector() {
    let golden: [u8; 32] = [
        0xdc, 0xdd, 0x89, 0x92, 0x7d, 0x8a, 0x34, 0x8e, 0x00, 0x25, 0x7e, 0x1e, 0xcc, 0x86, 0x17,
        0xf4, 0x5e, 0xdb, 0x51, 0x18, 0xef, 0xff, 0x3e, 0xa2, 0xf9, 0x96, 0x1b, 0x2a, 0xd9, 0xb7,
        0x69, 0x0a,
    ];
    assert_eq!(zero_header().block_hash(), BlockHash(golden));
    assert_eq!(zero_header().block_hash(), zero_header().block_hash());
}

#[test]
fn sample_header_has_its_exact_bytes() {
    let mut expected = vec![1u8; 32];
    expected.push(0x04);
    expected.extend_from_slice(&[2; 32]);
    expected.extend_from_slice(&[3; 32]);
    expected.extend_from_slice(&[0x04, 0x18, b'A', b'U', b'R', b'A', 0x08, 0x01, 0x02]);
    assert_eq!(sample_header().encode(), expected);
}

#[test]
fn sample_header_hashes_to_its_vector() {
    let expected: [u8; 32] = [
        186, 147, 201, 95, 102, 141, 33, 170, 130, 75, 78, 37, 2, 97, 95, 12, 204, 68, 16, 245, 94,
        39, 13, 195, 0, 58, 175, 63, 139, 197, 130, 84,
    ];
    assert_eq!(sample_header().block_hash(), BlockHash(expected));
}

#[test]
fn hash_is_not_the_encoding() {
    let header = zero_header();
    let hash = header.block_hash();
    assert_ne!(hash.0.to_vec(), header.encode());
    assert_ne!(hash.0, [0u8; 32]);
}

#[test]
fn header_round_trips() {
    for header in [zero_header(), sample_header()] {
        let bytes = header.encode();
        assert_eq!(Header::decode(&bytes), Ok((header, bytes.len())));
    }
}

#[test]
fn header_number_is_written_compact() {
    let mut header = zero_header();
    header.number = 64;
    let bytes = header.encode();
    assert_eq!(bytes.len(), 99);
    assert_eq!(&bytes[32..34], &[0x01, 0x01]);
    header.number = u32::MAX;
    let bytes = header.encode();
    assert_eq!(bytes.len(), 102);
    assert_eq!(&bytes[32..37], &[0x03, 0xff, 0xff, 0xff, 0xff]);
    assert_eq!(Header::decode(&bytes), Ok((header, 102)));
}

#[test]
fn header_fields_come_in_their_order() {
    let header = Header {
        parent_hash: [0xaa; 32],
        number: 5,
        state_root: [0xbb; 32],
        extrinsics_root: [0xcc; 32],
        digest: Digest { logs: vec![DigestItem::Other(vec![0xdd])] },
    };
    let bytes = header.encode();
    assert_eq!(&bytes[..32], &[0xaa; 32]);
    assert_eq!(bytes[32], 0x14);
    assert_eq!(&bytes[33..65], &[0xbb; 32]);
    assert_eq!(&bytes[65..97], &[0xcc; 32]);
    assert_eq!(&bytes[97..], &[0x04, 0x00, 0x04, 0xdd]);
}

#[test]
fn header_encode_to_appends() {
    let mut dest = vec![0x11, 0x22];
    zero_header().encode_to(&mut dest);
    assert_eq!(dest.len(), 100);
    assert_eq!(&dest[..2], &[0x11, 0x22]);
    assert_eq!(Header::decode_at(&dest, 2), Ok((zero_header(), 100)));
}

#[test]
fn header_decode_leaves_what_follows() {
    let mut bytes = sample_header().encode();
    let used = bytes.len();
    bytes.extend_from_slice(&[0xff, 0xff]);
    assert_eq!(Header::decode(&bytes), Ok((sample_header(), used)));
}

#[test]
fn header_that_ends_early_is_truncated() {
    assert_eq!(Header::decode(&[]), Err(DecodeError::Truncated));
    assert_eq!(Header::decode(&[0u8; 31]), Err(DecodeError::Truncated));
    assert_eq!(Header::decode(&[0u8; 32]), Err(DecodeError::Truncated));
    assert_eq!(Header::decode(&[0u8; 64]), Err(DecodeError::Truncated));
    assert_eq!(Header::decode(&[0u8; 97]), Err(DecodeError::Truncated));
    assert_eq!(Header::decode_at(&[0u8; 98], 1), Err(DecodeError::Truncated));
    assert_eq!(Header::decode_at(&[0u8; 98], 200), Err(DecodeError::Truncated));
    let bytes = sample_header().encode();
    for cut in 0..bytes.len() {
        assert!(Header::decode(&bytes[..cut]).is_err());
    }
}

#[test]
fn header_number_beyond_32_bits_is_malformed() {
    let mut bytes = vec![0u8; 32];
    bytes.extend_from_slice(&[0x07, 0x00, 0x00, 0x00, 0x00, 0x01]);
    bytes.extend_from_slice(&[0u8; 65]);
    assert_eq!(Header::decode(&bytes), Err(DecodeError::Malformed));
}

#[test]
fn header_with_a_longer_spelling_of_its_number_is_malformed() {
    let mut bytes = vec![0u8; 32];
    bytes.extend_from_slice(&[0x01, 0x00]);
    bytes.extend_from_slice(&[0u8; 65]);
    assert_eq!(Header::decode(&bytes), Err(DecodeError::Malformed));
}

#[test]
fn header_with_an_unknown_item_is_an_invalid_discriminant() {
    let mut bytes = vec![0u8; 97];
    bytes.extend_from_slice(&[0x04, 0x0c, 0x00]);
    assert_eq!(Header::decode(&bytes), Err(DecodeError::InvalidDiscriminant));
}

#[test]
fn header_with_a_digest_count_beyond_the_stream_is_an_invalid_length() {
    let mut bytes = vec![0u8; 97];
    bytes.push(0x08);
    assert_eq!(Header::decode(&bytes), Err(DecodeError::InvalidLength));
}

#[test]
fn changing_any_field_changes_the_hash() {
    let base = sample_header();
    let hash = base.block_hash();
    assert_eq!(base.clone().block_hash(), hash);

    let mut changed = base.clone();
    changed.parent_hash[31] ^= 1;
    assert_ne!(changed.block_hash(), hash);

    let mut changed = base.clone();
    changed.number += 1;
    assert_ne!(changed.block_hash(), hash);

    let mut changed = base.clone();
    changed.state_root[0] ^= 0x80;
    assert_ne!(changed.block_hash(), hash);

    let mut changed = base.clone();
    changed.extrinsics_root[15] = 0;
    assert_ne!(changed.block_hash(), hash);

    let mut changed = base.clone();
    changed.digest.logs.push(DigestItem::Other(vec![]));
    assert_ne!(changed.block_hash(), hash);

    let mut changed = base.clone();
    changed.digest.logs[0] = DigestItem::Consensus([b'A', b'U', b'R', b'A'], vec![0x01, 0x02]);
    assert_ne!(changed.block_hash(), hash);
}

#[test]
fn changing_any_field_changes_the_bytes() {
    let base = sample_header();
    let bytes = base.encode();
    let mut changed = base.clone();
    changed.number = 2;
    assert_ne!(changed.encode(), bytes);
    let mut changed = base.clone();
    changed.digest.logs.clear();
    assert_ne!(changed.encode(), bytes);
    let mut changed = base.clone();
    changed.state_root = base.extrinsics_root;
    changed.extrinsics_root = base.state_root;
    assert_ne!(changed.encode(), bytes);
}

#[test]
fn block_has_the_hash_of_its_header() {
    let block = Block {
        header: sample_header(),
        extrinsics: vec![Extrinsic(vec![1, 2, 3]), Extrinsic(vec![])],
    };
    assert_eq!(block.block_hash(), sample_header().block_hash());
    let bare = Block { header: sample_header(), extrinsics: vec![] };
    assert_eq!(bare.block_hash(), block.block_hash());
}
