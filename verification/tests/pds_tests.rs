use std::cell::{Cell, RefCell};

use otp_pds::pds::{crc32_cksum, DEFAULT_MAX_DESCRIPTORS, PDS_MAGIC};
use otp_pds::{find_descriptor, for_each_descriptor, validate_header, PdsError, Uuid};

const HEADER_SIZE: usize = 148;
const DESC_HEADER_SIZE: usize = 32;

/// Recompute and store the header CRC over bytes [12, header_size).
fn sign_header(buf: &mut [u8]) {
    let header_size = u32::from_le_bytes(buf[4..8].try_into().unwrap()) as usize;
    let crc = crc32_cksum(&buf[12..header_size]);
    buf[8..12].copy_from_slice(&crc.to_le_bytes());
}

fn build_pds(descriptors: &[(Uuid, &[u8])]) -> Vec<u8> {
    let mut buf = vec![0u8; HEADER_SIZE];

    let first_offset = if descriptors.is_empty() {
        0u32
    } else {
        HEADER_SIZE as u32
    };

    // Write descriptors
    for (i, (uuid, payload)) in descriptors.iter().enumerate() {
        let current_offset = buf.len();
        let payload_offset = (current_offset + DESC_HEADER_SIZE) as u32;

        let next_offset = if i + 1 < descriptors.len() {
            (current_offset + DESC_HEADER_SIZE + payload.len()) as u32
        } else {
            0
        };

        buf.extend_from_slice(&(DESC_HEADER_SIZE as u32).to_le_bytes());
        buf.extend_from_slice(&payload_offset.to_le_bytes());
        buf.extend_from_slice(&(payload.len() as u32).to_le_bytes());
        buf.extend_from_slice(&next_offset.to_le_bytes());
        buf.extend_from_slice(uuid);
        buf.extend_from_slice(payload);
    }

    // Write header
    buf[0..4].copy_from_slice(&PDS_MAGIC.to_le_bytes());
    buf[4..8].copy_from_slice(&(HEADER_SIZE as u32).to_le_bytes());
    buf[12..16].copy_from_slice(&1u32.to_le_bytes());
    buf[16..20].copy_from_slice(&first_offset.to_le_bytes());
    sign_header(&mut buf);

    buf
}

#[test]
fn test_empty_pds() {
    let pds = build_pds(&[]);
    let header = validate_header(&pds).unwrap();
    assert_eq!(header.first_descriptor_offset, 0);

    let count = Cell::new(0);
    for_each_descriptor(&pds, &header, DEFAULT_MAX_DESCRIPTORS, |_| {
        count.set(count.get() + 1);
        true
    })
    .unwrap();
    assert_eq!(count.get(), 0);
}

#[test]
fn test_single_descriptor() {
    let uuid: Uuid = [
        0x53, 0x19, 0xD6, 0xF1, 0x57, 0xB3, 0x4D, 0x1A, 0x96, 0xC6, 0xE0, 0xED, 0xAF, 0x90, 0x7A,
        0x12,
    ];
    let payload = b"hello world";
    let pds = build_pds(&[(uuid, payload)]);

    let header = validate_header(&pds).unwrap();
    let found = find_descriptor(&pds, &header, &uuid).unwrap();
    assert_eq!(found, Some(payload.as_slice()));
}

#[test]
fn test_multiple_descriptors() {
    let uuid1: Uuid = [1; 16];
    let uuid2: Uuid = [2; 16];
    let uuid3: Uuid = [3; 16];

    let pds = build_pds(&[(uuid1, b"first"), (uuid2, b"second"), (uuid3, b"third")]);

    let header = validate_header(&pds).unwrap();

    assert_eq!(
        find_descriptor(&pds, &header, &uuid1).unwrap(),
        Some(b"first".as_slice())
    );
    assert_eq!(
        find_descriptor(&pds, &header, &uuid2).unwrap(),
        Some(b"second".as_slice())
    );
    assert_eq!(
        find_descriptor(&pds, &header, &uuid3).unwrap(),
        Some(b"third".as_slice())
    );
}

#[test]
fn test_unknown_uuid_returns_none() {
    let uuid: Uuid = [1; 16];
    let unknown: Uuid = [99; 16];

    let pds = build_pds(&[(uuid, b"data")]);
    let header = validate_header(&pds).unwrap();

    assert_eq!(find_descriptor(&pds, &header, &unknown).unwrap(), None);
}

#[test]
fn test_invalid_magic() {
    let mut pds = build_pds(&[]);
    pds[0] = 0xFF; // corrupt magic
    assert!(matches!(
        validate_header(&pds),
        Err(PdsError::InvalidMagic { .. })
    ));
}

#[test]
fn test_invalid_crc() {
    let mut pds = build_pds(&[]);
    // Corrupt version string area to invalidate CRC
    pds[20] = 0xFF;
    assert!(matches!(
        validate_header(&pds),
        Err(PdsError::InvalidCrc { .. })
    ));
}

#[test]
fn test_buffer_too_small() {
    assert!(matches!(
        validate_header(&[0u8; 4]),
        Err(PdsError::BufferTooSmall)
    ));
}

#[test]
fn test_descriptor_count() {
    let uuid: Uuid = [1; 16];
    let pds = build_pds(&[(uuid, b"a"), (uuid, b"b"), (uuid, b"c")]);
    let header = validate_header(&pds).unwrap();

    let count = Cell::new(0);
    for_each_descriptor(&pds, &header, DEFAULT_MAX_DESCRIPTORS, |_| {
        count.set(count.get() + 1);
        true
    })
    .unwrap();
    assert_eq!(count.get(), 3);
}

#[test]
fn test_crc32_cksum_known_vectors() {
    assert_eq!(crc32_cksum(&[]), 0);
    assert_eq!(crc32_cksum(&[0x01]), 0x04c11db7);
    assert_eq!(crc32_cksum(b"123456789"), 0x89a1897f);
}

#[test]
fn test_invalid_version() {
    let mut pds = build_pds(&[]);
    // version sits at bytes 12..16, inside the CRC region: re-sign after
    // lowering it so that only the version check can fail.
    pds[12..16].copy_from_slice(&0u32.to_le_bytes());
    sign_header(&mut pds);
    assert_eq!(
        validate_header(&pds).unwrap_err(),
        PdsError::InvalidVersion {
            found: 0,
            expected: 1
        }
    );
}

#[test]
fn test_invalid_header_size() {
    let mut pds = build_pds(&[]);
    pds[4..8].copy_from_slice(&100u32.to_le_bytes());
    assert_eq!(
        validate_header(&pds).unwrap_err(),
        PdsError::InvalidHeaderSize {
            found: 100,
            expected: HEADER_SIZE as u32
        }
    );
}

#[test]
fn test_header_size_beyond_buffer() {
    let mut pds = build_pds(&[]);
    let too_big = (pds.len() + 4) as u32;
    pds[4..8].copy_from_slice(&too_big.to_le_bytes());
    assert_eq!(validate_header(&pds).unwrap_err(), PdsError::BufferTooSmall);
}

#[test]
fn test_descriptor_out_of_bounds() {
    let mut pds = build_pds(&[]);
    // Point the chain just past where a full descriptor header fits.
    let bad_offset = (pds.len() - 4) as u32;
    pds[16..20].copy_from_slice(&bad_offset.to_le_bytes());
    sign_header(&mut pds);
    let header = validate_header(&pds).unwrap();
    let r = for_each_descriptor(&pds, &header, DEFAULT_MAX_DESCRIPTORS, |_| true);
    assert_eq!(
        r.unwrap_err(),
        PdsError::DescriptorOutOfBounds { offset: bad_offset }
    );
}

#[test]
fn test_invalid_descriptor_header_size() {
    let uuid: Uuid = [7; 16];
    let mut pds = build_pds(&[(uuid, b"payload")]);
    // Shrink the descriptor's own header-size field (not CRC-covered).
    pds[HEADER_SIZE..HEADER_SIZE + 4].copy_from_slice(&16u32.to_le_bytes());
    let header = validate_header(&pds).unwrap();
    let r = for_each_descriptor(&pds, &header, DEFAULT_MAX_DESCRIPTORS, |_| true);
    assert_eq!(
        r.unwrap_err(),
        PdsError::InvalidDescriptorHeaderSize {
            found: 16,
            expected: DESC_HEADER_SIZE as u32
        }
    );
    // The lookup walk does not inspect descriptor header sizes.
    let unknown: Uuid = [9; 16];
    assert_eq!(find_descriptor(&pds, &header, &unknown).unwrap(), None);
}

#[test]
fn test_payload_out_of_bounds() {
    let uuid: Uuid = [5; 16];
    let mut pds = build_pds(&[(uuid, b"abc")]);
    // Inflate the payload size field at offset HEADER_SIZE + 8.
    pds[HEADER_SIZE + 8..HEADER_SIZE + 12].copy_from_slice(&0x1000u32.to_le_bytes());
    let header = validate_header(&pds).unwrap();
    let r = for_each_descriptor(&pds, &header, DEFAULT_MAX_DESCRIPTORS, |_| true);
    assert!(matches!(r, Err(PdsError::PayloadOutOfBounds { size: 0x1000, .. })));
    let f = find_descriptor(&pds, &header, &uuid);
    assert!(matches!(f, Err(PdsError::PayloadOutOfBounds { size: 0x1000, .. })));
}

#[test]
fn test_descriptor_loop_backward() {
    let uuid: Uuid = [1; 16];
    let mut pds = build_pds(&[(uuid, b"one"), (uuid, b"two")]);
    // The second descriptor points back at the first, whose data is
    // otherwise perfectly well formed.
    let first = HEADER_SIZE as u32;
    let second = HEADER_SIZE + DESC_HEADER_SIZE + b"one".len();
    pds[second + 12..second + 16].copy_from_slice(&first.to_le_bytes());
    let header = validate_header(&pds).unwrap();
    let r = for_each_descriptor(&pds, &header, DEFAULT_MAX_DESCRIPTORS, |_| true);
    assert_eq!(r.unwrap_err(), PdsError::DescriptorLoop { offset: first });
    let unknown: Uuid = [9; 16];
    let f = find_descriptor(&pds, &header, &unknown);
    assert_eq!(f.unwrap_err(), PdsError::DescriptorLoop { offset: first });
}

#[test]
fn test_descriptor_loop_same_offset() {
    let uuid: Uuid = [1; 16];
    let mut pds = build_pds(&[(uuid, b"one")]);
    // The single descriptor points at itself.
    let first = HEADER_SIZE as u32;
    let off = HEADER_SIZE;
    pds[off + 12..off + 16].copy_from_slice(&first.to_le_bytes());
    let header = validate_header(&pds).unwrap();
    let r = for_each_descriptor(&pds, &header, DEFAULT_MAX_DESCRIPTORS, |_| true);
    assert_eq!(r.unwrap_err(), PdsError::DescriptorLoop { offset: first });
}

#[test]
fn test_max_descriptors_exceeded() {
    let uuid: Uuid = [4; 16];
    // Three perfectly well-formed descriptors, but a cap of two.
    let pds = build_pds(&[(uuid, b"a"), (uuid, b"b"), (uuid, b"c")]);
    let header = validate_header(&pds).unwrap();
    let r = for_each_descriptor(&pds, &header, 2, |_| true);
    assert_eq!(r.unwrap_err(), PdsError::MaxDescriptorsExceeded);
}

#[test]
fn test_find_hits_default_cap() {
    let uuid: Uuid = [8; 16];
    let descriptors: Vec<(Uuid, &[u8])> = (0..DEFAULT_MAX_DESCRIPTORS + 1)
        .map(|_| (uuid, b"x".as_slice()))
        .collect();
    let pds = build_pds(&descriptors);
    let header = validate_header(&pds).unwrap();
    let unknown: Uuid = [9; 16];
    let f = find_descriptor(&pds, &header, &unknown);
    assert_eq!(f.unwrap_err(), PdsError::MaxDescriptorsExceeded);
}

#[test]
fn test_enumeration_order_and_payloads() {
    let uuid1: Uuid = [1; 16];
    let uuid2: Uuid = [2; 16];
    let uuid3: Uuid = [3; 16];
    let pds = build_pds(&[(uuid1, b"first"), (uuid2, b"second"), (uuid3, b"third")]);
    let header = validate_header(&pds).unwrap();
    let seen: RefCell<Vec<(Uuid, Vec<u8>)>> = RefCell::new(Vec::new());
    for_each_descriptor(&pds, &header, DEFAULT_MAX_DESCRIPTORS, |d| {
        seen.borrow_mut().push((d.descriptor_type, d.payload.to_vec()));
        true
    })
    .unwrap();
    let seen = seen.into_inner();
    assert_eq!(
        seen,
        vec![
            (uuid1, b"first".to_vec()),
            (uuid2, b"second".to_vec()),
            (uuid3, b"third".to_vec()),
        ]
    );
}

#[test]
fn test_callback_stops_early() {
    let uuid: Uuid = [6; 16];
    let pds = build_pds(&[(uuid, b"a"), (uuid, b"b"), (uuid, b"c")]);
    let header = validate_header(&pds).unwrap();
    let count = Cell::new(0);
    let r = for_each_descriptor(&pds, &header, DEFAULT_MAX_DESCRIPTORS, |_| {
        count.set(count.get() + 1);
        false
    });
    assert!(r.is_ok());
    assert_eq!(count.get(), 1);
}
