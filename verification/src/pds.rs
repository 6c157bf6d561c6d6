//! Platform Descriptor Store (PDS) parser.
//!
//! The PDS binary format stores platform-level metadata as a fixed header
//! followed by a singly linked chain of UUID-typed descriptors with
//! variable-size payloads, all inside one flat caller-owned buffer.  The
//! parser validates the header (magic, version, size, CRC) and walks the
//! chain defensively: every offset is bounds-checked with overflow-safe
//! arithmetic, the chain must move strictly forward, and traversal is
//! capped, so corrupted or adversarial buffers always produce an error
//! value rather than an abort.

use vstd::prelude::*;

verus! {

use vstd::bytes::{spec_u32_from_le_bytes, u32_from_le_bytes};
use vstd::slice::slice_subrange;

/// PDS header magic number: "PDS1" in little-endian ASCII.
pub const PDS_MAGIC: u32 = 0x50445331;

/// Current PDS header version.
pub const PDS_HEADER_VERSION: u32 = 1;

/// CRC-32/CKSUM polynomial used for header CRC validation.
pub const CRC_POLY: u32 = 0x04C11DB7;

/// Byte offset where CRC computation begins (after magic, header_size,
/// header_crc).
pub const CRC_START_OFFSET: usize = 12;

/// Default maximum number of descriptors to traverse before aborting.
pub const DEFAULT_MAX_DESCRIPTORS: usize = 32;

/// Wire width of the version-1 header: five 32-bit fields followed by the
/// 128-byte version string.
pub const PDS_HEADER_V1_SIZE: usize = 148;

/// Wire width of a version-1 descriptor header: four 32-bit fields
/// followed by the 16-byte type UUID.
pub const PDS_DESCRIPTOR_HEADER_V1_SIZE: usize = 32;

/// UUID type: 16-byte array per RFC 4122.
pub type Uuid = [u8; 16];

/// Errors returned by PDS parsing operations.
#[derive(Debug, Clone, Copy, PartialEq, Eq)]
pub enum PdsError {
    /// Input buffer is too small to contain the expected structure.
    BufferTooSmall,
    /// Magic number does not match `PDS_MAGIC`.
    InvalidMagic { found: u32, expected: u32 },
    /// Header version is below the minimum supported version.
    InvalidVersion { found: u32, expected: u32 },
    /// Header size field is smaller than the minimum header structure size.
    InvalidHeaderSize { found: u32, expected: u32 },
    /// CRC-32 checksum does not match the computed value.
    InvalidCrc { found: u32, computed: u32 },
    /// Descriptor offset points outside the PDS buffer.
    DescriptorOutOfBounds { offset: u32 },
    /// Descriptor payload range extends beyond the PDS buffer.
    PayloadOutOfBounds { offset: u32, size: u32 },
    /// Descriptor chain contains a loop (offset does not move forward).
    DescriptorLoop { offset: u32 },
    /// Descriptor header_size is smaller than the minimum descriptor
    /// header size.
    InvalidDescriptorHeaderSize { found: u32, expected: u32 },
    /// Maximum descriptor traversal count exceeded.
    MaxDescriptorsExceeded,
}

/// PDS header (version 1).  All fields are little-endian on the wire.
#[derive(Debug, Clone, Copy)]
pub struct PdsHeaderV1 {
    /// Must be `PDS_MAGIC`.
    pub magic: u32,
    /// Size of this header structure in bytes.
    pub header_size: u32,
    /// CRC-32 computed over bytes from offset 12 to `header_size`.
    pub header_crc: u32,
    /// Header format version (currently 1).
    pub version: u32,
    /// Byte offset from PDS start to the first descriptor, or 0 if none.
    pub first_descriptor_offset: u32,
    /// Null-terminated UTF-8 version string, advisory only.
    pub pds_version_string: [u8; 128],
}

/// PDS descriptor header (version 1).  All fields are little-endian on
/// the wire.
#[derive(Debug, Clone, Copy)]
pub struct PdsDescriptorHeaderV1 {
    /// Size of this descriptor header in bytes.
    pub header_size: u32,
    /// Byte offset from PDS start to the payload data.
    pub payload_offset: u32,
    /// Size of the payload in bytes.
    pub payload_size: u32,
    /// Byte offset from PDS start to the next descriptor, or 0 if last.
    pub next_descriptor_offset: u32,
    /// UUID identifying the descriptor type.
    pub descriptor_type: Uuid,
}

/// A parsed descriptor reference pointing into the original PDS buffer.
#[derive(Debug, Clone, Copy)]
pub struct PdsDescriptor<'a> {
    /// UUID identifying the descriptor type.
    pub descriptor_type: Uuid,
    /// Payload data slice (references the original PDS buffer).
    pub payload: &'a [u8],
}

// ------------------------------------------------------------------
// CRC-32/CKSUM
// ------------------------------------------------------------------

/// One shift-XOR round: shift left and fold in the polynomial if the top
/// bit was set.
pub open spec fn spec_crc32_round(crc: u32) -> u32 {
    if crc & 0x8000_0000 != 0 {
        (crc << 1) ^ CRC_POLY
    } else {
        crc << 1
    }
}

/// `n` consecutive shift-XOR rounds.
pub open spec fn spec_crc32_rounds(crc: u32, n: nat) -> u32
    decreases n,
{
    if n == 0 {
        crc
    } else {
        spec_crc32_rounds(spec_crc32_round(crc), (n - 1) as nat)
    }
}

/// One input byte folded into the CRC: XOR it into the most-significant
/// byte, then run eight shift-XOR rounds.
pub open spec fn spec_crc32_step(crc: u32, byte: u8) -> u32 {
    spec_crc32_rounds(crc ^ ((byte as u32) << 24), 8)
}

/// CRC-32/CKSUM over a byte sequence: non-reflected, polynomial
/// `CRC_POLY`, initial value 0, no final XOR.
pub open spec fn spec_crc32_cksum(data: Seq<u8>) -> u32
    decreases data.len(),
{
    if data.len() == 0 {
        0u32
    } else {
        spec_crc32_step(spec_crc32_cksum(data.drop_last()), data.last())
    }
}

/// Compute CRC-32/CKSUM over the given data.
pub fn crc32_cksum(data: &[u8]) -> (r: u32)
    ensures
        r == spec_crc32_cksum(data@),
{
    let n = data.len();
    let mut crc: u32 = 0;
    let mut i: usize = 0;
    proof {
        assert(data@.subrange(0, 0) =~= Seq::<u8>::empty());
    }
    while i < n
        invariant
            i <= n,
            n == data@.len(),
            crc == spec_crc32_cksum(data@.subrange(0, i as int)),
        decreases n - i,
    {
        let byte = data[i];
        crc = crc ^ ((byte as u32) << 24);
        let ghost entry = crc;
        let mut j: usize = 0;
        while j < 8
            invariant
                j <= 8,
                spec_crc32_rounds(entry, 8) == spec_crc32_rounds(crc, (8 - j) as nat),
            decreases 8 - j,
        {
            if crc & 0x8000_0000 != 0 {
                crc = (crc << 1) ^ CRC_POLY;
            } else {
                crc = crc << 1;
            }
            j = j + 1;
        }
        proof {
            assert(data@.subrange(0, i + 1).drop_last() =~= data@.subrange(0, i as int));
            assert(data@.subrange(0, i + 1).last() == data@[i as int]);
        }
        i = i + 1;
    }
    proof {
        assert(data@.subrange(0, n as int) =~= data@);
    }
    crc
}

// ------------------------------------------------------------------
// Header validation
// ------------------------------------------------------------------

/// The little-endian 32-bit word at byte offset `off`.
pub open spec fn spec_u32_at(data: Seq<u8>, off: int) -> u32
    recommends
        0 <= off,
        off + 4 <= data.len(),
{
    spec_u32_from_le_bytes(data.subrange(off, off + 4))
}

/// The validation decision for a PDS buffer: which error a buffer is
/// rejected with, or that it is accepted.  The checks run in a fixed
/// order and the first failure wins.
pub open spec fn spec_validate_header(data: Seq<u8>) -> Result<(), PdsError> {
    if data.len() < PDS_HEADER_V1_SIZE {
        Err(PdsError::BufferTooSmall)
    } else {
        let magic = spec_u32_at(data, 0);
        let header_size = spec_u32_at(data, 4);
        let header_crc = spec_u32_at(data, 8);
        let version = spec_u32_at(data, 12);
        if magic != PDS_MAGIC {
            Err(PdsError::InvalidMagic { found: magic, expected: PDS_MAGIC })
        } else if version < PDS_HEADER_VERSION {
            Err(PdsError::InvalidVersion { found: version, expected: PDS_HEADER_VERSION })
        } else if header_size < PDS_HEADER_V1_SIZE as u32 {
            Err(
                PdsError::InvalidHeaderSize {
                    found: header_size,
                    expected: PDS_HEADER_V1_SIZE as u32,
                },
            )
        } else if header_size > data.len() {
            Err(PdsError::BufferTooSmall)
        } else {
            let computed = spec_crc32_cksum(
                data.subrange(CRC_START_OFFSET as int, header_size as int),
            );
            if computed != header_crc {
                Err(PdsError::InvalidCrc { found: header_crc, computed })
            } else {
                Ok(())
            }
        }
    }
}

fn read_u32_at(data: &[u8], off: usize) -> (r: u32)
    requires
        off + 4 <= data@.len(),
        data@.len() <= usize::MAX,
    ensures
        r == spec_u32_at(data@, off as int),
{
    u32_from_le_bytes(slice_subrange(data, off, off + 4))
}

/// Parse and validate a PDS header at the front of `data`.
///
/// The checks run in order, each short-circuiting on first failure:
/// buffer length, magic, version, header size against its minimum,
/// header size against the buffer, and finally the CRC over bytes
/// `[12, header_size)`.  On success the parsed header is returned by
/// value.
pub fn validate_header(data: &[u8]) -> (r: Result<PdsHeaderV1, PdsError>)
    ensures
        (match r {
            Ok(h) => {
                &&& spec_validate_header(data@) is Ok
                &&& h.magic == spec_u32_at(data@, 0)
                &&& h.header_size == spec_u32_at(data@, 4)
                &&& h.header_crc == spec_u32_at(data@, 8)
                &&& h.version == spec_u32_at(data@, 12)
                &&& h.first_descriptor_offset == spec_u32_at(data@, 16)
                &&& h.pds_version_string@ == data@.subrange(20, PDS_HEADER_V1_SIZE as int)
            },
            Err(e) => spec_validate_header(data@) == Err::<(), PdsError>(e),
        }),
{
    if data.len() < PDS_HEADER_V1_SIZE {
        return Err(PdsError::BufferTooSmall);
    }
    let magic = read_u32_at(data, 0);
    let header_size = read_u32_at(data, 4);
    let header_crc = read_u32_at(data, 8);
    let version = read_u32_at(data, 12);
    let first_descriptor_offset = read_u32_at(data, 16);

    if magic != PDS_MAGIC {
        return Err(PdsError::InvalidMagic { found: magic, expected: PDS_MAGIC });
    }
    if version < PDS_HEADER_VERSION {
        return Err(PdsError::InvalidVersion { found: version, expected: PDS_HEADER_VERSION });
    }
    if header_size < PDS_HEADER_V1_SIZE as u32 {
        return Err(
            PdsError::InvalidHeaderSize { found: header_size, expected: PDS_HEADER_V1_SIZE as u32 },
        );
    }
    if header_size as usize > data.len() {
        return Err(PdsError::BufferTooSmall);
    }
    let crc_data = slice_subrange(data, CRC_START_OFFSET, header_size as usize);
    let computed_crc = crc32_cksum(crc_data);
    if computed_crc != header_crc {
        return Err(PdsError::InvalidCrc { found: header_crc, computed: computed_crc });
    }

    let mut pds_version_string: [u8; 128] = [0u8; 128];
    let mut t: usize = 0;
    while t < 128
        invariant
            t <= 128,
            data@.len() >= PDS_HEADER_V1_SIZE,
            pds_version_string@.len() == 128,
            forall|j: int| 0 <= j < t ==> pds_version_string@[j] == data@[20 + j],
        decreases 128 - t,
    {
        pds_version_string[t] = data[20 + t];
        t = t + 1;
    }
    proof {
        assert(pds_version_string@ =~= data@.subrange(20, PDS_HEADER_V1_SIZE as int));
    }
    Ok(
        PdsHeaderV1 {
            magic,
            header_size,
            header_crc,
            version,
            first_descriptor_offset,
            pds_version_string,
        },
    )
}

// ------------------------------------------------------------------
// Descriptor chain traversal
// ------------------------------------------------------------------

/// A descriptor as read at a chain offset, in mathematical form.
pub ghost struct SpecDescriptor {
    /// Offset of the descriptor header within the buffer.
    pub offset: u32,
    /// The descriptor's own header-size field.
    pub header_size: u32,
    /// Absolute byte offset of the payload.
    pub payload_offset: u32,
    /// Payload size in bytes.
    pub payload_size: u32,
    /// Offset of the next descriptor, or 0 at the end of the chain.
    pub next_descriptor_offset: u32,
    /// The 16 bytes of the type UUID.
    pub descriptor_type: Seq<u8>,
    /// The payload bytes (empty if the payload range is out of bounds).
    pub payload: Seq<u8>,
}

/// The outcome of walking a descriptor chain: the descriptors yielded in
/// chain order, and the error that ended the walk, if any.
pub ghost struct SpecWalk {
    /// Descriptors successfully read before the walk ended.
    pub visited: Seq<SpecDescriptor>,
    /// `None` if the walk reached the end of the chain.
    pub error: Option<PdsError>,
}

/// The descriptor whose header starts at byte offset `off`.
pub open spec fn spec_descriptor_at(data: Seq<u8>, off: int) -> SpecDescriptor
    recommends
        0 <= off,
        off + PDS_DESCRIPTOR_HEADER_V1_SIZE <= data.len(),
{
    let payload_offset = spec_u32_at(data, off + 4);
    let payload_size = spec_u32_at(data, off + 8);
    SpecDescriptor {
        offset: off as u32,
        header_size: spec_u32_at(data, off),
        payload_offset,
        payload_size,
        next_descriptor_offset: spec_u32_at(data, off + 12),
        descriptor_type: data.subrange(off + 16, off + PDS_DESCRIPTOR_HEADER_V1_SIZE),
        payload: if payload_offset + payload_size <= data.len() {
            data.subrange(payload_offset as int, payload_offset + payload_size)
        } else {
            Seq::empty()
        },
    }
}

/// The full enumeration walk from `offset`, having already visited
/// `count` descriptors, the last one at `prev`: the checks of each step
/// in their exact order — traversal cap, forward-only guard, descriptor
/// header bounds, descriptor header size, payload bounds — and the
/// descriptors yielded until the chain ends or a check fails.
pub open spec fn spec_walk(data: Seq<u8>, offset: u32, prev: u32, count: nat, max: nat) -> SpecWalk
    decreases max - count,
{
    if offset == 0 {
        SpecWalk { visited: Seq::empty(), error: None }
    } else if count >= max {
        SpecWalk { visited: Seq::empty(), error: Some(PdsError::MaxDescriptorsExceeded) }
    } else if count > 0 && offset <= prev {
        SpecWalk { visited: Seq::empty(), error: Some(PdsError::DescriptorLoop { offset }) }
    } else if offset + PDS_DESCRIPTOR_HEADER_V1_SIZE > data.len() {
        SpecWalk { visited: Seq::empty(), error: Some(PdsError::DescriptorOutOfBounds { offset }) }
    } else {
        let d = spec_descriptor_at(data, offset as int);
        if d.header_size < PDS_DESCRIPTOR_HEADER_V1_SIZE as u32 {
            SpecWalk {
                visited: Seq::empty(),
                error: Some(
                    PdsError::InvalidDescriptorHeaderSize {
                        found: d.header_size,
                        expected: PDS_DESCRIPTOR_HEADER_V1_SIZE as u32,
                    },
                ),
            }
        } else if d.payload_offset + d.payload_size > data.len() {
            SpecWalk {
                visited: Seq::empty(),
                error: Some(
                    PdsError::PayloadOutOfBounds { offset: d.payload_offset, size: d.payload_size },
                ),
            }
        } else {
            let rest = spec_walk(data, d.next_descriptor_offset, offset, count + 1, max);
            SpecWalk { visited: seq![d] + rest.visited, error: rest.error }
        }
    }
}

/// The enumeration walk over a whole buffer, starting at the header's
/// first-descriptor offset.
pub open spec fn spec_walk_chain(data: Seq<u8>, header: PdsHeaderV1, max: nat) -> SpecWalk {
    spec_walk(data, header.first_descriptor_offset, 0, 0, max)
}

fn read_uuid_at(data: &[u8], off: usize) -> (u: Uuid)
    requires
        off + 16 <= data@.len(),
        data@.len() <= usize::MAX,
    ensures
        u@ == data@.subrange(off as int, off + 16),
{
    let mut u: Uuid = [0u8; 16];
    let mut t: usize = 0;
    while t < 16
        invariant
            t <= 16,
            off + 16 <= data@.len(),
            data@.len() <= usize::MAX,
            u@.len() == 16,
            forall|j: int| 0 <= j < t ==> u@[j] == data@[off + j],
        decreases 16 - t,
    {
        u[t] = data[off + t];
        t = t + 1;
    }
    proof {
        assert(u@ =~= data@.subrange(off as int, off + 16));
    }
    u
}

/// Read the descriptor header starting at byte offset `off`: the four
/// little-endian 32-bit fields followed by the 16-byte type UUID.
fn read_descriptor_header(data: &[u8], off: usize) -> (d: PdsDescriptorHeaderV1)
    requires
        off + PDS_DESCRIPTOR_HEADER_V1_SIZE <= data@.len(),
        data@.len() <= usize::MAX,
    ensures
        ({
            let m = spec_descriptor_at(data@, off as int);
            &&& d.header_size == m.header_size
            &&& d.payload_offset == m.payload_offset
            &&& d.payload_size == m.payload_size
            &&& d.next_descriptor_offset == m.next_descriptor_offset
            &&& d.descriptor_type@ == m.descriptor_type
        }),
{
    PdsDescriptorHeaderV1 {
        header_size: read_u32_at(data, off),
        payload_offset: read_u32_at(data, off + 4),
        payload_size: read_u32_at(data, off + 8),
        next_descriptor_offset: read_u32_at(data, off + 12),
        descriptor_type: read_uuid_at(data, off + 16),
    }
}

/// Iterate over all descriptors in a validated PDS buffer, in chain
/// order, invoking `callback` on each until it returns `false` or the
/// chain ends.
///
/// The walk yields exactly the descriptors of `spec_walk_chain`: if the
/// chain is well formed the result is `Ok`, whatever the callback
/// decides; an error is returned exactly when the walk reaches a
/// malformed step, and a callback that never stops makes the result
/// mirror the walk's outcome precisely.
pub fn for_each_descriptor<'a, F: Fn(PdsDescriptor<'a>) -> bool>(
    data: &'a [u8],
    header: &PdsHeaderV1,
    max_descriptors: usize,
    callback: F,
) -> (r: Result<(), PdsError>)
    requires
        forall|d: PdsDescriptor<'a>| #[trigger] call_requires(callback, (d,)),
    ensures
        spec_walk_chain(data@, *header, max_descriptors as nat).error is None ==> r is Ok,
        r matches Err(e) ==> spec_walk_chain(data@, *header, max_descriptors as nat).error == Some(
            e,
        ),
        (forall|d: PdsDescriptor<'a>, b: bool| #[trigger] call_ensures(callback, (d,), b) ==> b)
            ==> (match spec_walk_chain(data@, *header, max_descriptors as nat).error {
            Some(e) => r == Err::<(), PdsError>(e),
            None => r is Ok,
        }),
        r is Ok && spec_walk_chain(data@, *header, max_descriptors as nat).error is Some
            ==> exists|d: PdsDescriptor<'a>| call_ensures(callback, (d,), false),
{
    let ghost total = spec_walk_chain(data@, *header, max_descriptors as nat);
    let mut next_offset: u32 = header.first_descriptor_offset;
    let mut prev_offset: u32 = 0;
    let mut count: usize = 0;

    while next_offset != 0
        invariant
            count <= max_descriptors,
            total == spec_walk_chain(data@, *header, max_descriptors as nat),
            spec_walk(data@, next_offset, prev_offset, count as nat, max_descriptors as nat).error
                == total.error,
            forall|d: PdsDescriptor<'a>| #[trigger] call_requires(callback, (d,)),
        decreases max_descriptors - count,
    {
        if count >= max_descriptors {
            return Err(PdsError::MaxDescriptorsExceeded);
        }
        if count > 0 && next_offset <= prev_offset {
            return Err(PdsError::DescriptorLoop { offset: next_offset });
        }
        let offset = next_offset as usize;
        if offset > data.len() || data.len() - offset < PDS_DESCRIPTOR_HEADER_V1_SIZE {
            return Err(PdsError::DescriptorOutOfBounds { offset: next_offset });
        }

        let desc = read_descriptor_header(data, offset);

        if desc.header_size < PDS_DESCRIPTOR_HEADER_V1_SIZE as u32 {
            return Err(
                PdsError::InvalidDescriptorHeaderSize {
                    found: desc.header_size,
                    expected: PDS_DESCRIPTOR_HEADER_V1_SIZE as u32,
                },
            );
        }

        let payload_start = desc.payload_offset as usize;
        if payload_start > data.len() || data.len() - payload_start < desc.payload_size as usize {
            return Err(
                PdsError::PayloadOutOfBounds { offset: desc.payload_offset, size: desc.payload_size },
            );
        }
        let payload = slice_subrange(data, payload_start, payload_start + desc.payload_size as usize);

        let descriptor = PdsDescriptor { descriptor_type: desc.descriptor_type, payload };
        if !callback(descriptor) {
            return Ok(());
        }

        prev_offset = next_offset;
        next_offset = desc.next_descriptor_offset;
        count = count + 1;
    }

    Ok(())
}

/// The lookup walk: like the enumeration walk, but it stops at the first
/// descriptor whose type UUID matches, checks only that descriptor's
/// payload range, does not inspect descriptor header sizes, and always
/// uses the default traversal cap.
pub open spec fn spec_find(
    data: Seq<u8>,
    offset: u32,
    prev: u32,
    count: nat,
    uuid: Seq<u8>,
) -> Result<Option<Seq<u8>>, PdsError>
    decreases DEFAULT_MAX_DESCRIPTORS - count,
{
    if offset == 0 {
        Ok(None)
    } else if count >= DEFAULT_MAX_DESCRIPTORS {
        Err(PdsError::MaxDescriptorsExceeded)
    } else if count > 0 && offset <= prev {
        Err(PdsError::DescriptorLoop { offset })
    } else if offset + PDS_DESCRIPTOR_HEADER_V1_SIZE > data.len() {
        Err(PdsError::DescriptorOutOfBounds { offset })
    } else {
        let d = spec_descriptor_at(data, offset as int);
        if d.descriptor_type == uuid {
            if d.payload_offset + d.payload_size > data.len() {
                Err(PdsError::PayloadOutOfBounds { offset: d.payload_offset, size: d.payload_size })
            } else {
                Ok(Some(d.payload))
            }
        } else {
            spec_find(data, d.next_descriptor_offset, offset, count + 1, uuid)
        }
    }
}

fn uuid_eq(a: &Uuid, b: &Uuid) -> (r: bool)
    ensures
        r == (a@ == b@),
{
    let mut i: usize = 0;
    while i < 16
        invariant
            i <= 16,
            forall|j: int| 0 <= j < i ==> a@[j] == b@[j],
        decreases 16 - i,
    {
        if a[i] != b[i] {
            return false;
        }
        i = i + 1;
    }
    proof {
        assert(a@ =~= b@);
    }
    true
}

/// Find the first descriptor in the chain whose type matches `uuid` and
/// return its payload, `Ok(None)` if no descriptor matches, or the error
/// on which the lookup walk ended.  The result is exactly `spec_find`
/// applied to the buffer.
pub fn find_descriptor<'a>(data: &'a [u8], header: &PdsHeaderV1, uuid: &Uuid) -> (r: Result<
    Option<&'a [u8]>,
    PdsError,
>)
    ensures
        (match r {
            Ok(p_opt) => (match p_opt {
                Some(p) => spec_find(data@, header.first_descriptor_offset, 0, 0, uuid@)
                    == Ok::<Option<Seq<u8>>, PdsError>(Some(p@)),
                None => spec_find(data@, header.first_descriptor_offset, 0, 0, uuid@)
                    == Ok::<Option<Seq<u8>>, PdsError>(None),
            }),
            Err(e) => spec_find(data@, header.first_descriptor_offset, 0, 0, uuid@) == Err::<
                Option<Seq<u8>>,
                PdsError,
            >(e),
        }),
{
    let ghost total = spec_find(data@, header.first_descriptor_offset, 0, 0, uuid@);
    let mut next_offset: u32 = header.first_descriptor_offset;
    let mut prev_offset: u32 = 0;
    let mut count: usize = 0;

    while next_offset != 0
        invariant
            count <= DEFAULT_MAX_DESCRIPTORS,
            total == spec_find(data@, header.first_descriptor_offset, 0, 0, uuid@),
            spec_find(data@, next_offset, prev_offset, count as nat, uuid@) == total,
        decreases DEFAULT_MAX_DESCRIPTORS - count,
    {
        if count >= DEFAULT_MAX_DESCRIPTORS {
            return Err(PdsError::MaxDescriptorsExceeded);
        }
        if count > 0 && next_offset <= prev_offset {
            return Err(PdsError::DescriptorLoop { offset: next_offset });
        }
        let offset = next_offset as usize;
        if offset > data.len() || data.len() - offset < PDS_DESCRIPTOR_HEADER_V1_SIZE {
            return Err(PdsError::DescriptorOutOfBounds { offset: next_offset });
        }

        let desc = read_descriptor_header(data, offset);

        if uuid_eq(&desc.descriptor_type, uuid) {
            let payload_start = desc.payload_offset as usize;
            if payload_start > data.len() || data.len() - payload_start < desc.payload_size as usize {
                return Err(
                    PdsError::PayloadOutOfBounds {
                        offset: desc.payload_offset,
                        size: desc.payload_size,
                    },
                );
            }
            let payload = slice_subrange(
                data,
                payload_start,
                payload_start + desc.payload_size as usize,
            );
            return Ok(Some(payload));
        }

        prev_offset = next_offset;
        next_offset = desc.next_descriptor_offset;
        count = count + 1;
    }

    Ok(None)
}

// ------------------------------------------------------------------
// Properties of the enumeration walk
// ------------------------------------------------------------------

proof fn lemma_walk_shape(data: Seq<u8>, offset: u32, prev: u32, count: nat, max: nat)
    ensures
        ({
            let w = spec_walk(data, offset, prev, count, max);
            w.error is None ==> {
                &&& (w.visited.len() > 0 ==> w.visited[0].offset == offset)
                &&& forall|i: int|
                    0 <= i < w.visited.len() - 1 ==> (#[trigger] w.visited[i].offset)
                        < w.visited[i + 1].offset
                &&& (w.visited.len() == 0 || count + w.visited.len() <= max)
            }
        }),
    decreases max - count,
{
    let w = spec_walk(data, offset, prev, count, max);
    if offset != 0 && count < max && !(count > 0 && offset <= prev) && offset
        + PDS_DESCRIPTOR_HEADER_V1_SIZE <= data.len() {
        let d = spec_descriptor_at(data, offset as int);
        if d.header_size >= PDS_DESCRIPTOR_HEADER_V1_SIZE as u32 && d.payload_offset
            + d.payload_size <= data.len() {
            let rest = spec_walk(data, d.next_descriptor_offset, offset, count + 1, max);
            lemma_walk_shape(data, d.next_descriptor_offset, offset, count + 1, max);
            if w.error is None {
                assert(w.visited == seq![d] + rest.visited);
                assert(w.visited[0] == d);
                if rest.visited.len() > 0 {
                    // The recursive walk visited something, so its start
                    // offset is non-zero and it passed the forward-only
                    // guard against `offset`.
                    assert(d.next_descriptor_offset != 0);
                    assert(d.next_descriptor_offset > offset);
                    assert(rest.visited[0].offset == d.next_descriptor_offset);
                }
                assert forall|i: int| 0 <= i < w.visited.len() - 1 implies (
                #[trigger] w.visited[i].offset) < w.visited[i + 1].offset by {
                    if i == 0 {
                        assert(w.visited[1] == rest.visited[0]);
                    } else {
                        assert(w.visited[i] == rest.visited[i - 1]);
                        assert(w.visited[i + 1] == rest.visited[i]);
                    }
                }
            }
        }
    }
}

/// The forward-only policy, observed from the outside: in every chain
/// that enumerates successfully, the descriptor offsets strictly
/// increase along the chain.  A chain whose next-descriptor offset
/// points backward or to the same offset therefore never enumerates
/// successfully, however well formed the data at that offset is.
pub proof fn lemma_chain_offsets_increase(data: Seq<u8>, header: PdsHeaderV1, max: nat)
    ensures
        ({
            let w = spec_walk_chain(data, header, max);
            w.error is None ==> forall|i: int|
                0 <= i < w.visited.len() - 1 ==> (#[trigger] w.visited[i].offset) < w.visited[i
                    + 1].offset
        }),
{
    lemma_walk_shape(data, header.first_descriptor_offset, 0, 0, max);
}

/// The traversal cap, observed from the outside: a successful
/// enumeration never yields more than `max` descriptors.  A chain longer
/// than the cap is rejected before the cap is passed, even if every
/// individual descriptor is well formed.
pub proof fn lemma_chain_respects_cap(data: Seq<u8>, header: PdsHeaderV1, max: nat)
    ensures
        ({
            let w = spec_walk_chain(data, header, max);
            w.error is None ==> w.visited.len() <= max
        }),
{
    lemma_walk_shape(data, header.first_descriptor_offset, 0, 0, max);
}

} // verus!
