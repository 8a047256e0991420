use vstd::prelude::*;

use crate::apperror::AppError;

verus! {

/// One slot of the 4-entry fixed partition table.
///
/// The CHS geometry bytes are carried opaquely in the order they sit in the
/// slot; only `p_type`, `p_lba` and `p_size` are interpreted by this library.
#[derive(Clone, Copy, PartialEq, Eq, Structural, Debug)]
pub struct Partition {
    pub p_status: u8,
    pub p_cyl_begin: u8,
    pub p_head_begin: u8,
    pub p_sect_begin: u8,
    pub p_type: u8,
    pub p_cyl_end: u8,
    pub p_head_end: u8,
    pub p_sect_end: u8,
    pub p_lba: u32,
    pub p_size: u32,
}

/// Byte offset of the first table slot inside the 512-byte table region.
pub const TABLE_OFFSET: usize = 446;

/// Width of one table slot in bytes.
pub const ENTRY_SIZE: usize = 16;

/// Bytes needed to supply all four slots: 446 + 4 * 16.
pub const TABLE_END: usize = 510;

/// Byte offset of slot `slot` inside the table region.
pub open spec fn slot_base(slot: int) -> int {
    446 + 16 * slot
}

/// The 32-bit little-endian value stored at `b[off .. off + 4]`.
pub open spec fn le32_at(b: Seq<u8>, off: int) -> int {
    b[off] + 0x100 * b[off + 1] + 0x1_0000 * b[off + 2] + 0x100_0000 * b[off + 3]
}

/// The little-endian encoding of `v` as four bytes.
pub open spec fn le32_bytes(v: int) -> Seq<u8> {
    seq![
        (v % 0x100) as u8,
        ((v / 0x100) % 0x100) as u8,
        ((v / 0x1_0000) % 0x100) as u8,
        ((v / 0x100_0000) % 0x100) as u8,
    ]
}

/// The entry that slot `slot` of table region `b` holds.
pub open spec fn entry_spec(b: Seq<u8>, slot: int) -> Partition {
    let base = slot_base(slot);
    (Partition {
        p_status: b[base],
        p_head_begin: b[base + 1],
        p_sect_begin: b[base + 2],
        p_cyl_begin: b[base + 3],
        p_type: b[base + 4],
        p_head_end: b[base + 5],
        p_sect_end: b[base + 6],
        p_cyl_end: b[base + 7],
        p_lba: le32_at(b, base + 8) as u32,
        p_size: le32_at(b, base + 12) as u32,
    })
}

/// Decoding a 32-bit value from its little-endian encoding recovers it.
pub proof fn lemma_le32_roundtrip(v: int)
    requires
        0 <= v < 0x1_0000_0000,
    ensures
        le32_at(le32_bytes(v), 0) == v,
{
    let b = le32_bytes(v);
    assert(b[0] == (v % 0x100) as u8);
    assert(b[1] == ((v / 0x100) % 0x100) as u8);
    assert(b[2] == ((v / 0x1_0000) % 0x100) as u8);
    assert(b[3] == ((v / 0x100_0000) % 0x100) as u8);
    assert(v % 0x100 + 0x100 * ((v / 0x100) % 0x100) + 0x1_0000 * ((v / 0x1_0000) % 0x100)
        + 0x100_0000 * ((v / 0x100_0000) % 0x100) == v) by (nonlinear_arith)
        requires
            0 <= v < 0x1_0000_0000,
    ;
}

/// For every slot of a synthetic table built with known values, the reader
/// recovers the exact starting sector and sector count that were written at
/// the slot's fixed byte offsets in little-endian 32-bit encoding.
pub proof fn lemma_table_recovers(b: Seq<u8>, slot: int, lba: int, size: int)
    requires
        b.len() >= 510,
        0 <= slot < 4,
        0 <= lba < 0x1_0000_0000,
        0 <= size < 0x1_0000_0000,
        b.subrange(slot_base(slot) + 8, slot_base(slot) + 12) == le32_bytes(lba),
        b.subrange(slot_base(slot) + 12, slot_base(slot) + 16) == le32_bytes(size),
    ensures
        entry_spec(b, slot).p_lba == lba,
        entry_spec(b, slot).p_size == size,
{
    let base = slot_base(slot);
    let lb = b.subrange(base + 8, base + 12);
    let sb = b.subrange(base + 12, base + 16);
    assert(b[base + 8] == lb[0]);
    assert(b[base + 9] == lb[1]);
    assert(b[base + 10] == lb[2]);
    assert(b[base + 11] == lb[3]);
    assert(b[base + 12] == sb[0]);
    assert(b[base + 13] == sb[1]);
    assert(b[base + 14] == sb[2]);
    assert(b[base + 15] == sb[3]);
    lemma_le32_roundtrip(lba);
    lemma_le32_roundtrip(size);
    assert(le32_at(b, base + 8) == le32_at(lb, 0));
    assert(le32_at(b, base + 12) == le32_at(sb, 0));
}

/// Read the single byte at `off`.
pub fn read1(b: &Vec<u8>, off: usize) -> (r: u8)
    requires
        off < b@.len(),
    ensures
        r == b@[off as int],
{
    b[off]
}

/// Read the 32-bit little-endian value at `off`, independent of host order.
pub fn read4(b: &Vec<u8>, off: usize) -> (r: u32)
    requires
        off + 4 <= b@.len(),
    ensures
        r == le32_at(b@, off as int),
{
    let n: usize = b.len();
    b[off] as u32 + 0x100 * (b[off + 1] as u32) + 0x1_0000 * (b[off + 2] as u32) + 0x100_0000
        * (b[off + 3] as u32)
}

/// Extract slot `index` of the table region `bytes`.
///
/// Fails with `MalformedTable` exactly when `bytes` is too short to supply
/// the whole 16-byte slot; an entry is never partially populated.
pub fn read_partition(bytes: &Vec<u8>, index: u8) -> (r: Result<Partition, AppError>)
    requires
        index < 4,
    ensures
        match r {
            Ok(p) => bytes@.len() >= slot_base(index as int) + 16 && p == entry_spec(
                bytes@,
                index as int,
            ),
            Err(e) => bytes@.len() < slot_base(index as int) + 16 && e matches
                AppError::MalformedTable,
        },
{
    let base: usize = TABLE_OFFSET + ENTRY_SIZE * (index as usize);
    if bytes.len() < base + 16 {
        return Err(AppError::MalformedTable);
    }
    Ok(
        Partition {
            p_status: read1(bytes, base),
            p_head_begin: read1(bytes, base + 1),
            p_sect_begin: read1(bytes, base + 2),
            p_cyl_begin: read1(bytes, base + 3),
            p_type: read1(bytes, base + 4),
            p_head_end: read1(bytes, base + 5),
            p_sect_end: read1(bytes, base + 6),
            p_cyl_end: read1(bytes, base + 7),
            p_lba: read4(bytes, base + 8),
            p_size: read4(bytes, base + 12),
        },
    )
}

/// Read all four slots of the table region, in table order.
///
/// Succeeds exactly when `bytes` supplies every slot, that is when it holds
/// at least 510 bytes.
pub fn parse(bytes: &Vec<u8>) -> (r: Result<Vec<Partition>, AppError>)
    ensures
        match r {
            Ok(v) => bytes@.len() >= 510 && v@.len() == 4 && forall|k: int|
                0 <= k < 4 ==> v@[k] == entry_spec(bytes@, k),
            Err(e) => bytes@.len() < 510 && e matches AppError::MalformedTable,
        },
{
    let mut partitions: Vec<Partition> = Vec::new();
    let mut i: u8 = 0;
    while i < 4
        invariant
            i <= 4,
            partitions@.len() == i as int,
            i > 0 ==> bytes@.len() >= slot_base(i as int - 1) + 16,
            forall|k: int| 0 <= k < i as int ==> partitions@[k] == entry_spec(bytes@, k),
        decreases 4 - i as int,
    {
        let p = match read_partition(bytes, i) {
            Ok(p) => p,
            Err(e) => {
                return Err(e);
            },
        };
        partitions.push(p);
        i = i + 1;
    }
    Ok(partitions)
}

} // verus!
