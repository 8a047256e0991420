use rune::apperror::AppError;
use rune::mbr::{parse, read1, read4, read_partition};

fn empty_table() -> Vec<u8> {
    vec![0u8; 512]
}

fn put_entry(table: &mut Vec<u8>, slot: usize, status: u8, ptype: u8, lba: u32, size: u32) {
    let base = 446 + 16 * slot;
    table[base] = status;
    table[base + 4] = ptype;
    table[base + 8..base + 12].copy_from_slice(&lba.to_le_bytes());
    table[base + 12..base + 16].copy_from_slice(&size.to_le_bytes());
}

#[test]
fn read4_is_little_endian() {
    let b = vec![0x78u8, 0x56, 0x34, 0x12];
    assert_eq!(read4(&b, 0), 0x12345678);
}

#[test]
fn read1_reads_single_byte() {
    let b = vec![9u8, 8, 7];
    assert_eq!(read1(&b, 0), 9);
    assert_eq!(read1(&b, 2), 7);
}

#[test]
fn every_slot_recovers_written_geometry() {
    let mut t = empty_table();
    let vals = [
        (0x80u8, 0x0bu8, 2048u32, 204800u32),
        (0x00, 0xef, 1u32, 0xffff_ffff),
        (0x00, 0x83, 0x1234_5678, 0x9abc_def0),
        (0x00, 0x00, 0, 0),
    ];
    for (slot, (status, ptype, lba, size)) in vals.iter().enumerate() {
        put_entry(&mut t, slot, *status, *ptype, *lba, *size);
    }
    let parts = parse(&t).unwrap();
    assert_eq!(parts.len(), 4);
    for (slot, (status, ptype, lba, size)) in vals.iter().enumerate() {
        assert_eq!(parts[slot].p_status, *status);
        assert_eq!(parts[slot].p_type, *ptype);
        assert_eq!(parts[slot].p_lba, *lba);
        assert_eq!(parts[slot].p_size, *size);
    }
}

#[test]
fn read_partition_reads_fixed_offsets() {
    let mut t = empty_table();
    put_entry(&mut t, 2, 0x80, 0x0b, 77, 99);
    let p = read_partition(&t, 2).unwrap();
    assert_eq!(p.p_status, 0x80);
    assert_eq!(p.p_type, 0x0b);
    assert_eq!(p.p_lba, 77);
    assert_eq!(p.p_size, 99);
}

#[test]
fn chs_bytes_are_carried_opaquely_in_slot_order() {
    let mut t = empty_table();
    let base = 446;
    t[base + 1] = 11;
    t[base + 2] = 22;
    t[base + 3] = 33;
    t[base + 5] = 44;
    t[base + 6] = 55;
    t[base + 7] = 66;
    let p = read_partition(&t, 0).unwrap();
    assert_eq!(p.p_head_begin, 11);
    assert_eq!(p.p_sect_begin, 22);
    assert_eq!(p.p_cyl_begin, 33);
    assert_eq!(p.p_head_end, 44);
    assert_eq!(p.p_sect_end, 55);
    assert_eq!(p.p_cyl_end, 66);
}

#[test]
fn short_table_is_malformed() {
    let t = vec![0u8; 509];
    assert!(matches!(parse(&t), Err(AppError::MalformedTable)));
    let t2 = vec![0u8; 461];
    assert!(matches!(read_partition(&t2, 0), Err(AppError::MalformedTable)));
    // 462 bytes supply slot 0 but not slot 3
    let t3 = vec![0u8; 462];
    assert!(read_partition(&t3, 0).is_ok());
    assert!(matches!(read_partition(&t3, 3), Err(AppError::MalformedTable)));
    assert!(matches!(parse(&t3), Err(AppError::MalformedTable)));
}

#[test]
fn exactly_510_bytes_suffice() {
    let mut t = empty_table();
    put_entry(&mut t, 3, 0, 0x0b, 5, 6);
    t.truncate(510);
    let parts = parse(&t).unwrap();
    assert_eq!(parts[3].p_lba, 5);
    assert_eq!(parts[3].p_size, 6);
}
