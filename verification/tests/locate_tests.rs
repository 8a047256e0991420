use rune::apperror::AppError;
use rune::image_tools::{candidate_range, label_matches, locate_boot_partition, ProbeResult};
use rune::mbr::Partition;

fn entry(ptype: u8, lba: u32, size: u32) -> Partition {
    Partition {
        p_status: 0,
        p_cyl_begin: 0,
        p_head_begin: 0,
        p_sect_begin: 0,
        p_type: ptype,
        p_cyl_end: 0,
        p_head_end: 0,
        p_sect_end: 0,
        p_lba: lba,
        p_size: size,
    }
}

#[test]
fn label_matching_is_case_normalized() {
    assert!(label_matches(&b"HAIKU-BOOT".to_vec()));
    assert!(label_matches(&b"haiku boot".to_vec()));
    assert!(label_matches(&b"my Haiku volume".to_vec()));
    assert!(!label_matches(&b"DEBIAN".to_vec()));
    assert!(!label_matches(&b"HAIK".to_vec()));
    assert!(!label_matches(&b"".to_vec()));
}

#[test]
fn candidate_range_multiplies_by_sector_size() {
    let p = entry(0x0b, 2048, 204800);
    assert_eq!(candidate_range(&p, 512), Some((1048576, 104857600)));
    let e = entry(0xef, 1, 2);
    assert_eq!(candidate_range(&e, 512), Some((512, 1024)));
}

#[test]
fn candidate_range_rejects_disallowed_types() {
    assert_eq!(candidate_range(&entry(0x83, 2048, 100), 512), None);
    assert_eq!(candidate_range(&entry(0x00, 2048, 100), 512), None);
}

#[test]
fn candidate_range_rejects_overflowing_geometry() {
    let p = entry(0x0b, u32::MAX, u32::MAX);
    assert_eq!(candidate_range(&p, u64::MAX), None);
    // and still accepts when it just fits
    let q = entry(0x0b, 1, 1);
    assert!(candidate_range(&q, 512).is_some());
}

#[test]
fn single_allowed_mountable_entry_is_selected() {
    let parts = vec![
        entry(0x00, 0, 0),
        entry(0x0b, 2048, 204800),
        entry(0x00, 0, 0),
        entry(0x00, 0, 0),
    ];
    let probes = vec![
        ProbeResult::NotMounted,
        ProbeResult::Mounted(b"HAIKU-BOOT".to_vec()),
        ProbeResult::NotMounted,
        ProbeResult::NotMounted,
    ];
    assert_eq!(locate_boot_partition(&parts, &probes).unwrap(), 1);
}

#[test]
fn nothing_mountable_yields_no_boot_volume() {
    let parts = vec![
        entry(0x0b, 10, 10),
        entry(0xef, 20, 10),
        entry(0x00, 0, 0),
        entry(0x00, 0, 0),
    ];
    let probes = vec![
        ProbeResult::NotMounted,
        ProbeResult::NotMounted,
        ProbeResult::NotMounted,
        ProbeResult::NotMounted,
    ];
    assert!(matches!(
        locate_boot_partition(&parts, &probes),
        Err(AppError::NoBootVolume)
    ));
}

#[test]
fn wrong_label_is_rejected() {
    let parts = vec![entry(0x0b, 10, 10)];
    let probes = vec![ProbeResult::Mounted(b"FEDORA".to_vec())];
    assert!(matches!(
        locate_boot_partition(&parts, &probes),
        Err(AppError::NoBootVolume)
    ));
}

#[test]
fn mount_failure_rejects_candidate_and_scan_continues() {
    let parts = vec![
        entry(0x0b, 10, 10),
        entry(0xef, 20, 10),
        entry(0x00, 0, 0),
        entry(0x00, 0, 0),
    ];
    let probes = vec![
        ProbeResult::NotMounted,
        ProbeResult::Mounted(b"haiku".to_vec()),
        ProbeResult::NotMounted,
        ProbeResult::NotMounted,
    ];
    assert_eq!(locate_boot_partition(&parts, &probes).unwrap(), 1);
}

#[test]
fn first_accepted_candidate_wins_in_table_order() {
    let parts = vec![
        entry(0xef, 10, 10),
        entry(0x0b, 20, 10),
        entry(0x00, 0, 0),
        entry(0x00, 0, 0),
    ];
    let probes = vec![
        ProbeResult::Mounted(b"HAIKU A".to_vec()),
        ProbeResult::Mounted(b"HAIKU B".to_vec()),
        ProbeResult::NotMounted,
        ProbeResult::NotMounted,
    ];
    assert_eq!(locate_boot_partition(&parts, &probes).unwrap(), 0);
}

#[test]
fn non_allowed_type_is_skipped_even_if_labeled() {
    let parts = vec![entry(0x83, 10, 10), entry(0x0b, 20, 10)];
    let probes = vec![
        ProbeResult::Mounted(b"HAIKU".to_vec()),
        ProbeResult::Mounted(b"HAIKU".to_vec()),
    ];
    assert_eq!(locate_boot_partition(&parts, &probes).unwrap(), 1);
}
