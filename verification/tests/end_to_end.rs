//! The full preparation flow against an in-memory device: read the
//! partition table, locate the boot volume, plan the raw and filesystem
//! passes, and perform the raw write through a bounded region.

use rune::image_tools::{candidate_range, locate_boot_partition, ProbeResult};
use rune::mbr::parse;
use rune::partition::{Partition, SeekFrom};
use rune::provision::{place_files, write_files};
use rune::store::MemStore;

fn device_image() -> Vec<u8> {
    // 512-byte table region followed by flat space; entries at slot 1
    let mut img = vec![0u8; 4096];
    let base = 446 + 16; // slot 1
    img[base + 4] = 0x0b;
    img[base + 8..base + 12].copy_from_slice(&2048u32.to_le_bytes());
    img[base + 12..base + 16].copy_from_slice(&204800u32.to_le_bytes());
    img
}

#[test]
fn prepare_medium_end_to_end() {
    let img = device_image();
    let sector_size = 512u64;

    // read the partition table from the first 512 bytes
    let table: Vec<u8> = img[..512].to_vec();
    let parts = parse(&table).unwrap();
    assert_eq!(parts.len(), 4);
    assert_eq!(parts[1].p_type, 0x0b);
    assert_eq!(parts[1].p_lba, 2048);
    assert_eq!(parts[1].p_size, 204800);

    // only slot 1 is a candidate; its window is in bytes
    assert_eq!(candidate_range(&parts[0], sector_size), None);
    let (start, size) = candidate_range(&parts[1], sector_size).unwrap();
    assert_eq!(start, 2048 * 512);
    assert_eq!(size, 204800 * 512);

    // the mounted candidate carries the expected label
    let probes = vec![
        ProbeResult::NotMounted,
        ProbeResult::Mounted(b"HAIKU-BOOT".to_vec()),
        ProbeResult::NotMounted,
        ProbeResult::NotMounted,
    ];
    let selected = locate_boot_partition(&parts, &probes).unwrap();
    assert_eq!(selected, 1);

    // the board's artifact list: one raw write, one filesystem file
    let files = vec![
        "0,http://x/firmware.bin".to_string(),
        "http://x/bootloader.bin".to_string(),
    ];

    // raw pass: one write at absolute byte offset 0
    let raw_plan = write_files(&files).unwrap();
    assert_eq!(raw_plan.len(), 1);
    assert_eq!(raw_plan[0].offset, 0);
    assert_eq!(raw_plan[0].filename, "firmware.bin");

    // perform the raw write against the whole device (offsets are
    // absolute, so the region covers the device, not the boot partition)
    let content = b"FIRMWARE".to_vec();
    let devlen = img.len() as u64;
    let mut device = Partition::new(MemStore::from_vec(img), 0, devlen).unwrap();
    for w in &raw_plan {
        device.seek(SeekFrom::Start(w.offset)).unwrap();
        let n = device.write(&content).unwrap();
        assert_eq!(n, content.len());
    }
    let after = device.into_inner().into_vec();
    assert_eq!(&after[..8], b"FIRMWARE");
    // the rest of the device is untouched
    assert_eq!(after[8], 0);
    assert_eq!(after[446 + 16 + 4], 0x0b);

    // filesystem pass: bootloader.bin is created at the root
    let fs_plan = place_files(&files, &vec![]).unwrap();
    assert_eq!(fs_plan.result.written, 1);
    assert_eq!(fs_plan.result.skipped, 0);
    assert_eq!(fs_plan.actions.len(), 1);
    assert_eq!(fs_plan.actions[0].filename, "bootloader.bin");
    assert!(!fs_plan.actions[0].present);
}
