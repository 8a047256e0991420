use rune::apperror::AppError;
use rune::partition::{Partition, SeekFrom};
use rune::store::MemStore;

fn region_over(
    data: Vec<u8>,
    start: u64,
    size: u64,
) -> Partition<MemStore> {
    Partition::new(MemStore::from_vec(data), start, size).unwrap()
}

#[test]
fn seek_start_zero_yields_cursor_zero() {
    let mut r = region_over(vec![0u8; 100], 10, 50);
    r.seek(SeekFrom::Current(20)).unwrap();
    assert_eq!(r.seek(SeekFrom::Start(0)).unwrap(), 0);
}

#[test]
fn seek_end_zero_yields_cursor_size() {
    let mut r = region_over(vec![0u8; 100], 10, 50);
    assert_eq!(r.seek(SeekFrom::End(0)).unwrap(), 50);
    // re-seeking again still lands on size
    assert_eq!(r.seek(SeekFrom::End(0)).unwrap(), 50);
}

#[test]
fn seek_resolves_all_three_anchors() {
    let mut r = region_over(vec![0u8; 100], 10, 50);
    assert_eq!(r.seek(SeekFrom::Start(7)).unwrap(), 7);
    assert_eq!(r.seek(SeekFrom::Current(3)).unwrap(), 10);
    assert_eq!(r.seek(SeekFrom::Current(-4)).unwrap(), 6);
    assert_eq!(r.seek(SeekFrom::End(-50)).unwrap(), 0);
}

#[test]
fn out_of_range_seek_fails_and_keeps_cursor() {
    let mut r = region_over(vec![0u8; 100], 10, 50);
    r.seek(SeekFrom::Start(5)).unwrap();
    assert!(matches!(r.seek(SeekFrom::Start(51)), Err(AppError::OutOfBounds)));
    assert!(matches!(r.seek(SeekFrom::Current(-6)), Err(AppError::OutOfBounds)));
    assert!(matches!(r.seek(SeekFrom::End(1)), Err(AppError::OutOfBounds)));
    assert!(matches!(r.seek(SeekFrom::Current(46)), Err(AppError::OutOfBounds)));
    // cursor unchanged: a relative seek of 0 still reports 5
    assert_eq!(r.seek(SeekFrom::Current(0)).unwrap(), 5);
}

#[test]
fn write_is_clamped_at_region_end() {
    let mut r = region_over(vec![0u8; 100], 10, 20);
    r.seek(SeekFrom::Start(15)).unwrap();
    let n = r.write(&vec![0xAAu8; 10]).unwrap();
    assert_eq!(n, 5);
    let store = r.into_inner();
    let bytes = store.into_vec();
    for i in 0..100 {
        if (25..30).contains(&i) {
            assert_eq!(bytes[i], 0xAA, "inside window at {}", i);
        } else {
            assert_eq!(bytes[i], 0, "outside written range at {}", i);
        }
    }
}

#[test]
fn no_write_escapes_the_window() {
    // start_offset 40, size 8; try to flood with a large buffer
    let mut r = region_over(vec![1u8; 64], 40, 8);
    let n = r.write(&vec![0xEEu8; 64]).unwrap();
    assert_eq!(n, 8);
    // further writes at the end write nothing
    assert_eq!(r.write(&vec![0xEEu8; 4]).unwrap(), 0);
    let bytes = r.into_inner().into_vec();
    for i in 0..64 {
        if (40..48).contains(&i) {
            assert_eq!(bytes[i], 0xEE);
        } else {
            assert_eq!(bytes[i], 1, "byte outside [40,48) changed at {}", i);
        }
    }
}

#[test]
fn read_is_clamped_and_offset_translated() {
    let data: Vec<u8> = (0u8..100).collect();
    let mut r = region_over(data, 10, 20);
    let v = r.read(5).unwrap();
    assert_eq!(v, vec![10, 11, 12, 13, 14]);
    r.seek(SeekFrom::Start(15)).unwrap();
    let v2 = r.read(50).unwrap();
    // clamped to size - cursor = 5 bytes, from absolute offset 25
    assert_eq!(v2, vec![25, 26, 27, 28, 29]);
    let v3 = r.read(4).unwrap();
    assert!(v3.is_empty());
}

#[test]
fn region_open_positions_store_at_start() {
    let data: Vec<u8> = (0u8..50).collect();
    let mut r = region_over(data, 30, 10);
    let v = r.read(2).unwrap();
    assert_eq!(v, vec![30, 31]);
}

#[test]
fn write_then_read_back_through_region() {
    let mut r = region_over(vec![0u8; 64], 16, 32);
    r.write(&vec![7u8, 8, 9]).unwrap();
    r.seek(SeekFrom::Start(0)).unwrap();
    assert_eq!(r.read(3).unwrap(), vec![7, 8, 9]);
    r.flush().unwrap();
}

#[test]
fn write_can_extend_a_short_store_inside_the_window() {
    // store holds 10 bytes; window [4, 24): writing extends the store,
    // but never past the window's end
    let mut r = region_over(vec![3u8; 10], 4, 20);
    r.seek(SeekFrom::Start(10)).unwrap();
    let n = r.write(&vec![5u8; 30]).unwrap();
    assert_eq!(n, 10);
    let bytes = r.into_inner().into_vec();
    assert_eq!(bytes.len(), 24);
    for i in 0..4 {
        assert_eq!(bytes[i], 3);
    }
    for i in 14..24 {
        assert_eq!(bytes[i], 5);
    }
}
