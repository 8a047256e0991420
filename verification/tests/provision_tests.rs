use rune::apperror::AppError;
use rune::provision::{classify, place_files, raw_form, write_files, ProvisioningArtifact};

fn strings(v: &[&str]) -> Vec<String> {
    v.iter().map(|s| s.to_string()).collect()
}

#[test]
fn classify_recognizes_raw_form() {
    let a = classify(&"2048,http://x/y.bin".to_string()).unwrap();
    match a {
        ProvisioningArtifact::Raw { offset, source } => {
            assert_eq!(offset, 2048);
            assert_eq!(source, "http://x/y.bin");
        },
        _ => panic!("expected raw artifact"),
    }
}

#[test]
fn classify_takes_everything_else_as_filesystem_relative() {
    for s in [
        "http://x/y.bin",
        "12http://x",     // digits not followed by a comma
        ",rest",          // no digits before the comma
        "12,",            // empty remainder
        "12",             // no comma at all
        "",
    ] {
        match classify(&s.to_string()).unwrap() {
            ProvisioningArtifact::FsRelative { path } => assert_eq!(path, s),
            _ => panic!("expected filesystem-relative for {:?}", s),
        }
    }
}

#[test]
fn classify_accepts_the_largest_offset() {
    let s = format!("{},http://x/y", u64::MAX);
    match classify(&s).unwrap() {
        ProvisioningArtifact::Raw { offset, .. } => assert_eq!(offset, u64::MAX),
        _ => panic!("expected raw artifact"),
    }
}

#[test]
fn classify_rejects_an_unrepresentable_offset() {
    let s = "18446744073709551616,http://x/y".to_string();
    assert!(matches!(classify(&s), Err(AppError::UnrecognizedArtifact)));
}

#[test]
fn raw_form_matches_classification() {
    assert!(raw_form(&"0,x".to_string()));
    assert!(raw_form(&"18446744073709551616,x".to_string()));
    assert!(!raw_form(&"http://x/y".to_string()));
    assert!(!raw_form(&"x,0".to_string()));
}

#[test]
fn write_files_plans_raw_writes_in_order() {
    let files = strings(&[
        "http://x/ignored.bin",
        "0,http://x/firmware.bin",
        "512,http://x/second.bin",
    ]);
    let plan = write_files(&files).unwrap();
    assert_eq!(plan.len(), 2);
    assert_eq!(plan[0].offset, 0);
    assert_eq!(plan[0].source, "http://x/firmware.bin");
    assert_eq!(plan[0].filename, "firmware.bin");
    assert_eq!(plan[1].offset, 512);
    assert_eq!(plan[1].filename, "second.bin");
}

#[test]
fn write_files_rejects_an_empty_list() {
    assert!(matches!(write_files(&vec![]), Err(AppError::NoFiles)));
}

#[test]
fn write_files_rejects_a_raw_source_that_is_not_a_url() {
    let files = strings(&["8,not a url"]);
    assert!(matches!(write_files(&files), Err(AppError::InvalidUrl)));
}

#[test]
fn write_files_rejects_an_unrepresentable_offset() {
    let files = strings(&["http://x/a", "99999999999999999999,http://x/b"]);
    assert!(matches!(write_files(&files), Err(AppError::UnrecognizedArtifact)));
}

#[test]
fn place_files_creates_missing_files_and_skips_present_ones() {
    let files = strings(&[
        "0,http://x/firmware.bin",
        "http://x/bootloader.bin",
        "http://x/config.txt",
    ]);
    let existing = strings(&["config.txt"]);
    let plan = place_files(&files, &existing).unwrap();
    assert_eq!(plan.actions.len(), 2);
    assert_eq!(plan.actions[0].filename, "bootloader.bin");
    assert_eq!(plan.actions[0].source, "http://x/bootloader.bin");
    assert!(!plan.actions[0].present);
    assert_eq!(plan.actions[1].filename, "config.txt");
    assert!(plan.actions[1].present);
    assert_eq!(plan.result.written, 1);
    assert_eq!(plan.result.skipped, 1);
}

#[test]
fn rerun_with_everything_present_skips_all() {
    let files = strings(&[
        "0,http://x/firmware.bin",
        "http://x/bootloader.bin",
        "http://x/config.txt",
    ]);
    // first run against an empty root
    let first = place_files(&files, &vec![]).unwrap();
    assert_eq!(first.result.written, 2);
    assert_eq!(first.result.skipped, 0);
    // the first run put these names at the root; run again
    let existing: Vec<String> =
        first.actions.iter().map(|a| a.filename.clone()).collect();
    let second = place_files(&files, &existing).unwrap();
    assert_eq!(second.result.written, 0);
    assert_eq!(second.result.skipped, 2);
    assert_eq!(
        second.result.written + second.result.skipped,
        first.actions.len()
    );
}

#[test]
fn place_files_rejects_an_empty_list() {
    assert!(matches!(place_files(&vec![], &vec![]), Err(AppError::NoFiles)));
}

#[test]
fn place_files_rejects_a_source_that_is_not_a_url() {
    let files = strings(&["definitely not a url"]);
    assert!(matches!(
        place_files(&files, &vec![]),
        Err(AppError::InvalidUrl)
    ));
}

#[test]
fn place_files_passes_raw_artifacts_over_without_checking_them() {
    // the raw entry's offset is unrepresentable, but the filesystem pass
    // does not look at it
    let files = strings(&["99999999999999999999,zzz", "http://x/a.bin"]);
    let plan = place_files(&files, &vec![]).unwrap();
    assert_eq!(plan.result.written, 1);
    assert_eq!(plan.result.skipped, 0);
}

#[test]
fn filename_is_the_final_path_segment() {
    let files = strings(&["http://host/deep/path/to/artifact.itb"]);
    let plan = place_files(&files, &vec![]).unwrap();
    assert_eq!(plan.actions[0].filename, "artifact.itb");
}

#[test]
fn cannot_be_a_base_url_is_invalid() {
    let files = strings(&["data:text/plain,hello"]);
    assert!(matches!(
        place_files(&files, &vec![]),
        Err(AppError::InvalidUrl)
    ));
}
