use myhs::upload::acceptable_filename;
use myhs::upload::classify_part;
use myhs::upload::redirect_path;
use myhs::upload::PartKind;
use myhs::upload::UploadOutcome;

#[test]
fn batch_with_one_failure_reports_two_of_three() {
    let mut outcome = UploadOutcome::new();
    outcome.record_file(true);
    outcome.record_file(false);
    outcome.record_file(true);
    assert_eq!(outcome.total, 3);
    assert_eq!(outcome.success, 2);
    assert_eq!(outcome.message(), "2 of 3 files uploaded");
    assert_eq!(redirect_path("d"), "/d");
}

#[test]
fn single_file_message() {
    let mut outcome = UploadOutcome::new();
    outcome.record_file(true);
    assert_eq!(outcome.message(), "file uploaded");
}

#[test]
fn all_files_message() {
    let mut outcome = UploadOutcome::new();
    outcome.record_file(true);
    outcome.record_file(true);
    outcome.record_file(true);
    assert_eq!(outcome.message(), "all 3 files uploaded");
}

#[test]
fn failed_and_empty_batches() {
    let mut outcome = UploadOutcome::new();
    assert_eq!(outcome.message(), "upload failed");
    outcome.record_file(false);
    outcome.record_file(false);
    assert_eq!(outcome.message(), "upload failed");
}

#[test]
fn redirect_targets() {
    assert_eq!(redirect_path(""), "/");
    assert_eq!(redirect_path("a/b"), "/a/b");
}

#[test]
fn part_classification() {
    assert_eq!(classify_part("current_path", false), PartKind::PathField);
    assert_eq!(classify_part("current_path", true), PartKind::PathField);
    assert_eq!(classify_part("file", true), PartKind::FilePart);
    assert_eq!(classify_part("file", false), PartKind::Ignored);
    assert_eq!(classify_part("other", true), PartKind::Ignored);
    assert_eq!(classify_part("", false), PartKind::Ignored);
}

#[test]
fn filenames_must_be_single_safe_segments() {
    assert!(acceptable_filename("report.txt"));
    assert!(acceptable_filename("photo (1).png"));
    assert!(!acceptable_filename(""));
    assert!(!acceptable_filename("a/b.txt"));
    assert!(!acceptable_filename("../evil.sh"));
    assert!(!acceptable_filename("."));
    assert!(!acceptable_filename(".."));
}
