use myhs::size::format_file_size;

#[test]
fn whole_bytes_have_no_decimal() {
    assert_eq!(format_file_size(0), "0 B");
    assert_eq!(format_file_size(1), "1 B");
    assert_eq!(format_file_size(1023), "1023 B");
}

#[test]
fn kilobytes_have_one_decimal() {
    assert_eq!(format_file_size(1024), "1.0 KB");
    assert_eq!(format_file_size(1536), "1.5 KB");
}

#[test]
fn megabytes() {
    assert_eq!(format_file_size(1024 * 1024), "1.0 MB");
    assert_eq!(format_file_size(5 * 1024 * 1024 + 512 * 1024), "5.5 MB");
}

#[test]
fn larger_units() {
    assert_eq!(format_file_size(1024 * 1024 * 1024), "1.0 GB");
    assert_eq!(format_file_size(1024 * 1024 * 1024 * 1024), "1.0 TB");
    assert_eq!(format_file_size(2048 * 1024 * 1024 * 1024 * 1024), "2048.0 TB");
}

#[test]
fn decimal_digit_is_truncated() {
    assert_eq!(format_file_size(1024 * 1024 - 1), "1023.9 KB");
    assert_eq!(format_file_size(1024 + 102), "1.0 KB");
    assert_eq!(format_file_size(1024 + 103), "1.1 KB");
}
