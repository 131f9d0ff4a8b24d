use rlnc_simdx::report::{fmt_size, format_metadata_line, format_size};

#[test]
fn main_size_format_is_compact() {
    assert_eq!(format_size(64), "64 B");
    assert_eq!(format_size(1024), "1 KiB");
    assert_eq!(format_size(65_536), "64 KiB");
}

#[test]
fn size_formats_cover_each_unit() {
    assert_eq!(format_size(0), "0 B");
    assert_eq!(format_size(1023), "1023 B");
    assert_eq!(format_size(1_048_576), "1024 KiB");
    assert_eq!(fmt_size(512), "512 B");
    assert_eq!(fmt_size(4096), "4 KiB");
    assert_eq!(fmt_size(3 * 1024 * 1024 + 5), "3 MiB");
}

#[test]
fn metadata_line_is_padded_ascii() {
    let metadata = format_metadata_line("Active kernel", "gfni+avx2 (tier2)");
    assert!(metadata.is_ascii());
    assert_eq!(metadata.len(), 82);
    assert!(metadata.contains("Active kernel : gfni+avx2 (tier2)"));
    assert!(metadata.starts_with("| "));
    assert!(metadata.ends_with(" |"));
}
