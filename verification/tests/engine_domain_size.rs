use diskscope::engine::domain::size::Size;


#[test]
fn should_format_bytes_when_under_1024() {
    assert_eq!(Size::new(512).to_string(), "512.0 B");
}

#[test]
fn should_format_kilobytes_when_over_1024() {
    assert_eq!(Size::new(2048).to_string(), "2.0 KB");
}

#[test]
fn should_format_megabytes_when_large() {
    assert_eq!(Size::new(5 * 1024 * 1024).to_string(), "5.0 MB");
}

#[test]
fn should_format_gigabytes_when_very_large() {
    assert_eq!(Size::new(3 * 1024 * 1024 * 1024).to_string(), "3.0 GB");
}

#[test]
fn should_format_zero_bytes() {
    assert_eq!(Size::new(0).to_string(), "0.0 B");
}

#[test]
fn should_compare_sizes() {
    assert!(Size::new(100) < Size::new(200));
    assert!(Size::new(200) > Size::new(100));
    assert_eq!(Size::new(100), Size::new(100));
}

