use tokenum::numfmt::{get_file_size, u64_to_string};

#[test]
fn bytes_below_one_kib() {
    assert_eq!(get_file_size(1023), "1023 bytes");
    assert_eq!(get_file_size(0), "0 bytes");
    assert_eq!(get_file_size(1), "1 bytes");
}

#[test]
fn two_kib_exactly() {
    assert_eq!(get_file_size(2048), "2.00Kb");
}

#[test]
fn one_gib_exactly() {
    assert_eq!(get_file_size(1073741824), "1.00Gb");
}

#[test]
fn one_kib_boundary() {
    assert_eq!(get_file_size(1024), "1.00Kb");
}

#[test]
fn one_mib_boundary() {
    assert_eq!(get_file_size(1048576), "1.00Mb");
}

#[test]
fn fractional_kib() {
    assert_eq!(get_file_size(1536), "1.50Kb");
    assert_eq!(get_file_size(1126), "1.10Kb");
}

#[test]
fn rounding_carries_into_integer_part() {
    assert_eq!(get_file_size(2047), "2.00Kb");
}

#[test]
fn large_sizes() {
    assert_eq!(get_file_size(5368709120), "5.00Gb");
    assert_eq!(get_file_size(10485760), "10.00Mb");
}

#[test]
fn decimal_rendering() {
    assert_eq!(u64_to_string(0), "0");
    assert_eq!(u64_to_string(7), "7");
    assert_eq!(u64_to_string(10), "10");
    assert_eq!(u64_to_string(1234567890), "1234567890");
    assert_eq!(u64_to_string(u64::MAX), "18446744073709551615");
}
