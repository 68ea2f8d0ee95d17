use file_gateway::utils::format_bytes;

#[test]
fn format_bytes_below_one_kib_counts_bytes() {
    assert_eq!(format_bytes(0), "0B");
    assert_eq!(format_bytes(1), "1B");
    assert_eq!(format_bytes(512), "512B");
    assert_eq!(format_bytes(1023), "1023B");
}

#[test]
fn format_bytes_picks_the_unit() {
    assert_eq!(format_bytes(1024), "1.0K");
    assert_eq!(format_bytes(1536), "1.5K");
    assert_eq!(format_bytes(1048576), "1.0M");
    assert_eq!(format_bytes(5368709120), "5.0G");
    assert_eq!(format_bytes(1099511627776), "1.0T");
    assert_eq!(format_bytes(1125899906842624), "1.0P");
}

#[test]
fn format_bytes_rounds_to_one_decimal() {
    assert_eq!(format_bytes(1075), "1.0K");
    assert_eq!(format_bytes(1127), "1.1K");
    assert_eq!(format_bytes(1128), "1.1K");
    assert_eq!(format_bytes(1288490189), "1.2G");
    assert_eq!(format_bytes(1181116006), "1.1G");
}

#[test]
fn format_bytes_rounds_a_tie_to_the_even_digit() {
    // 1280 / 1024 = 1.25, 1792 / 1024 = 1.75
    assert_eq!(format_bytes(1280), "1.2K");
    assert_eq!(format_bytes(1792), "1.8K");
}

#[test]
fn format_bytes_may_round_up_to_the_next_unit_size() {
    assert_eq!(format_bytes(1048575), "1024.0K");
}

#[test]
fn format_bytes_of_the_largest_sizes() {
    assert_eq!(format_bytes(9007199254740993), "8.0P");
    assert_eq!(format_bytes(18446744073709551615), "16384.0P");
    assert_eq!(format_bytes(9223372036854775808), "8192.0P");
}
