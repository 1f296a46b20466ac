use dynamic_diagram::cli::{
    frame_count, frame_file, frame_time, parse_decimal, route, sim_path, CountError, Route,
};

#[test]
fn sim_names_map_inside_the_sims_directory() {
    assert_eq!(sim_path("tcphs").as_deref(), Some("sims/tcphs.json"));
    assert_eq!(sim_path("a-b_C9").as_deref(), Some("sims/a-b_C9.json"));
    assert_eq!(sim_path("../etc/passwd"), None);
    assert_eq!(sim_path(""), None);
    assert_eq!(sim_path("dns.json"), None);
}

#[test]
fn root_request_is_the_page() {
    assert_eq!(route("GET / HTTP/1.1\r\nHost: localhost\r\n\r\n"), Route::Index);
    assert_eq!(route(""), Route::Index);
    assert_eq!(route("GET"), Route::Index);
}

#[test]
fn frame_requests_carry_their_time() {
    assert_eq!(route("GET /frame.svg?t=1234 HTTP/1.1\r\n"), Route::Frame(1234));
    assert_eq!(route("GET /frame.svg?t=12&x=1 HTTP/1.1"), Route::Frame(12));
    assert_eq!(route("GET   /frame.svg?t=+7   HTTP/1.1"), Route::Frame(7));
}

#[test]
fn frame_requests_without_a_number_start_at_zero() {
    assert_eq!(route("GET /frame.svg HTTP/1.1"), Route::Frame(0));
    assert_eq!(route("GET /frame.svg?t=abc HTTP/1.1"), Route::Frame(0));
    assert_eq!(route("GET /frame.svg?t=99999999999999999999 HTTP/1.1"), Route::Frame(0));
}

#[test]
fn other_paths_are_missing() {
    assert_eq!(route("GET /favicon.ico HTTP/1.1"), Route::Missing);
    assert_eq!(route("GET /frame HTTP/1.1"), Route::Missing);
}

#[test]
fn decimal_parsing_matches_unsigned_parse() {
    assert_eq!(parse_decimal("0"), Some(0));
    assert_eq!(parse_decimal("+42"), Some(42));
    assert_eq!(parse_decimal("18446744073709551615"), Some(u64::MAX));
    assert_eq!(parse_decimal("18446744073709551616"), None);
    assert_eq!(parse_decimal("+"), None);
    assert_eq!(parse_decimal(""), None);
    assert_eq!(parse_decimal("-1"), None);
    assert_eq!(parse_decimal("1 "), None);
}

#[test]
fn explicit_frame_counts_are_checked() {
    assert_eq!(frame_count("30"), Ok(30));
    assert_eq!(frame_count("1800"), Ok(1800));
    assert_eq!(frame_count("0"), Err(CountError::OutOfRange));
    assert_eq!(frame_count("1801"), Err(CountError::OutOfRange));
    assert_eq!(frame_count("ten"), Err(CountError::NotInteger));
}

#[test]
fn export_frames_spread_over_the_loop() {
    assert_eq!(frame_time(0, 1000, 3), 0);
    assert_eq!(frame_time(1, 1000, 3), 333);
    assert_eq!(frame_time(2, 1000, 3), 666);
    assert_eq!(frame_time(u64::MAX - 1, u64::MAX, u64::MAX), u64::MAX - 1);
}

#[test]
fn export_frame_names_are_zero_padded() {
    assert_eq!(frame_file(1), "00001.png");
    assert_eq!(frame_file(1800), "01800.png");
    assert_eq!(frame_file(123456), "123456.png");
}
