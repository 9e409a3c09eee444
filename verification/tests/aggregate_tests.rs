use measure::aggregate::{average, EmptySeriesError, Labeled};
use measure::sample::MeasureResponse;

fn sample(
    dns: Option<u64>,
    tcp: u64,
    send: u64,
    ttfb: u64,
    tls: Option<u64>,
    src: &str,
) -> MeasureResponse {
    MeasureResponse {
        dns_lookup_duration: dns,
        tcp_connect_duration: tcp,
        http_get_send_duration: send,
        ttfb_duration: ttfb,
        tls_handshake_duration: tls,
        source_identifier: src.to_string(),
    }
}

#[test]
fn average_of_two_samples_truncates_toward_zero() {
    let v = vec![
        sample(Some(10), 4, 6, 9, Some(100), "a"),
        sample(Some(20), 5, 7, 10, Some(101), "b"),
    ];
    let m = average(&v).unwrap();
    assert_eq!(m.dns_lookup_duration, Some(15));
    assert_eq!(m.tcp_connect_duration, 4); // (4 + 5) / 2, truncating
    assert_eq!(m.http_get_send_duration, 6); // (6 + 7) / 2
    assert_eq!(m.ttfb_duration, 9); // (9 + 10) / 2
    assert_eq!(m.tls_handshake_duration, Some(100)); // (100 + 101) / 2
    assert_eq!(m.source_identifier, "a"); // carried from the first sample
}

#[test]
fn average_propagates_absent_dns() {
    let v = vec![
        sample(Some(10), 4, 6, 9, Some(1), "a"),
        sample(None, 5, 7, 10, Some(3), "a"),
        sample(Some(20), 6, 8, 11, Some(5), "a"),
    ];
    let m = average(&v).unwrap();
    assert_eq!(m.dns_lookup_duration, None);
    assert_eq!(m.tls_handshake_duration, Some(3));
    assert_eq!(m.tcp_connect_duration, 5);
}

#[test]
fn average_propagates_absent_tls() {
    let v = vec![
        sample(Some(10), 4, 6, 9, None, "a"),
        sample(Some(20), 5, 7, 10, Some(3), "a"),
    ];
    let m = average(&v).unwrap();
    assert_eq!(m.tls_handshake_duration, None);
    assert_eq!(m.dns_lookup_duration, Some(15));
}

#[test]
fn average_all_present_equals_arithmetic_mean() {
    let v = vec![
        sample(Some(3), 1, 1, 1, Some(9), "x"),
        sample(Some(4), 1, 1, 1, Some(9), "x"),
        sample(Some(5), 1, 1, 1, Some(9), "x"),
    ];
    let m = average(&v).unwrap();
    assert_eq!(m.dns_lookup_duration, Some(4));
    assert_eq!(m.tls_handshake_duration, Some(9));
}

#[test]
fn average_of_single_sample_is_identity() {
    let s = sample(Some(7), 11, 13, 17, None, "peer");
    let v = vec![sample(Some(7), 11, 13, 17, None, "peer")];
    let m = average(&v).unwrap();
    assert_eq!(m, s);
}

#[test]
fn average_of_empty_series_is_rejected() {
    let v: Vec<MeasureResponse> = Vec::new();
    assert_eq!(average(&v), Err(EmptySeriesError));
}

#[test]
fn labeled_average_matches_plain_average() {
    let items = vec![
        Labeled::new(sample(None, 2, 4, 6, Some(8), "a"), "http://t".to_string()),
        Labeled::new(sample(None, 3, 5, 7, Some(9), "a"), "http://t".to_string()),
    ];
    let m = Labeled::average(&items).unwrap();
    assert_eq!(m.dns_lookup_duration, None);
    assert_eq!(m.tcp_connect_duration, 2);
    assert_eq!(m.http_get_send_duration, 4);
    assert_eq!(m.ttfb_duration, 6);
    assert_eq!(m.tls_handshake_duration, Some(8));
}

#[test]
fn labeled_average_of_empty_series_is_rejected() {
    let items: Vec<Labeled> = Vec::new();
    assert_eq!(Labeled::average(&items), Err(EmptySeriesError));
}
