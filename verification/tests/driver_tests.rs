use measure::driver::{ConcurrentDrive, ProbeError, SequentialDrive};
use measure::sample::MeasureResponse;

fn sample(ttfb: u64) -> MeasureResponse {
    MeasureResponse {
        dns_lookup_duration: None,
        tcp_connect_duration: 1,
        http_get_send_duration: 2,
        ttfb_duration: ttfb,
        tls_handshake_duration: None,
        source_identifier: String::new(),
    }
}

#[test]
fn sequential_drive_collects_in_dispatch_order() {
    let times = 3;
    let delay = 500;
    let mut d = SequentialDrive::new(times, delay);
    let mut commanded_waits = Vec::new();
    while let Some(dispatch) = d.next_dispatch() {
        commanded_waits.push(dispatch.wait_before_ms);
        // The mock probe always succeeds; attempt i returns ttfb 100 + i.
        let outcome = Ok(sample(100 + dispatch.attempt as u64));
        assert!(d.on_outcome(outcome).is_ok());
    }
    // Exactly T samples, in dispatch order.
    assert!(d.is_complete());
    let series = d.into_series("http://target".to_string());
    assert_eq!(series.label, "http://target");
    assert_eq!(series.samples.len(), times);
    for (i, s) in series.samples.iter().enumerate() {
        assert_eq!(s.ttfb_duration, 100 + i as u64);
    }
    // No wait before the first attempt, the full delay before every later
    // one: the drive commands (T - 1) * delay of waiting in total.
    assert_eq!(commanded_waits, vec![0, 500, 500]);
    assert_eq!(commanded_waits.iter().sum::<u64>(), (times as u64 - 1) * delay);
}

#[test]
fn sequential_drive_fails_fast_without_partial_series() {
    let mut d = SequentialDrive::new(3, 100);

    let first = d.next_dispatch().unwrap();
    assert_eq!(first.attempt, 0);
    assert!(d.on_outcome(Ok(sample(1))).is_ok());

    // The mock probe fails on attempt k = 2.
    let second = d.next_dispatch().unwrap();
    assert_eq!(second.attempt, 1);
    let err = ProbeError::Transport("connection refused".to_string());
    let r = d.on_outcome(Err(err.clone()));
    assert_eq!(r, Err(err));

    // The drive aborts: no further attempt is commanded, the drive never
    // completes, and no series — not even one of length k - 1 — comes out.
    assert!(d.next_dispatch().is_none());
    assert!(!d.is_complete());
}

#[test]
fn concurrent_drive_keeps_submission_order() {
    let mut d = ConcurrentDrive::new(4);
    // Outcomes settle in reversed completion order: later-submitted
    // attempts finish first. Attempt 1 fails.
    d.on_outcome(3, Ok(sample(203)));
    d.on_outcome(2, Ok(sample(202)));
    d.on_outcome(1, Err(ProbeError::Agent("probe failed".to_string())));
    d.on_outcome(0, Ok(sample(200)));
    assert!(d.all_settled());
    let series = d.into_series("http://target".to_string());
    // Each success sits at its submission index, the failed position is
    // closed up, not left as a gap.
    let ttfbs: Vec<u64> = series.samples.iter().map(|s| s.ttfb_duration).collect();
    assert_eq!(ttfbs, vec![200, 202, 203]);
}

#[test]
fn concurrent_drive_tolerates_partial_failure() {
    let times = 5;
    let failures = [1, 3];
    let mut d = ConcurrentDrive::new(times);
    for i in 0..times {
        if failures.contains(&i) {
            d.on_outcome(i, Err(ProbeError::Transport("timeout".to_string())));
        } else {
            d.on_outcome(i, Ok(sample(i as u64)));
        }
    }
    assert!(d.all_settled());
    // No error reaches the caller; the series has length T - f.
    let series = d.into_series("u".to_string());
    assert_eq!(series.samples.len(), times - failures.len());
}

#[test]
fn concurrent_drive_not_settled_while_in_flight() {
    let mut d = ConcurrentDrive::new(2);
    d.on_outcome(1, Ok(sample(7)));
    assert!(!d.all_settled());
    d.on_outcome(0, Ok(sample(8)));
    assert!(d.all_settled());
}
