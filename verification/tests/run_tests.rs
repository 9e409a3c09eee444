use measure::driver::DispatchMode;
use measure::run::{CliArgs, ConfigError, Runtime};
use measure::sample::MeasureResponse;

fn args(
    target: Option<&str>,
    comparison: Option<&str>,
    services: Option<Vec<&str>>,
) -> CliArgs {
    CliArgs {
        target_request_url: target.map(|s| s.to_string()),
        comparison_url: comparison.map(|s| s.to_string()),
        services: services.map(|v| v.into_iter().map(|s| s.to_string()).collect()),
        average: false,
        times: 2,
        delay: 500,
        output_dir: None,
        flood: false,
        concurrency_cap: None,
    }
}

fn sample(ttfb: u64) -> MeasureResponse {
    MeasureResponse {
        dns_lookup_duration: Some(3),
        tcp_connect_duration: 1,
        http_get_send_duration: 2,
        ttfb_duration: ttfb,
        tls_handshake_duration: None,
        source_identifier: String::new(),
    }
}

#[test]
fn jobs_prefer_explicit_values_over_discovered() {
    let a = args(Some("http://t"), None, Some(vec!["http://s1:3000"]));
    let jobs = a
        .jobs(Some(vec!["http://other:3000".to_string()]), Some("http://deployed".to_string()))
        .unwrap();
    assert_eq!(jobs.services, vec!["http://s1:3000"]);
    assert_eq!(jobs.target_url, "http://t");
    assert_eq!(jobs.comparison_url, None);
}

#[test]
fn jobs_fall_back_to_discovered_values() {
    let a = args(None, Some("http://c"), None);
    let jobs = a
        .jobs(Some(vec!["http://d1:3000".to_string()]), Some("http://deployed".to_string()))
        .unwrap();
    assert_eq!(jobs.services, vec!["http://d1:3000"]);
    assert_eq!(jobs.target_url, "http://deployed");
    assert_eq!(jobs.comparison_url, Some("http://c".to_string()));
}

#[test]
fn jobs_without_services_fail_first() {
    let a = args(None, None, None);
    assert_eq!(a.jobs(None, None).unwrap_err(), ConfigError::NoServices);
}

#[test]
fn jobs_without_target_url_fail() {
    let a = args(None, None, Some(vec!["http://s1:3000"]));
    assert_eq!(a.jobs(None, None).unwrap_err(), ConfigError::NoTargetUrl);
}

#[test]
fn runtime_flood_flag_selects_concurrent_mode() {
    let mut a = args(Some("http://t"), None, Some(vec!["http://s1:3000"]));
    a.flood = true;
    let rt = Runtime::new(a, None, None).unwrap();
    assert_eq!(rt.mode, DispatchMode::Concurrent);
    let b = args(Some("http://t"), None, Some(vec!["http://s1:3000"]));
    let rt = Runtime::new(b, None, None).unwrap();
    assert_eq!(rt.mode, DispatchMode::Sequential);
}

#[test]
fn run_with_comparison_keeps_key_parity() {
    let a = args(Some("http://t"), Some("http://c"), Some(vec!["agent-a", "agent-b"]));
    let mut rt = Runtime::new(a, None, None).unwrap();

    // The coordinator hands out jobs agent by agent, target before
    // comparison, and the driver results are filed back in that order.
    let mut seen = Vec::new();
    let mut ttfb = 0;
    while let Some(job) = rt.next_job() {
        seen.push((job.agent.clone(), job.url.clone(), job.comparison));
        rt.record_series(vec![sample(ttfb), sample(ttfb + 1)], job.comparison);
        ttfb += 10;
    }
    assert_eq!(
        seen,
        vec![
            ("agent-a".to_string(), "http://t".to_string(), false),
            ("agent-a".to_string(), "http://c".to_string(), true),
            ("agent-b".to_string(), "http://t".to_string(), false),
            ("agent-b".to_string(), "http://c".to_string(), true),
        ]
    );
    assert!(rt.is_complete());

    let out = rt.output();
    let target_keys: Vec<&String> = out.target_results.iter().map(|e| &e.0).collect();
    let comp = out.comparison_results.as_ref().unwrap();
    let comp_keys: Vec<&String> = comp.iter().map(|e| &e.0).collect();
    assert_eq!(target_keys, comp_keys);
    assert_eq!(target_keys, vec!["agent-a", "agent-b"]);
    assert_eq!(out.target_results[0].1[0].ttfb_duration, 0);
    assert_eq!(comp[1].1[1].ttfb_duration, 31);
}

#[test]
fn run_derived_output_document_round_trips() {
    let a = args(Some("http://t"), Some("http://c"), Some(vec!["agent-a", "agent-b"]));
    let mut rt = Runtime::new(a, None, None).unwrap();
    let mut ttfb = 5;
    while let Some(job) = rt.next_job() {
        rt.record_series(vec![sample(ttfb)], job.comparison);
        ttfb += 1;
    }
    assert!(rt.is_complete());
    let out = rt.output();
    let bytes = measure::codec::encode_output(&out);
    let decoded = measure::codec::decode_output(&bytes).unwrap();
    assert_eq!(decoded.target_results, out.target_results);
    assert_eq!(decoded.comparison_results, out.comparison_results);
}

#[test]
fn run_aborted_midway_is_not_complete() {
    let a = args(Some("http://t"), None, Some(vec!["agent-a", "agent-b"]));
    let mut rt = Runtime::new(a, None, None).unwrap();
    let job = rt.next_job().unwrap();
    assert_eq!(job.agent, "agent-a");
    rt.record_series(vec![sample(1), sample(2)], false);
    // The drive for agent-b fails in sequential mode: the caller stops
    // here, and the run never completes — no output document exists.
    assert!(!rt.is_complete());
    assert!(rt.next_job().is_some());
}
