use measure::codec::{decode_output, encode_output, DecodeError};
use measure::run::Output;
use measure::sample::MeasureResponse;

fn sample(dns: Option<u64>, ttfb: u64, src: &str) -> MeasureResponse {
    MeasureResponse {
        dns_lookup_duration: dns,
        tcp_connect_duration: 11,
        http_get_send_duration: 22,
        ttfb_duration: ttfb,
        tls_handshake_duration: dns.map(|d| d + 1),
        source_identifier: src.to_string(),
    }
}

fn two_agent_output() -> Output {
    Output {
        target_results: vec![
            (
                "http://agent-a:3000".to_string(),
                vec![sample(Some(5), 100, "10.0.0.1:443"), sample(None, 101, "")],
            ),
            ("http://agent-b:3000".to_string(), vec![sample(Some(7), 200, "peer")]),
        ],
        comparison_results: Some(vec![
            ("http://agent-a:3000".to_string(), vec![sample(None, 300, "x")]),
            ("http://agent-b:3000".to_string(), Vec::new()),
        ]),
    }
}

#[test]
fn output_round_trip_preserves_keys_and_series() {
    let original = two_agent_output();
    let bytes = encode_output(&original);
    let decoded = decode_output(&bytes).unwrap();
    assert_eq!(decoded.target_results, original.target_results);
    assert_eq!(decoded.comparison_results, original.comparison_results);
}

#[test]
fn output_round_trip_without_comparison() {
    let original = Output {
        target_results: vec![("a".to_string(), vec![sample(Some(1), 2, "s")])],
        comparison_results: None,
    };
    let bytes = encode_output(&original);
    let decoded = decode_output(&bytes).unwrap();
    assert_eq!(decoded.target_results, original.target_results);
    assert!(decoded.comparison_results.is_none());
}

#[test]
fn output_round_trip_keeps_non_ascii_keys() {
    // Multi-byte UTF-8 in keys and identifiers goes through the byte
    // framing and comes back character for character.
    let original = Output {
        target_results: vec![(
            "agent-\u{00fc}\u{6e2c}".to_string(),
            vec![sample(None, 1, "p\u{00e9}er")],
        )],
        comparison_results: None,
    };
    let bytes = encode_output(&original);
    let decoded = decode_output(&bytes).unwrap();
    assert_eq!(decoded.target_results[0].0, "agent-\u{00fc}\u{6e2c}");
    assert_eq!(decoded.target_results[0].1[0].source_identifier, "p\u{00e9}er");
}

#[test]
fn output_round_trip_of_empty_document() {
    let original = Output { target_results: Vec::new(), comparison_results: Some(Vec::new()) };
    let bytes = encode_output(&original);
    let decoded = decode_output(&bytes).unwrap();
    assert!(decoded.target_results.is_empty());
    assert_eq!(decoded.comparison_results, Some(Vec::new()));
}

#[test]
fn decode_rejects_garbage() {
    assert_eq!(decode_output(&vec![1, 2, 3]).unwrap_err(), DecodeError);
    assert_eq!(decode_output(&Vec::new()).unwrap_err(), DecodeError);
}

#[test]
fn decode_rejects_trailing_bytes() {
    let mut bytes = encode_output(&two_agent_output());
    bytes.push(0);
    assert_eq!(decode_output(&bytes).unwrap_err(), DecodeError);
}

#[test]
fn decode_rejects_truncation() {
    let bytes = encode_output(&two_agent_output());
    let truncated: Vec<u8> = bytes[..bytes.len() - 1].to_vec();
    assert_eq!(decode_output(&truncated).unwrap_err(), DecodeError);
}

#[test]
fn decode_rejects_invalid_utf8_key() {
    // A one-entry mapping whose key claims length 1 but holds a stray
    // continuation byte: the string framing must reject it.
    let mut bytes = Vec::new();
    bytes.extend_from_slice(&1u64.to_le_bytes()); // one entry
    bytes.extend_from_slice(&1u64.to_le_bytes()); // key length 1
    bytes.push(0xFF); // not valid UTF-8
    bytes.extend_from_slice(&0u64.to_le_bytes()); // empty series
    bytes.push(0); // no comparison mapping
    assert_eq!(decode_output(&bytes).unwrap_err(), DecodeError);
}
