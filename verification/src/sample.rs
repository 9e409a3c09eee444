//! The value types exchanged with a measurement agent.
//!
//! A `MeasureResponse` is one probe observation: the timing breakdown of a
//! single HTTP request as measured by an agent. All durations are carried in
//! whole nanoseconds. The two optional phases are `None` when the agent
//! genuinely skipped that phase (cached DNS resolution, non-TLS target) —
//! never as a stand-in for a failed measurement; failures are represented at
//! the series level.

use vstd::prelude::*;

verus! {

/// The request body sent to an agent: the URL its probe should measure.
pub struct MeasureRequest {
    pub target: String,
}

/// One probe observation. Durations are in nanoseconds.
#[derive(Debug, PartialEq, Eq)]
pub struct MeasureResponse {
    /// Time spent on a fresh DNS resolution; `None` when none was performed.
    pub dns_lookup_duration: Option<u64>,
    /// Time to establish the TCP connection.
    pub tcp_connect_duration: u64,
    /// Time to send the HTTP GET request.
    pub http_get_send_duration: u64,
    /// Time from request dispatch to the first response byte.
    pub ttfb_duration: u64,
    /// Time spent in the TLS handshake; `None` for non-TLS targets.
    pub tls_handshake_duration: Option<u64>,
    /// Diagnostic origin of the observation (e.g. resolved peer address);
    /// not load-bearing for aggregation.
    pub source_identifier: String,
}

/// The mathematical value of one sample: its five durations and the
/// character sequence of its diagnostic identifier.
#[verifier::ext_equal]
pub ghost struct SampleModel {
    pub dns: Option<u64>,
    pub tcp: u64,
    pub send: u64,
    pub ttfb: u64,
    pub tls: Option<u64>,
    pub src: Seq<char>,
}

impl View for MeasureResponse {
    type V = SampleModel;

    open spec fn view(&self) -> SampleModel {
        SampleModel {
            dns: self.dns_lookup_duration,
            tcp: self.tcp_connect_duration,
            send: self.http_get_send_duration,
            ttfb: self.ttfb_duration,
            tls: self.tls_handshake_duration,
            src: self.source_identifier@,
        }
    }
}

/// The models of a series of samples, in series order.
pub open spec fn series_model(s: Seq<MeasureResponse>) -> Seq<SampleModel> {
    s.map_values(|m: MeasureResponse| m@)
}

impl MeasureResponse {
    /// An exact copy of this sample.
    pub fn duplicate(&self) -> (r: MeasureResponse)
        ensures
            r@ == self@,
    {
        MeasureResponse {
            dns_lookup_duration: self.dns_lookup_duration,
            tcp_connect_duration: self.tcp_connect_duration,
            http_get_send_duration: self.http_get_send_duration,
            ttfb_duration: self.ttfb_duration,
            tls_handshake_duration: self.tls_handshake_duration,
            source_identifier: copy_string(&self.source_identifier),
        }
    }
}

/// An exact copy of a string.
pub fn copy_string(s: &String) -> (r: String)
    ensures
        r@ == s@,
{
    s.as_str().to_owned()
}

/// An exact copy of a series of samples.
pub fn copy_series(s: &Vec<MeasureResponse>) -> (r: Vec<MeasureResponse>)
    ensures
        series_model(r@) =~= series_model(s@),
        r@.len() == s@.len(),
{
    let mut out: Vec<MeasureResponse> = Vec::new();
    let mut i: usize = 0;
    while i < s.len()
        invariant
            i <= s@.len(),
            out@.len() == i,
            forall|k: int| 0 <= k < i ==> out@[k]@ == s@[k]@,
        decreases s@.len() - i,
    {
        out.push(s[i].duplicate());
        i = i + 1;
    }
    out
}

} // verus!
