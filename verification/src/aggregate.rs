//! Aggregation of an ordered series of samples into one average sample.
//!
//! Each non-optional duration field of the average is the truncating integer
//! mean of that field across the series. Each optional field propagates
//! absence: the average has the field only when every sample in the series
//! has it; a single absent observation makes the aggregate absent — it is
//! never treated as zero and never lowers the divisor. An empty series is
//! rejected rather than divided by zero.

use vstd::prelude::*;

use crate::sample::MeasureResponse;
use crate::sample::SampleModel;
use crate::sample::copy_string;
use crate::sample::series_model;

verus! {

/// Aggregation was requested on a series with zero samples.
#[derive(Debug, PartialEq, Eq)]
pub struct EmptySeriesError;

/// Sum of the TCP-connect durations of a series.
pub open spec fn sum_tcp(s: Seq<SampleModel>) -> int
    decreases s.len(),
{
    if s.len() == 0 {
        0
    } else {
        sum_tcp(s.drop_last()) + s.last().tcp as int
    }
}

/// Sum of the HTTP-GET-send durations of a series.
pub open spec fn sum_send(s: Seq<SampleModel>) -> int
    decreases s.len(),
{
    if s.len() == 0 {
        0
    } else {
        sum_send(s.drop_last()) + s.last().send as int
    }
}

/// Sum of the time-to-first-byte durations of a series.
pub open spec fn sum_ttfb(s: Seq<SampleModel>) -> int
    decreases s.len(),
{
    if s.len() == 0 {
        0
    } else {
        sum_ttfb(s.drop_last()) + s.last().ttfb as int
    }
}

/// Whether every sample of the series carries a DNS-lookup duration.
pub open spec fn all_dns_present(s: Seq<SampleModel>) -> bool {
    forall|k: int| 0 <= k < s.len() ==> s[k].dns is Some
}

/// Whether every sample of the series carries a TLS-handshake duration.
pub open spec fn all_tls_present(s: Seq<SampleModel>) -> bool {
    forall|k: int| 0 <= k < s.len() ==> s[k].tls is Some
}

/// Sum of the DNS-lookup durations that are present in a series.
pub open spec fn sum_dns(s: Seq<SampleModel>) -> int
    decreases s.len(),
{
    if s.len() == 0 {
        0
    } else {
        sum_dns(s.drop_last()) + (match s.last().dns {
            Some(d) => d as int,
            None => 0,
        })
    }
}

/// Sum of the TLS-handshake durations that are present in a series.
pub open spec fn sum_tls(s: Seq<SampleModel>) -> int
    decreases s.len(),
{
    if s.len() == 0 {
        0
    } else {
        sum_tls(s.drop_last()) + (match s.last().tls {
            Some(d) => d as int,
            None => 0,
        })
    }
}

/// The average of a non-empty series: each non-optional field is the
/// truncating mean of that field; each optional field is the mean when every
/// sample has it and absent otherwise; the diagnostic identifier is carried
/// over from the first sample.
pub open spec fn average_spec(s: Seq<SampleModel>) -> SampleModel
    recommends
        s.len() > 0,
{
    SampleModel {
        dns: if all_dns_present(s) {
            Some((sum_dns(s) / s.len() as int) as u64)
        } else {
            None
        },
        tcp: (sum_tcp(s) / s.len() as int) as u64,
        send: (sum_send(s) / s.len() as int) as u64,
        ttfb: (sum_ttfb(s) / s.len() as int) as u64,
        tls: if all_tls_present(s) {
            Some((sum_tls(s) / s.len() as int) as u64)
        } else {
            None
        },
        src: s[0].src,
    }
}

/// Reduces an ordered series of samples to its null-propagating average.
/// Fails exactly on the empty series; succeeds on every other series.
pub fn average(items: &Vec<MeasureResponse>) -> (r: Result<
    MeasureResponse,
    EmptySeriesError,
>)
    ensures
        r is Ok <==> items@.len() > 0,
        r matches Ok(m) ==> m@ == average_spec(series_model(items@)),
{
    if items.len() == 0 {
        return Err(EmptySeriesError);
    }
    let ghost ms = series_model(items@);
    let mut dns_acc: Option<u128> = Some(0);
    let mut tls_acc: Option<u128> = Some(0);
    let mut tcp_acc: u128 = 0;
    let mut send_acc: u128 = 0;
    let mut ttfb_acc: u128 = 0;
    let mut i: usize = 0;
    while i < items.len()
        invariant
            i <= items@.len(),
            ms == series_model(items@),
            ms.len() == items@.len(),
            tcp_acc as int == sum_tcp(ms.take(i as int)),
            send_acc as int == sum_send(ms.take(i as int)),
            ttfb_acc as int == sum_ttfb(ms.take(i as int)),
            tcp_acc as int <= i as int * 0xffff_ffff_ffff_ffff,
            send_acc as int <= i as int * 0xffff_ffff_ffff_ffff,
            ttfb_acc as int <= i as int * 0xffff_ffff_ffff_ffff,
            dns_acc is Some <==> all_dns_present(ms.take(i as int)),
            dns_acc matches Some(a) ==> a as int == sum_dns(ms.take(i as int))
                && a as int <= i as int * 0xffff_ffff_ffff_ffff,
            tls_acc is Some <==> all_tls_present(ms.take(i as int)),
            tls_acc matches Some(a) ==> a as int == sum_tls(ms.take(i as int))
                && a as int <= i as int * 0xffff_ffff_ffff_ffff,
        decreases items@.len() - i,
    {
        proof {
            assert(ms.take(i + 1).drop_last() =~= ms.take(i as int));
            assert(ms.take(i + 1).last() == ms[i as int]);
            assert(ms[i as int] == items@[i as int]@);
        }
        tcp_acc = tcp_acc + items[i].tcp_connect_duration as u128;
        send_acc = send_acc + items[i].http_get_send_duration as u128;
        ttfb_acc = ttfb_acc + items[i].ttfb_duration as u128;
        dns_acc = match (dns_acc, items[i].dns_lookup_duration) {
            (Some(a), Some(d)) => Some(a + d as u128),
            _ => None,
        };
        tls_acc = match (tls_acc, items[i].tls_handshake_duration) {
            (Some(a), Some(d)) => Some(a + d as u128),
            _ => None,
        };
        i = i + 1;
        proof {
            if dns_acc is None {
                assert(ms.take(i as int)[i - 1].dns is None
                    || !all_dns_present(ms.take(i - 1)));
            }
            if tls_acc is None {
                assert(ms.take(i as int)[i - 1].tls is None
                    || !all_tls_present(ms.take(i - 1)));
            }
        }
    }
    proof {
        assert(ms.take(items@.len() as int) =~= ms);
    }
    let n = items.len() as u128;
    proof {
        lemma_mean_fits(tcp_acc as int, n as int);
        lemma_mean_fits(send_acc as int, n as int);
        lemma_mean_fits(ttfb_acc as int, n as int);
        if let Some(a) = dns_acc {
            lemma_mean_fits(a as int, n as int);
        }
        if let Some(a) = tls_acc {
            lemma_mean_fits(a as int, n as int);
        }
    }
    let out = MeasureResponse {
        dns_lookup_duration: match dns_acc {
            Some(a) => Some((a / n) as u64),
            None => None,
        },
        tcp_connect_duration: (tcp_acc / n) as u64,
        http_get_send_duration: (send_acc / n) as u64,
        ttfb_duration: (ttfb_acc / n) as u64,
        tls_handshake_duration: match tls_acc {
            Some(a) => Some((a / n) as u64),
            None => None,
        },
        source_identifier: copy_string(&items[0].source_identifier),
    };
    proof {
        assert(out@ =~= average_spec(ms));
    }
    Ok(out)
}

/// A sum of at most `n` durations, divided by `n`, fits back in a duration.
proof fn lemma_mean_fits(sum: int, n: int)
    requires
        1 <= n,
        0 <= sum <= n * 0xffff_ffff_ffff_ffff,
    ensures
        0 <= sum / n <= 0xffff_ffff_ffff_ffff,
{
    assert(sum / n <= 0xffff_ffff_ffff_ffff) by (nonlinear_arith)
        requires
            1 <= n,
            0 <= sum <= n * 0xffff_ffff_ffff_ffff,
    ;
    assert(sum / n >= 0) by (nonlinear_arith)
        requires
            1 <= n,
            0 <= sum,
    ;
}

/// Null propagation: one absent optional observation makes the aggregate
/// field absent; when every observation has the field, the aggregate is its
/// truncating arithmetic mean.
pub proof fn lemma_null_propagation(s: Seq<SampleModel>)
    requires
        s.len() > 0,
    ensures
        !all_dns_present(s) ==> average_spec(s).dns is None,
        all_dns_present(s) ==> average_spec(s).dns == Some(
            (sum_dns(s) / s.len() as int) as u64,
        ),
        !all_tls_present(s) ==> average_spec(s).tls is None,
        all_tls_present(s) ==> average_spec(s).tls == Some(
            (sum_tls(s) / s.len() as int) as u64,
        ),
{
}

/// Non-optional averaging: each always-present field of the average is the
/// field's sum divided by the series length, truncating toward zero.
pub proof fn lemma_non_optional_mean(s: Seq<SampleModel>)
    requires
        s.len() > 0,
    ensures
        average_spec(s).tcp == (sum_tcp(s) / s.len() as int) as u64,
        average_spec(s).send == (sum_send(s) / s.len() as int) as u64,
        average_spec(s).ttfb == (sum_ttfb(s) / s.len() as int) as u64,
{
}

/// A sample labeled with the URL it was measured against.
#[derive(Debug)]
pub struct Labeled {
    pub label: String,
    pub inner: MeasureResponse,
}

/// The models of the samples inside a series of labeled samples.
pub open spec fn labeled_models(v: Seq<Labeled>) -> Seq<SampleModel> {
    v.map_values(|l: Labeled| l.inner@)
}

impl Labeled {
    /// Labels a sample with the URL it was measured against.
    pub fn new(inner: MeasureResponse, label: String) -> (r: Labeled)
        ensures
            r.label@ == label@,
            r.inner == inner,
    {
        Labeled { label, inner }
    }

    /// The null-propagating average of the samples inside a series of
    /// labeled samples. Fails exactly on the empty series.
    pub fn average(items: &Vec<Labeled>) -> (r: Result<MeasureResponse, EmptySeriesError>)
        ensures
            r is Ok <==> items@.len() > 0,
            r matches Ok(m) ==> m@ == average_spec(labeled_models(items@)),
    {
        let mut inners: Vec<MeasureResponse> = Vec::new();
        let mut i: usize = 0;
        while i < items.len()
            invariant
                i <= items@.len(),
                inners@.len() == i,
                forall|k: int| 0 <= k < i ==> (#[trigger] inners@[k])@ == items@[k].inner@,
            decreases items@.len() - i,
        {
            inners.push(items[i].inner.duplicate());
            i = i + 1;
        }
        proof {
            assert(series_model(inners@) =~= labeled_models(items@));
        }
        average(&inners)
    }
}

/// Single-sample identity: the average of a one-sample series is that sample.
pub proof fn lemma_single_sample_identity(s: Seq<SampleModel>)
    requires
        s.len() == 1,
    ensures
        average_spec(s) == s[0],
{
    let t = s.drop_last();
    assert(t.len() == 0);
    assert(sum_tcp(t) == 0 && sum_send(t) == 0 && sum_ttfb(t) == 0 && sum_dns(t) == 0
        && sum_tls(t) == 0);
    assert(s.last() == s[0]);
    assert(sum_tcp(s) == s[0].tcp as int);
    assert(sum_send(s) == s[0].send as int);
    assert(sum_ttfb(s) == s[0].ttfb as int);
    assert(sum_dns(s) == match s[0].dns {
        Some(d) => d as int,
        None => 0,
    });
    assert(sum_tls(s) == match s[0].tls {
        Some(d) => d as int,
        None => 0,
    });
    assert(average_spec(s) =~= s[0]);
}

} // verus!
