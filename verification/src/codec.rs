//! The persisted form of the output document, and its codec.
//!
//! The document is framed as bytes: integers little-endian in eight bytes,
//! optional durations behind a one-byte presence tag, strings as their
//! UTF-8 bytes behind a length, lists behind a count, the comparison
//! mapping behind a one-byte presence tag. Decoding accepts exactly what
//! encoding produces and rejects everything else, so an encoded document
//! decodes back to the identical document: same agent keys, same series
//! lengths, same per-field durations.

use vstd::bytes::lemma_auto_spec_u64_to_from_le_bytes;
use vstd::bytes::spec_u64_from_le_bytes;
use vstd::bytes::spec_u64_to_le_bytes;
use vstd::bytes::u64_from_le_bytes;
use vstd::bytes::u64_to_le_bytes;
use vstd::prelude::*;
use vstd::slice::slice_subrange;
use vstd::string::StrSliceExecFns;
use vstd::utf8::decode_utf8;
use vstd::utf8::encode_utf8;
use vstd::utf8::encode_utf8_decode_utf8;
use vstd::utf8::encode_utf8_valid_utf8;
use vstd::utf8::valid_utf8;

use crate::run::Output;
use crate::run::OutputModel;
use crate::run::entries_model;
use crate::sample::MeasureResponse;
use crate::sample::SampleModel;
use crate::sample::series_model;

verus! {

/// The document held bytes that no encoded document contains.
#[derive(Debug, PartialEq, Eq)]
pub struct DecodeError;

// ---------------------------------------------------------------------------
// The encoding, as a function on models.
// ---------------------------------------------------------------------------

/// A duration or count: eight bytes, little-endian.
pub open spec fn enc_u64(n: u64) -> Seq<u8> {
    spec_u64_to_le_bytes(n)
}

/// An optional duration: a zero byte, or a one byte and the duration.
pub open spec fn enc_opt_u64(d: Option<u64>) -> Seq<u8> {
    match d {
        None => seq![0u8],
        Some(n) => seq![1u8] + enc_u64(n),
    }
}

/// A string: the length of its UTF-8 bytes, then those bytes.
pub open spec fn enc_chars(s: Seq<char>) -> Seq<u8> {
    enc_u64(encode_utf8(s).len() as u64) + encode_utf8(s)
}

/// One sample: its five durations in field order, then its identifier.
pub open spec fn enc_sample(m: SampleModel) -> Seq<u8> {
    enc_opt_u64(m.dns) + enc_u64(m.tcp) + enc_u64(m.send) + enc_u64(m.ttfb) + enc_opt_u64(m.tls)
        + enc_chars(m.src)
}

/// The samples of a series, in order, without their count.
pub open spec fn enc_sample_list(ss: Seq<SampleModel>) -> Seq<u8>
    decreases ss.len(),
{
    if ss.len() == 0 {
        Seq::empty()
    } else {
        enc_sample(ss.first()) + enc_sample_list(ss.drop_first())
    }
}

/// A series: its sample count, then its samples in order.
pub open spec fn enc_samples(ss: Seq<SampleModel>) -> Seq<u8> {
    enc_u64(ss.len() as u64) + enc_sample_list(ss)
}

/// One mapping entry: the agent key, then its series.
pub open spec fn enc_entry(e: (Seq<char>, Seq<SampleModel>)) -> Seq<u8> {
    enc_chars(e.0) + enc_samples(e.1)
}

/// The entries of a mapping, in order, without their count.
pub open spec fn enc_entry_list(es: Seq<(Seq<char>, Seq<SampleModel>)>) -> Seq<u8>
    decreases es.len(),
{
    if es.len() == 0 {
        Seq::empty()
    } else {
        enc_entry(es.first()) + enc_entry_list(es.drop_first())
    }
}

/// A mapping: its entry count, then its entries in order.
pub open spec fn enc_entries(es: Seq<(Seq<char>, Seq<SampleModel>)>) -> Seq<u8> {
    enc_u64(es.len() as u64) + enc_entry_list(es)
}

/// The whole document: the target mapping, then the comparison mapping
/// behind a presence tag.
pub open spec fn enc_output(m: OutputModel) -> Seq<u8> {
    enc_entries(m.target) + (match m.comparison {
        None => seq![0u8],
        Some(es) => seq![1u8] + enc_entries(es),
    })
}

// ---------------------------------------------------------------------------
// The sizes an encodable document may have. Every document built from
// in-memory values satisfies these; they only exclude mathematical models
// too large for the length fields.
// ---------------------------------------------------------------------------

/// The string's UTF-8 bytes can be counted in a length field.
pub open spec fn chars_wf(s: Seq<char>) -> bool {
    encode_utf8(s).len() < 0x1_0000_0000_0000_0000
}

/// The sample's identifier can be framed.
pub open spec fn sample_wf(m: SampleModel) -> bool {
    chars_wf(m.src)
}

/// The series' length and every sample of it can be framed.
pub open spec fn series_wf(ss: Seq<SampleModel>) -> bool {
    &&& ss.len() < 0x1_0000_0000_0000_0000
    &&& forall|k: int| 0 <= k < ss.len() ==> sample_wf(#[trigger] ss[k])
}

/// The mapping's length and every entry of it can be framed.
pub open spec fn entries_wf(es: Seq<(Seq<char>, Seq<SampleModel>)>) -> bool {
    &&& es.len() < 0x1_0000_0000_0000_0000
    &&& forall|k: int|
        0 <= k < es.len() ==> chars_wf((#[trigger] es[k]).0) && series_wf(es[k].1)
}

/// The whole document can be framed.
pub open spec fn output_wf(m: OutputModel) -> bool {
    &&& entries_wf(m.target)
    &&& match m.comparison {
        Some(es) => entries_wf(es),
        None => true,
    }
}

// ---------------------------------------------------------------------------
// The parse, as a function on byte sequences: each piece yields its value
// and the bytes that follow it, or nothing on any malformed input.
// ---------------------------------------------------------------------------

pub open spec fn parse_u64(b: Seq<u8>) -> Option<(u64, Seq<u8>)> {
    if b.len() >= 8 {
        Some((spec_u64_from_le_bytes(b.take(8)), b.skip(8)))
    } else {
        None
    }
}

pub open spec fn parse_opt_u64(b: Seq<u8>) -> Option<(Option<u64>, Seq<u8>)> {
    if b.len() < 1 {
        None
    } else if b.first() == 0u8 {
        Some((None, b.drop_first()))
    } else if b.first() == 1u8 {
        match parse_u64(b.drop_first()) {
            Some((n, r)) => Some((Some(n), r)),
            None => None,
        }
    } else {
        None
    }
}

pub open spec fn parse_chars(b: Seq<u8>) -> Option<(Seq<char>, Seq<u8>)> {
    match parse_u64(b) {
        Some((n, r)) => if r.len() >= n && valid_utf8(r.take(n as int)) {
            Some((decode_utf8(r.take(n as int)), r.skip(n as int)))
        } else {
            None
        },
        None => None,
    }
}

pub open spec fn parse_sample(b: Seq<u8>) -> Option<(SampleModel, Seq<u8>)> {
    match parse_opt_u64(b) {
        Some((dns, b1)) => match parse_u64(b1) {
            Some((tcp, b2)) => match parse_u64(b2) {
                Some((send, b3)) => match parse_u64(b3) {
                    Some((ttfb, b4)) => match parse_opt_u64(b4) {
                        Some((tls, b5)) => match parse_chars(b5) {
                            Some((src, b6)) => Some(
                                (SampleModel { dns, tcp, send, ttfb, tls, src }, b6),
                            ),
                            None => None,
                        },
                        None => None,
                    },
                    None => None,
                },
                None => None,
            },
            None => None,
        },
        None => None,
    }
}

pub open spec fn parse_sample_list(b: Seq<u8>, n: nat) -> Option<(Seq<SampleModel>, Seq<u8>)>
    decreases n,
{
    if n == 0 {
        Some((Seq::empty(), b))
    } else {
        match parse_sample(b) {
            Some((m, r)) => match parse_sample_list(r, (n - 1) as nat) {
                Some((ms, r2)) => Some((seq![m] + ms, r2)),
                None => None,
            },
            None => None,
        }
    }
}

pub open spec fn parse_samples(b: Seq<u8>) -> Option<(Seq<SampleModel>, Seq<u8>)> {
    match parse_u64(b) {
        Some((n, r)) => parse_sample_list(r, n as nat),
        None => None,
    }
}

pub open spec fn parse_entry(b: Seq<u8>) -> Option<((Seq<char>, Seq<SampleModel>), Seq<u8>)> {
    match parse_chars(b) {
        Some((k, b1)) => match parse_samples(b1) {
            Some((ss, b2)) => Some(((k, ss), b2)),
            None => None,
        },
        None => None,
    }
}

pub open spec fn parse_entry_list(b: Seq<u8>, n: nat) -> Option<
    (Seq<(Seq<char>, Seq<SampleModel>)>, Seq<u8>),
>
    decreases n,
{
    if n == 0 {
        Some((Seq::empty(), b))
    } else {
        match parse_entry(b) {
            Some((e, r)) => match parse_entry_list(r, (n - 1) as nat) {
                Some((es, r2)) => Some((seq![e] + es, r2)),
                None => None,
            },
            None => None,
        }
    }
}

pub open spec fn parse_entries(b: Seq<u8>) -> Option<(Seq<(Seq<char>, Seq<SampleModel>)>, Seq<u8>)> {
    match parse_u64(b) {
        Some((n, r)) => parse_entry_list(r, n as nat),
        None => None,
    }
}

pub open spec fn parse_output(b: Seq<u8>) -> Option<(OutputModel, Seq<u8>)> {
    match parse_entries(b) {
        Some((t, r)) => if r.len() < 1 {
            None
        } else if r.first() == 0u8 {
            Some((OutputModel { target: t, comparison: None }, r.drop_first()))
        } else if r.first() == 1u8 {
            match parse_entries(r.drop_first()) {
                Some((c, r2)) => Some((OutputModel { target: t, comparison: Some(c) }, r2)),
                None => None,
            }
        } else {
            None
        },
        None => None,
    }
}

/// The parse of a whole document: every byte must be consumed.
pub open spec fn parse_output_doc(b: Seq<u8>) -> Option<OutputModel> {
    match parse_output(b) {
        Some((m, r)) => if r.len() == 0 {
            Some(m)
        } else {
            None
        },
        None => None,
    }
}

// ---------------------------------------------------------------------------
// The parse inverts the encoding.
// ---------------------------------------------------------------------------

proof fn seq_assoc<A>(a: Seq<A>, b: Seq<A>, c: Seq<A>)
    ensures
        (a + b) + c == a + (b + c),
{
    assert((a + b) + c =~= a + (b + c));
}

proof fn lemma_rt_u64(n: u64, rest: Seq<u8>)
    ensures
        enc_u64(n).len() == 8,
        parse_u64(enc_u64(n) + rest) == Some((n, rest)),
{
    lemma_auto_spec_u64_to_from_le_bytes();
    let b = enc_u64(n) + rest;
    assert(b.take(8) =~= enc_u64(n));
    assert(b.skip(8) =~= rest);
}

proof fn lemma_rt_opt_u64(d: Option<u64>, rest: Seq<u8>)
    ensures
        parse_opt_u64(enc_opt_u64(d) + rest) == Some((d, rest)),
{
    let b = enc_opt_u64(d) + rest;
    match d {
        None => {
            assert(b.first() == 0u8);
            assert(b.drop_first() =~= rest);
        },
        Some(n) => {
            assert(b.first() == 1u8);
            assert(b.drop_first() =~= enc_u64(n) + rest);
            lemma_rt_u64(n, rest);
        },
    }
}

proof fn lemma_rt_chars(s: Seq<char>, rest: Seq<u8>)
    requires
        chars_wf(s),
    ensures
        parse_chars(enc_chars(s) + rest) == Some((s, rest)),
{
    let bytes = encode_utf8(s);
    let n = bytes.len() as u64;
    let b = enc_chars(s) + rest;
    assert(b =~= enc_u64(n) + (bytes + rest));
    lemma_rt_u64(n, bytes + rest);
    let r = bytes + rest;
    assert(r.len() >= n);
    assert(r.take(n as int) =~= bytes);
    assert(r.skip(n as int) =~= rest);
    encode_utf8_valid_utf8(s);
    encode_utf8_decode_utf8(s);
}

proof fn lemma_rt_sample(m: SampleModel, rest: Seq<u8>)
    requires
        sample_wf(m),
    ensures
        parse_sample(enc_sample(m) + rest) == Some((m, rest)),
{
    let b = enc_sample(m) + rest;
    let r5 = enc_chars(m.src) + rest;
    let r4 = enc_opt_u64(m.tls) + r5;
    let r3 = enc_u64(m.ttfb) + r4;
    let r2 = enc_u64(m.send) + r3;
    let r1 = enc_u64(m.tcp) + r2;
    assert(b =~= enc_opt_u64(m.dns) + r1);
    lemma_rt_opt_u64(m.dns, r1);
    lemma_rt_u64(m.tcp, r2);
    lemma_rt_u64(m.send, r3);
    lemma_rt_u64(m.ttfb, r4);
    lemma_rt_opt_u64(m.tls, r5);
    lemma_rt_chars(m.src, rest);
    assert(SampleModel {
        dns: m.dns,
        tcp: m.tcp,
        send: m.send,
        ttfb: m.ttfb,
        tls: m.tls,
        src: m.src,
    } =~= m);
}

#[verifier::rlimit(50)]
#[verifier::spinoff_prover]
proof fn lemma_rt_sample_list(ss: Seq<SampleModel>, rest: Seq<u8>)
    requires
        series_wf(ss),
    ensures
        parse_sample_list(enc_sample_list(ss) + rest, ss.len()) == Some((ss, rest)),
    decreases ss.len(),
{
    if ss.len() == 0 {
        assert(enc_sample_list(ss) + rest =~= rest);
        assert(parse_sample_list(rest, 0) == Some((Seq::<SampleModel>::empty(), rest)));
        assert(Seq::<SampleModel>::empty() =~= ss);
    } else {
        let tail = ss.drop_first();
        assert(series_wf(tail)) by {
            assert(forall|k: int| 0 <= k < tail.len() ==> #[trigger] tail[k] == ss[k + 1]);
        }
        assert(sample_wf(ss.first()));
        let b = enc_sample_list(ss) + rest;
        seq_assoc(enc_sample(ss.first()), enc_sample_list(tail), rest);
        assert(b == enc_sample(ss.first()) + (enc_sample_list(tail) + rest));
        lemma_rt_sample(ss.first(), enc_sample_list(tail) + rest);
        lemma_rt_sample_list(tail, rest);
        assert(seq![ss.first()] + tail =~= ss);
    }
}

proof fn lemma_rt_samples(ss: Seq<SampleModel>, rest: Seq<u8>)
    requires
        series_wf(ss),
    ensures
        parse_samples(enc_samples(ss) + rest) == Some((ss, rest)),
{
    let n = ss.len() as u64;
    let b = enc_samples(ss) + rest;
    assert(b =~= enc_u64(n) + (enc_sample_list(ss) + rest));
    lemma_rt_u64(n, enc_sample_list(ss) + rest);
    lemma_rt_sample_list(ss, rest);
}

proof fn lemma_rt_entry(e: (Seq<char>, Seq<SampleModel>), rest: Seq<u8>)
    requires
        chars_wf(e.0),
        series_wf(e.1),
    ensures
        parse_entry(enc_entry(e) + rest) == Some((e, rest)),
{
    let b = enc_entry(e) + rest;
    assert(b =~= enc_chars(e.0) + (enc_samples(e.1) + rest));
    lemma_rt_chars(e.0, enc_samples(e.1) + rest);
    lemma_rt_samples(e.1, rest);
    assert((e.0, e.1) == e);
}

#[verifier::rlimit(50)]
#[verifier::spinoff_prover]
proof fn lemma_rt_entry_list(es: Seq<(Seq<char>, Seq<SampleModel>)>, rest: Seq<u8>)
    requires
        entries_wf(es),
    ensures
        parse_entry_list(enc_entry_list(es) + rest, es.len()) == Some((es, rest)),
    decreases es.len(),
{
    if es.len() == 0 {
        assert(enc_entry_list(es) + rest =~= rest);
        assert(Seq::<(Seq<char>, Seq<SampleModel>)>::empty() =~= es);
    } else {
        let tail = es.drop_first();
        assert(entries_wf(tail)) by {
            assert(forall|k: int| 0 <= k < tail.len() ==> #[trigger] tail[k] == es[k + 1]);
        }
        assert(chars_wf(es.first().0) && series_wf(es.first().1));
        let b = enc_entry_list(es) + rest;
        seq_assoc(enc_entry(es.first()), enc_entry_list(tail), rest);
        assert(b == enc_entry(es.first()) + (enc_entry_list(tail) + rest));
        lemma_rt_entry(es.first(), enc_entry_list(tail) + rest);
        lemma_rt_entry_list(tail, rest);
        assert(seq![es.first()] + tail =~= es);
    }
}

proof fn lemma_rt_entries(es: Seq<(Seq<char>, Seq<SampleModel>)>, rest: Seq<u8>)
    requires
        entries_wf(es),
    ensures
        parse_entries(enc_entries(es) + rest) == Some((es, rest)),
{
    let n = es.len() as u64;
    let b = enc_entries(es) + rest;
    assert(b =~= enc_u64(n) + (enc_entry_list(es) + rest));
    lemma_rt_u64(n, enc_entry_list(es) + rest);
    lemma_rt_entry_list(es, rest);
}

/// Output round-trip: decoding an encoded document yields the document
/// back — the identical agent keys, series and per-field durations — for
/// every document whose sizes fit the format's length fields (every
/// document assembled from in-memory values does).
pub proof fn lemma_output_round_trip(m: OutputModel)
    requires
        output_wf(m),
    ensures
        parse_output_doc(enc_output(m)) == Some(m),
{
    let b = enc_output(m);
    match m.comparison {
        None => {
            assert(b =~= enc_entries(m.target) + seq![0u8]);
            lemma_rt_entries(m.target, seq![0u8]);
            let r = seq![0u8];
            assert(r.first() == 0u8);
            assert(r.drop_first().len() == 0);
            assert(OutputModel { target: m.target, comparison: None } =~= m);
        },
        Some(es) => {
            assert(b =~= enc_entries(m.target) + (seq![1u8] + enc_entries(es)));
            lemma_rt_entries(m.target, seq![1u8] + enc_entries(es));
            let r = seq![1u8] + enc_entries(es);
            assert(r.first() == 1u8);
            assert(r.drop_first() =~= enc_entries(es) + Seq::<u8>::empty());
            lemma_rt_entries(es, Seq::<u8>::empty());
            assert(OutputModel { target: m.target, comparison: Some(es) } =~= m);
        },
    }
}

// ---------------------------------------------------------------------------
// The encoder.
// ---------------------------------------------------------------------------

fn emit_u64(buf: &mut Vec<u8>, n: u64)
    ensures
        final(buf)@ == old(buf)@ + enc_u64(n),
{
    let mut bs = u64_to_le_bytes(n);
    buf.append(&mut bs);
}

fn emit_opt_u64(buf: &mut Vec<u8>, d: Option<u64>)
    ensures
        final(buf)@ == old(buf)@ + enc_opt_u64(d),
{
    match d {
        None => {
            buf.push(0u8);
            proof {
                assert(old(buf)@.push(0u8) =~= old(buf)@ + enc_opt_u64(None));
            }
        },
        Some(n) => {
            buf.push(1u8);
            emit_u64(buf, n);
            proof {
                assert(old(buf)@.push(1u8) + enc_u64(n) =~= old(buf)@ + enc_opt_u64(Some(n)));
            }
        },
    }
}

fn emit_chars(buf: &mut Vec<u8>, s: &str)
    ensures
        final(buf)@ == old(buf)@ + enc_chars(s@),
{
    let mut bs = s.as_bytes_vec();
    emit_u64(buf, bs.len() as u64);
    buf.append(&mut bs);
    proof {
        assert(buf@ =~= old(buf)@ + enc_chars(s@));
    }
}

fn emit_sample(buf: &mut Vec<u8>, m: &MeasureResponse)
    ensures
        final(buf)@ == old(buf)@ + enc_sample(m@),
{
    emit_opt_u64(buf, m.dns_lookup_duration);
    emit_u64(buf, m.tcp_connect_duration);
    emit_u64(buf, m.http_get_send_duration);
    emit_u64(buf, m.ttfb_duration);
    emit_opt_u64(buf, m.tls_handshake_duration);
    emit_chars(buf, m.source_identifier.as_str());
    proof {
        assert(buf@ =~= old(buf)@ + enc_sample(m@));
    }
}

proof fn lemma_enc_sample_list_snoc(ss: Seq<SampleModel>)
    requires
        ss.len() > 0,
    ensures
        enc_sample_list(ss) == enc_sample_list(ss.drop_last()) + enc_sample(ss.last()),
    decreases ss.len(),
{
    if ss.len() == 1 {
        assert(enc_sample_list(ss.drop_first()) == Seq::<u8>::empty());
        assert(enc_sample_list(ss.drop_last()) == Seq::<u8>::empty());
        assert(ss.first() == ss.last());
        assert(enc_sample_list(ss) =~= enc_sample_list(ss.drop_last()) + enc_sample(ss.last()));
    } else {
        let t = ss.drop_first();
        lemma_enc_sample_list_snoc(t);
        assert(t.last() == ss.last());
        assert(t.drop_last() =~= ss.drop_last().drop_first());
        assert(ss.drop_last().first() == ss.first());
        assert(enc_sample_list(ss) =~= enc_sample_list(ss.drop_last()) + enc_sample(ss.last()));
    }
}

proof fn lemma_enc_entry_list_snoc(es: Seq<(Seq<char>, Seq<SampleModel>)>)
    requires
        es.len() > 0,
    ensures
        enc_entry_list(es) == enc_entry_list(es.drop_last()) + enc_entry(es.last()),
    decreases es.len(),
{
    if es.len() == 1 {
        assert(enc_entry_list(es.drop_first()) == Seq::<u8>::empty());
        assert(enc_entry_list(es.drop_last()) == Seq::<u8>::empty());
        assert(es.first() == es.last());
        assert(enc_entry_list(es) =~= enc_entry_list(es.drop_last()) + enc_entry(es.last()));
    } else {
        let t = es.drop_first();
        lemma_enc_entry_list_snoc(t);
        assert(t.last() == es.last());
        assert(t.drop_last() =~= es.drop_last().drop_first());
        assert(es.drop_last().first() == es.first());
        assert(enc_entry_list(es) =~= enc_entry_list(es.drop_last()) + enc_entry(es.last()));
    }
}

fn emit_samples(buf: &mut Vec<u8>, ss: &Vec<MeasureResponse>)
    ensures
        final(buf)@ == old(buf)@ + enc_samples(series_model(ss@)),
{
    let ghost ms = series_model(ss@);
    emit_u64(buf, ss.len() as u64);
    let ghost buf1 = buf@;
    proof {
        assert(enc_sample_list(ms.take(0)) == Seq::<u8>::empty());
        assert(buf1 + Seq::<u8>::empty() =~= buf1);
    }
    let mut i: usize = 0;
    while i < ss.len()
        invariant
            i <= ss@.len(),
            ms == series_model(ss@),
            ms.len() == ss@.len(),
            buf@ == buf1 + enc_sample_list(ms.take(i as int)),
        decreases ss@.len() - i,
    {
        emit_sample(buf, &ss[i]);
        proof {
            assert(ms.take(i as int + 1).drop_last() =~= ms.take(i as int));
            assert(ms.take(i as int + 1).last() == ms[i as int]);
            assert(ms[i as int] == ss@[i as int]@);
            lemma_enc_sample_list_snoc(ms.take(i as int + 1));
            assert(buf@ =~= buf1 + enc_sample_list(ms.take(i as int + 1)));
        }
        i = i + 1;
    }
    proof {
        assert(ms.take(ms.len() as int) =~= ms);
        assert(buf@ =~= old(buf)@ + enc_samples(ms));
    }
}

fn emit_entries(buf: &mut Vec<u8>, es: &Vec<(String, Vec<MeasureResponse>)>)
    ensures
        final(buf)@ == old(buf)@ + enc_entries(entries_model(es@)),
{
    let ghost em = entries_model(es@);
    emit_u64(buf, es.len() as u64);
    let ghost buf1 = buf@;
    proof {
        assert(enc_entry_list(em.take(0)) == Seq::<u8>::empty());
        assert(buf1 + Seq::<u8>::empty() =~= buf1);
    }
    let mut i: usize = 0;
    while i < es.len()
        invariant
            i <= es@.len(),
            em == entries_model(es@),
            em.len() == es@.len(),
            buf@ == buf1 + enc_entry_list(em.take(i as int)),
        decreases es@.len() - i,
    {
        let ghost buf_before = buf@;
        emit_chars(buf, es[i].0.as_str());
        emit_samples(buf, &es[i].1);
        proof {
            assert(em.take(i as int + 1).drop_last() =~= em.take(i as int));
            assert(em.take(i as int + 1).last() == em[i as int]);
            assert(em[i as int] == (es@[i as int].0@, series_model(es@[i as int].1@)));
            assert(buf@ =~= buf_before + enc_entry(em[i as int]));
            lemma_enc_entry_list_snoc(em.take(i as int + 1));
            assert(buf@ =~= buf1 + enc_entry_list(em.take(i as int + 1)));
        }
        i = i + 1;
    }
    proof {
        assert(em.take(em.len() as int) =~= em);
        assert(buf@ =~= old(buf)@ + enc_entries(em));
    }
}

/// Encodes an output document into its persisted byte form.
pub fn encode_output(o: &Output) -> (r: Vec<u8>)
    ensures
        r@ == enc_output(o@),
{
    let mut buf: Vec<u8> = Vec::new();
    emit_entries(&mut buf, &o.target_results);
    match &o.comparison_results {
        None => {
            buf.push(0u8);
        },
        Some(cr) => {
            buf.push(1u8);
            emit_entries(&mut buf, cr);
        },
    }
    proof {
        assert(buf@ =~= enc_output(o@));
    }
    buf
}

// ---------------------------------------------------------------------------
// The decoder.
// ---------------------------------------------------------------------------

/// Relies on str::from_utf8: it accepts exactly the valid UTF-8 byte
/// strings, and decodes such bytes to the character sequence they encode.
#[verifier::external_body]
fn bytes_to_string(v: &[u8]) -> (r: Option<String>)
    ensures
        r is Some <==> valid_utf8(v@),
        r matches Some(s) ==> s@ == decode_utf8(v@),
{
    match core::str::from_utf8(v) {
        Ok(s) => Some(s.to_owned()),
        Err(_) => None,
    }
}

fn read_u64(b: &Vec<u8>, pos: usize) -> (r: Option<(u64, usize)>)
    requires
        pos <= b@.len(),
    ensures
        r is Some <==> parse_u64(b@.skip(pos as int)) is Some,
        r matches Some((v, p)) ==> parse_u64(b@.skip(pos as int)) == Some((v, b@.skip(p as int)))
            && pos <= p <= b@.len(),
{
    if b.len() - pos >= 8 {
        let s = slice_subrange(b.as_slice(), pos, pos + 8);
        let v = u64_from_le_bytes(s);
        proof {
            assert(b@.skip(pos as int).take(8) =~= b@.subrange(pos as int, pos as int + 8));
            assert(b@.skip(pos as int).skip(8) =~= b@.skip(pos as int + 8));
        }
        Some((v, pos + 8))
    } else {
        None
    }
}

fn read_opt_u64(b: &Vec<u8>, pos: usize) -> (r: Option<(Option<u64>, usize)>)
    requires
        pos <= b@.len(),
    ensures
        r is Some <==> parse_opt_u64(b@.skip(pos as int)) is Some,
        r matches Some((v, p)) ==> parse_opt_u64(b@.skip(pos as int)) == Some(
            (v, b@.skip(p as int)),
        ) && pos <= p <= b@.len(),
{
    if pos < b.len() {
        proof {
            assert(b@.skip(pos as int).first() == b@[pos as int]);
            assert(b@.skip(pos as int).drop_first() =~= b@.skip(pos as int + 1));
        }
        let tag = b[pos];
        if tag == 0 {
            Some((None, pos + 1))
        } else if tag == 1 {
            match read_u64(b, pos + 1) {
                Some((n, p)) => Some((Some(n), p)),
                None => None,
            }
        } else {
            None
        }
    } else {
        None
    }
}

fn read_chars(b: &Vec<u8>, pos: usize) -> (r: Option<(String, usize)>)
    requires
        pos <= b@.len(),
    ensures
        r is Some <==> parse_chars(b@.skip(pos as int)) is Some,
        r matches Some((s, p)) ==> parse_chars(b@.skip(pos as int)) == Some(
            (s@, b@.skip(p as int)),
        ) && pos <= p <= b@.len(),
{
    match read_u64(b, pos) {
        Some((n, p1)) => {
            let rem = b.len() - p1;
            if n <= rem as u64 {
                let nn = n as usize;
                let sl = slice_subrange(b.as_slice(), p1, p1 + nn);
                proof {
                    assert(b@.skip(p1 as int).take(n as int) =~= b@.subrange(
                        p1 as int,
                        p1 as int + n as int,
                    ));
                    assert(b@.skip(p1 as int).skip(n as int) =~= b@.skip(p1 as int + n as int));
                }
                match bytes_to_string(sl) {
                    Some(s) => Some((s, p1 + nn)),
                    None => None,
                }
            } else {
                proof {
                    assert(b@.skip(p1 as int).len() < n);
                }
                None
            }
        },
        None => None,
    }
}

fn read_sample(b: &Vec<u8>, pos: usize) -> (r: Option<(MeasureResponse, usize)>)
    requires
        pos <= b@.len(),
    ensures
        r is Some <==> parse_sample(b@.skip(pos as int)) is Some,
        r matches Some((m, p)) ==> parse_sample(b@.skip(pos as int)) == Some(
            (m@, b@.skip(p as int)),
        ) && pos <= p <= b@.len(),
{
    let (dns, p1) = match read_opt_u64(b, pos) {
        Some(x) => x,
        None => {
            return None;
        },
    };
    let (tcp, p2) = match read_u64(b, p1) {
        Some(x) => x,
        None => {
            return None;
        },
    };
    let (send, p3) = match read_u64(b, p2) {
        Some(x) => x,
        None => {
            return None;
        },
    };
    let (ttfb, p4) = match read_u64(b, p3) {
        Some(x) => x,
        None => {
            return None;
        },
    };
    let (tls, p5) = match read_opt_u64(b, p4) {
        Some(x) => x,
        None => {
            return None;
        },
    };
    let (src, p6) = match read_chars(b, p5) {
        Some(x) => x,
        None => {
            return None;
        },
    };
    let m = MeasureResponse {
        dns_lookup_duration: dns,
        tcp_connect_duration: tcp,
        http_get_send_duration: send,
        ttfb_duration: ttfb,
        tls_handshake_duration: tls,
        source_identifier: src,
    };
    proof {
        assert(parse_sample(b@.skip(pos as int)) == Some((m@, b@.skip(p6 as int))));
    }
    Some((m, p6))
}

fn read_samples(b: &Vec<u8>, pos: usize) -> (r: Option<(Vec<MeasureResponse>, usize)>)
    requires
        pos <= b@.len(),
    ensures
        r is Some <==> parse_samples(b@.skip(pos as int)) is Some,
        r matches Some((v, p)) ==> parse_samples(b@.skip(pos as int)) == Some(
            (series_model(v@), b@.skip(p as int)),
        ) && pos <= p <= b@.len(),
{
    let (n, start) = match read_u64(b, pos) {
        Some(x) => x,
        None => {
            return None;
        },
    };
    let mut out: Vec<MeasureResponse> = Vec::new();
    let mut p: usize = start;
    let mut i: u64 = 0;
    proof {
        if parse_sample_list(b@.skip(start as int), n as nat) is Some {
            let ms = parse_sample_list(b@.skip(start as int), n as nat)->Some_0.0;
            assert(series_model(out@) + ms =~= ms);
        }
    }
    while i < n
        invariant
            start <= p <= b@.len(),
            i <= n,
            out@.len() == i,
            pos <= b@.len(),
            parse_samples(b@.skip(pos as int)) == parse_sample_list(
                b@.skip(start as int),
                n as nat,
            ),
            ({
                let rem = parse_sample_list(b@.skip(p as int), (n - i) as nat);
                let whole = parse_sample_list(b@.skip(start as int), n as nat);
                match rem {
                    Some((ms, rr)) => whole == Some((series_model(out@) + ms, rr)),
                    None => whole is None,
                }
            }),
        decreases n - i,
    {
        let ghost rem_before = parse_sample_list(b@.skip(p as int), (n - i) as nat);
        match read_sample(b, p) {
            Some((m, p2)) => {
                proof {
                    assert(parse_sample(b@.skip(p as int)) == Some((m@, b@.skip(p2 as int))));
                    if parse_sample_list(b@.skip(p2 as int), (n - i - 1) as nat) is Some {
                        let tail = parse_sample_list(b@.skip(p2 as int), (n - i - 1) as nat);
                        let ms2 = tail->Some_0.0;
                        let rr = tail->Some_0.1;
                        assert(rem_before == Some((seq![m@] + ms2, rr)));
                        assert(series_model(out@.push(m)) =~= series_model(out@).push(m@));
                        assert(series_model(out@) + (seq![m@] + ms2) =~= series_model(
                            out@.push(m),
                        ) + ms2);
                    }
                }
                out.push(m);
                p = p2;
                i = i + 1;
            },
            None => {
                proof {
                    assert(rem_before is None);
                }
                return None;
            },
        }
    }
    proof {
        assert(parse_sample_list(b@.skip(p as int), 0) == Some(
            (Seq::<SampleModel>::empty(), b@.skip(p as int)),
        ));
        assert(series_model(out@) + Seq::<SampleModel>::empty() =~= series_model(out@));
    }
    Some((out, p))
}

fn read_entries(b: &Vec<u8>, pos: usize) -> (r: Option<
    (Vec<(String, Vec<MeasureResponse>)>, usize),
>)
    requires
        pos <= b@.len(),
    ensures
        r is Some <==> parse_entries(b@.skip(pos as int)) is Some,
        r matches Some((v, p)) ==> parse_entries(b@.skip(pos as int)) == Some(
            (entries_model(v@), b@.skip(p as int)),
        ) && pos <= p <= b@.len(),
{
    let (n, start) = match read_u64(b, pos) {
        Some(x) => x,
        None => {
            return None;
        },
    };
    let mut out: Vec<(String, Vec<MeasureResponse>)> = Vec::new();
    let mut p: usize = start;
    let mut i: u64 = 0;
    proof {
        if parse_entry_list(b@.skip(start as int), n as nat) is Some {
            let es = parse_entry_list(b@.skip(start as int), n as nat)->Some_0.0;
            assert(entries_model(out@) + es =~= es);
        }
    }
    while i < n
        invariant
            start <= p <= b@.len(),
            i <= n,
            out@.len() == i,
            pos <= b@.len(),
            parse_entries(b@.skip(pos as int)) == parse_entry_list(
                b@.skip(start as int),
                n as nat,
            ),
            ({
                let rem = parse_entry_list(b@.skip(p as int), (n - i) as nat);
                let whole = parse_entry_list(b@.skip(start as int), n as nat);
                match rem {
                    Some((es, rr)) => whole == Some((entries_model(out@) + es, rr)),
                    None => whole is None,
                }
            }),
        decreases n - i,
    {
        let ghost rem_before = parse_entry_list(b@.skip(p as int), (n - i) as nat);
        let (key, p1) = match read_chars(b, p) {
            Some(x) => x,
            None => {
                proof {
                    assert(rem_before is None);
                }
                return None;
            },
        };
        let (samples, p2) = match read_samples(b, p1) {
            Some(x) => x,
            None => {
                proof {
                    assert(rem_before is None);
                }
                return None;
            },
        };
        proof {
            let e = (key@, series_model(samples@));
            assert(parse_entry(b@.skip(p as int)) == Some((e, b@.skip(p2 as int))));
            if parse_entry_list(b@.skip(p2 as int), (n - i - 1) as nat) is Some {
                let tail = parse_entry_list(b@.skip(p2 as int), (n - i - 1) as nat);
                let es2 = tail->Some_0.0;
                let rr = tail->Some_0.1;
                assert(rem_before == Some((seq![e] + es2, rr)));
                assert(entries_model(out@.push((key, samples))) =~= entries_model(out@).push(e));
                assert(entries_model(out@) + (seq![e] + es2) =~= entries_model(
                    out@.push((key, samples)),
                ) + es2);
            }
        }
        out.push((key, samples));
        p = p2;
        i = i + 1;
    }
    proof {
        assert(parse_entry_list(b@.skip(p as int), 0) == Some(
            (Seq::<(Seq<char>, Seq<SampleModel>)>::empty(), b@.skip(p as int)),
        ));
        assert(entries_model(out@) + Seq::<(Seq<char>, Seq<SampleModel>)>::empty()
            =~= entries_model(out@));
    }
    Some((out, p))
}

/// Decodes a persisted byte form back into the output document. Accepts
/// exactly the byte strings that `encode_output` produces: anything
/// malformed, truncated, or trailed by extra bytes is rejected.
pub fn decode_output(b: &Vec<u8>) -> (r: Result<Output, DecodeError>)
    ensures
        r is Ok <==> parse_output_doc(b@) is Some,
        r matches Ok(o) ==> parse_output_doc(b@) == Some(o@),
{
    proof {
        assert(b@.skip(0) =~= b@);
    }
    let (target, p1) = match read_entries(b, 0) {
        Some(x) => x,
        None => {
            return Err(DecodeError);
        },
    };
    if p1 >= b.len() {
        return Err(DecodeError);
    }
    proof {
        assert(b@.skip(p1 as int).first() == b@[p1 as int]);
        assert(b@.skip(p1 as int).drop_first() =~= b@.skip(p1 as int + 1));
    }
    let tag = b[p1];
    if tag == 0 {
        if p1 + 1 == b.len() {
            let o = Output { target_results: target, comparison_results: None };
            proof {
                assert(parse_output_doc(b@) == Some(o@));
            }
            Ok(o)
        } else {
            Err(DecodeError)
        }
    } else if tag == 1 {
        let (comp, p2) = match read_entries(b, p1 + 1) {
            Some(x) => x,
            None => {
                return Err(DecodeError);
            },
        };
        if p2 == b.len() {
            let o = Output { target_results: target, comparison_results: Some(comp) };
            proof {
                assert(parse_output_doc(b@) == Some(o@));
            }
            Ok(o)
        } else {
            Err(DecodeError)
        }
    } else {
        Err(DecodeError)
    }
}

} // verus!
