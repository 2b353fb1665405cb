//! The entry point: a buffer is tried as MP4 first and as Matroska second.

use vstd::prelude::*;
use crate::matroska::{matroska_probe, parse_matroska};
use crate::float::{is_finite_and_not_negative, is_plain};
use crate::model::{in_order, ProbeDuration, ProbeResult, ProbeView, Ratio};
use crate::mp4::{lemma_no_usable_track_no_result, mp4_probe, mp4_tracks, parse_mp4};

verus! {

/// A duration brought into the range of real durations: zero in place of
/// a ratio without a value, and in place of ticks that are negative,
/// infinite or no number at all. Any other duration stays as it is.
pub open spec fn sanitized(d: ProbeDuration) -> ProbeDuration {
    match d {
        ProbeDuration::Exact(r) => if r.wf() {
            d
        } else {
            ProbeDuration::Exact(Ratio { num: 0, den: 1 })
        },
        ProbeDuration::Ticks { ticks, scale } => if is_plain(ticks) && scale >= 1 {
            d
        } else {
            ProbeDuration::Exact(Ratio { num: 0, den: 1 })
        },
    }
}

/// A duration that stands for a real, non-negative length of time: a ratio
/// over a positive denominator, or a finite non-negative number of ticks of
/// at least one nanosecond each.
pub open spec fn duration_wf(d: ProbeDuration) -> bool {
    match d {
        ProbeDuration::Exact(r) => r.wf(),
        ProbeDuration::Ticks { ticks, scale } => is_plain(ticks) && scale >= 1,
    }
}

/// Brings a duration into the range of real durations.
pub fn sanitize_duration(d: ProbeDuration) -> (r: ProbeDuration)
    ensures
        r == sanitized(d),
        duration_wf(r),
        duration_wf(d) ==> r == d,
{
    match d {
        ProbeDuration::Exact(ratio) => {
            if ratio.den > 0 {
                d
            } else {
                ProbeDuration::Exact(Ratio::zero())
            }
        },
        ProbeDuration::Ticks { ticks, scale } => {
            if is_finite_and_not_negative(ticks) && scale >= 1 {
                d
            } else {
                ProbeDuration::Exact(Ratio::zero())
            }
        },
    }
}

/// A result with its duration sanitized.
pub open spec fn with_real_duration(p: ProbeView) -> ProbeView {
    ProbeView { duration: sanitized(p.duration), ..p }
}

/// What a buffer is reported as: what it is as MP4 if it is one, else what
/// it is as Matroska, else nothing; the duration sanitized in either case.
pub open spec fn probe_spec(data: Seq<u8>) -> Option<ProbeView> {
    match mp4_probe(data) {
        Some(p) => Some(with_real_duration(p)),
        None => match matroska_probe(data) {
            Some(p) => Some(with_real_duration(p)),
            None => None,
        },
    }
}

/// The view of an outcome of a probe.
pub open spec fn outcome_view(r: Option<ProbeResult>) -> Option<ProbeView> {
    match r {
        Some(p) => Some(p@),
        None => None,
    }
}

/// Probes a buffer for container metadata. Any bytes are accepted; what is
/// neither MP4 nor Matroska, or has no usable track, gives `None`.
pub fn probe(data: &[u8]) -> (r: Option<ProbeResult>)
    ensures
        outcome_view(r) == probe_spec(data@),
        data@.len() < 4 ==> r is None,
        r matches Some(p) ==> {
            &&& p.streams@.len() > 0
            &&& in_order(p@.streams)
            &&& p.font_attachments@.len() == 0
            &&& p.bitrate == 0
            &&& duration_wf(p.duration)
        },
{
    let found = match parse_mp4(data) {
        Some(p) => Some(p),
        None => parse_matroska(data),
    };
    match found {
        Some(p) => {
            let ProbeResult { duration, bitrate, format, streams, font_attachments } = p;
            Some(
                ProbeResult {
                    duration: sanitize_duration(duration),
                    bitrate,
                    format,
                    streams,
                    font_attachments,
                },
            )
        },
        None => None,
    }
}

/// A buffer that is too short for a header holds no metadata: nothing of
/// fewer than four bytes is reported at all, and nothing of fewer than
/// twelve as MP4.
pub proof fn lemma_short_buffer_has_no_metadata(data: Seq<u8>)
    ensures
        data.len() < 4 ==> probe_spec(data) is None,
        data.len() < 12 ==> mp4_probe(data) is None,
{
}

/// Probing is repeatable: two outcomes of probing the same bytes have the
/// same content.
pub proof fn lemma_probe_is_repeatable(
    data: Seq<u8>,
    first: Option<ProbeResult>,
    second: Option<ProbeResult>,
)
    requires
        outcome_view(first) == probe_spec(data),
        outcome_view(second) == probe_spec(data),
    ensures
        outcome_view(first) == outcome_view(second),
{
}

/// Where no track of a buffer has a determinable kind as MP4, the buffer is
/// reported as whatever it is as Matroska.
pub proof fn lemma_fallback_to_matroska(data: Seq<u8>)
    requires
        forall|i: int| 0 <= i < mp4_tracks(data).len() ==> mp4_tracks(data)[i].kind is None,
    ensures
        probe_spec(data) is Some <==> matroska_probe(data) is Some,
        probe_spec(data) matches Some(p) ==> p == with_real_duration(matroska_probe(data)->0),
{
    lemma_no_usable_track_no_result(data);
}

/// Sanitizing changes nothing but a duration that is not real, and doing
/// it twice is doing it once.
pub proof fn lemma_sanitized_is_real(d: ProbeDuration)
    ensures
        duration_wf(sanitized(d)),
        duration_wf(d) ==> sanitized(d) == d,
        sanitized(sanitized(d)) == sanitized(d),
{
}

/// Whatever is reported has at least one stream.
pub proof fn lemma_result_has_streams(data: Seq<u8>)
    ensures
        probe_spec(data) matches Some(p) ==> p.streams.len() > 0 && p.bitrate == 0 && p.fonts == 0,
{
}

} // verus!
