//! The Matroska/WebM metadata extractor, driven by the EBML walker.

use vstd::prelude::*;
use vstd::slice::slice_subrange;
use crate::common::{
    be_value, float_of, lemma_be_value_bound, lemma_pow256_eight, lemma_pow256_monotonic,
    read_float_be, read_uint_be,
};
use crate::ebml::{ebml_element_at, ebml_fold, level_end, next_ebml_element, ElementSpan};
use crate::float::{round_to_u32, rounded_u32};
use crate::model::{
    clone_text, in_order, stream_views, text_of, FloatBits, ProbeDuration, ProbeResult, ProbeView, Ratio,
    StreamInfo, StreamView, TrackKind,
};
use crate::text::{
    ascii_lowercase, contains_text, field_text, fold_case, has_substring, read_utf8,
};

verus! {

/// The codec token for a Matroska codec identifier: the first of `av1`,
/// `vp9`, `vp8`, `h264`, `hevc`, `opus`, `aac`, `vorbis` whose name occurs
/// in the identifier, letter case aside (`avc` counts as `h264`, `h265` as
/// `hevc`); the identifier itself in small letters where none occurs.
pub open spec fn normalized_codec(codec: Seq<char>) -> Seq<char> {
    let lower = fold_case(codec);
    if has_substring(lower, "av1"@) {
        "av1"@
    } else if has_substring(lower, "vp9"@) {
        "vp9"@
    } else if has_substring(lower, "vp8"@) {
        "vp8"@
    } else if has_substring(lower, "h264"@) || has_substring(lower, "avc"@) {
        "h264"@
    } else if has_substring(lower, "hevc"@) || has_substring(lower, "h265"@) {
        "hevc"@
    } else if has_substring(lower, "opus"@) {
        "opus"@
    } else if has_substring(lower, "aac"@) {
        "aac"@
    } else if has_substring(lower, "vorbis"@) {
        "vorbis"@
    } else {
        lower
    }
}

/// Normalizes a Matroska codec identifier.
pub fn normalize_mkv_codec(codec: &str) -> (r: String)
    ensures
        r@ == normalized_codec(codec@),
{
    let lower = ascii_lowercase(codec);
    let s = lower.as_str();
    if contains_text(s, "av1") {
        "av1".to_owned()
    } else if contains_text(s, "vp9") {
        "vp9".to_owned()
    } else if contains_text(s, "vp8") {
        "vp8".to_owned()
    } else if contains_text(s, "h264") || contains_text(s, "avc") {
        "h264".to_owned()
    } else if contains_text(s, "hevc") || contains_text(s, "h265") {
        "hevc".to_owned()
    } else if contains_text(s, "opus") {
        "opus".to_owned()
    } else if contains_text(s, "aac") {
        "aac".to_owned()
    } else if contains_text(s, "vorbis") {
        "vorbis".to_owned()
    } else {
        lower
    }
}

/// What is known of one track while its elements are walked. Every field
/// is unset until an element supplies it.
pub struct MkvTrack {
    pub kind: Option<TrackKind>,
    pub codec: Option<String>,
    pub width: Option<u32>,
    pub height: Option<u32>,
    pub fps: Option<Ratio>,
    pub sample_rate: Option<u32>,
    pub channels: Option<u32>,
    pub language: Option<String>,
    pub is_default: Option<bool>,
    pub is_forced: Option<bool>,
}

/// The mathematical content of an `MkvTrack`.
pub struct MkvTrackView {
    pub kind: Option<TrackKind>,
    pub codec: Option<Seq<char>>,
    pub width: Option<u32>,
    pub height: Option<u32>,
    pub fps: Option<Ratio>,
    pub sample_rate: Option<u32>,
    pub channels: Option<u32>,
    pub language: Option<Seq<char>>,
    pub is_default: Option<bool>,
    pub is_forced: Option<bool>,
}

impl View for MkvTrack {
    type V = MkvTrackView;

    open spec fn view(&self) -> MkvTrackView {
        MkvTrackView {
            kind: self.kind,
            codec: text_of(self.codec),
            width: self.width,
            height: self.height,
            fps: self.fps,
            sample_rate: self.sample_rate,
            channels: self.channels,
            language: text_of(self.language),
            is_default: self.is_default,
            is_forced: self.is_forced,
        }
    }
}

/// The track of which nothing is known.
pub open spec fn blank_entry() -> MkvTrackView {
    MkvTrackView {
        kind: None,
        codec: None,
        width: None,
        height: None,
        fps: None,
        sample_rate: None,
        channels: None,
        language: None,
        is_default: None,
        is_forced: None,
    }
}

impl MkvTrack {
    pub fn new() -> (r: MkvTrack)
        ensures
            r@ == blank_entry(),
    {
        MkvTrack {
            kind: None,
            codec: None,
            width: None,
            height: None,
            fps: None,
            sample_rate: None,
            channels: None,
            language: None,
            is_default: None,
            is_forced: None,
        }
    }
}

/// The unsigned integer that a payload of one to eight bytes holds.
pub open spec fn uint_of(payload: Seq<u8>) -> Option<u64> {
    if 1 <= payload.len() <= 8 {
        Some(be_value(payload) as u64)
    } else {
        None
    }
}

/// The low 32 bits of the unsigned integer that a payload holds.
pub open spec fn low_u32_of(payload: Seq<u8>) -> Option<u32> {
    match uint_of(payload) {
        Some(v) => Some((v % 0x1_0000_0000) as u32),
        None => None,
    }
}

/// Whether the unsigned integer that a payload holds is not zero.
pub open spec fn flag_of(payload: Seq<u8>) -> Option<bool> {
    match uint_of(payload) {
        Some(v) => Some(v != 0),
        None => None,
    }
}

/// The payload of an element.
pub open spec fn content_of(data: Seq<u8>, el: ElementSpan) -> Seq<u8> {
    data.subrange(el.start, el.end)
}

/// Reads a payload as an unsigned integer.
pub fn read_uint(payload: &[u8]) -> (r: Option<u64>)
    ensures
        r == uint_of(payload@),
{
    proof {
        lemma_be_value_bound(payload@);
        if payload@.len() <= 8 {
            lemma_pow256_monotonic(payload@.len(), 8);
        }
        lemma_pow256_eight();
    }
    read_uint_be(payload)
}

/// Reads the low 32 bits of the unsigned integer that a payload holds.
pub fn read_low_u32(payload: &[u8]) -> (r: Option<u32>)
    ensures
        r == low_u32_of(payload@),
{
    match read_uint(payload) {
        Some(v) => Some((v % 0x1_0000_0000) as u32),
        None => None,
    }
}

/// Reads a payload as a flag.
pub fn read_flag(payload: &[u8]) -> (r: Option<bool>)
    ensures
        r == flag_of(payload@),
{
    match read_uint(payload) {
        Some(v) => Some(v != 0),
        None => None,
    }
}

/// What one element inside a Video element does: PixelWidth and
/// PixelHeight set the dimensions.
pub open spec fn video_step(data: Seq<u8>) -> spec_fn(ElementSpan, MkvTrackView) -> MkvTrackView {
    |el: ElementSpan, t: MkvTrackView|
        if el.id == 0xB0 {
            MkvTrackView { width: low_u32_of(content_of(data, el)), ..t }
        } else if el.id == 0xBA {
            MkvTrackView { height: low_u32_of(content_of(data, el)), ..t }
        } else {
            t
        }
}

/// The track after the walk of the payload of a Video element.
pub open spec fn video_walk(payload: Seq<u8>, t: MkvTrackView) -> MkvTrackView {
    ebml_fold(payload, 0, payload.len() as int, t, video_step(payload))
}

/// Walks the payload of a Video element.
pub fn parse_matroska_video(data: &[u8], track: &mut MkvTrack)
    ensures
        final(track)@ == video_walk(data@, old(track)@),
        final(track)@.kind == old(track)@.kind,
        old(track)@.wf() ==> final(track)@.wf(),
{
    proof {
        lemma_video_keeps_kind(data@, 0, data@.len() as int, track@);
    }
    let ghost goal = video_walk(data@, track@);
    let ghost sound = track@.wf();
    let end = data.len();
    let mut offset: usize = 0;
    loop
        invariant_except_break
            goal == ebml_fold(data@, offset as int, end as int, track@, video_step(data@)),
        invariant
            end == data@.len(),
            sound ==> track@.wf(),
        ensures
            goal == track@,
            sound ==> track@.wf(),
        decreases end - offset,
    {
        let el = match next_ebml_element(data, offset, end) {
            Some(el) => el,
            None => break ,
        };
        if el.id == 0xB0 {
            track.width = read_low_u32(slice_subrange(data, el.payload_start, el.payload_end));
        } else if el.id == 0xBA {
            track.height = read_low_u32(slice_subrange(data, el.payload_start, el.payload_end));
        }
        if el.unknown || el.payload_end <= offset {
            break ;
        }
        offset = el.payload_end;
    }
}

/// The sampling frequency that a payload holds, rounded to the nearest
/// integer.
pub open spec fn sample_rate_of(payload: Seq<u8>) -> Option<u32> {
    match float_of(payload) {
        Some(f) => Some(rounded_u32(f)),
        None => None,
    }
}

/// What one element inside an Audio element does: Channels sets the channel
/// count, SamplingFrequency the sample rate.
pub open spec fn audio_step(data: Seq<u8>) -> spec_fn(ElementSpan, MkvTrackView) -> MkvTrackView {
    |el: ElementSpan, t: MkvTrackView|
        if el.id == 0x9F {
            MkvTrackView { channels: low_u32_of(content_of(data, el)), ..t }
        } else if el.id == 0xB5 {
            MkvTrackView { sample_rate: sample_rate_of(content_of(data, el)), ..t }
        } else {
            t
        }
}

/// The track after the walk of the payload of an Audio element.
pub open spec fn audio_walk(payload: Seq<u8>, t: MkvTrackView) -> MkvTrackView {
    ebml_fold(payload, 0, payload.len() as int, t, audio_step(payload))
}

/// Walks the payload of an Audio element.
pub fn parse_matroska_audio(data: &[u8], track: &mut MkvTrack)
    ensures
        final(track)@ == audio_walk(data@, old(track)@),
        final(track)@.kind == old(track)@.kind,
        old(track)@.wf() ==> final(track)@.wf(),
{
    proof {
        lemma_audio_keeps_kind(data@, 0, data@.len() as int, track@);
    }
    let ghost goal = audio_walk(data@, track@);
    let ghost sound = track@.wf();
    let end = data.len();
    let mut offset: usize = 0;
    loop
        invariant_except_break
            goal == ebml_fold(data@, offset as int, end as int, track@, audio_step(data@)),
        invariant
            end == data@.len(),
            sound ==> track@.wf(),
        ensures
            goal == track@,
            sound ==> track@.wf(),
        decreases end - offset,
    {
        let el = match next_ebml_element(data, offset, end) {
            Some(el) => el,
            None => break ,
        };
        if el.id == 0x9F {
            track.channels = read_low_u32(slice_subrange(data, el.payload_start, el.payload_end));
        } else if el.id == 0xB5 {
            track.sample_rate = match read_float_be(
                slice_subrange(data, el.payload_start, el.payload_end),
            ) {
                Some(f) => Some(round_to_u32(f)),
                None => None,
            };
        }
        if el.unknown || el.payload_end <= offset {
            break ;
        }
        offset = el.payload_end;
    }
}

impl MkvTrackView {
    /// The frame rate, if there is one, has a positive denominator.
    pub open spec fn wf(self) -> bool {
        self.fps matches Some(f) ==> f.wf()
    }
}

/// The kind of track that a TrackType value announces.
pub open spec fn track_type_kind(v: u64) -> Option<TrackKind> {
    if v == 1 {
        Some(TrackKind::Video)
    } else if v == 2 {
        Some(TrackKind::Audio)
    } else if v == 17 {
        Some(TrackKind::Subtitle)
    } else {
        None
    }
}

/// Names the kind of track that a TrackType value announces.
pub fn kind_of_track_type(v: u64) -> (r: Option<TrackKind>)
    ensures
        r == track_type_kind(v),
{
    if v == 1 {
        Some(TrackKind::Video)
    } else if v == 2 {
        Some(TrackKind::Audio)
    } else if v == 17 {
        Some(TrackKind::Subtitle)
    } else {
        None
    }
}

/// What one element inside a TrackEntry does to the track.
///
/// A TrackType that can be read sets the kind, and unsets it where the
/// value names no known kind. A CodecID or a Language that is not empty
/// sets the codec, normalized, or the language. The two flags are set as
/// read, and unset where they cannot be read. A DefaultDuration above zero
/// gives the frame rate: a thousand million over the duration in
/// nanoseconds. Video and Audio elements are walked.
pub open spec fn entry_step(data: Seq<u8>) -> spec_fn(ElementSpan, MkvTrackView) -> MkvTrackView {
    |el: ElementSpan, t: MkvTrackView|
        {
            let payload = content_of(data, el);
            if el.id == 0x83 {
                match uint_of(payload) {
                    Some(v) => MkvTrackView { kind: track_type_kind(v), ..t },
                    None => t,
                }
            } else if el.id == 0x86 {
                if field_text(payload).len() > 0 {
                    MkvTrackView { codec: Some(normalized_codec(field_text(payload))), ..t }
                } else {
                    t
                }
            } else if el.id == 0x0022_B59C {
                if field_text(payload).len() > 0 {
                    MkvTrackView { language: Some(field_text(payload)), ..t }
                } else {
                    t
                }
            } else if el.id == 0x88 {
                MkvTrackView { is_default: flag_of(payload), ..t }
            } else if el.id == 0x55AA {
                MkvTrackView { is_forced: flag_of(payload), ..t }
            } else if el.id == 0x0023_E383 {
                match uint_of(payload) {
                    Some(v) => if v > 0 {
                        MkvTrackView { fps: Some(Ratio { num: 1_000_000_000, den: v }), ..t }
                    } else {
                        t
                    },
                    None => t,
                }
            } else if el.id == 0xE0 {
                video_walk(payload, t)
            } else if el.id == 0xE1 {
                audio_walk(payload, t)
            } else {
                t
            }
        }
}

/// The track that a TrackEntry element describes.
pub open spec fn entry_walk(data: Seq<u8>, start: int, end: int) -> MkvTrackView {
    ebml_fold(data, start, end, blank_entry(), entry_step(data))
}

/// Walks a TrackEntry element.
pub fn parse_matroska_track_entry(data: &[u8], start: usize, end: usize) -> (track: MkvTrack)
    ensures
        track@ == entry_walk(data@, start as int, end as int),
        track@.wf(),
{
    let mut track = MkvTrack::new();
    let mut offset = start;
    loop
        invariant_except_break
            entry_walk(data@, start as int, end as int) == ebml_fold(
                data@,
                offset as int,
                end as int,
                track@,
                entry_step(data@),
            ),
        invariant
            track@.wf(),
        ensures
            entry_walk(data@, start as int, end as int) == track@,
            track@.wf(),
        decreases end - offset,
    {
        let el = match next_ebml_element(data, offset, end) {
            Some(el) => el,
            None => break ,
        };
        let payload = slice_subrange(data, el.payload_start, el.payload_end);
        if el.id == 0x83 {
            if let Some(v) = read_uint(payload) {
                track.kind = kind_of_track_type(v);
            }
        } else if el.id == 0x86 {
            let codec = read_utf8(payload);
            if !codec.as_str().is_empty() {
                track.codec = Some(normalize_mkv_codec(codec.as_str()));
            }
        } else if el.id == 0x0022_B59C {
            let lang = read_utf8(payload);
            if !lang.as_str().is_empty() {
                track.language = Some(lang);
            }
        } else if el.id == 0x88 {
            track.is_default = read_flag(payload);
        } else if el.id == 0x55AA {
            track.is_forced = read_flag(payload);
        } else if el.id == 0x0023_E383 {
            if let Some(v) = read_uint(payload) {
                if v > 0 {
                    track.fps = Some(Ratio { num: 1_000_000_000, den: v });
                }
            }
        } else if el.id == 0xE0 {
            parse_matroska_video(payload, &mut track);
        } else if el.id == 0xE1 {
            parse_matroska_audio(payload, &mut track);
        }
        if el.unknown || el.payload_end <= offset {
            break ;
        }
        offset = el.payload_end;
    }
    track
}

/// The views of a run of tracks, in order.
pub open spec fn entry_views(tracks: Seq<MkvTrack>) -> Seq<MkvTrackView> {
    Seq::new(tracks.len(), |i: int| tracks[i]@)
}

/// Every track of the run has a kind and a well-formed frame rate.
pub open spec fn all_settled(tracks: Seq<MkvTrackView>) -> bool {
    forall|i: int| 0 <= i < tracks.len() ==> (#[trigger] tracks[i]).wf() && tracks[i].kind is Some
}

/// What one element inside a Tracks element does: a TrackEntry adds its
/// track if the kind of the track was determined.
pub open spec fn tracks_step(data: Seq<u8>) -> spec_fn(ElementSpan, Seq<MkvTrackView>) -> Seq<
    MkvTrackView,
> {
    |el: ElementSpan, tracks: Seq<MkvTrackView>|
        if el.id == 0xAE && entry_walk(data, el.start, el.end).kind is Some {
            tracks.push(entry_walk(data, el.start, el.end))
        } else {
            tracks
        }
}

/// Walks a Tracks element.
pub fn parse_matroska_tracks(data: &[u8], start: usize, end: usize, tracks: &mut Vec<MkvTrack>)
    ensures
        entry_views(final(tracks)@) == ebml_fold(
            data@,
            start as int,
            end as int,
            entry_views(old(tracks)@),
            tracks_step(data@),
        ),
        all_settled(entry_views(old(tracks)@)) ==> all_settled(entry_views(final(tracks)@)),
{
    let ghost goal = ebml_fold(
        data@,
        start as int,
        end as int,
        entry_views(tracks@),
        tracks_step(data@),
    );
    let ghost sound = all_settled(entry_views(tracks@));
    let mut offset = start;
    loop
        invariant_except_break
            goal == ebml_fold(
                data@,
                offset as int,
                end as int,
                entry_views(tracks@),
                tracks_step(data@),
            ),
        invariant
            sound ==> all_settled(entry_views(tracks@)),
        ensures
            goal == entry_views(tracks@),
            sound ==> all_settled(entry_views(tracks@)),
        decreases end - offset,
    {
        let el = match next_ebml_element(data, offset, end) {
            Some(el) => el,
            None => break ,
        };
        if el.id == 0xAE {
            let track = parse_matroska_track_entry(data, el.payload_start, el.payload_end);
            if track.kind.is_some() {
                let ghost before = entry_views(tracks@);
                tracks.push(track);
                proof {
                    assert(entry_views(tracks@) =~= before.push(track@));
                }
            }
        }
        if el.unknown || el.payload_end <= offset {
            break ;
        }
        offset = el.payload_end;
    }
}

/// What the walk of an Info element carries: the duration in ticks, if one
/// was read, and the length of a tick in nanoseconds.
pub struct InfoState {
    pub ticks: Option<FloatBits>,
    pub scale: u64,
}

/// What one element inside an Info element does: a TimecodeScale that can
/// be read sets the length of a tick, which is at least 1; a Duration sets
/// the duration, and unsets it where it holds no floating-point number.
pub open spec fn info_step(data: Seq<u8>) -> spec_fn(ElementSpan, InfoState) -> InfoState {
    |el: ElementSpan, s: InfoState|
        if el.id == 0x002A_D7B1 {
            match uint_of(content_of(data, el)) {
                Some(v) => InfoState {
                    scale: if v < 1 {
                        1
                    } else {
                        v
                    },
                    ..s
                },
                None => s,
            }
        } else if el.id == 0x4489 {
            InfoState { ticks: float_of(content_of(data, el)), ..s }
        } else {
            s
        }
}

/// Walks an Info element.
pub fn parse_matroska_info(
    data: &[u8],
    start: usize,
    end: usize,
    duration_ticks: &mut Option<FloatBits>,
    timecode_scale: &mut u64,
)
    ensures
        (InfoState { ticks: *final(duration_ticks), scale: *final(timecode_scale) }) == ebml_fold(
            data@,
            start as int,
            end as int,
            InfoState { ticks: *old(duration_ticks), scale: *old(timecode_scale) },
            info_step(data@),
        ),
        *old(timecode_scale) >= 1 ==> *final(timecode_scale) >= 1,
{
    let ghost floored = *timecode_scale >= 1;
    let ghost goal = ebml_fold(
        data@,
        start as int,
        end as int,
        InfoState { ticks: *duration_ticks, scale: *timecode_scale },
        info_step(data@),
    );
    let mut offset = start;
    loop
        invariant_except_break
            goal == ebml_fold(
                data@,
                offset as int,
                end as int,
                InfoState { ticks: *duration_ticks, scale: *timecode_scale },
                info_step(data@),
            ),
        invariant
            floored ==> *timecode_scale >= 1,
        ensures
            goal == (InfoState { ticks: *duration_ticks, scale: *timecode_scale }),
            floored ==> *timecode_scale >= 1,
        decreases end - offset,
    {
        let el = match next_ebml_element(data, offset, end) {
            Some(el) => el,
            None => break ,
        };
        if el.id == 0x002A_D7B1 {
            if let Some(v) = read_uint(slice_subrange(data, el.payload_start, el.payload_end)) {
                *timecode_scale = if v < 1 {
                    1
                } else {
                    v
                };
            }
        } else if el.id == 0x4489 {
            *duration_ticks = read_float_be(slice_subrange(data, el.payload_start, el.payload_end));
        }
        if el.unknown || el.payload_end <= offset {
            break ;
        }
        offset = el.payload_end;
    }
}

/// What the walk of a Segment element carries.
pub struct SegmentState {
    pub info: InfoState,
    pub tracks: Seq<MkvTrackView>,
}

/// What one element inside a Segment does: Info and Tracks elements are
/// walked.
pub open spec fn segment_step(data: Seq<u8>) -> spec_fn(ElementSpan, SegmentState) -> SegmentState {
    |el: ElementSpan, s: SegmentState|
        if el.id == 0x1549_A966 {
            SegmentState { info: ebml_fold(data, el.start, el.end, s.info, info_step(data)), ..s }
        } else if el.id == 0x1654_AE6B {
            SegmentState {
                tracks: ebml_fold(data, el.start, el.end, s.tracks, tracks_step(data)),
                ..s
            }
        } else {
            s
        }
}

/// Walks a Segment element.
pub fn parse_matroska_segment(
    data: &[u8],
    start: usize,
    end: usize,
    duration_ticks: &mut Option<FloatBits>,
    timecode_scale: &mut u64,
    tracks: &mut Vec<MkvTrack>,
)
    ensures
        (SegmentState {
            info: InfoState { ticks: *final(duration_ticks), scale: *final(timecode_scale) },
            tracks: entry_views(final(tracks)@),
        }) == ebml_fold(
            data@,
            start as int,
            end as int,
            SegmentState {
                info: InfoState { ticks: *old(duration_ticks), scale: *old(timecode_scale) },
                tracks: entry_views(old(tracks)@),
            },
            segment_step(data@),
        ),
        all_settled(entry_views(old(tracks)@)) ==> all_settled(entry_views(final(tracks)@)),
        *old(timecode_scale) >= 1 ==> *final(timecode_scale) >= 1,
{
    let ghost floored = *timecode_scale >= 1;
    let ghost goal = ebml_fold(
        data@,
        start as int,
        end as int,
        SegmentState {
            info: InfoState { ticks: *duration_ticks, scale: *timecode_scale },
            tracks: entry_views(tracks@),
        },
        segment_step(data@),
    );
    let ghost sound = all_settled(entry_views(tracks@));
    let mut offset = start;
    loop
        invariant_except_break
            goal == ebml_fold(
                data@,
                offset as int,
                end as int,
                SegmentState {
                    info: InfoState { ticks: *duration_ticks, scale: *timecode_scale },
                    tracks: entry_views(tracks@),
                },
                segment_step(data@),
            ),
        invariant
            sound ==> all_settled(entry_views(tracks@)),
            floored ==> *timecode_scale >= 1,
        ensures
            goal == (SegmentState {
                info: InfoState { ticks: *duration_ticks, scale: *timecode_scale },
                tracks: entry_views(tracks@),
            }),
            sound ==> all_settled(entry_views(tracks@)),
            floored ==> *timecode_scale >= 1,
        decreases end - offset,
    {
        let el = match next_ebml_element(data, offset, end) {
            Some(el) => el,
            None => break ,
        };
        if el.id == 0x1549_A966 {
            parse_matroska_info(
                data,
                el.payload_start,
                el.payload_end,
                duration_ticks,
                timecode_scale,
            );
        } else if el.id == 0x1654_AE6B {
            parse_matroska_tracks(data, el.payload_start, el.payload_end, tracks);
        }
        if el.unknown || el.payload_end <= offset {
            break ;
        }
        offset = el.payload_end;
    }
}

/// What the walk of a whole file carries: the format name and the segment.
pub struct MkvFileState {
    pub format: Seq<char>,
    pub segment: SegmentState,
}

/// What a DocType element does to the format name: it replaces the name
/// unless its text is empty. No other element changes the name.
pub open spec fn doc_type_step(data: Seq<u8>) -> spec_fn(ElementSpan, Seq<char>) -> Seq<char> {
    |el: ElementSpan, format: Seq<char>|
        if el.id == 0x4282 && field_text(content_of(data, el)).len() > 0 {
            field_text(content_of(data, el))
        } else {
            format
        }
}

/// Walks an EBML header element for its DocType.
pub fn parse_matroska_header(data: &[u8], start: usize, end: usize, format: &mut String)
    ensures
        final(format)@ == ebml_fold(
            data@,
            start as int,
            end as int,
            old(format)@,
            doc_type_step(data@),
        ),
{
    let ghost goal = ebml_fold(data@, start as int, end as int, format@, doc_type_step(data@));
    let mut offset = start;
    loop
        invariant_except_break
            goal == ebml_fold(data@, offset as int, end as int, format@, doc_type_step(data@)),
        ensures
            goal == format@,
        decreases end - offset,
    {
        let el = match next_ebml_element(data, offset, end) {
            Some(el) => el,
            None => break ,
        };
        if el.id == 0x4282 {
            let s = read_utf8(slice_subrange(data, el.payload_start, el.payload_end));
            if !s.as_str().is_empty() {
                *format = s;
            }
        }
        if el.unknown || el.payload_end <= offset {
            break ;
        }
        offset = el.payload_end;
    }
}

/// What one top-level element does: an EBML header is walked for its
/// DocType, a DocType that stands at the top level itself counts as well,
/// and a Segment is walked.
pub open spec fn mkv_file_step(data: Seq<u8>) -> spec_fn(ElementSpan, MkvFileState) -> MkvFileState {
    |el: ElementSpan, f: MkvFileState|
        if el.id == 0x1A45_DFA3 {
            MkvFileState {
                format: ebml_fold(data, el.start, el.end, f.format, doc_type_step(data)),
                ..f
            }
        } else if el.id == 0x4282 {
            MkvFileState { format: doc_type_step(data)(el, f.format), ..f }
        } else if el.id == 0x1853_8067 {
            MkvFileState {
                segment: ebml_fold(data, el.start, el.end, f.segment, segment_step(data)),
                ..f
            }
        } else {
            f
        }
}

/// The state of a file before any element was seen: a tick lasts a
/// million nanoseconds unless the file says otherwise.
pub open spec fn blank_mkv_file() -> MkvFileState {
    MkvFileState {
        format: "matroska"@,
        segment: SegmentState {
            info: InfoState { ticks: None, scale: 1_000_000 },
            tracks: Seq::empty(),
        },
    }
}

/// The buffer begins with the four bytes of the EBML magic number.
pub open spec fn has_ebml_magic(data: Seq<u8>) -> bool {
    data.len() >= 4 && data[0] == 0x1A && data[1] == 0x45 && data[2] == 0xDF && data[3] == 0xA3
}

/// The stream that a track is reported as, under the given index: none for
/// a track whose kind was never determined.
pub open spec fn mkv_stream(index: int, t: MkvTrackView) -> Option<StreamView> {
    match t.kind {
        Some(kind) => Some(
            StreamView {
                index,
                kind,
                codec: match t.codec {
                    Some(c) => c,
                    None => "unknown"@,
                },
                width: t.width,
                height: t.height,
                fps: t.fps,
                sample_rate: t.sample_rate,
                channels: t.channels,
                language: t.language,
                bitrate: None,
                is_default: t.is_default,
                is_forced: t.is_forced,
            },
        ),
        None => None,
    }
}

/// The streams of the first `upto` tracks, in order, each under the
/// position of its track.
pub open spec fn mkv_streams(tracks: Seq<MkvTrackView>, upto: int) -> Seq<StreamView>
    decreases upto,
{
    if upto <= 0 {
        Seq::empty()
    } else {
        match mkv_stream(upto - 1, tracks[upto - 1]) {
            Some(s) => mkv_streams(tracks, upto - 1).push(s),
            None => mkv_streams(tracks, upto - 1),
        }
    }
}

/// The duration of a file whose Info element left this state: the ticks
/// it declared at the tick length in force, zero where it declared none.
pub open spec fn mkv_duration(info: InfoState) -> ProbeDuration {
    match info.ticks {
        Some(ticks) => ProbeDuration::Ticks { ticks, scale: info.scale },
        None => ProbeDuration::Exact(Ratio { num: 0, den: 1 }),
    }
}

/// What a Matroska or WebM buffer is reported as.
///
/// There is a result only if the buffer begins with the EBML magic number
/// and at least one track has a known kind.
pub open spec fn matroska_probe(data: Seq<u8>) -> Option<ProbeView> {
    let f = ebml_fold(data, 0, data.len() as int, blank_mkv_file(), mkv_file_step(data));
    let streams = mkv_streams(f.segment.tracks, f.segment.tracks.len() as int);
    if !has_ebml_magic(data) || streams.len() == 0 {
        None
    } else {
        Some(
            ProbeView {
                duration: mkv_duration(f.segment.info),
                bitrate: 0,
                format: f.format,
                streams,
                fonts: 0,
            },
        )
    }
}

/// Turns the tracks into the streams they are reported as.
pub fn collect_mkv_streams(tracks: &Vec<MkvTrack>) -> (r: Vec<StreamInfo>)
    ensures
        stream_views(r@) == mkv_streams(entry_views(tracks@), tracks@.len() as int),
        all_settled(entry_views(tracks@)) ==> in_order(stream_views(r@)) && r@.len()
            == tracks@.len(),
{
    let mut streams: Vec<StreamInfo> = Vec::new();
    let mut i: usize = 0;
    proof {
        assert(stream_views(streams@) =~= Seq::empty());
    }
    while i < tracks.len()
        invariant
            i <= tracks@.len(),
            stream_views(streams@) == mkv_streams(entry_views(tracks@), i as int),
            all_settled(entry_views(tracks@)) ==> in_order(stream_views(streams@)) && streams@.len()
                == i,
        decreases tracks@.len() - i,
    {
        let t = &tracks[i];
        proof {
            assert(entry_views(tracks@)[i as int] == t@);
        }
        if let Some(kind) = t.kind {
            let codec = match &t.codec {
                Some(c) => c.clone(),
                None => "unknown".to_owned(),
            };
            let stream = StreamInfo {
                index: i,
                kind,
                codec,
                width: t.width,
                height: t.height,
                fps: t.fps,
                sample_rate: t.sample_rate,
                channels: t.channels,
                language: clone_text(&t.language),
                bitrate: None,
                is_default: t.is_default,
                is_forced: t.is_forced,
            };
            let ghost before = stream_views(streams@);
            streams.push(stream);
            proof {
                assert(stream_views(streams@) =~= before.push(stream@));
            }
        }
        i += 1;
    }
    streams
}

/// Probes a buffer as Matroska or WebM.
pub fn parse_matroska(data: &[u8]) -> (r: Option<ProbeResult>)
    ensures
        r matches Some(p) ==> matroska_probe(data@) == Some(p@),
        r is None ==> matroska_probe(data@) is None,
        r matches Some(p) ==> p.streams@.len() > 0 && p.font_attachments@.len() == 0 && p.bitrate
            == 0,
        r matches Some(p) ==> in_order(p@.streams),
        r matches Some(p) ==> (p.duration matches ProbeDuration::Ticks { ticks, scale } ==> scale
            >= 1),
        r matches Some(p) ==> (p.duration matches ProbeDuration::Exact(d) ==> d.wf()),
{
    if data.len() < 4 || data[0] != 0x1A || data[1] != 0x45 || data[2] != 0xDF || data[3] != 0xA3 {
        return None;
    }
    let mut format = "matroska".to_owned();
    let mut duration_ticks: Option<FloatBits> = None;
    let mut timecode_scale: u64 = 1_000_000;
    let mut tracks: Vec<MkvTrack> = Vec::new();
    let ghost goal = ebml_fold(
        data@,
        0,
        data@.len() as int,
        blank_mkv_file(),
        mkv_file_step(data@),
    );
    proof {
        assert(entry_views(tracks@) =~= Seq::empty());
    }
    let end = data.len();
    let mut offset: usize = 0;
    loop
        invariant_except_break
            goal == ebml_fold(
                data@,
                offset as int,
                end as int,
                MkvFileState {
                    format: format@,
                    segment: SegmentState {
                        info: InfoState { ticks: duration_ticks, scale: timecode_scale },
                        tracks: entry_views(tracks@),
                    },
                },
                mkv_file_step(data@),
            ),
        invariant
            end == data@.len(),
            all_settled(entry_views(tracks@)),
            timecode_scale >= 1,
        ensures
            goal == (MkvFileState {
                format: format@,
                segment: SegmentState {
                    info: InfoState { ticks: duration_ticks, scale: timecode_scale },
                    tracks: entry_views(tracks@),
                },
            }),
            all_settled(entry_views(tracks@)),
            timecode_scale >= 1,
        decreases end - offset,
    {
        let el = match next_ebml_element(data, offset, end) {
            Some(el) => el,
            None => break ,
        };
        if el.id == 0x1A45_DFA3 {
            parse_matroska_header(data, el.payload_start, el.payload_end, &mut format);
        } else if el.id == 0x4282 {
            let s = read_utf8(slice_subrange(data, el.payload_start, el.payload_end));
            if !s.as_str().is_empty() {
                format = s;
            }
        } else if el.id == 0x1853_8067 {
            parse_matroska_segment(
                data,
                el.payload_start,
                el.payload_end,
                &mut duration_ticks,
                &mut timecode_scale,
                &mut tracks,
            );
        }
        if el.unknown || el.payload_end <= offset {
            break ;
        }
        offset = el.payload_end;
    }
    let streams = collect_mkv_streams(&tracks);
    if streams.len() == 0 {
        return None;
    }
    let duration = match duration_ticks {
        Some(ticks) => ProbeDuration::Ticks { ticks, scale: timecode_scale },
        None => ProbeDuration::Exact(Ratio::zero()),
    };
    Some(ProbeResult { duration, bitrate: 0, format, streams, font_attachments: Vec::new() })
}

/// A TrackType that names no known kind leaves the track without a kind,
/// whatever kind it had.
pub proof fn lemma_unrecognized_type_unsets_kind(
    data: Seq<u8>,
    el: ElementSpan,
    t: MkvTrackView,
    v: u64,
)
    requires
        el.id == 0x83,
        uint_of(content_of(data, el)) == Some(v),
        v != 1 && v != 2 && v != 17,
    ensures
        entry_step(data)(el, t).kind is None,
{
}

/// Only a TrackType element changes the kind of a track: no other element
/// of a TrackEntry does, and no Video or Audio element gives a kind to a
/// track that has none.
pub proof fn lemma_only_track_type_sets_kind(data: Seq<u8>, el: ElementSpan, t: MkvTrackView)
    requires
        el.id != 0x83,
    ensures
        entry_step(data)(el, t).kind == t.kind,
{
    let payload = content_of(data, el);
    lemma_video_keeps_kind(payload, 0, payload.len() as int, t);
    lemma_audio_keeps_kind(payload, 0, payload.len() as int, t);
}

/// The walk of a Video element leaves the kind of the track as it was.
pub proof fn lemma_video_keeps_kind(data: Seq<u8>, offset: int, limit: int, t: MkvTrackView)
    ensures
        ebml_fold(data, offset, limit, t, video_step(data)).kind == t.kind,
    decreases level_end(data, limit) - offset,
{
    if let Some(el) = ebml_element_at(data, offset, limit) {
        if !(el.unknown || el.end <= offset) {
            lemma_video_keeps_kind(data, el.end, limit, video_step(data)(el, t));
        }
    }
}

/// The walk of an Audio element leaves the kind of the track as it was.
pub proof fn lemma_audio_keeps_kind(data: Seq<u8>, offset: int, limit: int, t: MkvTrackView)
    ensures
        ebml_fold(data, offset, limit, t, audio_step(data)).kind == t.kind,
    decreases level_end(data, limit) - offset,
{
    if let Some(el) = ebml_element_at(data, offset, limit) {
        if !(el.unknown || el.end <= offset) {
            lemma_audio_keeps_kind(data, el.end, limit, audio_step(data)(el, t));
        }
    }
}

/// A TrackEntry that ends without a kind adds nothing to the tracks.
pub proof fn lemma_kindless_entry_is_dropped(
    data: Seq<u8>,
    el: ElementSpan,
    tracks: Seq<MkvTrackView>,
)
    requires
        entry_walk(data, el.start, el.end).kind is None,
    ensures
        tracks_step(data)(el, tracks) == tracks,
{
}

/// Tracks without a kind give no streams.
pub proof fn lemma_mkv_streams_need_kinds(tracks: Seq<MkvTrackView>, upto: int)
    requires
        0 <= upto <= tracks.len(),
        forall|i: int| 0 <= i < upto ==> tracks[i].kind is None,
    ensures
        mkv_streams(tracks, upto).len() == 0,
    decreases upto,
{
    if upto > 0 {
        lemma_mkv_streams_need_kinds(tracks, upto - 1);
    }
}

/// Whatever is reported as Matroska begins with the magic number and has at
/// least one stream.
pub proof fn lemma_matroska_result_has_streams(data: Seq<u8>)
    ensures
        matroska_probe(data) matches Some(p) ==> p.streams.len() > 0 && has_ebml_magic(data),
        data.len() < 4 ==> matroska_probe(data) is None,
{
}

} // verus!
