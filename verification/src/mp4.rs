//! ISO base-media boxes: the box walker and the MP4/MOV metadata extractor
//! that drives it.

use vstd::prelude::*;
use vstd::slice::slice_subrange;
use crate::common::{be16, be32, be64, read_u16_be, read_u32_be, read_u64_be};
use crate::model::{
    clone_text, in_order, lemma_ratio_order, stream_views, text_of, ProbeDuration, ProbeResult,
    ProbeView, Ratio, StreamInfo, StreamView, TrackKind,
};
use crate::text::{
    ascii_text, decode_lossy, decoded_text, fold_case, read_lowercase, tag_text, trim_space,
};

verus! {

/// A box as the walker reports it: its four-byte type tag, where its
/// payload starts and ends, and where the next box begins.
pub struct BoxSpan {
    pub tag: Seq<u8>,
    pub start: int,
    pub end: int,
    pub next: int,
}

/// The box of `size` bytes with a header of `header` bytes at `offset`, if
/// it holds its own header and ends within both the bound and the buffer.
pub open spec fn sized_box(data: Seq<u8>, offset: int, limit: int, size: int, header: int) -> Option<
    BoxSpan,
> {
    if size < header || offset + size > limit || offset + size > data.len() {
        None
    } else {
        Some(
            BoxSpan {
                tag: data.subrange(offset + 4, offset + 8),
                start: offset + header,
                end: offset + size,
                next: offset + size,
            },
        )
    }
}

/// The box that starts at `offset` and lies before `limit`.
///
/// A 32-bit size of 1 announces a 64-bit size after the tag; a size of 0
/// means that the box runs up to `limit`.
pub open spec fn mp4_box_at(data: Seq<u8>, offset: int, limit: int) -> Option<BoxSpan> {
    if offset < 0 || offset + 8 > limit || offset + 8 > data.len() {
        None
    } else if be32(data, offset) == 1 {
        if offset + 16 > limit || offset + 16 > data.len() {
            None
        } else {
            sized_box(data, offset, limit, be64(data, offset + 8), 16)
        }
    } else if be32(data, offset) == 0 {
        sized_box(data, offset, limit, limit - offset, 8)
    } else {
        sized_box(data, offset, limit, be32(data, offset), 8)
    }
}

/// Walks the boxes from `offset` up to `limit` in order and threads `state`
/// through `step`, which sees each box once. The walk ends at the first
/// offset that holds no box, or at a box that would not advance it.
pub open spec fn mp4_fold<S>(
    data: Seq<u8>,
    offset: int,
    limit: int,
    state: S,
    step: spec_fn(BoxSpan, S) -> S,
) -> S
    decreases limit - offset,
{
    match mp4_box_at(data, offset, limit) {
        Some(b) => {
            if b.next <= offset {
                step(b, state)
            } else {
                mp4_fold(data, b.next, limit, step(b, state), step)
            }
        },
        None => state,
    }
}

/// Every box that the walker reports lies inside the bound and the buffer,
/// holds its header, and is followed by a strictly later offset.
pub proof fn lemma_box_advances(data: Seq<u8>, offset: int, limit: int)
    ensures
        mp4_box_at(data, offset, limit) matches Some(b) ==> {
            &&& offset + 8 <= b.start <= b.end
            &&& b.end <= limit
            &&& b.end <= data.len()
            &&& b.next == b.end
            &&& b.next > offset
            &&& b.tag.len() == 4
        },
{
}

/// The four bytes `a b c d` as a type tag.
pub open spec fn tag(a: u8, b: u8, c: u8, d: u8) -> Seq<u8> {
    seq![a, b, c, d]
}

/// Whether a type tag is the four bytes `a b c d`.
pub fn tag_is(typ: &[u8; 4], a: u8, b: u8, c: u8, d: u8) -> (r: bool)
    ensures
        r == (typ@ == tag(a, b, c, d)),
{
    let r = typ[0] == a && typ[1] == b && typ[2] == c && typ[3] == d;
    proof {
        if r {
            assert(typ@ =~= tag(a, b, c, d));
        } else {
            assert(tag(a, b, c, d)[0] == a && tag(a, b, c, d)[1] == b && tag(a, b, c, d)[2] == c
                && tag(a, b, c, d)[3] == d);
        }
    }
    r
}

/// Reads the box at `offset`: its type tag, the start and the end of its
/// payload, and the offset of the next box. `None` where no well-formed box
/// lies there before `limit`.
pub fn next_mp4_box(data: &[u8], offset: usize, limit: usize) -> (r: Option<
    ([u8; 4], usize, usize, usize),
>)
    ensures
        r is Some <==> mp4_box_at(data@, offset as int, limit as int) is Some,
        r matches Some(found) ==> {
            let b = mp4_box_at(data@, offset as int, limit as int)->0;
            &&& found.0@ == b.tag
            &&& found.1 as int == b.start
            &&& found.2 as int == b.end
            &&& found.3 as int == b.next
            &&& offset + 8 <= found.1 <= found.2 <= limit
            &&& found.2 <= data@.len()
            &&& found.3 > offset
        },
{
    if limit < 8 || offset > limit - 8 || data.len() < 8 || offset > data.len() - 8 {
        return None;
    }
    let size32: u32 = match read_u32_be(data, offset) {
        Some(v) => v,
        None => return None,
    };
    let typ: [u8; 4] = [data[offset + 4], data[offset + 5], data[offset + 6], data[offset + 7]];
    proof {
        assert(typ@ =~= data@.subrange(offset + 4, offset + 8));
    }
    let room: usize = limit - offset;
    let (size, header): (u64, usize) = if size32 == 1 {
        if room < 16 || data.len() - offset < 16 {
            return None;
        }
        match read_u64_be(data, offset + 8) {
            Some(v) => (v, 16),
            None => return None,
        }
    } else if size32 == 0 {
        (room as u64, 8)
    } else {
        (size32 as u64, 8)
    };
    if size < header as u64 || size > room as u64 || size > (data.len() - offset) as u64 {
        return None;
    }
    let end: usize = offset + size as usize;
    Some((typ, offset + header, end, end))
}

/// What is known of one track while its boxes are walked. Every field is
/// unset until a box supplies it.
pub struct Mp4Track {
    pub kind: Option<TrackKind>,
    pub codec: Option<String>,
    pub width: Option<u32>,
    pub height: Option<u32>,
    pub fps: Option<Ratio>,
    pub sample_rate: Option<u32>,
    pub channels: Option<u32>,
    pub language: Option<String>,
    pub duration: Option<Ratio>,
}

/// The mathematical content of an `Mp4Track`.
pub struct Mp4TrackView {
    pub kind: Option<TrackKind>,
    pub codec: Option<Seq<char>>,
    pub width: Option<u32>,
    pub height: Option<u32>,
    pub fps: Option<Ratio>,
    pub sample_rate: Option<u32>,
    pub channels: Option<u32>,
    pub language: Option<Seq<char>>,
    pub duration: Option<Ratio>,
}

impl View for Mp4Track {
    type V = Mp4TrackView;

    open spec fn view(&self) -> Mp4TrackView {
        Mp4TrackView {
            kind: self.kind,
            codec: text_of(self.codec),
            width: self.width,
            height: self.height,
            fps: self.fps,
            sample_rate: self.sample_rate,
            channels: self.channels,
            language: text_of(self.language),
            duration: self.duration,
        }
    }
}

impl Mp4TrackView {
    /// The ratios that the track holds have positive denominators.
    pub open spec fn wf(self) -> bool {
        &&& self.duration matches Some(d) ==> d.wf()
        &&& self.fps matches Some(f) ==> f.wf()
    }
}

/// The track of which nothing is known.
pub open spec fn blank_track() -> Mp4TrackView {
    Mp4TrackView {
        kind: None,
        codec: None,
        width: None,
        height: None,
        fps: None,
        sample_rate: None,
        channels: None,
        language: None,
        duration: None,
    }
}

impl Mp4Track {
    pub fn new() -> (r: Mp4Track)
        ensures
            r@ == blank_track(),
    {
        Mp4Track {
            kind: None,
            codec: None,
            width: None,
            height: None,
            fps: None,
            sample_rate: None,
            channels: None,
            language: None,
            duration: None,
        }
    }
}

/// The three letters of a packed language code: three 5-bit fields, each
/// offset by 0x60.
pub open spec fn language_letters(raw: u16) -> Seq<u8> {
    seq![
        ((raw as int / 1024) % 32 + 0x60) as u8,
        ((raw as int / 32) % 32 + 0x60) as u8,
        (raw as int % 32 + 0x60) as u8,
    ]
}

/// A byte is a small ASCII letter.
pub open spec fn is_small_letter(b: u8) -> bool {
    0x61 <= b <= 0x7A
}

/// The language that a packed code names: its three letters if all three
/// are small ASCII letters, else none.
pub open spec fn language_of(raw: u16) -> Option<Seq<char>> {
    let l = language_letters(raw);
    if is_small_letter(l[0]) && is_small_letter(l[1]) && is_small_letter(l[2]) {
        Some(ascii_text(l))
    } else {
        None
    }
}

/// Decodes a packed 16-bit ISO language code.
pub fn decode_mp4_language(raw: u16) -> (r: Option<String>)
    ensures
        text_of(r) == language_of(raw),
{
    let a: u8 = ((raw / 1024) % 32 + 0x60) as u8;
    let b: u8 = ((raw / 32) % 32 + 0x60) as u8;
    let c: u8 = (raw % 32 + 0x60) as u8;
    if !(0x61 <= a && a <= 0x7A && 0x61 <= b && b <= 0x7A && 0x61 <= c && c <= 0x7A) {
        return None;
    }
    let letters: [u8; 3] = [a, b, c];
    proof {
        assert(letters@ =~= language_letters(raw));
    }
    let text = decode_lossy(letters.as_slice());
    Some(text)
}

/// The duration that a movie header declares: its duration field over its
/// timescale, in the 64-bit layout if the version byte is 1 and in the
/// 32-bit layout otherwise. None if the header is too short or the
/// timescale is zero.
pub open spec fn mvhd_duration(payload: Seq<u8>) -> Option<Ratio> {
    if payload.len() < 24 {
        None
    } else if payload[0] == 1 {
        if payload.len() < 32 || be32(payload, 20) == 0 {
            None
        } else {
            Some(Ratio { num: be64(payload, 24) as u64, den: be32(payload, 20) as u64 })
        }
    } else if be32(payload, 12) == 0 {
        None
    } else {
        Some(Ratio { num: be32(payload, 16) as u64, den: be32(payload, 12) as u64 })
    }
}

/// Reads the duration of a movie header.
pub fn parse_mvhd(payload: &[u8]) -> (r: Option<Ratio>)
    ensures
        r == mvhd_duration(payload@),
        r matches Some(d) ==> d.wf(),
{
    if payload.len() < 24 {
        return None;
    }
    let version = payload[0];
    if version == 1 {
        if payload.len() < 32 {
            return None;
        }
        let timescale = match read_u32_be(payload, 20) {
            Some(v) => v,
            None => return None,
        };
        let dur = match read_u64_be(payload, 24) {
            Some(v) => v,
            None => return None,
        };
        if timescale == 0 {
            return None;
        }
        Some(Ratio { num: dur, den: timescale as u64 })
    } else {
        let timescale = match read_u32_be(payload, 12) {
            Some(v) => v,
            None => return None,
        };
        let dur = match read_u32_be(payload, 16) {
            Some(v) => v,
            None => return None,
        };
        if timescale == 0 {
            return None;
        }
        Some(Ratio { num: dur as u64, den: timescale as u64 })
    }
}

/// The integer part of the 16.16 fixed-point number at `at`, or none if the
/// payload ends before it.
pub open spec fn fixed_integer_part(payload: Seq<u8>, at: int) -> Option<u32> {
    if at + 4 <= payload.len() {
        Some((be32(payload, at) / 65536) as u32)
    } else {
        None
    }
}

/// A track header seeds the dimensions that are still unset with the
/// integer parts of its 16.16 width and height.
pub open spec fn apply_tkhd(t: Mp4TrackView, payload: Seq<u8>) -> Mp4TrackView {
    if payload.len() < 84 {
        t
    } else {
        let at: int = if payload[0] == 1 {
            88
        } else {
            76
        };
        Mp4TrackView {
            width: if t.width is None {
                fixed_integer_part(payload, at)
            } else {
                t.width
            },
            height: if t.height is None {
                fixed_integer_part(payload, at + 4)
            } else {
                t.height
            },
            ..t
        }
    }
}

/// Reads a track header into `track`.
pub fn parse_tkhd(payload: &[u8], track: &mut Mp4Track)
    ensures
        final(track)@ == apply_tkhd(old(track)@, payload@),
        old(track)@.wf() ==> final(track)@.wf(),
{
    if payload.len() < 84 {
        return ;
    }
    let version = payload[0];
    let (width_off, height_off): (usize, usize) = if version == 1 {
        (88, 92)
    } else {
        (76, 80)
    };
    let width = match read_u32_be(payload, width_off) {
        Some(v) => Some(v / 65536),
        None => None,
    };
    let height = match read_u32_be(payload, height_off) {
        Some(v) => Some(v / 65536),
        None => None,
    };
    if track.width.is_none() {
        track.width = width;
    }
    if track.height.is_none() {
        track.height = height;
    }
}

/// The kind of track that a handler tag announces.
pub open spec fn handler_kind(handler: Seq<u8>) -> Option<TrackKind> {
    if handler == tag(0x76, 0x69, 0x64, 0x65) {
        Some(TrackKind::Video)
    } else if handler == tag(0x73, 0x6F, 0x75, 0x6E) {
        Some(TrackKind::Audio)
    } else if handler == tag(0x74, 0x65, 0x78, 0x74) || handler == tag(0x73, 0x62, 0x74, 0x6C)
        || handler == tag(0x73, 0x75, 0x62, 0x74) || handler == tag(0x63, 0x6C, 0x63, 0x70) {
        Some(TrackKind::Subtitle)
    } else {
        None
    }
}

/// A handler box sets the kind of the track if its tag, at bytes 8 to 12,
/// is a known one; otherwise the track is left as it was.
pub open spec fn apply_hdlr(t: Mp4TrackView, payload: Seq<u8>) -> Mp4TrackView {
    if payload.len() < 12 {
        t
    } else {
        match handler_kind(payload.subrange(8, 12)) {
            Some(k) => Mp4TrackView { kind: Some(k), ..t },
            None => t,
        }
    }
}

/// Reads a handler box into `track`.
pub fn parse_hdlr(payload: &[u8], track: &mut Mp4Track)
    ensures
        final(track)@ == apply_hdlr(old(track)@, payload@),
        old(track)@.wf() ==> final(track)@.wf(),
{
    if payload.len() < 12 {
        return ;
    }
    let handler: [u8; 4] = [payload[8], payload[9], payload[10], payload[11]];
    proof {
        assert(handler@ =~= payload@.subrange(8, 12));
    }
    if tag_is(&handler, 0x76, 0x69, 0x64, 0x65) {
        track.kind = Some(TrackKind::Video);
    } else if tag_is(&handler, 0x73, 0x6F, 0x75, 0x6E) {
        track.kind = Some(TrackKind::Audio);
    } else if tag_is(&handler, 0x74, 0x65, 0x78, 0x74) || tag_is(&handler, 0x73, 0x62, 0x74, 0x6C)
        || tag_is(&handler, 0x73, 0x75, 0x62, 0x74) || tag_is(&handler, 0x63, 0x6C, 0x63, 0x70) {
        track.kind = Some(TrackKind::Subtitle);
    }
}

/// What the walk of a media box carries: the timescale of its media
/// header, once seen, and the track.
pub struct MediaState {
    pub timescale: Option<u32>,
    pub track: Mp4TrackView,
}

/// What a media header with these three fields does: it sets the
/// timescale, the duration of the track where the timescale is positive,
/// and the language, which is unset where the packed code names none.
pub open spec fn mdhd_fields(m: MediaState, timescale: int, ticks: int, lang: int) -> MediaState {
    MediaState {
        timescale: Some(timescale as u32),
        track: Mp4TrackView {
            duration: if timescale > 0 {
                Some(Ratio { num: ticks as u64, den: timescale as u64 })
            } else {
                m.track.duration
            },
            language: language_of(lang as u16),
            ..m.track
        },
    }
}

/// A media header, in the 64-bit layout if its version byte is 1 and in the
/// 32-bit layout otherwise. A header that is too short changes nothing.
pub open spec fn apply_mdhd(m: MediaState, payload: Seq<u8>) -> MediaState {
    if payload.len() < 24 {
        m
    } else if payload[0] == 1 {
        if payload.len() < 36 {
            m
        } else {
            mdhd_fields(m, be32(payload, 20), be64(payload, 24), be16(payload, 32))
        }
    } else {
        mdhd_fields(m, be32(payload, 12), be32(payload, 16), be16(payload, 20))
    }
}

/// Reads a media header into `timescale` and `track`.
pub fn parse_mdhd(payload: &[u8], timescale: &mut Option<u32>, track: &mut Mp4Track)
    ensures
        (MediaState { timescale: *final(timescale), track: final(track)@ }) == apply_mdhd(
            MediaState { timescale: *old(timescale), track: old(track)@ },
            payload@,
        ),
        old(track)@.wf() ==> final(track)@.wf(),
{
    if payload.len() < 24 {
        return ;
    }
    let version = payload[0];
    let wide = version == 1;
    if wide && payload.len() < 36 {
        return ;
    }
    let ts: u32 = match read_u32_be(payload, if wide { 20 } else { 12 }) {
        Some(v) => v,
        None => return ,
    };
    let dur: u64 = if wide {
        match read_u64_be(payload, 24) {
            Some(v) => v,
            None => return ,
        }
    } else {
        match read_u32_be(payload, 16) {
            Some(v) => v as u64,
            None => return ,
        }
    };
    let lang: u16 = match read_u16_be(payload, if wide { 32 } else { 20 }) {
        Some(v) => v,
        None => return ,
    };
    *timescale = Some(ts);
    if ts > 0 {
        track.duration = Some(Ratio { num: dur, den: ts as u64 });
    }
    track.language = decode_mp4_language(lang);
}

/// A sample description table. Only its first entry is read: the entry's
/// four-character type names the codec. For a video track with an entry of
/// at least 36 bytes the entry's width and height replace whatever the
/// track held; for an audio track, its channel count and the integer part
/// of its sample rate.
pub open spec fn apply_stsd(t: Mp4TrackView, payload: Seq<u8>) -> Mp4TrackView {
    if payload.len() < 16 || be32(payload, 4) == 0 || be32(payload, 8) < 8 || 8 + be32(payload, 8)
        > payload.len() {
        t
    } else {
        let named = Mp4TrackView { codec: Some(tag_text(payload.subrange(12, 16))), ..t };
        if t.kind == Some(TrackKind::Video) && be32(payload, 8) >= 36 {
            Mp4TrackView {
                width: Some(be16(payload, 40) as u32),
                height: Some(be16(payload, 42) as u32),
                ..named
            }
        } else if t.kind == Some(TrackKind::Audio) && be32(payload, 8) >= 36 {
            Mp4TrackView {
                channels: Some(be16(payload, 32) as u32),
                sample_rate: Some((be32(payload, 40) / 65536) as u32),
                ..named
            }
        } else {
            named
        }
    }
}

/// Reads a sample description table into `track`.
pub fn parse_stsd(payload: &[u8], track: &mut Mp4Track)
    ensures
        final(track)@ == apply_stsd(old(track)@, payload@),
        old(track)@.wf() ==> final(track)@.wf(),
{
    if payload.len() < 16 {
        return ;
    }
    let entry_count: u32 = match read_u32_be(payload, 4) {
        Some(v) => v,
        None => return ,
    };
    if entry_count == 0 {
        return ;
    }
    let size: u32 = match read_u32_be(payload, 8) {
        Some(v) => v,
        None => return ,
    };
    if size < 8 || size as u64 > (payload.len() - 8) as u64 {
        return ;
    }
    let lower = read_lowercase(slice_subrange(payload, 12, 16));
    track.codec = Some(trim_space(lower.as_str()).to_owned());
    if matches!(track.kind, Some(TrackKind::Video)) && size >= 36 {
        track.width = match read_u16_be(payload, 40) {
            Some(v) => Some(v as u32),
            None => None,
        };
        track.height = match read_u16_be(payload, 42) {
            Some(v) => Some(v as u32),
            None => None,
        };
    } else if matches!(track.kind, Some(TrackKind::Audio)) && size >= 36 {
        track.channels = match read_u16_be(payload, 32) {
            Some(v) => Some(v as u32),
            None => None,
        };
        track.sample_rate = match read_u32_be(payload, 40) {
            Some(v) => Some(v / 65536),
            None => None,
        };
    }
}

/// A time-to-sample table gives a video track with a positive timescale its
/// frame rate: the timescale over the sample duration of the first run, if
/// the table has a run and that duration is positive.
pub open spec fn apply_stts(t: Mp4TrackView, timescale: Option<u32>, payload: Seq<u8>) -> Mp4TrackView {
    if t.kind != Some(TrackKind::Video) || timescale is None || timescale->0 == 0 || payload.len()
        < 16 || be32(payload, 4) == 0 || be32(payload, 12) == 0 {
        t
    } else {
        Mp4TrackView {
            fps: Some(Ratio { num: timescale->0 as u64, den: be32(payload, 12) as u64 }),
            ..t
        }
    }
}

/// Reads a time-to-sample table into `track`.
pub fn parse_stts(payload: &[u8], timescale: Option<u32>, track: &mut Mp4Track)
    ensures
        final(track)@ == apply_stts(old(track)@, timescale, payload@),
        old(track)@.wf() ==> final(track)@.wf(),
{
    if !matches!(track.kind, Some(TrackKind::Video)) {
        return ;
    }
    let ts: u32 = match timescale {
        Some(v) => v,
        None => return ,
    };
    if ts == 0 || payload.len() < 16 {
        return ;
    }
    let entry_count: u32 = match read_u32_be(payload, 4) {
        Some(v) => v,
        None => return ,
    };
    if entry_count == 0 {
        return ;
    }
    let sample_duration: u32 = match read_u32_be(payload, 12) {
        Some(v) => v,
        None => return ,
    };
    if sample_duration == 0 {
        return ;
    }
    track.fps = Some(Ratio { num: ts as u64, den: sample_duration as u64 });
}

/// The payload of a box.
pub open spec fn payload_of(data: Seq<u8>, b: BoxSpan) -> Seq<u8> {
    data.subrange(b.start, b.end)
}

/// What one box inside a sample table does to the track.
pub open spec fn stbl_step(data: Seq<u8>, timescale: Option<u32>) -> spec_fn(
    BoxSpan,
    Mp4TrackView,
) -> Mp4TrackView {
    |b: BoxSpan, t: Mp4TrackView|
        if b.tag == tag(0x73, 0x74, 0x73, 0x64) {
            apply_stsd(t, payload_of(data, b))
        } else if b.tag == tag(0x73, 0x74, 0x74, 0x73) {
            apply_stts(t, timescale, payload_of(data, b))
        } else {
            t
        }
}

/// Walks a sample table box (`stbl`): its `stsd` and `stts` children.
pub fn parse_stbl(
    data: &[u8],
    start: usize,
    end: usize,
    timescale: Option<u32>,
    track: &mut Mp4Track,
)
    ensures
        final(track)@ == mp4_fold(
            data@,
            start as int,
            end as int,
            old(track)@,
            stbl_step(data@, timescale),
        ),
        old(track)@.wf() ==> final(track)@.wf(),
{
    let ghost sound = track@.wf();
    let ghost goal = mp4_fold(
        data@,
        start as int,
        end as int,
        track@,
        stbl_step(data@, timescale),
    );
    let mut offset = start;
    loop
        invariant
            goal == mp4_fold(data@, offset as int, end as int, track@, stbl_step(data@, timescale)),
            sound ==> track@.wf(),
        ensures
            goal == track@,
            sound ==> track@.wf(),
        decreases end - offset,
    {
        let (typ, payload_start, payload_end, next) = match next_mp4_box(data, offset, end) {
            Some(found) => found,
            None => break ,
        };
        if tag_is(&typ, 0x73, 0x74, 0x73, 0x64) {
            parse_stsd(slice_subrange(data, payload_start, payload_end), track);
        } else if tag_is(&typ, 0x73, 0x74, 0x74, 0x73) {
            parse_stts(slice_subrange(data, payload_start, payload_end), timescale, track);
        }
        if next <= offset {
            break ;
        }
        offset = next;
    }
}

/// What one box inside a media information box does to the track: a sample
/// table is walked, anything else is passed over.
pub open spec fn minf_step(data: Seq<u8>, timescale: Option<u32>) -> spec_fn(
    BoxSpan,
    Mp4TrackView,
) -> Mp4TrackView {
    |b: BoxSpan, t: Mp4TrackView|
        if b.tag == tag(0x73, 0x74, 0x62, 0x6C) {
            mp4_fold(data, b.start, b.end, t, stbl_step(data, timescale))
        } else {
            t
        }
}

/// Walks a media information box (`minf`): its `stbl` children.
pub fn parse_minf(
    data: &[u8],
    start: usize,
    end: usize,
    timescale: Option<u32>,
    track: &mut Mp4Track,
)
    ensures
        final(track)@ == mp4_fold(
            data@,
            start as int,
            end as int,
            old(track)@,
            minf_step(data@, timescale),
        ),
        old(track)@.wf() ==> final(track)@.wf(),
{
    let ghost sound = track@.wf();
    let ghost goal = mp4_fold(
        data@,
        start as int,
        end as int,
        track@,
        minf_step(data@, timescale),
    );
    let mut offset = start;
    loop
        invariant
            goal == mp4_fold(data@, offset as int, end as int, track@, minf_step(data@, timescale)),
            sound ==> track@.wf(),
        ensures
            goal == track@,
            sound ==> track@.wf(),
        decreases end - offset,
    {
        let (typ, payload_start, payload_end, next) = match next_mp4_box(data, offset, end) {
            Some(found) => found,
            None => break ,
        };
        if tag_is(&typ, 0x73, 0x74, 0x62, 0x6C) {
            parse_stbl(data, payload_start, payload_end, timescale, track);
        }
        if next <= offset {
            break ;
        }
        offset = next;
    }
}

/// What one box inside a media box does: a handler sets the kind, a media
/// header the timescale, the duration and the language, and a media
/// information box is walked with the timescale known so far.
pub open spec fn mdia_step(data: Seq<u8>) -> spec_fn(BoxSpan, MediaState) -> MediaState {
    |b: BoxSpan, m: MediaState|
        if b.tag == tag(0x68, 0x64, 0x6C, 0x72) {
            MediaState { track: apply_hdlr(m.track, payload_of(data, b)), ..m }
        } else if b.tag == tag(0x6D, 0x64, 0x68, 0x64) {
            apply_mdhd(m, payload_of(data, b))
        } else if b.tag == tag(0x6D, 0x69, 0x6E, 0x66) {
            MediaState {
                track: mp4_fold(data, b.start, b.end, m.track, minf_step(data, m.timescale)),
                ..m
            }
        } else {
            m
        }
}

/// The track after the walk of a media box that starts with no timescale.
pub open spec fn mdia_walk(data: Seq<u8>, start: int, end: int, t: Mp4TrackView) -> Mp4TrackView {
    mp4_fold(data, start, end, MediaState { timescale: None, track: t }, mdia_step(data)).track
}

/// Walks a media box (`mdia`): its `hdlr`, `mdhd` and `minf` children.
pub fn parse_mdia(data: &[u8], start: usize, end: usize, track: &mut Mp4Track)
    ensures
        final(track)@ == mdia_walk(data@, start as int, end as int, old(track)@),
        old(track)@.wf() ==> final(track)@.wf(),
{
    let ghost sound = track@.wf();
    let mut timescale: Option<u32> = None;
    let ghost goal = mp4_fold(
        data@,
        start as int,
        end as int,
        MediaState { timescale: None, track: track@ },
        mdia_step(data@),
    );
    let mut offset = start;
    loop
        invariant
            goal == mp4_fold(
                data@,
                offset as int,
                end as int,
                MediaState { timescale, track: track@ },
                mdia_step(data@),
            ),
            sound ==> track@.wf(),
        ensures
            goal == (MediaState { timescale, track: track@ }),
            sound ==> track@.wf(),
        decreases end - offset,
    {
        let (typ, payload_start, payload_end, next) = match next_mp4_box(data, offset, end) {
            Some(found) => found,
            None => break ,
        };
        if tag_is(&typ, 0x68, 0x64, 0x6C, 0x72) {
            parse_hdlr(slice_subrange(data, payload_start, payload_end), track);
        } else if tag_is(&typ, 0x6D, 0x64, 0x68, 0x64) {
            parse_mdhd(slice_subrange(data, payload_start, payload_end), &mut timescale, track);
        } else if tag_is(&typ, 0x6D, 0x69, 0x6E, 0x66) {
            parse_minf(data, payload_start, payload_end, timescale, track);
        }
        if next <= offset {
            break ;
        }
        offset = next;
    }
}

/// What one box inside a track box does to the track.
pub open spec fn trak_step(data: Seq<u8>) -> spec_fn(BoxSpan, Mp4TrackView) -> Mp4TrackView {
    |b: BoxSpan, t: Mp4TrackView|
        if b.tag == tag(0x74, 0x6B, 0x68, 0x64) {
            apply_tkhd(t, payload_of(data, b))
        } else if b.tag == tag(0x6D, 0x64, 0x69, 0x61) {
            mdia_walk(data, b.start, b.end, t)
        } else {
            t
        }
}

/// The track that a track box describes.
pub open spec fn trak_walk(data: Seq<u8>, start: int, end: int) -> Mp4TrackView {
    mp4_fold(data, start, end, blank_track(), trak_step(data))
}

/// Walks a track box (`trak`): its `tkhd` and `mdia` children.
pub fn parse_trak(data: &[u8], start: usize, end: usize) -> (track: Mp4Track)
    ensures
        track@ == trak_walk(data@, start as int, end as int),
        track@.wf(),
{
    let mut track = Mp4Track::new();
    let mut offset = start;
    loop
        invariant
            trak_walk(data@, start as int, end as int) == mp4_fold(
                data@,
                offset as int,
                end as int,
                track@,
                trak_step(data@),
            ),
            track@.wf(),
        ensures
            trak_walk(data@, start as int, end as int) == track@,
            track@.wf(),
        decreases end - offset,
    {
        let (typ, payload_start, payload_end, next) = match next_mp4_box(data, offset, end) {
            Some(found) => found,
            None => break ,
        };
        if tag_is(&typ, 0x74, 0x6B, 0x68, 0x64) {
            parse_tkhd(slice_subrange(data, payload_start, payload_end), &mut track);
        } else if tag_is(&typ, 0x6D, 0x64, 0x69, 0x61) {
            parse_mdia(data, payload_start, payload_end, &mut track);
        }
        if next <= offset {
            break ;
        }
        offset = next;
    }
    track
}

/// The views of a run of tracks, in order.
pub open spec fn track_views(tracks: Seq<Mp4Track>) -> Seq<Mp4TrackView> {
    Seq::new(tracks.len(), |i: int| tracks[i]@)
}

/// Every track of the run has a kind and holds well-formed ratios.
pub open spec fn all_settled(tracks: Seq<Mp4TrackView>) -> bool {
    forall|i: int| 0 <= i < tracks.len() ==> (#[trigger] tracks[i]).wf() && tracks[i].kind is Some
}

/// What the walk of a movie box carries: the duration of the movie and the
/// tracks found so far.
pub struct MovieState {
    pub duration: Ratio,
    pub tracks: Seq<Mp4TrackView>,
}

/// What one box inside a movie box does: a movie header that declares a
/// duration replaces the duration, and a track box adds its track if the
/// kind of the track was determined.
pub open spec fn moov_step(data: Seq<u8>) -> spec_fn(BoxSpan, MovieState) -> MovieState {
    |b: BoxSpan, m: MovieState|
        if b.tag == tag(0x6D, 0x76, 0x68, 0x64) {
            match mvhd_duration(payload_of(data, b)) {
                Some(d) => MovieState { duration: d, ..m },
                None => m,
            }
        } else if b.tag == tag(0x74, 0x72, 0x61, 0x6B) {
            if trak_walk(data, b.start, b.end).kind is Some {
                MovieState { tracks: m.tracks.push(trak_walk(data, b.start, b.end)), ..m }
            } else {
                m
            }
        } else {
            m
        }
}

/// Walks a movie box (`moov`): its `mvhd` and `trak` children.
pub fn parse_moov(
    data: &[u8],
    start: usize,
    end: usize,
    duration: &mut Ratio,
    tracks: &mut Vec<Mp4Track>,
)
    ensures
        (MovieState { duration: *final(duration), tracks: track_views(final(tracks)@) })
            == mp4_fold(
            data@,
            start as int,
            end as int,
            MovieState { duration: *old(duration), tracks: track_views(old(tracks)@) },
            moov_step(data@),
        ),
        old(duration).wf() && all_settled(track_views(old(tracks)@)) ==> final(duration).wf() && all_settled(
            track_views(final(tracks)@),
        ),
{
    let ghost sound = duration.wf() && all_settled(track_views(tracks@));
    let ghost goal = mp4_fold(
        data@,
        start as int,
        end as int,
        MovieState { duration: *duration, tracks: track_views(tracks@) },
        moov_step(data@),
    );
    let mut offset = start;
    loop
        invariant
            goal == mp4_fold(
                data@,
                offset as int,
                end as int,
                MovieState { duration: *duration, tracks: track_views(tracks@) },
                moov_step(data@),
            ),
            sound ==> duration.wf() && all_settled(track_views(tracks@)),
        ensures
            goal == (MovieState { duration: *duration, tracks: track_views(tracks@) }),
            sound ==> duration.wf() && all_settled(track_views(tracks@)),
        decreases end - offset,
    {
        let (typ, payload_start, payload_end, next) = match next_mp4_box(data, offset, end) {
            Some(found) => found,
            None => break ,
        };
        if tag_is(&typ, 0x6D, 0x76, 0x68, 0x64) {
            if let Some(dur) = parse_mvhd(slice_subrange(data, payload_start, payload_end)) {
                *duration = dur;
            }
        } else if tag_is(&typ, 0x74, 0x72, 0x61, 0x6B) {
            let track = parse_trak(data, payload_start, payload_end);
            if track.kind.is_some() {
                let ghost before = track_views(tracks@);
                tracks.push(track);
                proof {
                    assert(track_views(tracks@) =~= before.push(track@));
                }
            }
        }
        if next <= offset {
            break ;
        }
        offset = next;
    }
}

/// The container format that a major brand names: `mov` for the QuickTime
/// brand, else the brand itself in small letters without surrounding white
/// space.
pub open spec fn brand_format(major: Seq<u8>) -> Seq<char> {
    if fold_case(decoded_text(major)) == "qt  "@ {
        "mov"@
    } else {
        tag_text(major)
    }
}

/// Names the container format of a major brand.
pub fn format_of_brand(major: &[u8]) -> (r: String)
    ensures
        r@ == brand_format(major@),
{
    let lower = read_lowercase(major);
    let quicktime = "qt  ".to_owned();
    if lower == quicktime {
        "mov".to_owned()
    } else {
        trim_space(lower.as_str()).to_owned()
    }
}

/// What the walk of a whole file carries: whether a file type box was
/// seen, the format it names, and the movie.
pub struct FileState {
    pub has_ftyp: bool,
    pub format: Seq<char>,
    pub movie: MovieState,
}

/// What one top-level box does: a file type box marks the file as MP4 and,
/// if it holds a major brand, names the format; a movie box is walked.
pub open spec fn file_step(data: Seq<u8>) -> spec_fn(BoxSpan, FileState) -> FileState {
    |b: BoxSpan, f: FileState|
        if b.tag == tag(0x66, 0x74, 0x79, 0x70) {
            FileState {
                has_ftyp: true,
                format: if b.end >= b.start + 4 {
                    brand_format(data.subrange(b.start, b.start + 4))
                } else {
                    f.format
                },
                ..f
            }
        } else if b.tag == tag(0x6D, 0x6F, 0x6F, 0x76) {
            FileState { movie: mp4_fold(data, b.start, b.end, f.movie, moov_step(data)), ..f }
        } else {
            f
        }
}

/// The state of a file before any box was seen.
pub open spec fn blank_file() -> FileState {
    FileState {
        has_ftyp: false,
        format: "mp4"@,
        movie: MovieState { duration: Ratio { num: 0, den: 1 }, tracks: Seq::empty() },
    }
}

/// The longest duration among the first `upto` tracks, zero if none has
/// one.
pub open spec fn longest(tracks: Seq<Mp4TrackView>, upto: int) -> Ratio
    decreases upto,
{
    if upto <= 0 {
        Ratio { num: 0, den: 1 }
    } else {
        let before = longest(tracks, upto - 1);
        match tracks[upto - 1].duration {
            Some(d) => if d.gt(before) {
                d
            } else {
                before
            },
            None => before,
        }
    }
}

/// The stream that a track is reported as, under the given index: none for
/// a track whose kind was never determined.
pub open spec fn mp4_stream(index: int, t: Mp4TrackView) -> Option<StreamView> {
    match t.kind {
        Some(kind) => Some(
            StreamView {
                index,
                kind,
                codec: match t.codec {
                    Some(c) => c,
                    None => "unknown"@,
                },
                width: t.width,
                height: t.height,
                fps: t.fps,
                sample_rate: t.sample_rate,
                channels: t.channels,
                language: t.language,
                bitrate: None,
                is_default: None,
                is_forced: None,
            },
        ),
        None => None,
    }
}

/// The streams of the first `upto` tracks, in order, each under the
/// position of its track.
pub open spec fn mp4_streams(tracks: Seq<Mp4TrackView>, upto: int) -> Seq<StreamView>
    decreases upto,
{
    if upto <= 0 {
        Seq::empty()
    } else {
        match mp4_stream(upto - 1, tracks[upto - 1]) {
            Some(s) => mp4_streams(tracks, upto - 1).push(s),
            None => mp4_streams(tracks, upto - 1),
        }
    }
}

/// What an MP4 or MOV buffer is reported as.
///
/// There is a result only if the buffer holds at least 12 bytes, a file
/// type box stands at the top level, and at least one track has a known
/// kind. The duration is that of the movie header if it is positive, else
/// the longest track duration.
pub open spec fn mp4_probe(data: Seq<u8>) -> Option<ProbeView> {
    let f = mp4_fold(data, 0, data.len() as int, blank_file(), file_step(data));
    let streams = mp4_streams(f.movie.tracks, f.movie.tracks.len() as int);
    if data.len() < 12 || !f.has_ftyp || streams.len() == 0 {
        None
    } else {
        Some(
            ProbeView {
                duration: ProbeDuration::Exact(
                    if f.movie.duration.num > 0 {
                        f.movie.duration
                    } else {
                        longest(f.movie.tracks, f.movie.tracks.len() as int)
                    },
                ),
                bitrate: 0,
                format: f.format,
                streams,
                fonts: 0,
            },
        )
    }
}

/// Finds the longest duration among the tracks.
pub fn longest_duration(tracks: &Vec<Mp4Track>) -> (r: Ratio)
    ensures
        r == longest(track_views(tracks@), tracks@.len() as int),
        all_settled(track_views(tracks@)) ==> r.wf(),
{
    let mut best = Ratio::zero();
    let mut i: usize = 0;
    while i < tracks.len()
        invariant
            i <= tracks@.len(),
            best == longest(track_views(tracks@), i as int),
            all_settled(track_views(tracks@)) ==> best.wf(),
        decreases tracks@.len() - i,
    {
        proof {
            assert(track_views(tracks@)[i as int] == tracks@[i as int]@);
        }
        if let Some(d) = tracks[i].duration {
            if d.exceeds(&best) {
                best = d;
            }
        }
        i += 1;
    }
    best
}

/// Turns the tracks into the streams they are reported as.
pub fn collect_mp4_streams(tracks: &Vec<Mp4Track>) -> (r: Vec<StreamInfo>)
    ensures
        stream_views(r@) == mp4_streams(track_views(tracks@), tracks@.len() as int),
        all_settled(track_views(tracks@)) ==> in_order(stream_views(r@)) && r@.len()
            == tracks@.len(),
{
    let mut streams: Vec<StreamInfo> = Vec::new();
    let mut i: usize = 0;
    proof {
        assert(stream_views(streams@) =~= Seq::empty());
    }
    while i < tracks.len()
        invariant
            i <= tracks@.len(),
            stream_views(streams@) == mp4_streams(track_views(tracks@), i as int),
            all_settled(track_views(tracks@)) ==> in_order(stream_views(streams@)) && streams@.len()
                == i,
        decreases tracks@.len() - i,
    {
        let t = &tracks[i];
        proof {
            assert(track_views(tracks@)[i as int] == t@);
        }
        if let Some(kind) = t.kind {
            let codec = match &t.codec {
                Some(c) => c.clone(),
                None => "unknown".to_owned(),
            };
            let stream = StreamInfo {
                index: i,
                kind,
                codec,
                width: t.width,
                height: t.height,
                fps: t.fps,
                sample_rate: t.sample_rate,
                channels: t.channels,
                language: clone_text(&t.language),
                bitrate: None,
                is_default: None,
                is_forced: None,
            };
            let ghost before = stream_views(streams@);
            streams.push(stream);
            proof {
                assert(stream_views(streams@) =~= before.push(stream@));
            }
        }
        i += 1;
    }
    streams
}

/// Probes a buffer as MP4 or MOV.
pub fn parse_mp4(data: &[u8]) -> (r: Option<ProbeResult>)
    ensures
        r matches Some(p) ==> mp4_probe(data@) == Some(p@),
        r is None ==> mp4_probe(data@) is None,
        r matches Some(p) ==> p.streams@.len() > 0 && p.font_attachments@.len() == 0 && p.bitrate
            == 0,
        r matches Some(p) ==> (p.duration matches ProbeDuration::Exact(d) && d.wf()),
        r matches Some(p) ==> in_order(p@.streams),
{
    if data.len() < 12 {
        return None;
    }
    let mut has_ftyp = false;
    let mut format = "mp4".to_owned();
    let mut duration = Ratio::zero();
    let mut tracks: Vec<Mp4Track> = Vec::new();
    let ghost goal = mp4_fold(data@, 0, data@.len() as int, blank_file(), file_step(data@));
    proof {
        assert(track_views(tracks@) =~= Seq::empty());
    }
    let end = data.len();
    let mut offset: usize = 0;
    loop
        invariant
            end == data@.len(),
            goal == mp4_fold(
                data@,
                offset as int,
                end as int,
                FileState {
                    has_ftyp,
                    format: format@,
                    movie: MovieState { duration, tracks: track_views(tracks@) },
                },
                file_step(data@),
            ),
            duration.wf(),
            all_settled(track_views(tracks@)),
        ensures
            goal == (FileState {
                has_ftyp,
                format: format@,
                movie: MovieState { duration, tracks: track_views(tracks@) },
            }),
            duration.wf(),
            all_settled(track_views(tracks@)),
        decreases end - offset,
    {
        let (typ, payload_start, payload_end, next) = match next_mp4_box(data, offset, end) {
            Some(found) => found,
            None => break ,
        };
        if tag_is(&typ, 0x66, 0x74, 0x79, 0x70) {
            has_ftyp = true;
            if payload_end - payload_start >= 4 {
                format = format_of_brand(slice_subrange(data, payload_start, payload_start + 4));
            }
        } else if tag_is(&typ, 0x6D, 0x6F, 0x6F, 0x76) {
            parse_moov(data, payload_start, payload_end, &mut duration, &mut tracks);
        }
        if next <= offset {
            break ;
        }
        offset = next;
    }
    if !has_ftyp {
        return None;
    }
    if duration.num == 0 {
        duration = longest_duration(&tracks);
    }
    let streams = collect_mp4_streams(&tracks);
    if streams.len() == 0 {
        return None;
    }
    Some(
        ProbeResult {
            duration: ProbeDuration::Exact(duration),
            bitrate: 0,
            format,
            streams,
            font_attachments: Vec::new(),
        },
    )
}

/// The dimensions of the sample description win: for a video track, a
/// sample description whose first entry has at least 36 bytes sets the
/// width and the height to the values of that entry, whatever a track
/// header had set before.
pub proof fn lemma_sample_description_wins(t: Mp4TrackView, header: Seq<u8>, payload: Seq<u8>)
    requires
        t.kind == Some(TrackKind::Video),
        payload.len() >= 16,
        be32(payload, 4) != 0,
        36 <= be32(payload, 8),
        8 + be32(payload, 8) <= payload.len(),
    ensures
        apply_stsd(apply_tkhd(t, header), payload).width == Some(be16(payload, 40) as u32),
        apply_stsd(apply_tkhd(t, header), payload).height == Some(be16(payload, 42) as u32),
        apply_stsd(t, payload).width == Some(be16(payload, 40) as u32),
        apply_stsd(t, payload).height == Some(be16(payload, 42) as u32),
{
}

/// A track header never unsets a dimension, and never replaces one that
/// was set.
pub proof fn lemma_track_header_only_seeds(t: Mp4TrackView, header: Seq<u8>)
    ensures
        t.width is Some ==> apply_tkhd(t, header).width == t.width,
        t.height is Some ==> apply_tkhd(t, header).height == t.height,
        apply_tkhd(t, header).kind == t.kind,
{
}

/// Tracks without a kind give no streams.
pub proof fn lemma_streams_need_kinds(tracks: Seq<Mp4TrackView>, upto: int)
    requires
        0 <= upto <= tracks.len(),
        forall|i: int| 0 <= i < upto ==> tracks[i].kind is None,
    ensures
        mp4_streams(tracks, upto).len() == 0,
    decreases upto,
{
    if upto > 0 {
        lemma_streams_need_kinds(tracks, upto - 1);
    }
}

/// Each track with a kind gives exactly one stream, so there are never
/// more streams than tracks.
pub proof fn lemma_streams_count(tracks: Seq<Mp4TrackView>, upto: int)
    requires
        0 <= upto <= tracks.len(),
    ensures
        mp4_streams(tracks, upto).len() <= upto,
        (forall|i: int| 0 <= i < upto ==> tracks[i].kind is Some) ==> mp4_streams(
            tracks,
            upto,
        ).len() == upto,
    decreases upto,
{
    if upto > 0 {
        lemma_streams_count(tracks, upto - 1);
    }
}

/// The tracks that the walk of a whole buffer collects.
pub open spec fn mp4_tracks(data: Seq<u8>) -> Seq<Mp4TrackView> {
    mp4_fold(data, 0, data.len() as int, blank_file(), file_step(data)).movie.tracks
}

/// A buffer in which no track has a determinable kind is not reported as
/// MP4, however well-formed its boxes are: there is no result with an empty
/// list of streams.
pub proof fn lemma_no_usable_track_no_result(data: Seq<u8>)
    requires
        forall|i: int| 0 <= i < mp4_tracks(data).len() ==> mp4_tracks(data)[i].kind is None,
    ensures
        mp4_probe(data) is None,
{
    lemma_streams_need_kinds(mp4_tracks(data), mp4_tracks(data).len() as int);
}

/// Whatever is reported as MP4 has at least one stream and a duration that
/// is an exact ratio.
pub proof fn lemma_mp4_result_has_streams(data: Seq<u8>)
    ensures
        mp4_probe(data) matches Some(p) ==> p.streams.len() > 0 && p.duration is Exact,
        data.len() < 12 ==> mp4_probe(data) is None,
{
}

/// The longest duration is well-formed and no track among those it was
/// taken from lasts longer.
pub proof fn lemma_longest_is_longest(tracks: Seq<Mp4TrackView>, upto: int, i: int)
    requires
        0 <= i < upto <= tracks.len(),
        forall|j: int| 0 <= j < upto ==> (#[trigger] tracks[j]).wf(),
        tracks[i].duration is Some,
    ensures
        longest(tracks, upto).wf(),
        !tracks[i].duration->0.gt(longest(tracks, upto)),
    decreases upto,
{
    lemma_longest_wf(tracks, upto);
    lemma_longest_wf(tracks, upto - 1);
    let before = longest(tracks, upto - 1);
    let d = tracks[i].duration->0;
    assert(tracks[i].wf());
    assert(tracks[upto - 1].wf());
    if i < upto - 1 {
        lemma_longest_is_longest(tracks, upto - 1, i);
        match tracks[upto - 1].duration {
            Some(last) => {
                if last.gt(before) {
                    lemma_ratio_order(d, before, last);
                }
            },
            None => {},
        }
    }
}

/// The longest duration among well-formed ones is well-formed.
pub proof fn lemma_longest_wf(tracks: Seq<Mp4TrackView>, upto: int)
    requires
        upto <= tracks.len(),
        forall|j: int| 0 <= j < upto ==> (#[trigger] tracks[j]).wf(),
    ensures
        longest(tracks, upto).wf(),
    decreases upto,
{
    if upto > 0 {
        lemma_longest_wf(tracks, upto - 1);
        assert(tracks[upto - 1].wf());
    }
}

} // verus!
