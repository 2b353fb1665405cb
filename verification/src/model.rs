//! The unified result that both container walkers produce, and its
//! mathematical view.
//!
//! Real-valued quantities are held exactly: a frame rate or an MP4 duration
//! as a ratio of two integers, a Matroska duration as the bits of the
//! number that the file stores together with the tick length.

use vstd::prelude::*;

verus! {

/// What a track carries.
#[derive(Clone, Copy, Debug, PartialEq, Eq, Structural)]
pub enum TrackKind {
    Video,
    Audio,
    Subtitle,
}

impl TrackKind {
    /// The lowercase token under which the kind is reported.
    pub open spec fn name(self) -> Seq<char> {
        match self {
            TrackKind::Video => "video"@,
            TrackKind::Audio => "audio"@,
            TrackKind::Subtitle => "subtitle"@,
        }
    }

    pub fn as_str(&self) -> (r: &'static str)
        ensures
            r@ == self.name(),
    {
        match self {
            TrackKind::Video => "video",
            TrackKind::Audio => "audio",
            TrackKind::Subtitle => "subtitle",
        }
    }
}

/// The product of two 64-bit numbers fits in 128 bits.
pub proof fn lemma_product_fits(a: u64, b: u64)
    ensures
        a as int * b as int <= 0xffff_ffff_ffff_ffff * 0xffff_ffff_ffff_ffff,
        0 <= a as int * b as int,
{
    assert(a as int * b as int <= 0xffff_ffff_ffff_ffff * 0xffff_ffff_ffff_ffff
        && 0 <= a as int * b as int) by (nonlinear_arith)
        requires
            0 <= a as int <= 0xffff_ffff_ffff_ffff,
            0 <= b as int <= 0xffff_ffff_ffff_ffff,
    ;
}

/// The non-negative rational `num / den`.
#[derive(Clone, Copy, Debug, PartialEq, Eq, Structural)]
pub struct Ratio {
    pub num: u64,
    pub den: u64,
}

impl Ratio {
    /// A ratio has a value only over a positive denominator.
    pub open spec fn wf(self) -> bool {
        self.den > 0
    }

    /// `self` is strictly greater than `other`, by cross-multiplication.
    pub open spec fn gt(self, other: Ratio) -> bool {
        self.num as int * other.den as int > other.num as int * self.den as int
    }

    /// The ratio zero.
    pub fn zero() -> (r: Ratio)
        ensures
            r == (Ratio { num: 0, den: 1 }),
    {
        Ratio { num: 0, den: 1 }
    }

    /// Whether `self` is strictly greater than `other`.
    pub fn exceeds(&self, other: &Ratio) -> (r: bool)
        ensures
            r == self.gt(*other),
    {
        proof {
            lemma_product_fits(self.num, other.den);
            lemma_product_fits(other.num, self.den);
        }
        let left: u128 = self.num as u128 * other.den as u128;
        let right: u128 = other.num as u128 * self.den as u128;
        left > right
    }
}

/// The bits of a binary floating-point number as a file stores it, in single
/// (4-byte) or double (8-byte) width.
#[derive(Clone, Copy, Debug, PartialEq, Eq, Structural)]
pub enum FloatBits {
    Single(u32),
    Double(u64),
}

/// A length of time in seconds.
#[derive(Clone, Copy, Debug, PartialEq, Eq, Structural)]
pub enum ProbeDuration {
    /// Exactly `num / den` seconds.
    Exact(Ratio),
    /// `ticks` ticks of `scale` nanoseconds each.
    Ticks { ticks: FloatBits, scale: u64 },
}

/// One track of the container, as reported.
#[derive(Clone, Debug, PartialEq, Eq)]
pub struct StreamInfo {
    pub index: usize,
    pub kind: TrackKind,
    pub codec: String,
    pub width: Option<u32>,
    pub height: Option<u32>,
    pub fps: Option<Ratio>,
    pub sample_rate: Option<u32>,
    pub channels: Option<u32>,
    pub language: Option<String>,
    pub bitrate: Option<u64>,
    pub is_default: Option<bool>,
    pub is_forced: Option<bool>,
}

/// The mathematical content of a `StreamInfo`.
pub struct StreamView {
    pub index: int,
    pub kind: TrackKind,
    pub codec: Seq<char>,
    pub width: Option<u32>,
    pub height: Option<u32>,
    pub fps: Option<Ratio>,
    pub sample_rate: Option<u32>,
    pub channels: Option<u32>,
    pub language: Option<Seq<char>>,
    pub bitrate: Option<u64>,
    pub is_default: Option<bool>,
    pub is_forced: Option<bool>,
}

/// The characters of an optional text.
pub open spec fn text_of(t: Option<String>) -> Option<Seq<char>> {
    match t {
        Some(s) => Some(s@),
        None => None,
    }
}

/// Copies an optional text.
pub fn clone_text(t: &Option<String>) -> (r: Option<String>)
    ensures
        text_of(r) == text_of(*t),
{
    match t {
        Some(s) => Some(s.clone()),
        None => None,
    }
}

impl View for StreamInfo {
    type V = StreamView;

    open spec fn view(&self) -> StreamView {
        StreamView {
            index: self.index as int,
            kind: self.kind,
            codec: self.codec@,
            width: self.width,
            height: self.height,
            fps: self.fps,
            sample_rate: self.sample_rate,
            channels: self.channels,
            language: text_of(self.language),
            bitrate: self.bitrate,
            is_default: self.is_default,
            is_forced: self.is_forced,
        }
    }
}

/// An embedded font file.
#[derive(Clone, Debug, PartialEq, Eq)]
pub struct FontAttachment {
    pub index: usize,
    pub filename: String,
}

/// What a probe found in a buffer.
#[derive(Clone, Debug, PartialEq, Eq)]
pub struct ProbeResult {
    pub duration: ProbeDuration,
    pub bitrate: u64,
    pub format: String,
    pub streams: Vec<StreamInfo>,
    pub font_attachments: Vec<FontAttachment>,
}

/// The mathematical content of a `ProbeResult`.
pub struct ProbeView {
    pub duration: ProbeDuration,
    pub bitrate: u64,
    pub format: Seq<char>,
    pub streams: Seq<StreamView>,
    pub fonts: nat,
}

/// The views of a run of streams, in order.
pub open spec fn stream_views(streams: Seq<StreamInfo>) -> Seq<StreamView> {
    Seq::new(streams.len(), |i: int| streams[i]@)
}

/// Every stream carries its own position as its index.
pub open spec fn in_order(streams: Seq<StreamView>) -> bool {
    forall|i: int| 0 <= i < streams.len() ==> (#[trigger] streams[i]).index == i
}

impl View for ProbeResult {
    type V = ProbeView;

    open spec fn view(&self) -> ProbeView {
        ProbeView {
            duration: self.duration,
            bitrate: self.bitrate,
            format: self.format@,
            streams: stream_views(self.streams@),
            fonts: self.font_attachments@.len(),
        }
    }
}

/// Being no greater carries over: what is no greater than `b` is no
/// greater than anything that `b` is no greater than.
pub proof fn lemma_ratio_order(a: Ratio, b: Ratio, c: Ratio)
    requires
        a.wf(),
        b.wf(),
        c.wf(),
        !a.gt(b),
        !b.gt(c),
    ensures
        !a.gt(c),
{
    let (an, ad) = (a.num as int, a.den as int);
    let (bn, bd) = (b.num as int, b.den as int);
    let (cn, cd) = (c.num as int, c.den as int);
    assert(an * bd * cd <= bn * ad * cd) by (nonlinear_arith)
        requires
            an * bd <= bn * ad,
            cd > 0,
    ;
    assert(bn * cd * ad <= cn * bd * ad) by (nonlinear_arith)
        requires
            bn * cd <= cn * bd,
            ad > 0,
    ;
    assert(an * bd * cd == (an * cd) * bd && bn * ad * cd == bn * cd * ad && cn * bd * ad == (cn
        * ad) * bd) by (nonlinear_arith);
    assert(an * cd <= cn * ad) by (nonlinear_arith)
        requires
            (an * cd) * bd <= (cn * ad) * bd,
            bd > 0,
    ;
}

} // verus!
