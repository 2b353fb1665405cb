use vixely_core::model::{ProbeDuration, Ratio, TrackKind};
use vixely_core::mp4::{
    collect_mp4_streams, decode_mp4_language, format_of_brand, longest_duration, next_mp4_box,
    parse_hdlr, parse_mdhd, parse_mdia, parse_minf, parse_moov, parse_mp4, parse_mvhd,
    parse_stbl, parse_stsd, parse_stts, parse_tkhd, parse_trak, tag_is, Mp4Track,
};

fn boxed(tag: &[u8; 4], payload: &[u8]) -> Vec<u8> {
    let mut out = Vec::new();
    out.extend_from_slice(&((payload.len() as u32 + 8).to_be_bytes()));
    out.extend_from_slice(tag);
    out.extend_from_slice(payload);
    out
}

fn joined(parts: &[Vec<u8>]) -> Vec<u8> {
    let mut out = Vec::new();
    for p in parts {
        out.extend_from_slice(p);
    }
    out
}

fn ftyp(major: &[u8; 4]) -> Vec<u8> {
    let mut p = Vec::new();
    p.extend_from_slice(major);
    p.extend_from_slice(&[0, 0, 2, 0]);
    p.extend_from_slice(b"isom");
    boxed(b"ftyp", &p)
}

fn mvhd_payload(timescale: u32, duration: u32) -> Vec<u8> {
    let mut p = vec![0u8; 100];
    p[12..16].copy_from_slice(&timescale.to_be_bytes());
    p[16..20].copy_from_slice(&duration.to_be_bytes());
    p
}

fn mvhd_payload_wide(timescale: u32, duration: u64) -> Vec<u8> {
    let mut p = vec![0u8; 112];
    p[0] = 1;
    p[20..24].copy_from_slice(&timescale.to_be_bytes());
    p[24..32].copy_from_slice(&duration.to_be_bytes());
    p
}

fn tkhd_payload(width: u32, height: u32) -> Vec<u8> {
    let mut p = vec![0u8; 84];
    p[76..80].copy_from_slice(&(width << 16).to_be_bytes());
    p[80..84].copy_from_slice(&(height << 16).to_be_bytes());
    p
}

fn tkhd_payload_wide(width: u32, height: u32) -> Vec<u8> {
    let mut p = vec![0u8; 96];
    p[0] = 1;
    p[88..92].copy_from_slice(&((width << 16) | 0x8000).to_be_bytes());
    p[92..96].copy_from_slice(&((height << 16) | 0x0001).to_be_bytes());
    p
}

fn hdlr_payload(handler: &[u8; 4]) -> Vec<u8> {
    let mut p = vec![0u8; 24];
    p[8..12].copy_from_slice(handler);
    p
}

fn mdhd_payload(timescale: u32, duration: u32, lang: u16) -> Vec<u8> {
    let mut p = vec![0u8; 24];
    p[12..16].copy_from_slice(&timescale.to_be_bytes());
    p[16..20].copy_from_slice(&duration.to_be_bytes());
    p[20..22].copy_from_slice(&lang.to_be_bytes());
    p
}

fn mdhd_payload_wide(timescale: u32, duration: u64, lang: u16) -> Vec<u8> {
    let mut p = vec![0u8; 36];
    p[0] = 1;
    p[20..24].copy_from_slice(&timescale.to_be_bytes());
    p[24..32].copy_from_slice(&duration.to_be_bytes());
    p[32..34].copy_from_slice(&lang.to_be_bytes());
    p
}

fn stsd_video_payload(codec: &[u8; 4], width: u16, height: u16) -> Vec<u8> {
    let mut p = vec![0u8; 8 + 86];
    p[4..8].copy_from_slice(&1u32.to_be_bytes());
    p[8..12].copy_from_slice(&86u32.to_be_bytes());
    p[12..16].copy_from_slice(codec);
    p[40..42].copy_from_slice(&width.to_be_bytes());
    p[42..44].copy_from_slice(&height.to_be_bytes());
    p
}

fn stsd_audio_payload(codec: &[u8; 4], channels: u16, rate: u32) -> Vec<u8> {
    let mut p = vec![0u8; 8 + 36];
    p[4..8].copy_from_slice(&1u32.to_be_bytes());
    p[8..12].copy_from_slice(&36u32.to_be_bytes());
    p[12..16].copy_from_slice(codec);
    p[32..34].copy_from_slice(&channels.to_be_bytes());
    p[40..44].copy_from_slice(&((rate << 16) | 0x1234).to_be_bytes());
    p
}

fn stts_payload(entries: u32, count: u32, delta: u32) -> Vec<u8> {
    let mut p = vec![0u8; 16];
    p[4..8].copy_from_slice(&entries.to_be_bytes());
    p[8..12].copy_from_slice(&count.to_be_bytes());
    p[12..16].copy_from_slice(&delta.to_be_bytes());
    p
}

fn lang(code: &[u8; 3]) -> u16 {
    (((code[0] - 0x60) as u16) << 10) | (((code[1] - 0x60) as u16) << 5) | (code[2] - 0x60) as u16
}

fn video_trak(tk: (u32, u32), sd: (u16, u16), timescale: u32, duration: u32, delta: u32) -> Vec<u8> {
    let stbl = boxed(
        b"stbl",
        &joined(&[
            boxed(b"stsd", &stsd_video_payload(b"avc1", sd.0, sd.1)),
            boxed(b"stts", &stts_payload(1, 100, delta)),
        ]),
    );
    let minf = boxed(b"minf", &joined(&[boxed(b"vmhd", &[0; 12]), stbl]));
    let mdia = boxed(
        b"mdia",
        &joined(&[
            boxed(b"mdhd", &mdhd_payload(timescale, duration, lang(b"eng"))),
            boxed(b"hdlr", &hdlr_payload(b"vide")),
            minf,
        ]),
    );
    boxed(b"trak", &joined(&[boxed(b"tkhd", &tkhd_payload(tk.0, tk.1)), mdia]))
}

fn audio_trak(timescale: u32, duration: u32) -> Vec<u8> {
    let stbl = boxed(
        b"stbl",
        &joined(&[
            boxed(b"stsd", &stsd_audio_payload(b"mp4a", 2, 48000)),
            boxed(b"stts", &stts_payload(1, 100, 1024)),
        ]),
    );
    let minf = boxed(b"minf", &stbl);
    let mdia = boxed(
        b"mdia",
        &joined(&[
            boxed(b"mdhd", &mdhd_payload(timescale, duration, 0x7FFF)),
            boxed(b"hdlr", &hdlr_payload(b"soun")),
            minf,
        ]),
    );
    boxed(b"trak", &joined(&[boxed(b"tkhd", &tkhd_payload(0, 0)), mdia]))
}

fn untyped_trak() -> Vec<u8> {
    let mdia = boxed(
        b"mdia",
        &joined(&[
            boxed(b"mdhd", &mdhd_payload(1000, 9000, lang(b"eng"))),
            boxed(b"hdlr", &hdlr_payload(b"meta")),
        ]),
    );
    boxed(b"trak", &joined(&[boxed(b"tkhd", &tkhd_payload(640, 480)), mdia]))
}

#[test]
fn walker_reads_a_plain_box() {
    let data = boxed(b"free", &[1, 2, 3]);
    assert_eq!(next_mp4_box(&data, 0, data.len()), Some((*b"free", 8, 11, 11)));
}

#[test]
fn walker_steps_through_siblings() {
    let data = joined(&[boxed(b"aaaa", &[0; 4]), boxed(b"bbbb", &[]), boxed(b"cccc", &[9])]);
    assert_eq!(next_mp4_box(&data, 0, data.len()), Some((*b"aaaa", 8, 12, 12)));
    assert_eq!(next_mp4_box(&data, 12, data.len()), Some((*b"bbbb", 20, 20, 20)));
    assert_eq!(next_mp4_box(&data, 20, data.len()), Some((*b"cccc", 28, 29, 29)));
    assert_eq!(next_mp4_box(&data, 29, data.len()), None);
}

#[test]
fn walker_reads_an_extended_size() {
    let mut data = Vec::new();
    data.extend_from_slice(&1u32.to_be_bytes());
    data.extend_from_slice(b"mdat");
    data.extend_from_slice(&20u64.to_be_bytes());
    data.extend_from_slice(&[7; 4]);
    assert_eq!(next_mp4_box(&data, 0, data.len()), Some((*b"mdat", 16, 20, 20)));
}

#[test]
fn walker_refuses_an_extended_size_below_its_header() {
    let mut data = Vec::new();
    data.extend_from_slice(&1u32.to_be_bytes());
    data.extend_from_slice(b"mdat");
    data.extend_from_slice(&15u64.to_be_bytes());
    data.extend_from_slice(&[7; 8]);
    assert_eq!(next_mp4_box(&data, 0, data.len()), None);
}

#[test]
fn walker_refuses_an_extended_size_without_room_for_it() {
    let mut data = Vec::new();
    data.extend_from_slice(&1u32.to_be_bytes());
    data.extend_from_slice(b"mdat");
    data.extend_from_slice(&[0; 7]);
    assert_eq!(next_mp4_box(&data, 0, data.len()), None);
}

#[test]
fn walker_refuses_a_huge_extended_size() {
    let mut data = Vec::new();
    data.extend_from_slice(&1u32.to_be_bytes());
    data.extend_from_slice(b"mdat");
    data.extend_from_slice(&u64::MAX.to_be_bytes());
    data.extend_from_slice(&[7; 8]);
    assert_eq!(next_mp4_box(&data, 0, data.len()), None);
    assert_eq!(next_mp4_box(&data, 0, usize::MAX), None);
}

#[test]
fn walker_takes_size_zero_as_up_to_the_bound() {
    let mut data = Vec::new();
    data.extend_from_slice(&0u32.to_be_bytes());
    data.extend_from_slice(b"mdat");
    data.extend_from_slice(&[7; 10]);
    assert_eq!(next_mp4_box(&data, 0, data.len()), Some((*b"mdat", 8, 18, 18)));
    assert_eq!(next_mp4_box(&data, 0, 12), Some((*b"mdat", 8, 12, 12)));
    assert_eq!(next_mp4_box(&data, 0, 8), Some((*b"mdat", 8, 8, 8)));
    assert_eq!(next_mp4_box(&data, 0, 19), None);
}

#[test]
fn walker_refuses_a_size_below_the_header() {
    for size in 2u32..8 {
        let mut data = Vec::new();
        data.extend_from_slice(&size.to_be_bytes());
        data.extend_from_slice(b"free");
        data.extend_from_slice(&[0; 8]);
        assert_eq!(next_mp4_box(&data, 0, data.len()), None);
    }
}

#[test]
fn walker_refuses_a_box_that_passes_the_bound() {
    let data = boxed(b"free", &[0; 8]);
    assert_eq!(next_mp4_box(&data, 0, 15), None);
    assert_eq!(next_mp4_box(&data, 0, 16), Some((*b"free", 8, 16, 16)));
    assert_eq!(next_mp4_box(&data[..15], 0, 16), None);
    assert_eq!(next_mp4_box(&data, 0, 7), None);
    assert_eq!(next_mp4_box(&data, 0, 0), None);
}

#[test]
fn walker_refuses_offsets_without_a_header() {
    let data = boxed(b"free", &[0; 8]);
    assert_eq!(next_mp4_box(&data, 9, data.len()), None);
    assert_eq!(next_mp4_box(&data, 16, data.len()), None);
    assert_eq!(next_mp4_box(&data, usize::MAX, usize::MAX), None);
    assert_eq!(next_mp4_box(&data, usize::MAX - 3, data.len()), None);
    assert_eq!(next_mp4_box(&[], 0, 0), None);
    assert_eq!(next_mp4_box(&[0; 7], 0, 7), None);
}

#[test]
fn tags_compare_byte_by_byte() {
    assert!(tag_is(b"moov", b'm', b'o', b'o', b'v'));
    assert!(!tag_is(b"moov", b'm', b'o', b'o', b'f'));
    assert!(!tag_is(b"Moov", b'm', b'o', b'o', b'v'));
    assert!(!tag_is(b"voom", b'm', b'o', b'o', b'v'));
}

#[test]
fn language_codes_unpack_to_three_letters() {
    assert_eq!(decode_mp4_language(0x15C7), Some("eng".to_string()));
    assert_eq!(decode_mp4_language(0x55C4), Some("und".to_string()));
    assert_eq!(decode_mp4_language(lang(b"jpn")), Some("jpn".to_string()));
    assert_eq!(decode_mp4_language(lang(b"aaa")), Some("aaa".to_string()));
    assert_eq!(decode_mp4_language(lang(b"zzz")), Some("zzz".to_string()));
    assert_eq!(decode_mp4_language(0x8000 | lang(b"fra")), Some("fra".to_string()));
}

#[test]
fn language_codes_outside_the_letters_are_refused() {
    assert_eq!(decode_mp4_language(0), None);
    assert_eq!(decode_mp4_language(0x7FFF), None);
    assert_eq!(decode_mp4_language(lang(b"en`")), None);
    assert_eq!(decode_mp4_language(lang(b"e{g")), None);
    assert_eq!(decode_mp4_language((27 << 10) | (5 << 5) | 5), None);
    assert_eq!(decode_mp4_language(0xFFFF), None);
}

#[test]
fn movie_header_gives_duration_over_timescale() {
    assert_eq!(parse_mvhd(&mvhd_payload(1000, 5000)), Some(Ratio { num: 5000, den: 1000 }));
    assert_eq!(parse_mvhd(&mvhd_payload(600, 0)), Some(Ratio { num: 0, den: 600 }));
    assert_eq!(
        parse_mvhd(&mvhd_payload(u32::MAX, u32::MAX)),
        Some(Ratio { num: u32::MAX as u64, den: u32::MAX as u64 })
    );
    assert_eq!(
        parse_mvhd(&mvhd_payload_wide(90000, 1 << 40)),
        Some(Ratio { num: 1 << 40, den: 90000 })
    );
    assert_eq!(
        parse_mvhd(&mvhd_payload_wide(1, u64::MAX)),
        Some(Ratio { num: u64::MAX, den: 1 })
    );
}

#[test]
fn movie_header_without_timescale_or_room_gives_nothing() {
    assert_eq!(parse_mvhd(&mvhd_payload(0, 5000)), None);
    assert_eq!(parse_mvhd(&mvhd_payload_wide(0, 5000)), None);
    assert_eq!(parse_mvhd(&mvhd_payload(1000, 5000)[..23]), None);
    assert_eq!(parse_mvhd(&mvhd_payload(1000, 5000)[..24]), Some(Ratio { num: 5000, den: 1000 }));
    assert_eq!(parse_mvhd(&mvhd_payload_wide(1000, 5000)[..31]), None);
    assert_eq!(
        parse_mvhd(&mvhd_payload_wide(1000, 5000)[..32]),
        Some(Ratio { num: 5000, den: 1000 })
    );
    assert_eq!(parse_mvhd(&[]), None);
}

#[test]
fn track_header_seeds_unset_dimensions() {
    let mut t = Mp4Track::new();
    parse_tkhd(&tkhd_payload(1920, 1080), &mut t);
    assert_eq!((t.width, t.height), (Some(1920), Some(1080)));
    parse_tkhd(&tkhd_payload(640, 480), &mut t);
    assert_eq!((t.width, t.height), (Some(1920), Some(1080)));

    let mut half = Mp4Track::new();
    half.height = Some(7);
    parse_tkhd(&tkhd_payload(320, 240), &mut half);
    assert_eq!((half.width, half.height), (Some(320), Some(7)));
}

#[test]
fn track_header_reads_the_wide_layout_and_drops_fractions() {
    let mut t = Mp4Track::new();
    parse_tkhd(&tkhd_payload_wide(1280, 720), &mut t);
    assert_eq!((t.width, t.height), (Some(1280), Some(720)));
}

#[test]
fn track_header_too_short_changes_nothing() {
    let mut t = Mp4Track::new();
    parse_tkhd(&tkhd_payload(1920, 1080)[..83], &mut t);
    assert_eq!((t.width, t.height), (None, None));
    let mut wide = tkhd_payload(1920, 1080);
    wide[0] = 1;
    parse_tkhd(&wide, &mut t);
    assert_eq!((t.width, t.height), (None, None));
    wide.extend_from_slice(&[0, 0, 0]);
    parse_tkhd(&wide, &mut t);
    assert_eq!((t.width, t.height), (None, None));
    wide.extend_from_slice(&[0, 0, 5, 0, 0]);
    parse_tkhd(&wide, &mut t);
    assert_eq!((t.width, t.height), (Some(5), None));
}

#[test]
fn handler_names_the_kind() {
    for (tag, kind) in [
        (b"vide", TrackKind::Video),
        (b"soun", TrackKind::Audio),
        (b"text", TrackKind::Subtitle),
        (b"sbtl", TrackKind::Subtitle),
        (b"subt", TrackKind::Subtitle),
        (b"clcp", TrackKind::Subtitle),
    ] {
        let mut t = Mp4Track::new();
        parse_hdlr(&hdlr_payload(tag), &mut t);
        assert_eq!(t.kind, Some(kind));
    }
}

#[test]
fn unknown_handler_leaves_the_kind() {
    let mut t = Mp4Track::new();
    parse_hdlr(&hdlr_payload(b"meta"), &mut t);
    assert_eq!(t.kind, None);
    parse_hdlr(&hdlr_payload(b"VIDE"), &mut t);
    assert_eq!(t.kind, None);
    t.kind = Some(TrackKind::Audio);
    parse_hdlr(&hdlr_payload(b"hint"), &mut t);
    assert_eq!(t.kind, Some(TrackKind::Audio));
    parse_hdlr(&hdlr_payload(b"vide")[..11], &mut t);
    assert_eq!(t.kind, Some(TrackKind::Audio));
    parse_hdlr(&hdlr_payload(b"vide")[..12], &mut t);
    assert_eq!(t.kind, Some(TrackKind::Video));
}

#[test]
fn media_header_sets_timescale_duration_and_language() {
    let mut t = Mp4Track::new();
    let mut ts = None;
    parse_mdhd(&mdhd_payload(48000, 96000, lang(b"deu")), &mut ts, &mut t);
    assert_eq!(ts, Some(48000));
    assert_eq!(t.duration, Some(Ratio { num: 96000, den: 48000 }));
    assert_eq!(t.language, Some("deu".to_string()));

    parse_mdhd(&mdhd_payload_wide(90000, 1 << 33, 0x7FFF), &mut ts, &mut t);
    assert_eq!(ts, Some(90000));
    assert_eq!(t.duration, Some(Ratio { num: 1 << 33, den: 90000 }));
    assert_eq!(t.language, None);
}

#[test]
fn media_header_with_zero_timescale_keeps_the_duration() {
    let mut t = Mp4Track::new();
    let mut ts = Some(5);
    t.duration = Some(Ratio { num: 3, den: 4 });
    t.language = Some("xyz".to_string());
    parse_mdhd(&mdhd_payload(0, 96000, lang(b"ita")), &mut ts, &mut t);
    assert_eq!(ts, Some(0));
    assert_eq!(t.duration, Some(Ratio { num: 3, den: 4 }));
    assert_eq!(t.language, Some("ita".to_string()));
}

#[test]
fn media_header_too_short_changes_nothing() {
    let mut t = Mp4Track::new();
    let mut ts = None;
    parse_mdhd(&mdhd_payload(48000, 96000, lang(b"deu"))[..23], &mut ts, &mut t);
    assert_eq!((ts, t.duration, t.language.clone()), (None, None, None));
    parse_mdhd(&mdhd_payload_wide(48000, 96000, lang(b"deu"))[..35], &mut ts, &mut t);
    assert_eq!((ts, t.duration, t.language.clone()), (None, None, None));
    parse_mdhd(&[], &mut ts, &mut t);
    assert_eq!((ts, t.duration, t.language.clone()), (None, None, None));
}

#[test]
fn sample_description_names_the_codec() {
    let mut t = Mp4Track::new();
    parse_stsd(&stsd_video_payload(b"AVC1", 1280, 720), &mut t);
    assert_eq!(t.codec, Some("avc1".to_string()));
    assert_eq!((t.width, t.height), (None, None));
    parse_stsd(&stsd_video_payload(b"mp4 ", 1280, 720), &mut t);
    assert_eq!(t.codec, Some("mp4".to_string()));
    parse_stsd(&stsd_video_payload(b"    ", 1280, 720), &mut t);
    assert_eq!(t.codec, Some("".to_string()));
}

#[test]
fn sample_description_dimensions_replace_those_of_the_track_header() {
    let mut t = Mp4Track::new();
    t.kind = Some(TrackKind::Video);
    parse_tkhd(&tkhd_payload(1920, 1080), &mut t);
    assert_eq!((t.width, t.height), (Some(1920), Some(1080)));
    parse_stsd(&stsd_video_payload(b"hvc1", 1280, 720), &mut t);
    assert_eq!((t.width, t.height), (Some(1280), Some(720)));
    assert_eq!(t.codec, Some("hvc1".to_string()));
    assert_eq!((t.channels, t.sample_rate), (None, None));
    parse_tkhd(&tkhd_payload(1920, 1080), &mut t);
    assert_eq!((t.width, t.height), (Some(1280), Some(720)));
}

#[test]
fn sample_description_gives_audio_layout() {
    let mut t = Mp4Track::new();
    t.kind = Some(TrackKind::Audio);
    parse_stsd(&stsd_audio_payload(b"mp4a", 6, 44100), &mut t);
    assert_eq!(t.codec, Some("mp4a".to_string()));
    assert_eq!((t.channels, t.sample_rate), (Some(6), Some(44100)));
    assert_eq!((t.width, t.height), (None, None));
}

#[test]
fn sample_description_of_a_subtitle_gives_only_the_codec() {
    let mut t = Mp4Track::new();
    t.kind = Some(TrackKind::Subtitle);
    parse_stsd(&stsd_audio_payload(b"tx3g", 6, 44100), &mut t);
    assert_eq!(t.codec, Some("tx3g".to_string()));
    assert_eq!((t.channels, t.sample_rate, t.width, t.height), (None, None, None, None));
}

#[test]
fn sample_description_with_a_small_entry_gives_only_the_codec() {
    let mut p = stsd_video_payload(b"avc1", 1280, 720);
    p[8..12].copy_from_slice(&35u32.to_be_bytes());
    let mut t = Mp4Track::new();
    t.kind = Some(TrackKind::Video);
    parse_stsd(&p, &mut t);
    assert_eq!(t.codec, Some("avc1".to_string()));
    assert_eq!((t.width, t.height), (None, None));
    p[8..12].copy_from_slice(&36u32.to_be_bytes());
    parse_stsd(&p, &mut t);
    assert_eq!((t.width, t.height), (Some(1280), Some(720)));
}

#[test]
fn sample_description_that_is_malformed_changes_nothing() {
    let good = stsd_video_payload(b"avc1", 1280, 720);
    let mut t = Mp4Track::new();
    t.kind = Some(TrackKind::Video);

    parse_stsd(&good[..15], &mut t);
    assert_eq!(t.codec, None);

    let mut empty = good.clone();
    empty[4..8].copy_from_slice(&0u32.to_be_bytes());
    parse_stsd(&empty, &mut t);
    assert_eq!(t.codec, None);

    let mut tiny = good.clone();
    tiny[8..12].copy_from_slice(&7u32.to_be_bytes());
    parse_stsd(&tiny, &mut t);
    assert_eq!(t.codec, None);

    let mut long = good.clone();
    long[8..12].copy_from_slice(&87u32.to_be_bytes());
    parse_stsd(&long, &mut t);
    assert_eq!(t.codec, None);

    let mut huge = good.clone();
    huge[8..12].copy_from_slice(&u32::MAX.to_be_bytes());
    parse_stsd(&huge, &mut t);
    assert_eq!(t.codec, None);
    assert_eq!((t.width, t.height), (None, None));

    let mut eight = good[..16].to_vec();
    eight[8..12].copy_from_slice(&8u32.to_be_bytes());
    parse_stsd(&eight, &mut t);
    assert_eq!(t.codec, Some("avc1".to_string()));
}

#[test]
fn time_to_sample_gives_the_frame_rate_of_the_first_run() {
    let mut t = Mp4Track::new();
    t.kind = Some(TrackKind::Video);
    parse_stts(&stts_payload(1, 300, 1001), Some(30000), &mut t);
    assert_eq!(t.fps, Some(Ratio { num: 30000, den: 1001 }));
    parse_stts(&stts_payload(2, 1, 512), Some(12800), &mut t);
    assert_eq!(t.fps, Some(Ratio { num: 12800, den: 512 }));
}

#[test]
fn time_to_sample_is_ignored_where_it_cannot_apply() {
    let payload = stts_payload(1, 300, 1001);
    let mut audio = Mp4Track::new();
    audio.kind = Some(TrackKind::Audio);
    parse_stts(&payload, Some(30000), &mut audio);
    assert_eq!(audio.fps, None);

    let mut unknown = Mp4Track::new();
    parse_stts(&payload, Some(30000), &mut unknown);
    assert_eq!(unknown.fps, None);

    let mut t = Mp4Track::new();
    t.kind = Some(TrackKind::Video);
    parse_stts(&payload, None, &mut t);
    assert_eq!(t.fps, None);
    parse_stts(&payload, Some(0), &mut t);
    assert_eq!(t.fps, None);
    parse_stts(&payload[..15], Some(30000), &mut t);
    assert_eq!(t.fps, None);
    parse_stts(&stts_payload(0, 300, 1001), Some(30000), &mut t);
    assert_eq!(t.fps, None);
    parse_stts(&stts_payload(1, 300, 0), Some(30000), &mut t);
    assert_eq!(t.fps, None);
    t.fps = Some(Ratio { num: 1, den: 1 });
    parse_stts(&stts_payload(1, 300, 0), Some(30000), &mut t);
    assert_eq!(t.fps, Some(Ratio { num: 1, den: 1 }));
}

#[test]
fn sample_table_walks_its_children_in_order() {
    let data = joined(&[
        boxed(b"stts", &stts_payload(1, 10, 100)),
        boxed(b"stsd", &stsd_video_payload(b"avc1", 64, 32)),
        boxed(b"stsz", &[0; 12]),
        boxed(b"stts", &stts_payload(1, 10, 50)),
    ]);
    let mut t = Mp4Track::new();
    t.kind = Some(TrackKind::Video);
    parse_stbl(&data, 0, data.len(), Some(1000), &mut t);
    assert_eq!(t.fps, Some(Ratio { num: 1000, den: 50 }));
    assert_eq!((t.width, t.height), (Some(64), Some(32)));
    assert_eq!(t.codec, Some("avc1".to_string()));
}

#[test]
fn media_information_walks_only_sample_tables() {
    let inner = boxed(b"stsd", &stsd_audio_payload(b"Opus", 2, 48000));
    let data = joined(&[boxed(b"dinf", &inner), boxed(b"stbl", &inner), boxed(b"smhd", &[0; 8])]);
    let mut t = Mp4Track::new();
    t.kind = Some(TrackKind::Audio);
    parse_minf(&data, 0, data.len(), None, &mut t);
    assert_eq!(t.codec, Some("opus".to_string()));
    assert_eq!((t.channels, t.sample_rate), (Some(2), Some(48000)));

    let mut skipped = Mp4Track::new();
    skipped.kind = Some(TrackKind::Audio);
    let only_dinf = boxed(b"dinf", &inner);
    parse_minf(&only_dinf, 0, only_dinf.len(), None, &mut skipped);
    assert_eq!(skipped.codec, None);
}

#[test]
fn media_box_needs_the_handler_before_the_sample_table() {
    let stbl = boxed(b"stbl", &boxed(b"stsd", &stsd_video_payload(b"avc1", 64, 32)));
    let minf = boxed(b"minf", &stbl);
    let late = joined(&[minf.clone(), boxed(b"hdlr", &hdlr_payload(b"vide"))]);
    let mut t = Mp4Track::new();
    parse_mdia(&late, 0, late.len(), &mut t);
    assert_eq!(t.kind, Some(TrackKind::Video));
    assert_eq!(t.codec, Some("avc1".to_string()));
    assert_eq!((t.width, t.height), (None, None));

    let early = joined(&[boxed(b"hdlr", &hdlr_payload(b"vide")), minf]);
    let mut t = Mp4Track::new();
    parse_mdia(&early, 0, early.len(), &mut t);
    assert_eq!((t.width, t.height), (Some(64), Some(32)));
}

#[test]
fn media_box_hands_the_timescale_to_later_children_only() {
    let stbl = boxed(b"stbl", &boxed(b"stts", &stts_payload(1, 10, 40)));
    let minf = boxed(b"minf", &stbl);
    let hdlr = boxed(b"hdlr", &hdlr_payload(b"vide"));
    let mdhd = boxed(b"mdhd", &mdhd_payload(1000, 4000, lang(b"eng")));

    let before = joined(&[hdlr.clone(), mdhd.clone(), minf.clone()]);
    let mut t = Mp4Track::new();
    parse_mdia(&before, 0, before.len(), &mut t);
    assert_eq!(t.fps, Some(Ratio { num: 1000, den: 40 }));
    assert_eq!(t.duration, Some(Ratio { num: 4000, den: 1000 }));
    assert_eq!(t.language, Some("eng".to_string()));

    let after = joined(&[hdlr, minf, mdhd]);
    let mut t = Mp4Track::new();
    parse_mdia(&after, 0, after.len(), &mut t);
    assert_eq!(t.fps, None);
    assert_eq!(t.duration, Some(Ratio { num: 4000, den: 1000 }));
}

#[test]
fn track_box_builds_a_whole_track() {
    let trak = video_trak((1920, 1080), (1280, 720), 12800, 64000, 512);
    let t = parse_trak(&trak, 8, trak.len());
    assert_eq!(t.kind, Some(TrackKind::Video));
    assert_eq!(t.codec, Some("avc1".to_string()));
    assert_eq!((t.width, t.height), (Some(1280), Some(720)));
    assert_eq!(t.fps, Some(Ratio { num: 12800, den: 512 }));
    assert_eq!(t.duration, Some(Ratio { num: 64000, den: 12800 }));
    assert_eq!(t.language, Some("eng".to_string()));
    assert_eq!((t.channels, t.sample_rate), (None, None));
}

#[test]
fn track_box_that_is_empty_or_out_of_range_builds_a_blank_track() {
    let trak = video_trak((1920, 1080), (1280, 720), 12800, 64000, 512);
    for (start, end) in [(8, 8), (trak.len(), trak.len()), (8, 15), (9, trak.len())] {
        let t = parse_trak(&trak, start, end);
        assert_eq!(t.kind, None);
        assert_eq!(t.codec, None);
        assert_eq!((t.width, t.height), (None, None));
    }
    let t = parse_trak(&trak, usize::MAX, usize::MAX);
    assert_eq!(t.kind, None);
    let t = parse_trak(&trak, 8, usize::MAX);
    assert_eq!(t.kind, Some(TrackKind::Video));
}

#[test]
fn movie_box_collects_typed_tracks_and_the_last_valid_duration() {
    let data = joined(&[
        boxed(b"mvhd", &mvhd_payload(1000, 5000)),
        video_trak((0, 0), (320, 240), 1000, 5000, 40),
        untyped_trak(),
        boxed(b"mvhd", &mvhd_payload(0, 1)),
        audio_trak(48000, 96000),
        boxed(b"mvhd", &mvhd_payload(600, 1200)),
        boxed(b"udta", &[0; 4]),
    ]);
    let mut duration = Ratio::zero();
    let mut tracks = Vec::new();
    parse_moov(&data, 0, data.len(), &mut duration, &mut tracks);
    assert_eq!(duration, Ratio { num: 1200, den: 600 });
    assert_eq!(tracks.len(), 2);
    assert_eq!(tracks[0].kind, Some(TrackKind::Video));
    assert_eq!(tracks[1].kind, Some(TrackKind::Audio));
    assert_eq!(tracks[1].language, None);
}

#[test]
fn movie_box_stops_at_a_broken_sibling_and_keeps_what_it_has() {
    let mut broken = boxed(b"trak", &[0; 8]);
    broken[0..4].copy_from_slice(&4u32.to_be_bytes());
    let data = joined(&[
        video_trak((0, 0), (320, 240), 1000, 5000, 40),
        broken,
        audio_trak(48000, 96000),
    ]);
    let mut duration = Ratio { num: 9, den: 9 };
    let mut tracks = Vec::new();
    parse_moov(&data, 0, data.len(), &mut duration, &mut tracks);
    assert_eq!(duration, Ratio { num: 9, den: 9 });
    assert_eq!(tracks.len(), 1);
    assert_eq!(tracks[0].kind, Some(TrackKind::Video));
}

#[test]
fn longest_duration_is_the_greatest_ratio() {
    let mut a = Mp4Track::new();
    a.duration = Some(Ratio { num: 10, den: 4 });
    let mut b = Mp4Track::new();
    b.duration = Some(Ratio { num: 3, den: 1 });
    let c = Mp4Track::new();
    let mut d = Mp4Track::new();
    d.duration = Some(Ratio { num: 299, den: 100 });
    let mut e = Mp4Track::new();
    e.duration = Some(Ratio { num: 6, den: 2 });
    assert_eq!(longest_duration(&vec![a, b, c, d, e]), Ratio { num: 3, den: 1 });
    assert_eq!(longest_duration(&vec![]), Ratio { num: 0, den: 1 });
    assert_eq!(longest_duration(&vec![Mp4Track::new()]), Ratio { num: 0, den: 1 });
    let mut z = Mp4Track::new();
    z.duration = Some(Ratio { num: 0, den: 600 });
    assert_eq!(longest_duration(&vec![z]), Ratio { num: 0, den: 1 });
}

#[test]
fn streams_carry_the_position_of_their_track() {
    let mut a = Mp4Track::new();
    a.kind = Some(TrackKind::Audio);
    let b = Mp4Track::new();
    let mut c = Mp4Track::new();
    c.kind = Some(TrackKind::Subtitle);
    c.codec = Some("tx3g".to_string());
    c.language = Some("eng".to_string());
    let streams = collect_mp4_streams(&vec![a, b, c]);
    assert_eq!(streams.len(), 2);
    assert_eq!(streams[0].index, 0);
    assert_eq!(streams[0].codec, "unknown");
    assert_eq!(streams[0].kind, TrackKind::Audio);
    assert_eq!(streams[1].index, 2);
    assert_eq!(streams[1].codec, "tx3g");
    assert_eq!(streams[1].language, Some("eng".to_string()));
    assert_eq!(streams[1].bitrate, None);
    assert_eq!((streams[1].is_default, streams[1].is_forced), (None, None));
}

#[test]
fn brands_name_the_format() {
    assert_eq!(format_of_brand(b"isom"), "isom");
    assert_eq!(format_of_brand(b"MP42"), "mp42");
    assert_eq!(format_of_brand(b"qt  "), "mov");
    assert_eq!(format_of_brand(b"QT  "), "mov");
    assert_eq!(format_of_brand(b"qt\0\0"), "qt\0\0");
    assert_eq!(format_of_brand(b" qt "), "qt");
    assert_eq!(format_of_brand(b"3gp "), "3gp");
    assert_eq!(format_of_brand(b"    "), "");
    assert_eq!(format_of_brand(&[0x4D, 0xFF, 0x34, 0x20]), "m\u{FFFD}4");
}

#[test]
fn whole_file_is_reported() {
    let data = joined(&[
        ftyp(b"isom"),
        boxed(b"free", &[0; 16]),
        boxed(
            b"moov",
            &joined(&[
                boxed(b"mvhd", &mvhd_payload(1000, 5000)),
                video_trak((1920, 1080), (1280, 720), 12800, 64000, 512),
                audio_trak(48000, 240000),
            ]),
        ),
        boxed(b"mdat", &[0xAB; 64]),
    ]);
    let r = parse_mp4(&data).unwrap();
    assert_eq!(r.format, "isom");
    assert_eq!(r.duration, ProbeDuration::Exact(Ratio { num: 5000, den: 1000 }));
    assert_eq!(r.bitrate, 0);
    assert!(r.font_attachments.is_empty());
    assert_eq!(r.streams.len(), 2);

    let v = &r.streams[0];
    assert_eq!(v.index, 0);
    assert_eq!(v.kind, TrackKind::Video);
    assert_eq!(v.codec, "avc1");
    assert_eq!((v.width, v.height), (Some(1280), Some(720)));
    assert_eq!(v.fps, Some(Ratio { num: 12800, den: 512 }));
    assert_eq!((v.sample_rate, v.channels), (None, None));
    assert_eq!(v.language, Some("eng".to_string()));
    assert_eq!((v.bitrate, v.is_default, v.is_forced), (None, None, None));

    let a = &r.streams[1];
    assert_eq!(a.index, 1);
    assert_eq!(a.kind, TrackKind::Audio);
    assert_eq!(a.codec, "mp4a");
    assert_eq!((a.width, a.height), (Some(0), Some(0)));
    assert_eq!(a.fps, None);
    assert_eq!((a.sample_rate, a.channels), (Some(48000), Some(2)));
    assert_eq!(a.language, None);
}

#[test]
fn sample_description_precedence_holds_in_a_whole_file() {
    for (tk, sd) in [((1920, 1080), (1280, 720)), ((1, 1), (65535, 65535)), ((4096, 2160), (16, 9))] {
        let data = joined(&[
            ftyp(b"mp42"),
            boxed(
                b"moov",
                &joined(&[
                    boxed(b"mvhd", &mvhd_payload(600, 600)),
                    video_trak(tk, sd, 600, 600, 20),
                ]),
            ),
        ]);
        let r = parse_mp4(&data).unwrap();
        assert_eq!(r.streams.len(), 1);
        assert_eq!(r.streams[0].width, Some(sd.0 as u32));
        assert_eq!(r.streams[0].height, Some(sd.1 as u32));
    }
}

#[test]
fn quicktime_brand_is_reported_as_mov() {
    let data = joined(&[
        ftyp(b"qt  "),
        boxed(b"moov", &video_trak((0, 0), (320, 240), 600, 600, 20)),
    ]);
    assert_eq!(parse_mp4(&data).unwrap().format, "mov");
}

#[test]
fn file_type_box_without_a_brand_keeps_the_default_format() {
    let data = joined(&[
        boxed(b"ftyp", &[b'i', b's', b'o']),
        boxed(b"moov", &video_trak((0, 0), (320, 240), 600, 600, 20)),
    ]);
    assert_eq!(parse_mp4(&data).unwrap().format, "mp4");
}

#[test]
fn file_type_box_may_come_last() {
    let data = joined(&[
        boxed(b"moov", &video_trak((0, 0), (320, 240), 600, 600, 20)),
        ftyp(b"M4V "),
    ]);
    let r = parse_mp4(&data).unwrap();
    assert_eq!(r.format, "m4v");
    assert_eq!(r.streams.len(), 1);
}

#[test]
fn missing_file_type_box_means_not_mp4() {
    let data = boxed(
        b"moov",
        &joined(&[
            boxed(b"mvhd", &mvhd_payload(1000, 5000)),
            video_trak((0, 0), (320, 240), 600, 600, 20),
        ]),
    );
    assert_eq!(parse_mp4(&data), None);
}

#[test]
fn no_track_with_a_kind_means_no_result() {
    let with_untyped = joined(&[
        ftyp(b"isom"),
        boxed(
            b"moov",
            &joined(&[boxed(b"mvhd", &mvhd_payload(1000, 5000)), untyped_trak(), untyped_trak()]),
        ),
    ]);
    assert_eq!(parse_mp4(&with_untyped), None);

    let without_tracks =
        joined(&[ftyp(b"isom"), boxed(b"moov", &boxed(b"mvhd", &mvhd_payload(1000, 5000)))]);
    assert_eq!(parse_mp4(&without_tracks), None);

    let without_movie = joined(&[ftyp(b"isom"), boxed(b"mdat", &[0; 32])]);
    assert_eq!(parse_mp4(&without_movie), None);
}

#[test]
fn duration_falls_back_to_the_longest_track() {
    for header in [Vec::new(), boxed(b"mvhd", &mvhd_payload(1000, 0)), boxed(b"mvhd", &mvhd_payload(0, 77))] {
        let data = joined(&[
            ftyp(b"isom"),
            boxed(
                b"moov",
                &joined(&[
                    header,
                    video_trak((0, 0), (320, 240), 1000, 4000, 40),
                    audio_trak(48000, 240000),
                    video_trak((0, 0), (320, 240), 90000, 449999, 3000),
                ]),
            ),
        ]);
        let r = parse_mp4(&data).unwrap();
        assert_eq!(r.duration, ProbeDuration::Exact(Ratio { num: 240000, den: 48000 }));
        assert_eq!(r.streams.len(), 3);
        assert_eq!(r.streams[2].index, 2);
    }
}

#[test]
fn duration_without_any_source_is_zero() {
    let trak = boxed(b"trak", &boxed(b"mdia", &boxed(b"hdlr", &hdlr_payload(b"soun"))));
    let data = joined(&[ftyp(b"isom"), boxed(b"moov", &trak)]);
    let r = parse_mp4(&data).unwrap();
    assert_eq!(r.duration, ProbeDuration::Exact(Ratio { num: 0, den: 1 }));
    assert_eq!(r.streams.len(), 1);
    assert_eq!(r.streams[0].codec, "unknown");
    assert_eq!(r.streams[0].kind, TrackKind::Audio);
}

#[test]
fn corrupt_movie_header_never_gives_a_negative_or_undefined_duration() {
    for (timescale, duration) in [(0u32, 0u32), (0, u32::MAX), (u32::MAX, u32::MAX), (1, 0x8000_0000), (0xFFFF_FFFF, 0)] {
        let data = joined(&[
            ftyp(b"isom"),
            boxed(
                b"moov",
                &joined(&[
                    boxed(b"mvhd", &mvhd_payload(timescale, duration)),
                    video_trak((0, 0), (320, 240), 0, 0xFFFF_FFFF, 0),
                ]),
            ),
        ]);
        let r = parse_mp4(&data).unwrap();
        match r.duration {
            ProbeDuration::Exact(d) => {
                assert!(d.den > 0);
                let seconds = d.num as f64 / d.den as f64;
                assert!(seconds.is_finite() && seconds >= 0.0);
            }
            ProbeDuration::Ticks { .. } => panic!("an MP4 duration is a ratio"),
        }
    }
    let wide = joined(&[
        ftyp(b"isom"),
        boxed(
            b"moov",
            &joined(&[
                boxed(b"mvhd", &mvhd_payload_wide(1, u64::MAX)),
                video_trak((0, 0), (320, 240), 1, 1, 1),
            ]),
        ),
    ]);
    assert_eq!(
        parse_mp4(&wide).unwrap().duration,
        ProbeDuration::Exact(Ratio { num: u64::MAX, den: 1 })
    );
}

#[test]
fn truncated_files_degrade_and_never_fail() {
    let data = joined(&[
        ftyp(b"isom"),
        boxed(
            b"moov",
            &joined(&[
                boxed(b"mvhd", &mvhd_payload(1000, 5000)),
                video_trak((1920, 1080), (1280, 720), 12800, 64000, 512),
                audio_trak(48000, 240000),
            ]),
        ),
    ]);
    for cut in 0..data.len() {
        let r = parse_mp4(&data[..cut]);
        assert_eq!(r, None, "cut at {}", cut);
    }
    assert!(parse_mp4(&data).is_some());
}

#[test]
fn flipped_bytes_never_fail() {
    let data = joined(&[
        ftyp(b"isom"),
        boxed(
            b"moov",
            &joined(&[
                boxed(b"mvhd", &mvhd_payload(1000, 5000)),
                video_trak((1920, 1080), (1280, 720), 12800, 64000, 512),
                audio_trak(48000, 240000),
            ]),
        ),
    ]);
    for at in 0..data.len() {
        for value in [0x00u8, 0x01, 0x7F, 0x80, 0xFF] {
            let mut copy = data.clone();
            copy[at] = value;
            if let Some(r) = parse_mp4(&copy) {
                assert!(!r.streams.is_empty());
                for (i, s) in r.streams.iter().enumerate() {
                    assert_eq!(s.index, i);
                }
            }
        }
    }
}

#[test]
fn short_buffers_are_not_mp4() {
    assert_eq!(parse_mp4(&[]), None);
    assert_eq!(parse_mp4(&[0; 11]), None);
    assert_eq!(parse_mp4(&boxed(b"ftyp", &[])), None);
    assert_eq!(parse_mp4(&boxed(b"ftyp", b"iso")), None);
    assert_eq!(parse_mp4(&ftyp(b"isom")), None);
}
