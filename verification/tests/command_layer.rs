use cd_core::base64::b64;
use cd_core::commands::{
    cached_medium, data_url, lrclib_lyrics, lyrics_log_line, lyrics_or_none, netease_cover_file, saved_cover_name, cover_log_line, media_log_line, next_lyrics_step, cover_sources, LyricsStep, CoverSource, netease_lyrics, data_url_bytes, font_families, image_kind, library_listing,
    lrclib_source, lyric_cache_key, lyrics_log_text, lyrics_synced, media_log_text,
    mime_for_ext, netease_image_mime, netease_source, no_lyrics_source, recording_ids_match,
    release_page_url, size_has_media, submit_url, track_label, tray_label,
};
use cd_core::json::{Json, JsonNumber};
use cd_core::player::{ended_naturally, pause_arg, start_arg, volume_arg};

#[test]
fn image_kinds() {
    let mut png = vec![0x89u8, b'P', b'N', b'G', b'\r', b'\n', 0x1a, b'\n'];
    assert_eq!(image_kind(&png), ("image/jpeg", "jpg"));
    png.push(0);
    assert_eq!(image_kind(&png), ("image/png", "png"));
    let webp = b"RIFF\0\0\0\0WEBPVP8 ".to_vec();
    assert_eq!(image_kind(&webp), ("image/webp", "webp"));
    assert_eq!(image_kind(b"RIFF\0\0\0\0WAVEfmt "), ("image/jpeg", "jpg"));
    assert_eq!(mime_for_ext("png"), "image/png");
    assert_eq!(mime_for_ext("webp"), "image/webp");
    assert_eq!(mime_for_ext("gif"), "image/jpeg");
    assert_eq!(netease_image_mime(&[0u8; 99]), None);
    assert_eq!(netease_image_mime(&[0u8; 100]), Some("image/jpeg"));
}

#[test]
fn data_urls() {
    assert_eq!(data_url("image/png", b"hi"), "data:image/png;base64,aGk=");
    let bytes: Vec<u8> = (0u8..200).collect();
    let url = data_url("image/jpeg", &bytes);
    assert_eq!(data_url_bytes(&url), Some(bytes));
    assert_eq!(data_url_bytes(&b64(b"abc")), Some(b"abc".to_vec()));
}

#[test]
fn musicbrainz_pages() {
    assert_eq!(
        submit_url("1 6 150 95462", Some("R")),
        "https://musicbrainz.org/release/R/add-discid?toc=1%206%20150%2095462"
    );
    assert_eq!(
        submit_url("1 2", None),
        "https://musicbrainz.org/search?type=discid&query=1%202"
    );
    assert_eq!(release_page_url("R"), "https://musicbrainz.org/release/R");
}

#[test]
fn lyrics_cache_key() {
    assert_eq!(lyric_cache_key("T", "A", Some(1000), Some("r")), "T|A|Some(1000)|r");
    assert_eq!(lyric_cache_key("T", "A", None, None), "T|A|None|");
}

#[test]
fn synced_detection() {
    assert!(lyrics_synced("title\n  [00:01.00] hi\n"));
    assert!(!lyrics_synced("plain\ntext"));
    assert!(!lyrics_synced(""));
}

#[test]
fn labels() {
    assert_eq!(lrclib_source(Some("A"), "T"), "LRCLIB · A — T");
    assert_eq!(lrclib_source(None, "T"), "LRCLIB ·  — T");
    assert_eq!(netease_source("A / B", "T"), "网易云音乐 · A / B — T");
    assert!(recording_ids_match(Some("x"), Some("x")));
    assert!(!recording_ids_match(Some("x"), None));
    assert!(!recording_ids_match(None, None));
    assert_eq!(no_lyrics_source(), "未找到歌词");
    assert_eq!(track_label(3), "第 3 轨");
    assert_eq!(tray_label(Some(true)), "open");
    assert_eq!(tray_label(Some(false)), "closed");
    assert_eq!(tray_label(None), "unknown");
}

#[test]
fn fonts_sorted_and_unique() {
    let out = "Noto Sans CJK SC,Noto Sans CJK SC Regular\nDejaVu Sans\n\n  DejaVu Sans \n,Empty\nAbc\n";
    assert_eq!(font_families(out), vec!["Abc", "DejaVu Sans", "Noto Sans CJK SC"]);
    assert!(font_families("").is_empty());
}

#[test]
fn media_size() {
    assert!(size_has_media("2097152\n"));
    assert!(!size_has_media("0\n"));
    assert!(!size_has_media("junk"));
}

#[test]
fn log_texts() {
    assert_eq!(lyrics_log_text(None, "x\n"), "x\n");
    assert_eq!(lyrics_log_text(Some("a\nb\n"), "c\n"), "a\nb\nc\n");
    let long: String = (0..305).map(|i| format!("{i}\n")).collect();
    let t = lyrics_log_text(Some(&long), "new\n");
    assert!(t.starts_with("5\n6\n"));
    assert!(t.ends_with("304\nnew\n"));
    assert_eq!(media_log_text(Some("a\nb\n"), "c\n"), "a\nb\nc\n");
    let m = media_log_text(Some(&long), "new\n");
    assert!(m.starts_with("5\n"));
    assert!(m.ends_with("304\nnew\n"));
    assert_eq!(m.lines().count(), 301);
    assert_eq!(media_log_text(None, "x"), "x");
}

#[test]
fn listing_and_cached_medium() {
    let entry = Json::empty_object()
        .with_member("release", Json::text("r"))
        .with_member("savedAt", Json::text("epoch-1"));
    let listed = library_listing(&vec![("d1".to_string(), entry.deep_clone())]);
    assert_eq!(listed.len(), 1);
    let item = &listed[0];
    assert_eq!(item.get("discId").unwrap().as_str(), Some("d1"));
    assert_eq!(item.get("release").unwrap().as_str(), Some("r"));
    assert_eq!(item.get("savedAt").unwrap().as_str(), Some("epoch-1"));
    assert_eq!(item.get("medium").unwrap().as_u64(), Some(0));
    assert_eq!(cached_medium(&entry), 0);
    let with_medium = entry.with_member("medium", Json::Number(JsonNumber::PosInt(1)));
    assert_eq!(cached_medium(&with_medium), 1);
}

#[test]
fn player_values() {
    assert_eq!(start_arg(8), "#8");
    assert_eq!(volume_arg(150), "100");
    assert_eq!(volume_arg(42), "42");
    assert_eq!(pause_arg(true), "yes");
    assert_eq!(pause_arg(false), "no");
    assert!(ended_naturally(0));
    assert!(!ended_naturally(2));
}

#[test]
fn lrclib_lyrics_needs_matching_recording_or_duration() {
    let s = || Some("[00:01.00]a".to_string());
    let p = || Some("a".to_string());
    // duration too far and ids differ: refused
    assert!(lrclib_lyrics(Some("x"), Some("y"), Some(false), s(), p(), Some("A"), "T").is_none());
    // ids match although the duration is off
    let f = lrclib_lyrics(Some("x"), Some("x"), Some(false), s(), p(), Some("A"), "T").unwrap();
    assert_eq!(f.lrc, "[00:01.00]a");
    assert!(f.synced);
    assert_eq!(f.source, "LRCLIB · A — T");
    assert!(f.tlyric.is_none());
    // no duration at all counts as close; plain lyrics when not synced
    let f = lrclib_lyrics(None, None, None, None, p(), None, "T").unwrap();
    assert_eq!(f.lrc, "a");
    assert!(!f.synced);
    assert_eq!(f.source, "LRCLIB ·  — T");
    // nothing to show
    assert!(lrclib_lyrics(None, None, Some(true), None, None, Some("A"), "T").is_none());
}

#[test]
fn netease_lyrics_needs_text() {
    assert!(netease_lyrics("  \n ".to_string(), None, "A", "N").is_none());
    let f = netease_lyrics("[00:01]x\n".to_string(), Some("tr".to_string()), "A / B", "N").unwrap();
    assert!(f.synced);
    assert_eq!(f.source, "网易云音乐 · A / B — N");
    assert_eq!(f.tlyric.as_deref(), Some("tr"));
    let f = netease_lyrics("plain".to_string(), None, "A", "N").unwrap();
    assert!(!f.synced);
}

#[test]
fn missing_lyrics_and_log_line() {
    let none = lyrics_or_none(None);
    assert_eq!(none.lrc, "");
    assert_eq!(none.source, "未找到歌词");
    assert!(!none.synced && none.tlyric.is_none());
    assert_eq!(lyrics_log_line("T", "A", None), "T | A | MISS\n");
    assert_eq!(lyrics_log_line("T", "A", Some("S")), "T | A | OK: S\n");
}

#[test]
fn netease_cover_files() {
    let (m, f) = netease_cover_file("0123abcd", "data:image/png;base64,AAAA");
    assert_eq!(m, "image/png");
    assert_eq!(f, "0123abcd-0123abcd.png");
    let (m, f) = netease_cover_file("ab", "data:image/jpeg;base64,AAAA");
    assert_eq!(m, "image/jpeg");
    assert_eq!(f, "ab-ab.jpg");
}

#[test]
fn saved_cover_names_and_log() {
    assert_eq!(saved_cover_name("0123abcd", "webp"), "0123abcd-0123abcd.webp");
    assert_eq!(cover_log_line("ab", "image/png", 1234), "save_cover ab image/png 1234B\n");
}

#[test]
fn media_log_lines() {
    assert_eq!(media_log_line("open", false), "tray=open size=false\n");
    assert_eq!(media_log_line("closed", true), "tray=closed size=true\n");
}

fn step_name(s: &LyricsStep) -> &'static str {
    match s {
        LyricsStep::Lrclib => "lrclib",
        LyricsStep::NeteaseLyrics => "netease-lyrics",
        LyricsStep::NeteaseCover => "netease-cover",
        LyricsStep::Finish => "finish",
    }
}

#[test]
fn lyrics_request_order() {
    assert_eq!(step_name(&next_lyrics_step(None, false, false)), "lrclib");
    assert_eq!(step_name(&next_lyrics_step(Some(LyricsStep::Lrclib), false, false)), "netease-lyrics");
    assert_eq!(step_name(&next_lyrics_step(Some(LyricsStep::Lrclib), true, false)), "netease-cover");
    assert_eq!(step_name(&next_lyrics_step(Some(LyricsStep::NeteaseLyrics), true, true)), "finish");
    assert_eq!(step_name(&next_lyrics_step(Some(LyricsStep::NeteaseLyrics), false, false)), "netease-cover");
    assert_eq!(step_name(&next_lyrics_step(Some(LyricsStep::NeteaseCover), false, false)), "finish");
}

#[test]
fn cover_source_order() {
    let names = |v: Vec<CoverSource>| -> Vec<&'static str> {
        v.iter()
            .map(|s| match s {
                CoverSource::Cache => "cache",
                CoverSource::Archive => "archive",
                CoverSource::Netease => "netease",
            })
            .collect()
    };
    assert_eq!(names(cover_sources(true)), vec!["cache", "archive", "netease"]);
    assert_eq!(names(cover_sources(false)), vec!["cache", "netease"]);
}
