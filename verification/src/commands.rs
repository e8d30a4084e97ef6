//! Decisions of the application's command layer: recognising image data,
//! building data URLs and web addresses, the lyrics cache key, which lyrics
//! count as synchronised, the font list, the diagnostic logs, and the disc
//! collection as the front end lists it.
use vstd::prelude::*;
use crate::base64;
use crate::base64::decode_bytes_from;
use crate::cover;
use crate::cover::bytes_start_with;
use crate::json;
use crate::json::{key_less, key_eq, Json, JsonNumber, JsonV};
use crate::library;
use crate::mb;
use crate::text;
use crate::text::{lines_of, push_char, push_decimal, push_str, string_of, trimmed};
use crate::url;
use crate::url::push_urlencoded;
use vstd::string::StringSliceAdditionalSpecFns;

verus! {

/// RIFF container signature.
pub open spec fn riff_signature() -> Seq<u8> {
    seq![82u8, 73u8, 70u8, 70u8]
}

/// WEBP form type.
pub open spec fn webp_tag() -> Seq<u8> {
    seq![87u8, 69u8, 66u8, 80u8]
}

/// Image type of uploaded or cached cover data, judged by content: PNG (more
/// than 8 bytes with the PNG signature), WebP (more than 12 bytes, RIFF with
/// form WEBP), otherwise JPEG. Gives (MIME type, file extension).
pub open spec fn spec_image_kind(b: Seq<u8>) -> (Seq<char>, Seq<char>) {
    if b.len() > 8 && cover::has_prefix(b, cover::png_signature()) {
        ("image/png"@, "png"@)
    } else if b.len() > 12 && cover::has_prefix(b, riff_signature()) && b.subrange(8, 12)
        == webp_tag() {
        ("image/webp"@, "webp"@)
    } else {
        ("image/jpeg"@, "jpg"@)
    }
}

/// MIME type and extension of image data.
pub fn image_kind(bytes: &[u8]) -> (r: (&'static str, &'static str))
    ensures
        (r.0@, r.1@) == spec_image_kind(bytes@),
{
    let n = bytes.len();
    if n > 8 && cover::is_png(bytes) {
        return ("image/png", "png");
    }
    if n > 12 {
        let riff: [u8; 4] = [82u8, 73u8, 70u8, 70u8];
        assert(riff@ =~= riff_signature());
        if bytes_start_with(bytes, &riff) && bytes[8] == 87 && bytes[9] == 69 && bytes[10] == 66
            && bytes[11] == 80 {
            assert(bytes@.subrange(8, 12) =~= webp_tag());
            return ("image/webp", "webp");
        }
        assert(!(cover::has_prefix(bytes@, riff_signature()) && bytes@.subrange(8, 12)
            == webp_tag())) by {
            if cover::has_prefix(bytes@, riff_signature()) && bytes@.subrange(8, 12)
                == webp_tag() {
                assert(bytes@.subrange(8, 12)[0] == bytes@[8]);
                assert(bytes@.subrange(8, 12)[1] == bytes@[9]);
                assert(bytes@.subrange(8, 12)[2] == bytes@[10]);
                assert(bytes@.subrange(8, 12)[3] == bytes@[11]);
            }
        }
    }
    ("image/jpeg", "jpg")
}

/// MIME type for a cached file's extension: png, webp, otherwise JPEG.
pub fn mime_for_ext(ext: &str) -> (r: &'static str)
    ensures
        r@ == (if ext@ == "png"@ {
            "image/png"@
        } else if ext@ == "webp"@ {
            "image/webp"@
        } else {
            "image/jpeg"@
        }),
{
    if key_eq(ext, "png") {
        "image/png"
    } else if key_eq(ext, "webp") {
        "image/webp"
    } else {
        "image/jpeg"
    }
}

/// MIME type of a downloaded NetEase cover: none for fewer than 100 bytes,
/// PNG by signature, otherwise JPEG.
pub fn netease_image_mime(bytes: &[u8]) -> (r: Option<&'static str>)
    ensures
        bytes@.len() < 100 ==> r is None,
        bytes@.len() >= 100 ==> (r matches Some(m) && m@ == (if cover::has_prefix(
            bytes@,
            cover::png_signature(),
        ) {
            "image/png"@
        } else {
            "image/jpeg"@
        })),
{
    if bytes.len() < 100 {
        None
    } else if cover::is_png(bytes) {
        Some("image/png")
    } else {
        Some("image/jpeg")
    }
}

/// "data:<mime>;base64,<data>".
pub open spec fn spec_data_url(mime: Seq<char>, bytes: Seq<u8>) -> Seq<char> {
    "data:"@ + mime + ";base64,"@ + base64::std_base64(bytes)
}

/// A data URL for image data.
pub fn data_url(mime: &str, bytes: &[u8]) -> (r: String)
    ensures
        r@ == spec_data_url(mime@, bytes@),
{
    let mut r = string_of("data:");
    push_str(&mut r, mime);
    push_str(&mut r, ";base64,");
    let b = base64::b64(bytes);
    push_str(&mut r, b.as_str());
    r
}

/// Byte index after the first comma (0 when there is none).
pub open spec fn payload_start(b: Seq<u8>) -> int
    decreases b.len(),
{
    if b.len() == 0 {
        0
    } else if b.last() == 44 {
        let earlier = payload_start(b.drop_last());
        if earlier > 0 {
            earlier
        } else {
            b.len() as int
        }
    } else {
        payload_start(b.drop_last())
    }
}

proof fn lemma_payload_start(b: Seq<u8>)
    ensures
        0 <= payload_start(b) <= b.len(),
        payload_start(b) > 0 ==> b[payload_start(b) - 1] == 44 && forall|j: int|
            0 <= j < payload_start(b) - 1 ==> b[j] != 44,
        payload_start(b) == 0 ==> forall|j: int| 0 <= j < b.len() ==> b[j] != 44,
    decreases b.len(),
{
    if b.len() > 0 {
        let d = b.drop_last();
        lemma_payload_start(d);
        assert forall|j: int| 0 <= j < d.len() implies d[j] == b[j] by {}
    }
}

/// The bytes encoded in a data URL: the Base64 text after the first comma
/// (the whole text when there is none), decoded leniently.
pub fn data_url_bytes(data_url: &str) -> (r: Option<Vec<u8>>)
    ensures
        r matches Some(out) && out@ == base64::base64_decoded(
            data_url.spec_bytes().skip(payload_start(data_url.spec_bytes())),
        ),
{
    let bytes = data_url.as_bytes();
    let n = bytes.len();
    let mut i: usize = 0;
    proof {
        lemma_payload_start(bytes@);
    }
    while i < n && bytes[i] != 44
        invariant
            n == bytes@.len(),
            i <= n,
            forall|j: int| 0 <= j < i ==> bytes@[j] != 44,
        decreases n - i,
    {
        i = i + 1;
    }
    let start = if i < n {
        i + 1
    } else {
        0
    };
    proof {
        let p = payload_start(bytes@);
        if i < n {
            assert(p == i + 1) by {
                if p == 0 {
                    assert(bytes@[i as int] != 44);
                } else if p - 1 < i {
                    assert(bytes@[p - 1] != 44);
                } else if p - 1 > i {
                    assert(bytes@[i as int] != 44);
                }
            }
        } else {
            assert(p == 0) by {
                if p > 0 {
                    assert(bytes@[p - 1] != 44);
                }
            }
        }
    }
    Some(decode_bytes_from(bytes, start))
}

/// Reading back a data URL made for image data gives the image data: the
/// bytes of `data_url(mime, bytes)` decode, after the first comma, to
/// `bytes`, for every ASCII MIME type without a comma.
pub proof fn law_data_url_roundtrip(mime: Seq<char>, bytes: Seq<u8>)
    requires
        vstd::utf8::is_ascii_chars(mime),
        !mime.contains(','),
    ensures
        ({
            let ub = vstd::utf8::encode_utf8(spec_data_url(mime, bytes));
            base64::base64_decoded(ub.skip(payload_start(ub))) == bytes
        }),
{
    let enc = base64::std_base64(bytes);
    base64::law_base64_roundtrip(bytes);
    reveal_strlit("data:");
    reveal_strlit(";base64,");
    let head = "data:"@ + mime + ";base64,"@;
    let url = head + enc;
    assert(url =~= spec_data_url(mime, bytes));
    assert(vstd::utf8::is_ascii_chars(url)) by {
        assert forall|i: int| 0 <= i < url.len() implies '\0' <= #[trigger] url[i] <= '\u{7f}' by {
            if i < 5 {
                assert(url[i] == "data:"@[i]);
            } else if i < 5 + mime.len() {
                assert(url[i] == mime[i - 5]);
            } else if i < head.len() {
                assert(url[i] == ";base64,"@[i - 5 - mime.len()]);
            } else {
                assert(url[i] == enc[i - head.len()]);
            }
        }
    }
    vstd::utf8::is_ascii_chars_encode_utf8(url);
    vstd::utf8::is_ascii_chars_encode_utf8(enc);
    let ub = vstd::utf8::encode_utf8(url);
    let n = head.len() as int;
    assert(ub[n - 1] == 44u8) by {
        assert(url[n - 1] == ',');
    }
    assert forall|j: int| 0 <= j < n - 1 implies ub[j] != 44u8 by {
        assert(ub[j] == url[j] as u8);
        if j < 5 {
            assert(url[j] == "data:"@[j]);
        } else if j < 5 + mime.len() {
            assert(url[j] == mime[j - 5]);
            assert(mime[j - 5] != ',') by {
                if mime[j - 5] == ',' {
                    assert(mime.contains(','));
                }
            }
        } else {
            assert(url[j] == ";base64,"@[j - 5 - mime.len()]);
        }
    }
    lemma_payload_start(ub);
    let p = payload_start(ub);
    assert(p == n) by {
        if p == 0 {
            assert(ub[n - 1] != 44u8);
        } else if p < n {
            assert(ub[p - 1] != 44u8);
        } else if p > n {
            assert(ub[n - 1] != 44u8);
        }
    }
    assert(ub.skip(n) =~= vstd::utf8::encode_utf8(enc)) by {
        assert forall|i: int| 0 <= i < enc.len() implies ub.skip(n)[i] == vstd::utf8::encode_utf8(
            enc,
        )[i] by {
            assert(url[n + i] == enc[i]);
        }
    }
}

/// File name of a cover saved under a release's label: "label-label.ext".
pub fn saved_cover_name(label: &str, ext: &str) -> (r: String)
    ensures
        r@ == label@ + "-"@ + label@ + "."@ + ext@,
{
    let mut name = string_of(label);
    push_str(&mut name, "-");
    push_str(&mut name, label);
    push_str(&mut name, ".");
    push_str(&mut name, ext);
    name
}

/// MIME type and cache file name under which a NetEase cover, given as a
/// data URL, is saved: PNG when the data URL says so, otherwise JPEG; the
/// file is "label-label.png" or "label-label.jpg".
pub fn netease_cover_file(label: &str, data_url: &str) -> (r: (&'static str, String))
    ensures
        ({
            let png = text::starts_with_chars(data_url@, "data:image/png"@);
            &&& r.0@ == (if png {
                "image/png"@
            } else {
                "image/jpeg"@
            })
            &&& r.1@ == label@ + "-"@ + label@ + "."@ + (if png {
                "png"@
            } else {
                "jpg"@
            })
        }),
{
    if text::starts_with(data_url, "data:image/png") {
        ("image/png", saved_cover_name(label, "png"))
    } else {
        ("image/jpeg", saved_cover_name(label, "jpg"))
    }
}

/// Line of the cover log for an uploaded cover: "save_cover label mime nB".
pub fn cover_log_line(label: &str, mime: &str, size: usize) -> (r: String)
    ensures
        r@ == "save_cover "@ + label@ + " "@ + mime@ + " "@ + text::dec_chars(size as nat) + "B\n"@,
{
    let mut r = string_of("save_cover ");
    push_str(&mut r, label);
    push_str(&mut r, " ");
    push_str(&mut r, mime);
    push_str(&mut r, " ");
    push_decimal(&mut r, size as u64);
    push_str(&mut r, "B\n");
    r
}

/// The MusicBrainz page for submitting a DiscID: a release's "add-discid"
/// page when the release is known, otherwise a DiscID search.
pub fn submit_url(toc_string: &str, release_id: Option<&str>) -> (r: String)
    ensures
        r@ == match release_id {
            Some(id) => "https://musicbrainz.org/release/"@ + id@ + "/add-discid?toc="@
                + url::urlencoded(toc_string@),
            None => "https://musicbrainz.org/search?type=discid&query="@ + url::urlencoded(
                toc_string@,
            ),
        },
{
    match release_id {
        Some(id) => {
            let mut r = string_of("https://musicbrainz.org/release/");
            push_str(&mut r, id);
            push_str(&mut r, "/add-discid?toc=");
            push_urlencoded(&mut r, toc_string);
            r
        },
        None => {
            let mut r = string_of("https://musicbrainz.org/search?type=discid&query=");
            push_urlencoded(&mut r, toc_string);
            r
        },
    }
}

/// The MusicBrainz page of a release.
pub fn release_page_url(release_id: &str) -> (r: String)
    ensures
        r@ == "https://musicbrainz.org/release/"@ + release_id@,
{
    let mut r = string_of("https://musicbrainz.org/release/");
    push_str(&mut r, release_id);
    r
}

/// `{:?}` of an optional number: "Some(n)" or "None".
pub open spec fn debug_opt(o: Option<u64>) -> Seq<char> {
    match o {
        Some(n) => "Some("@ + text::dec_chars(n as nat) + ")"@,
        None => "None"@,
    }
}

/// Key of the lyrics cache: "title|artist|length|recording".
pub open spec fn spec_lyric_key(
    title: Seq<char>,
    artist: Seq<char>,
    length_ms: Option<u64>,
    recording_id: Option<Seq<char>>,
) -> Seq<char> {
    title + "|"@ + artist + "|"@ + debug_opt(length_ms) + "|"@ + match recording_id {
        Some(r) => r,
        None => seq![],
    }
}

/// Key of the lyrics cache for one track request.
pub fn lyric_cache_key(
    title: &str,
    artist: &str,
    length_ms: Option<u64>,
    recording_id: Option<&str>,
) -> (r: String)
    ensures
        r@ == spec_lyric_key(
            title@,
            artist@,
            length_ms,
            match recording_id {
                Some(s) => Some(s@),
                None => None,
            },
        ),
{
    let mut r = string_of(title);
    push_str(&mut r, "|");
    push_str(&mut r, artist);
    push_str(&mut r, "|");
    match length_ms {
        Some(n) => {
            push_str(&mut r, "Some(");
            push_decimal(&mut r, n);
            push_str(&mut r, ")");
        },
        None => {
            push_str(&mut r, "None");
        },
    }
    push_str(&mut r, "|");
    match recording_id {
        Some(s) => push_str(&mut r, s),
        None => {
            assert(r@ + Seq::<char>::empty() =~= r@);
        },
    }
    r
}

/// Lyrics are synchronised when some line starts with "[" after leading
/// whitespace.
pub open spec fn spec_synced(lrc: Seq<char>) -> bool {
    exists|i: int|
        0 <= i < text::text_lines(lrc).len() && {
            let t = text::trim_start_chars(#[trigger] text::text_lines(lrc)[i]);
            t.len() > 0 && t[0] == '['
        }
}

fn trim_start_first_is(l: &str, c: char) -> (r: bool)
    ensures
        r == (text::trim_start_chars(l@).len() > 0 && text::trim_start_chars(l@)[0] == c),
{
    let n = l.unicode_len();
    let mut i: usize = 0;
    assert(l@.skip(0) =~= l@);
    while i < n && text::is_whitespace(l.get_char(i))
        invariant
            n == l@.len(),
            i <= n,
            text::trim_start_chars(l@) == text::trim_start_chars(l@.skip(i as int)),
        decreases n - i,
    {
        assert(l@.skip(i as int)[0] == l@[i as int]);
        assert(l@.skip(i as int).drop_first() =~= l@.skip(i + 1));
        i = i + 1;
    }
    if i < n {
        assert(l@.skip(i as int)[0] == l@[i as int]);
        l.get_char(i) == c
    } else {
        false
    }
}

/// Whether LRC text has a time-tagged line.
pub fn lyrics_synced(lrc: &str) -> (r: bool)
    ensures
        r == spec_synced(lrc@),
{
    let lines = lines_of(lrc);
    let ghost ls = text::string_views(lines@);
    let n = lines.len();
    let mut i: usize = 0;
    while i < n
        invariant
            n == lines@.len(),
            ls == text::string_views(lines@),
            ls == text::text_lines(lrc@),
            i <= n,
            forall|k: int|
                0 <= k < i ==> !({
                    let t = text::trim_start_chars(#[trigger] ls[k]);
                    t.len() > 0 && t[0] == '['
                }),
        decreases n - i,
    {
        assert(ls[i as int] == lines@[i as int]@);
        if trim_start_first_is(lines[i].as_str(), '[') {
            return true;
        }
        i = i + 1;
    }
    false
}

/// Source label of LRCLIB lyrics: "LRCLIB · artist — track".
pub fn lrclib_source(artist_name: Option<&str>, track_name: &str) -> (r: String)
    ensures
        r@ == "LRCLIB · "@ + match artist_name {
            Some(a) => a@,
            None => seq![],
        } + " — "@ + track_name@,
{
    let mut r = string_of("LRCLIB · ");
    match artist_name {
        Some(a) => push_str(&mut r, a),
        None => {
            assert(r@ + Seq::<char>::empty() =~= r@);
        },
    }
    push_str(&mut r, " — ");
    push_str(&mut r, track_name);
    r
}

/// Source label of NetEase lyrics: "网易云音乐 · artists — name".
pub fn netease_source(artists: &str, name: &str) -> (r: String)
    ensures
        r@ == "网易云音乐 · "@ + artists@ + " — "@ + name@,
{
    let mut r = string_of("网易云音乐 · ");
    push_str(&mut r, artists);
    push_str(&mut r, " — ");
    push_str(&mut r, name);
    r
}

/// An LRCLIB result belongs to the requested recording: both ids are known
/// and equal.
pub fn recording_ids_match(wanted: Option<&str>, found: Option<&str>) -> (r: bool)
    ensures
        r == (wanted is Some && found is Some && wanted.unwrap()@ == found.unwrap()@),
{
    match (wanted, found) {
        (Some(a), Some(b)) => key_eq(a, b),
        _ => false,
    }
}

/// Text reported when no lyrics were found.
pub fn no_lyrics_source() -> (r: String)
    ensures
        r@ == "未找到歌词"@,
{
    string_of("未找到歌词")
}

/// Lyrics chosen for a track: where they come from, the LRC text, a
/// translation, and whether they are synchronised.
pub struct FoundLyrics {
    pub source: String,
    pub lrc: String,
    pub tlyric: Option<String>,
    pub synced: bool,
}

pub open spec fn opt_chars(o: Option<&str>) -> Option<Seq<char>> {
    match o {
        Some(s) => Some(s@),
        None => None,
    }
}

/// LRCLIB's best match is taken only when it belongs to the requested
/// recording (both ids known and equal) or its duration is close enough
/// (`duration_ok`, `None` when LRCLIB gave no duration, which counts as
/// close); then its synchronised lyrics, else its plain ones.
pub fn lrclib_lyrics(
    wanted_recording: Option<&str>,
    found_recording: Option<&str>,
    duration_ok: Option<bool>,
    synced_lyrics: Option<String>,
    plain_lyrics: Option<String>,
    artist_name: Option<&str>,
    track_name: &str,
) -> (r: Option<FoundLyrics>)
    ensures
        r is Some <==> ((wanted_recording is Some && found_recording is Some
            && wanted_recording.unwrap()@ == found_recording.unwrap()@)
            || duration_ok != Some(false)) && (synced_lyrics is Some || plain_lyrics is Some),
        r matches Some(f) ==> {
            &&& f.lrc@ == (match synced_lyrics {
                Some(t) => t@,
                None => plain_lyrics.unwrap()@,
            })
            &&& f.synced == synced_lyrics is Some
            &&& f.tlyric is None
            &&& f.source@ == "LRCLIB · "@ + match opt_chars(artist_name) {
                Some(a) => a,
                None => seq![],
            } + " — "@ + track_name@
        },
{
    let ids = recording_ids_match(wanted_recording, found_recording);
    let close = match duration_ok {
        Some(b) => b,
        None => true,
    };
    if !(ids || close) {
        return None;
    }
    let synced = synced_lyrics.is_some();
    let lrc = match synced_lyrics {
        Some(t) => t,
        None => match plain_lyrics {
            Some(t) => t,
            None => {
                return None;
            },
        },
    };
    Some(FoundLyrics { source: lrclib_source(artist_name, track_name), lrc, tlyric: None, synced })
}

/// NetEase lyrics are taken when the LRC text is not blank; they count as
/// synchronised when a line is time-tagged.
pub fn netease_lyrics(lrc: String, tlyric: Option<String>, artists: &str, name: &str) -> (r: Option<
    FoundLyrics,
>)
    ensures
        r is Some <==> text::trim_chars(lrc@).len() > 0,
        r matches Some(f) ==> {
            &&& f.lrc@ == lrc@
            &&& f.tlyric == tlyric
            &&& f.synced == spec_synced(lrc@)
            &&& f.source@ == "网易云音乐 · "@ + artists@ + " — "@ + name@
        },
{
    if text::is_blank(lrc.as_str()) {
        return None;
    }
    let synced = lyrics_synced(lrc.as_str());
    Some(FoundLyrics { source: netease_source(artists, name), lrc, tlyric, synced })
}

/// The lyrics reported for a track: those found, or none (empty text, not
/// synchronised, source "未找到歌词").
pub fn lyrics_or_none(best: Option<FoundLyrics>) -> (r: FoundLyrics)
    ensures
        match best {
            Some(f) => r == f,
            None => r.lrc@ == Seq::<char>::empty() && r.tlyric is None && !r.synced
                && r.source@ == "未找到歌词"@,
        },
{
    match best {
        Some(f) => f,
        None => FoundLyrics {
            source: no_lyrics_source(),
            lrc: String::new(),
            tlyric: None,
            synced: false,
        },
    }
}

/// The lyrics log line of a request: "title | artist | OK: source" or
/// "title | artist | MISS", with a final newline.
pub fn lyrics_log_line(title: &str, artist: &str, source: Option<&str>) -> (r: String)
    ensures
        r@ == title@ + " | "@ + artist@ + " | "@ + match opt_chars(source) {
            Some(s) => "OK: "@ + s,
            None => "MISS"@,
        } + "\n"@,
{
    let mut r = string_of(title);
    push_str(&mut r, " | ");
    push_str(&mut r, artist);
    push_str(&mut r, " | ");
    match source {
        Some(s) => {
            push_str(&mut r, "OK: ");
            push_str(&mut r, s);
        },
        None => push_str(&mut r, "MISS"),
    }
    push_str(&mut r, "\n");
    r
}

/// A request of the lyrics search.
pub enum LyricsStep {
    /// Ask LRCLIB.
    Lrclib,
    /// Ask NetEase for a duration-matching song, its cover and its lyrics.
    NeteaseLyrics,
    /// Ask NetEase for a duration-matching song's cover only.
    NeteaseCover,
    /// Stop and report.
    Finish,
}

pub open spec fn lyrics_step_code(s: LyricsStep) -> int {
    match s {
        LyricsStep::Lrclib => 0,
        LyricsStep::NeteaseLyrics => 1,
        LyricsStep::NeteaseCover => 2,
        LyricsStep::Finish => 3,
    }
}

/// The request after the one coded `last` (-1 at the start): LRCLIB first;
/// NetEase lyrics only when LRCLIB gave none; a NetEase cover when there is
/// still no cover; then stop.
pub open spec fn spec_next_lyrics_step(last: int, have_lyrics: bool, have_cover: bool) -> int {
    if last < 0 {
        0
    } else if last == 0 && !have_lyrics {
        1
    } else if last <= 1 && !have_cover {
        2
    } else {
        3
    }
}

/// The next request of the lyrics search, given the last one made and
/// whether lyrics and a cover have been found.
pub fn next_lyrics_step(last: Option<LyricsStep>, have_lyrics: bool, have_cover: bool) -> (r:
    LyricsStep)
    ensures
        lyrics_step_code(r) == spec_next_lyrics_step(
            match last {
                Some(s) => lyrics_step_code(s),
                None => -1,
            },
            have_lyrics,
            have_cover,
        ),
{
    match last {
        None => LyricsStep::Lrclib,
        Some(LyricsStep::Lrclib) => {
            if !have_lyrics {
                LyricsStep::NeteaseLyrics
            } else if !have_cover {
                LyricsStep::NeteaseCover
            } else {
                LyricsStep::Finish
            }
        },
        Some(LyricsStep::NeteaseLyrics) => {
            if !have_cover {
                LyricsStep::NeteaseCover
            } else {
                LyricsStep::Finish
            }
        },
        Some(_) => LyricsStep::Finish,
    }
}

/// A place a cover is taken from.
pub enum CoverSource {
    /// A cover file already in the local cache.
    Cache,
    /// The Cover Art Archive (the file is saved in the cache).
    Archive,
    /// NetEase's album cover of the first matching song.
    Netease,
}

pub open spec fn cover_source_code(s: CoverSource) -> int {
    match s {
        CoverSource::Cache => 0,
        CoverSource::Archive => 1,
        CoverSource::Netease => 2,
    }
}

/// The places a cover is looked for, in order, the first that gives one
/// winning: the cache, then (for the player) the Cover Art Archive, then
/// NetEase.
pub fn cover_sources(with_archive: bool) -> (r: Vec<CoverSource>)
    ensures
        r@.map_values(|s: CoverSource| cover_source_code(s)) == (if with_archive {
            seq![0int, 1, 2]
        } else {
            seq![0int, 2]
        }),
{
    let r = if with_archive {
        vec![CoverSource::Cache, CoverSource::Archive, CoverSource::Netease]
    } else {
        vec![CoverSource::Cache, CoverSource::Netease]
    };
    assert(r@.map_values(|s: CoverSource| cover_source_code(s)) =~= (if with_archive {
        seq![0int, 1, 2]
    } else {
        seq![0int, 2]
    }));
    r
}

/// Label returned when a track starts playing: "第 n 轨".
pub fn track_label(track_no: u8) -> (r: String)
    ensures
        r@ == "第 "@ + text::dec_chars(track_no as nat) + " 轨"@,
{
    let mut r = string_of("第 ");
    push_decimal(&mut r, track_no as u64);
    push_str(&mut r, " 轨");
    r
}

/// Tray state as reported to the front end.
pub fn tray_label(open: Option<bool>) -> (r: &'static str)
    ensures
        r@ == match open {
            Some(true) => "open"@,
            Some(false) => "closed"@,
            None => "unknown"@,
        },
{
    match open {
        Some(true) => "open",
        Some(false) => "closed",
        None => "unknown",
    }
}

// ----- fonts -----

/// The family named on one line of `fc-list : family` output: the text up to
/// the first comma, trimmed.
pub open spec fn before_comma(l: Seq<char>) -> Seq<char>
    decreases l.len(),
{
    if l.len() == 0 {
        l
    } else if l[0] == ',' {
        seq![]
    } else {
        seq![l[0]] + before_comma(l.drop_first())
    }
}

pub open spec fn family_of(line: Seq<char>) -> Seq<char> {
    text::trim_chars(before_comma(text::trim_chars(line)))
}

/// Strictly increasing in key order, so without repetitions.
pub open spec fn strictly_sorted(v: Seq<Seq<char>>) -> bool {
    forall|i: int, j: int| 0 <= i < j < v.len() ==> json::key_lt(v[i], v[j])
}

fn before_comma_of(l: &str) -> (r: String)
    ensures
        r@ == before_comma(l@),
{
    let n = l.unicode_len();
    let mut i: usize = 0;
    while i < n && l.get_char(i) != ','
        invariant
            n == l@.len(),
            i <= n,
            forall|k: int| 0 <= k < i ==> l@[k] != ',',
        decreases n - i,
    {
        i = i + 1;
    }
    let mut r = String::new();
    let mut k: usize = 0;
    while k < i
        invariant
            n == l@.len(),
            i <= n,
            k <= i,
            r@ == l@.take(k as int),
        decreases i - k,
    {
        push_char(&mut r, l.get_char(k));
        k = k + 1;
        assert(r@ =~= l@.take(k as int));
    }
    proof {
        lemma_before_comma(l@, i as int);
    }
    r
}

proof fn lemma_before_comma(l: Seq<char>, i: int)
    requires
        0 <= i <= l.len(),
        forall|k: int| 0 <= k < i ==> l[k] != ',',
        i < l.len() ==> l[i] == ',',
    ensures
        before_comma(l) == l.take(i),
    decreases l.len(),
{
    if l.len() > 0 {
        if i == 0 {
            assert(l.take(0) =~= seq![]);
        } else {
            lemma_before_comma(l.drop_first(), i - 1);
            assert(l.take(i) =~= seq![l[0]] + l.drop_first().take(i - 1));
        }
    } else {
        assert(l.take(i) =~= l);
    }
}

/// Inserts `name` into a strictly sorted list unless it is already there.
fn insert_sorted(v: &mut Vec<String>, name: String)
    requires
        strictly_sorted(text::string_views(old(v)@)),
    ensures
        strictly_sorted(text::string_views(final(v)@)),
        forall|x: Seq<char>|
            #[trigger] text::string_views(final(v)@).contains(x) <==> (text::string_views(old(v)@).contains(x) || x == name@),
{
    let ghost before = text::string_views(v@);
    let n = v.len();
    let mut i: usize = 0;
    while i < n && key_less(v[i].as_str(), name.as_str())
        invariant
            n == v@.len(),
            before == text::string_views(v@),
            i <= n,
            forall|k: int| 0 <= k < i ==> json::key_lt(#[trigger] before[k], name@),
        decreases n - i,
    {
        assert(before[i as int] == v@[i as int]@);
        i = i + 1;
    }
    if i < n && key_eq(v[i].as_str(), name.as_str()) {
        assert(before[i as int] == name@);
        assert(before.contains(name@));
        return;
    }
    let ghost nm = name@;
    v.insert(i, name);
    let ghost after = text::string_views(v@);
    assert(after =~= before.insert(i as int, nm));
    proof {
        if i < n {
            assert(before[i as int] == v@[i as int + 1]@);
            assert(!json::key_lt(before[i as int], nm));
            assert(before[i as int] != nm);
            json::lemma_key_lt_total(before[i as int], nm);
        }
        assert forall|a: int, b: int| 0 <= a < b < after.len() implies json::key_lt(
            after[a],
            after[b],
        ) by {
            if b < i {
                assert(after[a] == before[a] && after[b] == before[b]);
            } else if b == i {
                assert(after[a] == before[a]);
            } else if a == i {
                assert(after[b] == before[b - 1]);
                if b - 1 > i {
                    json::lemma_key_lt_transitive(nm, before[i as int], before[b - 1]);
                }
            } else if a < i {
                assert(after[a] == before[a] && after[b] == before[b - 1]);
            } else {
                assert(after[a] == before[a - 1] && after[b] == before[b - 1]);
            }
        }
        assert forall|x: Seq<char>| #[trigger] after.contains(x) <==> (before.contains(x) || x == nm) by {
            if after.contains(x) {
                let k = choose|k: int| 0 <= k < after.len() && after[k] == x;
                if k < i {
                    assert(before[k] == x);
                } else if k > i {
                    assert(before[k - 1] == x);
                }
            }
            if before.contains(x) {
                let k = choose|k: int| 0 <= k < before.len() && before[k] == x;
                if k < i {
                    assert(after[k] == x);
                } else {
                    assert(after[k + 1] == x);
                }
            }
            if x == nm {
                assert(after[i as int] == x);
            }
        }
    }
}

/// System font families from `fc-list : family` output: each non-blank
/// line's part before the first comma, trimmed, if not empty; sorted and
/// without repetitions.
pub fn font_families(output: &str) -> (r: Vec<String>)
    ensures
        strictly_sorted(text::string_views(r@)),
        forall|x: Seq<char>|
            #[trigger] text::string_views(r@).contains(x) <==> exists|i: int|
                0 <= i < text::text_lines(output@).len() && text::trim_chars(
                    #[trigger] text::text_lines(output@)[i],
                ).len() > 0 && family_of(text::text_lines(output@)[i]) == x && x.len() > 0,
{
    let lines = lines_of(output);
    let ghost ls = text::string_views(lines@);
    let mut out: Vec<String> = Vec::new();
    let n = lines.len();
    let mut i: usize = 0;
    while i < n
        invariant
            n == lines@.len(),
            ls == text::string_views(lines@),
            ls == text::text_lines(output@),
            i <= n,
            strictly_sorted(text::string_views(out@)),
            forall|x: Seq<char>|
                #[trigger] text::string_views(out@).contains(x) <==> exists|k: int|
                    0 <= k < i && text::trim_chars(#[trigger] ls[k]).len() > 0 && family_of(ls[k])
                        == x && x.len() > 0,
        decreases n - i,
    {
        assert(ls[i as int] == lines@[i as int]@);
        let t = trimmed(lines[i].as_str());
        let ghost before = text::string_views(out@);
        if t.as_str().unicode_len() > 0 {
            let head = before_comma_of(t.as_str());
            let fam = trimmed(head.as_str());
            if fam.as_str().unicode_len() > 0 {
                let ghost f = fam@;
                insert_sorted(&mut out, fam);
                assert forall|x: Seq<char>|
                    #[trigger] text::string_views(out@).contains(x) <==> exists|k: int|
                        0 <= k < i + 1 && text::trim_chars(#[trigger] ls[k]).len() > 0 && family_of(
                            ls[k],
                        ) == x && x.len() > 0 by {
                    if x == f {
                        assert(text::trim_chars(ls[i as int]).len() > 0 && family_of(ls[i as int])
                            == x);
                    }
                    if exists|k: int|
                        0 <= k < i + 1 && text::trim_chars(#[trigger] ls[k]).len() > 0 && family_of(
                            ls[k],
                        ) == x && x.len() > 0 {
                        let k = choose|k: int|
                            0 <= k < i + 1 && text::trim_chars(#[trigger] ls[k]).len() > 0
                                && family_of(ls[k]) == x && x.len() > 0;
                        if k < i {
                            assert(before.contains(x));
                        }
                    }
                }
            } else {
                assert forall|x: Seq<char>|
                    #[trigger] text::string_views(out@).contains(x) <==> exists|k: int|
                        0 <= k < i + 1 && text::trim_chars(#[trigger] ls[k]).len() > 0 && family_of(
                            ls[k],
                        ) == x && x.len() > 0 by {
                    if exists|k: int|
                        0 <= k < i + 1 && text::trim_chars(#[trigger] ls[k]).len() > 0 && family_of(
                            ls[k],
                        ) == x && x.len() > 0 {
                        let k = choose|k: int|
                            0 <= k < i + 1 && text::trim_chars(#[trigger] ls[k]).len() > 0
                                && family_of(ls[k]) == x && x.len() > 0;
                        assert(k < i);
                    }
                }
            }
        } else {
            assert forall|x: Seq<char>|
                #[trigger] text::string_views(out@).contains(x) <==> exists|k: int|
                    0 <= k < i + 1 && text::trim_chars(#[trigger] ls[k]).len() > 0 && family_of(
                        ls[k],
                    ) == x && x.len() > 0 by {
                if exists|k: int|
                    0 <= k < i + 1 && text::trim_chars(#[trigger] ls[k]).len() > 0 && family_of(
                        ls[k],
                    ) == x && x.len() > 0 {
                    let k = choose|k: int|
                        0 <= k < i + 1 && text::trim_chars(#[trigger] ls[k]).len() > 0 && family_of(
                            ls[k],
                        ) == x && x.len() > 0;
                    assert(k < i);
                }
            }
        }
        i = i + 1;
    }
    out
}


// ----- media state -----

/// A block device's `size` attribute shows a medium: it parses (after
/// trimming) as a positive number.
pub fn size_has_media(size_attr: &str) -> (r: bool)
    ensures
        r == (match text::parsed_u64(text::trim_chars(size_attr@)) {
            Some(v) => v > 0,
            None => false,
        }),
{
    let t = trimmed(size_attr);
    match text::parse_u64(t.as_str()) {
        Some(v) => v > 0,
        None => false,
    }
}

// ----- diagnostic logs -----

/// At most the last 300 lines.
pub open spec fn last_300(ls: Seq<Seq<char>>) -> Seq<Seq<char>> {
    if ls.len() > 300 {
        ls.skip(ls.len() - 300)
    } else {
        ls
    }
}

fn join_lines(ls: &Vec<String>, from: usize) -> (r: String)
    requires
        from <= ls@.len(),
    ensures
        r@ == mb::join(text::string_views(ls@).skip(from as int), "\n"@),
{
    let ghost v = text::string_views(ls@).skip(from as int);
    let mut r = String::new();
    let n = ls.len();
    let mut i: usize = from;
    assert(v.take(0) =~= seq![]);
    while i < n
        invariant
            n == ls@.len(),
            from <= i <= n,
            v == text::string_views(ls@).skip(from as int),
            r@ == mb::join(v.take(i - from), "\n"@),
        decreases n - i,
    {
        if i > from {
            push_str(&mut r, "\n");
        }
        push_str(&mut r, ls[i].as_str());
        assert(v[i - from] == ls@[i as int]@);
        assert(v.take(i - from + 1).drop_last() =~= v.take(i - from));
        if i == from {
            assert(r@ =~= mb::join(v.take(1), "\n"@));
        }
        i = i + 1;
    }
    assert(v.take(n - from) =~= v);
    r
}

/// The media log line: "tray=<state> size=<true|false>".
pub fn media_log_line(tray: &str, size: bool) -> (r: String)
    ensures
        r@ == "tray="@ + tray@ + " size="@ + (if size {
            "true"@
        } else {
            "false"@
        }) + "\n"@,
{
    let mut r = string_of("tray=");
    push_str(&mut r, tray);
    push_str(&mut r, " size=");
    if size {
        push_str(&mut r, "true");
    } else {
        push_str(&mut r, "false");
    }
    push_str(&mut r, "\n");
    r
}

/// New contents of the lyrics log: the last 300 lines of the old contents
/// (when there were any), a newline, and the new line.
pub fn lyrics_log_text(old: Option<&str>, line: &str) -> (r: String)
    ensures
        r@ == match old {
            Some(o) => mb::join(last_300(text::text_lines(o@)), "\n"@) + "\n"@ + line@,
            None => line@,
        },
{
    match old {
        Some(o) => {
            let ls = lines_of(o);
            let n = ls.len();
            let from = if n > 300 {
                n - 300
            } else {
                0
            };
            assert(text::string_views(ls@).skip(0) =~= text::string_views(ls@));
            let mut r = join_lines(&ls, from);
            push_str(&mut r, "\n");
            push_str(&mut r, line);
            r
        },
        None => string_of(line),
    }
}

/// The media-state log after appending `line` to the old contents `o`.
pub open spec fn spec_media_log_text(o: Seq<char>, line: Seq<char>) -> Seq<char> {
    (if text::text_lines(o).len() > 300 {
        mb::join(last_300(text::text_lines(o)), "\n"@) + "\n"@
    } else {
        o
    }) + line
}

proof fn lemma_joined_lines(ls: Seq<Seq<char>>, rest: Seq<char>, acc: Seq<Seq<char>>)
    requires
        ls.len() > 0,
        forall|i: int|
            0 <= i < ls.len() ==> text::no_newline(#[trigger] ls[i]) && text::strip_cr(ls[i])
                == ls[i],
    ensures
        text::lines_from(mb::join(ls, seq!['\n']) + seq!['\n'] + rest, seq![], acc)
            == text::lines_from(rest, seq![], acc + ls),
    decreases ls.len(),
{
    let x = ls.last();
    if ls.len() == 1 {
        text::lemma_line_then(ls[0], rest, seq![], acc);
        assert(Seq::<char>::empty() + ls[0] =~= ls[0]);
        assert(acc.push(ls[0]) =~= acc + ls);
    } else {
        let init = ls.drop_last();
        assert forall|i: int| 0 <= i < init.len() implies text::no_newline(#[trigger] init[i])
            && text::strip_cr(init[i]) == init[i] by {
            assert(init[i] == ls[i]);
        }
        let rest2 = x + seq!['\n'] + rest;
        lemma_joined_lines(init, rest2, acc);
        assert(mb::join(ls, seq!['\n']) + seq!['\n'] + rest =~= mb::join(init, seq!['\n'])
            + seq!['\n'] + rest2);
        text::lemma_line_then(x, rest, seq![], acc + init);
        assert(Seq::<char>::empty() + x =~= x);
        assert((acc + init).push(x) =~= acc + ls);
    }
}

/// Each log entry keeps a line of its own: when the old log ends with a
/// newline (or is empty) and has at most 300 lines, its lines are followed
/// by those of the new entry; when it has more, its last 300 lines are
/// (provided none ends in a carriage return, which the line split would
/// drop).
pub proof fn law_media_log_keeps_entries(o: Seq<char>, line: Seq<char>)
    ensures
        text::text_lines(o).len() <= 300 && (o.len() == 0 || o.last() == '\n')
            ==> text::text_lines(spec_media_log_text(o, line)) == text::text_lines(o)
            + text::text_lines(line),
        text::text_lines(o).len() > 300 && (forall|i: int|
            0 <= i < text::text_lines(o).len() ==> text::strip_cr(#[trigger] text::text_lines(o)[i])
                == text::text_lines(o)[i]) ==> text::text_lines(spec_media_log_text(o, line))
            == last_300(text::text_lines(o)) + text::text_lines(line),
{
    reveal_strlit("\n");
    let ls = text::text_lines(o);
    text::lemma_lines_acc(line, seq![], ls);
    if ls.len() <= 300 {
        if o.len() == 0 {
            assert(o + line =~= line);
            assert(ls =~= Seq::<Seq<char>>::empty());
            assert(ls + text::text_lines(line) =~= text::text_lines(line));
        } else if o.last() == '\n' {
            text::lemma_lines_concat(o, line, seq![], seq![]);
        }
    } else if forall|i: int| 0 <= i < ls.len() ==> text::strip_cr(#[trigger] ls[i]) == ls[i] {
        let kept = last_300(ls);
        text::lemma_lines_no_newline(o, seq![], seq![]);
        assert forall|i: int| 0 <= i < kept.len() implies text::no_newline(#[trigger] kept[i])
            && text::strip_cr(kept[i]) == kept[i] by {
            assert(kept[i] == ls[i + ls.len() - 300]);
        }
        assert("\n"@ =~= seq!['\n']);
        lemma_joined_lines(kept, line, seq![]);
        text::lemma_lines_acc(line, seq![], kept);
        assert(Seq::<Seq<char>>::empty() + kept =~= kept);
    }
}

/// The lyrics log keeps its latest 300 entries, each on a line of its own,
/// followed by the new entry (for an old log with at least one line, none
/// of them ending in a carriage return, which the line split would drop).
pub proof fn law_lyrics_log_keeps_entries(o: Seq<char>, line: Seq<char>)
    requires
        text::text_lines(o).len() > 0,
        forall|i: int|
            0 <= i < text::text_lines(o).len() ==> text::strip_cr(#[trigger] text::text_lines(o)[i])
                == text::text_lines(o)[i],
    ensures
        text::text_lines(mb::join(last_300(text::text_lines(o)), "\n"@) + "\n"@ + line)
            == last_300(text::text_lines(o)) + text::text_lines(line),
{
    reveal_strlit("\n");
    assert("\n"@ =~= seq!['\n']);
    let ls = text::text_lines(o);
    let kept = last_300(ls);
    text::lemma_lines_no_newline(o, seq![], seq![]);
    assert forall|i: int| 0 <= i < kept.len() implies text::no_newline(#[trigger] kept[i])
        && text::strip_cr(kept[i]) == kept[i] by {
        if ls.len() > 300 {
            assert(kept[i] == ls[i + ls.len() - 300]);
        }
    }
    lemma_joined_lines(kept, line, seq![]);
    text::lemma_lines_acc(line, seq![], kept);
    assert(Seq::<Seq<char>>::empty() + kept =~= kept);
}

/// New contents of the media-state log, keeping the latest 300 entries:
/// the old contents, or, when they have more than 300 lines, their last 300
/// lines each ended by a newline; then the new line.
pub fn media_log_text(old: Option<&str>, line: &str) -> (r: String)
    ensures
        r@ == match old {
            Some(o) => spec_media_log_text(o@, line@),
            None => line@,
        },
{
    match old {
        Some(o) => {
            let ls = lines_of(o);
            let n = ls.len();
            let mut r = if n > 300 {
                let mut kept = join_lines(&ls, n - 300);
                push_str(&mut kept, "\n");
                kept
            } else {
                string_of(o)
            };
            push_str(&mut r, line);
            r
        },
        None => string_of(line),
    }
}

// ----- the collection as listed -----

/// A member's value, or `default` when missing.
pub open spec fn member_or(v: JsonV, k: Seq<char>, default: JsonV) -> JsonV {
    match json::jget(v, k) {
        Some(x) => x,
        None => default,
    }
}

/// How the front end sees one stored disc: its DiscID, release snapshot,
/// saving stamp and medium (0 when not recorded).
pub open spec fn spec_listing_entry(discid: Seq<char>, entry: JsonV) -> JsonV {
    JsonV::Object(
        json::obj_insert(
            json::obj_insert(
                json::obj_insert(
                    json::obj_insert(seq![], "discId"@, JsonV::Text(discid)),
                    "release"@,
                    member_or(entry, "release"@, JsonV::Null),
                ),
                "savedAt"@,
                member_or(entry, "savedAt"@, JsonV::Null),
            ),
            "medium"@,
            member_or(entry, "medium"@, JsonV::Number(JsonNumber::PosInt(0))),
        ),
    )
}

/// A listed disc reports the medium stored in its entry, and 0 (disc A)
/// only when the entry records none; its release and saving stamp are the
/// stored ones (`null` when missing), and its DiscID is the one given.
pub proof fn law_listing_reports_stored_medium(discid: Seq<char>, entry: JsonV)
    ensures
        json::jget(spec_listing_entry(discid, entry), "medium"@) == Some(
            match json::jget(entry, "medium"@) {
                Some(m) => m,
                None => JsonV::Number(JsonNumber::PosInt(0)),
            },
        ),
        json::jget(spec_listing_entry(discid, entry), "release"@) == Some(
            match json::jget(entry, "release"@) {
                Some(m) => m,
                None => JsonV::Null,
            },
        ),
        json::jget(spec_listing_entry(discid, entry), "savedAt"@) == Some(
            match json::jget(entry, "savedAt"@) {
                Some(m) => m,
                None => JsonV::Null,
            },
        ),
        json::jget(spec_listing_entry(discid, entry), "discId"@) == Some(JsonV::Text(discid)),
{
    reveal_strlit("discId");
    reveal_strlit("release");
    reveal_strlit("savedAt");
    reveal_strlit("medium");
    let e0 = Seq::<(Seq<char>, JsonV)>::empty();
    let e1 = json::obj_insert(e0, "discId"@, JsonV::Text(discid));
    let e2 = json::obj_insert(e1, "release"@, member_or(entry, "release"@, JsonV::Null));
    let e3 = json::obj_insert(e2, "savedAt"@, member_or(entry, "savedAt"@, JsonV::Null));
    let m = member_or(entry, "medium"@, JsonV::Number(JsonNumber::PosInt(0)));
    json::law_obj_insert_get(e3, "medium"@, m, "medium"@);
    json::law_obj_insert_get(e3, "medium"@, m, "savedAt"@);
    json::law_obj_insert_get(e3, "medium"@, m, "release"@);
    json::law_obj_insert_get(e3, "medium"@, m, "discId"@);
    json::law_obj_insert_get(e2, "savedAt"@, member_or(entry, "savedAt"@, JsonV::Null), "savedAt"@);
    json::law_obj_insert_get(e2, "savedAt"@, member_or(entry, "savedAt"@, JsonV::Null), "release"@);
    json::law_obj_insert_get(e2, "savedAt"@, member_or(entry, "savedAt"@, JsonV::Null), "discId"@);
    json::law_obj_insert_get(e1, "release"@, member_or(entry, "release"@, JsonV::Null), "release"@);
    json::law_obj_insert_get(e1, "release"@, member_or(entry, "release"@, JsonV::Null), "discId"@);
    json::law_obj_insert_get(e0, "discId"@, JsonV::Text(discid), "discId"@);
    assert("medium"@ != "savedAt"@ && "medium"@ != "release"@ && "medium"@ != "discId"@);
    assert("savedAt"@ != "release"@ && "savedAt"@ != "discId"@);
    assert("release"@ != "discId"@);
}

/// After the medium of a disc is recorded, the disc has an entry and the
/// collection lists it with that medium.
pub proof fn law_listing_after_set_medium(d: JsonV, discid: Seq<char>, idx: u32)
    ensures
        library::lib_get(library::lib_set_medium(d, discid, idx), discid) matches Some(e)
            && json::jget(spec_listing_entry(discid, e), "medium"@) == Some(
            JsonV::Number(JsonNumber::PosInt(idx as u64)),
        ),
{
    reveal_with_fuel(json::set_path, 4);
    let x = JsonV::Number(JsonNumber::PosInt(idx as u64));
    let p = library::field_path(discid, "medium"@);
    let p1 = p.drop_first();
    let p2 = p1.drop_first();
    assert(p1 =~= seq![discid, "medium"@]);
    assert(p2 =~= seq!["medium"@]);
    assert(p2.drop_first() =~= Seq::<Seq<char>>::empty());
    let discs = json::jindex(d, "discs"@);
    let e = json::jindex(discs, discid);
    let e2 = json::set_path(e, p2, x);
    let discs2 = json::set_path(discs, p1, x);
    let d2 = library::lib_set_medium(d, discid, idx);
    assert(e2 == JsonV::Object(json::obj_insert(json::members_of(e), "medium"@, x)));
    assert(discs2 == JsonV::Object(json::obj_insert(json::members_of(discs), discid, e2)));
    assert(d2 == JsonV::Object(json::obj_insert(json::members_of(d), "discs"@, discs2)));
    json::law_obj_insert_get(json::members_of(d), "discs"@, discs2, "discs"@);
    json::law_obj_insert_get(json::members_of(discs), discid, e2, discid);
    json::law_obj_insert_get(json::members_of(e), "medium"@, x, "medium"@);
    assert(library::lib_get(d2, discid) == Some(e2));
    law_listing_reports_stored_medium(discid, e2);
}

fn member_or_copy(v: &Json, k: &str, default: Json) -> (r: Json)
    ensures
        r@ == member_or(v@, k@, default@),
{
    match v.get(k) {
        Some(x) => x.deep_clone(),
        None => default,
    }
}

/// The collection as the front end lists it, in stored order.
pub fn library_listing(entries: &Vec<(String, Json)>) -> (r: Vec<Json>)
    ensures
        r@.len() == entries@.len(),
        forall|i: int|
            0 <= i < r@.len() ==> (#[trigger] r@[i])@ == spec_listing_entry(
                entries@[i].0@,
                entries@[i].1@,
            ),
{
    let mut out: Vec<Json> = Vec::new();
    let n = entries.len();
    let mut i: usize = 0;
    while i < n
        invariant
            n == entries@.len(),
            i <= n,
            out@.len() == i,
            forall|k: int|
                0 <= k < i ==> (#[trigger] out@[k])@ == spec_listing_entry(
                    entries@[k].0@,
                    entries@[k].1@,
                ),
        decreases n - i,
    {
        let (id, e) = (&entries[i].0, &entries[i].1);
        let item = Json::empty_object().with_member("discId", Json::text(id.as_str())).with_member(
            "release",
            member_or_copy(e, "release", Json::Null),
        ).with_member("savedAt", member_or_copy(e, "savedAt", Json::Null)).with_member(
            "medium",
            member_or_copy(e, "medium", Json::Number(JsonNumber::PosInt(0))),
        );
        out.push(item);
        i = i + 1;
    }
    out
}

/// The medium of a cached entry: its "medium" member when that is a
/// non-negative integer, truncated to 32 bits; otherwise 0.
pub open spec fn spec_cached_medium(entry: JsonV) -> u32 {
    match json::jget(entry, "medium"@) {
        Some(JsonV::Number(JsonNumber::PosInt(n))) => n as u32,
        _ => 0u32,
    }
}

/// The medium of a cached entry (0 when not recorded), truncated to 32 bits.
pub fn cached_medium(entry: &Json) -> (r: u32)
    ensures
        r == spec_cached_medium(entry@),
{
    let n: u64 = match entry.get("medium") {
        Some(m) => match m.as_u64() {
            Some(v) => v,
            None => 0,
        },
        None => 0,
    };
    #[verifier::truncate]
    (n as u32)
}

/// The medium that a disc's entry in the collection reports is the one
/// recorded for the disc, or 0 when none is.
pub proof fn law_cached_medium_recorded(d: JsonV, discid: Seq<char>, e: JsonV)
    requires
        library::lib_get(d, discid) == Some(e),
    ensures
        spec_cached_medium(e) == match library::lib_medium(d, discid) {
            Some(m) => m,
            None => 0u32,
        },
{
    reveal_with_fuel(json::get_path, 4);
    let p = library::field_path(discid, "medium"@);
    assert(p.drop_first() =~= seq![discid, "medium"@]);
    assert(p.drop_first().drop_first() =~= seq!["medium"@]);
    assert(p.drop_first().drop_first().drop_first() =~= Seq::<Seq<char>>::empty());
    assert(json::get_path(d, p) == json::jindex(e, "medium"@));
}

} // verus!
