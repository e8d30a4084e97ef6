//! NetEase Cloud Music as a second lyrics and cover source: request URLs,
//! the text part of ranking search results, and reading cover URLs and
//! lyrics out of its JSON replies.
use vstd::prelude::*;
use crate::json;
use crate::json::{key_eq, Json, JsonV};
use crate::mb;
use crate::text;
use crate::text::{contains, norm, push_decimal, push_str, starts_with, string_of, is_blank};
use crate::url;
use crate::url::push_urlencoded;

verus! {

#[derive(Debug)]
pub struct NeteaseArtist {
    pub name: String,
}

#[derive(Debug)]
pub struct NeteaseAlbum {
    pub name: Option<String>,
    pub pic_url: Option<String>,
}

#[derive(Debug)]
pub struct NeteaseSong {
    pub id: u64,
    pub name: String,
    pub duration: Option<u64>,
    pub artists: Vec<NeteaseArtist>,
    pub album: NeteaseAlbum,
}

/// Lyrics: LRC text and an optional translation.
#[derive(Debug)]
pub struct NeteaseLyrics {
    pub lrc: String,
    pub tlyric: Option<String>,
}

impl View for NeteaseArtist {
    type V = Seq<char>;

    open spec fn view(&self) -> Seq<char> {
        self.name@
    }
}

/// Base of the NetEase API.
pub open spec fn netease_api() -> Seq<char> {
    "https://music.163.com/api"@
}

/// Search URL for "title artist" (10 songs).
pub open spec fn spec_search_url(title: Seq<char>, artist: Seq<char>) -> Seq<char> {
    netease_api() + "/search/get/web?s="@ + url::urlencoded(title + seq![' '] + artist)
        + "&type=1&limit=10&offset=0"@
}

/// Search URL for "title artist" (10 songs).
pub fn search_url(title: &str, artist: &str) -> (r: String)
    ensures
        r@ == spec_search_url(title@, artist@),
{
    let mut q = string_of(title);
    push_str(&mut q, " ");
    push_str(&mut q, artist);
    let mut r = string_of("https://music.163.com/api");
    push_str(&mut r, "/search/get/web?s=");
    push_urlencoded(&mut r, q.as_str());
    push_str(&mut r, "&type=1&limit=10&offset=0");
    proof {
        reveal_strlit(" ");
        assert(q@ =~= title@ + seq![' '] + artist@);
    }
    r
}

/// Song detail URL (carries the album cover).
pub fn song_detail_url(song_id: u64) -> (r: String)
    ensures
        r@ == netease_api() + "/song/detail?ids=%5B"@ + text::dec_chars(song_id as nat) + "%5D"@,
{
    let mut r = string_of("https://music.163.com/api");
    push_str(&mut r, "/song/detail?ids=%5B");
    push_decimal(&mut r, song_id);
    push_str(&mut r, "%5D");
    r
}

/// Lyrics URL (LRC and translation).
pub fn lyric_url(song_id: u64) -> (r: String)
    ensures
        r@ == netease_api() + "/song/lyric?id="@ + text::dec_chars(song_id as nat)
            + "&lv=1&kv=1&tv=-1"@,
{
    let mut r = string_of("https://music.163.com/api");
    push_str(&mut r, "/song/lyric?id=");
    push_decimal(&mut r, song_id);
    push_str(&mut r, "&lv=1&kv=1&tv=-1");
    r
}

/// The songs of a search reply (`result.songs`), or `null`.
pub fn search_songs(reply: &Json) -> (r: Json)
    ensures
        r@ == (match json::jget(reply@, "result"@) {
            Some(res) => match json::jget(res, "songs"@) {
                Some(s) => s,
                None => JsonV::Null,
            },
            None => JsonV::Null,
        }),
{
    match reply.get("result") {
        Some(res) => match res.get("songs") {
            Some(s) => s.deep_clone(),
            None => Json::Null,
        },
        None => Json::Null,
    }
}

/// Text score parts of a search result: +50 when the normalised titles
/// agree, otherwise -20 unless the titles are identical; +20 when one
/// normalised artist list contains the other.
pub struct NeteaseScoreParts {
    pub title: i32,
    pub artist: i32,
}

pub open spec fn spec_title_part(name: Seq<char>, title: Seq<char>) -> int {
    if text::norm_chars(name) == text::norm_chars(title) {
        50
    } else if name != title {
        -20
    } else {
        0
    }
}

pub open spec fn spec_artist_part(artists: Seq<Seq<char>>, artist: Seq<char>) -> int {
    let arts = text::norm_chars(mb::join(artists, " / "@));
    let a = text::norm_chars(artist);
    if text::contains_chars(arts, a) || text::contains_chars(a, arts) {
        20
    } else {
        0
    }
}

/// The artist match is symmetric: it is 20 when the normalised joined
/// artists of the song contain the normalised requested artist, and also
/// when the requested artist contains the song's artists (a song credited to
/// part of the requested credit); swapping the two texts gives the same
/// part; otherwise it is 0.
pub proof fn law_artist_part_symmetric(artists: Seq<Seq<char>>, artist: Seq<char>)
    ensures
        text::contains_chars(
            text::norm_chars(artist),
            text::norm_chars(mb::join(artists, " / "@)),
        ) ==> spec_artist_part(artists, artist) == 20,
        text::contains_chars(
            text::norm_chars(mb::join(artists, " / "@)),
            text::norm_chars(artist),
        ) ==> spec_artist_part(artists, artist) == 20,
        !text::contains_chars(
            text::norm_chars(artist),
            text::norm_chars(mb::join(artists, " / "@)),
        ) && !text::contains_chars(
            text::norm_chars(mb::join(artists, " / "@)),
            text::norm_chars(artist),
        ) ==> spec_artist_part(artists, artist) == 0,
        spec_artist_part(seq![artist], mb::join(artists, " / "@)) == spec_artist_part(
            artists,
            artist,
        ),
{
    assert(mb::join(seq![artist], " / "@) == artist);
}

/// The title part rewards a song name that matches once normalised (+50)
/// and otherwise penalises (-20); it is symmetric in the two texts.
pub proof fn law_netease_title_part(name: Seq<char>, title: Seq<char>)
    ensures
        text::norm_chars(name) == text::norm_chars(title) ==> spec_title_part(name, title) == 50,
        text::norm_chars(name) != text::norm_chars(title) ==> spec_title_part(name, title) == -20,
        spec_title_part(name, title) == spec_title_part(title, name),
{
}

fn joined_names(artists: &Vec<NeteaseArtist>) -> (s: String)
    ensures
        s@ == mb::join(artists@.map_values(|a: NeteaseArtist| a@), " / "@),
{
    let ghost names = artists@.map_values(|a: NeteaseArtist| a@);
    let mut s = String::new();
    let n = artists.len();
    let mut i: usize = 0;
    while i < n
        invariant
            n == artists@.len(),
            names == artists@.map_values(|a: NeteaseArtist| a@),
            i <= n,
            s@ == mb::join(names.take(i as int), " / "@),
        decreases n - i,
    {
        if i > 0 {
            push_str(&mut s, " / ");
        }
        push_str(&mut s, artists[i].name.as_str());
        assert(names.take(i + 1).drop_last() =~= names.take(i as int));
        if i == 0 {
            assert(s@ =~= mb::join(names.take(1), " / "@));
        }
        i = i + 1;
    }
    assert(names.take(n as int) =~= names);
    s
}

/// The text parts of a search result's score for a wanted title and artist
/// (the duration part is added by the caller).
pub fn score_parts(song: &NeteaseSong, title: &str, artist: &str) -> (r: NeteaseScoreParts)
    ensures
        r.title == spec_title_part(song.name@, title@),
        r.artist == spec_artist_part(
            song.artists@.map_values(|a: NeteaseArtist| a@),
            artist@,
        ),
{
    let n1 = norm(song.name.as_str());
    let n2 = norm(title);
    let t: i32 = if key_eq(n1.as_str(), n2.as_str()) {
        50
    } else if !key_eq(song.name.as_str(), title) {
        -20
    } else {
        0
    };
    let arts = joined_names(&song.artists);
    let na = norm(arts.as_str());
    let nb = norm(artist);
    let a: i32 = if contains(na.as_str(), nb.as_str()) || contains(nb.as_str(), na.as_str()) {
        20
    } else {
        0
    };
    NeteaseScoreParts { title: t, artist: a }
}

/// The cover URL in a song detail reply: `songs[0].album.picUrl`.
pub open spec fn spec_pic_url(reply: JsonV) -> Option<Seq<char>> {
    match json::jget(reply, "songs"@) {
        Some(songs) => match json::jget_index(songs, 0) {
            Some(song) => match json::jget(song, "album"@) {
                Some(album) => match json::jget(album, "picUrl"@) {
                    Some(JsonV::Text(u)) => Some(u),
                    _ => None,
                },
                None => None,
            },
            None => None,
        },
        None => None,
    }
}

fn pic_url_of(reply: &Json) -> (r: Option<&str>)
    ensures
        match r {
            Some(u) => spec_pic_url(reply@) == Some(u@),
            None => spec_pic_url(reply@) is None,
        },
{
    let songs = match reply.get("songs") {
        Some(s) => s,
        None => return None,
    };
    let song = match songs.get_index(0) {
        Some(s) => s,
        None => return None,
    };
    let album = match song.get("album") {
        Some(a) => a,
        None => return None,
    };
    match album.get("picUrl") {
        Some(p) => p.as_str(),
        None => None,
    }
}

/// The album cover URL of a song detail reply; only URLs starting with
/// "http" count.
pub fn album_cover_url(reply: &Json) -> (r: Result<String, String>)
    ensures
        match spec_pic_url(reply@) {
            Some(u) => if text::starts_with_chars(u, "http"@) {
                r matches Ok(s) && s@ == u
            } else {
                r matches Err(e) && e@ == "网易云无封面"@
            },
            None => r matches Err(e) && e@ == "网易云无封面"@,
        },
{
    match pic_url_of(reply) {
        Some(u) => {
            if starts_with(u, "http") {
                Ok(string_of(u))
            } else {
                Err(string_of("网易云无封面"))
            }
        },
        None => Err(string_of("网易云无封面")),
    }
}

/// Text at `key.lyric` of a lyric reply.
pub open spec fn spec_lyric_text(reply: JsonV, key: Seq<char>) -> Option<Seq<char>> {
    match json::jget(reply, key) {
        Some(l) => match json::jget(l, "lyric"@) {
            Some(JsonV::Text(t)) => Some(t),
            _ => None,
        },
        None => None,
    }
}

fn lyric_text_of<'a>(reply: &'a Json, key: &str) -> (r: Option<&'a str>)
    ensures
        match r {
            Some(t) => spec_lyric_text(reply@, key@) == Some(t@),
            None => spec_lyric_text(reply@, key@) is None,
        },
{
    match reply.get(key) {
        Some(l) => match l.get("lyric") {
            Some(t) => t.as_str(),
            None => None,
        },
        None => None,
    }
}

/// Lyrics from a lyric reply: the LRC text (`lrc.lyric`, which must not be
/// empty) and the translation (`tlyric.lyric`, kept when not blank).
pub fn fetch_lyrics(reply: &Json) -> (r: Result<NeteaseLyrics, String>)
    ensures
        match spec_lyric_text(reply@, "lrc"@) {
            Some(l) if l.len() > 0 => r matches Ok(ly) && ly.lrc@ == l && (match spec_lyric_text(
                reply@,
                "tlyric"@,
            ) {
                Some(t) if text::trim_chars(t).len() > 0 => ly.tlyric matches Some(x) && x@ == t,
                _ => ly.tlyric is None,
            }),
            _ => r matches Err(e) && e@ == "网易云无歌词"@,
        },
{
    let lrc = match lyric_text_of(reply, "lrc") {
        Some(l) => {
            if l.unicode_len() == 0 {
                return Err(string_of("网易云无歌词"));
            }
            string_of(l)
        },
        None => return Err(string_of("网易云无歌词")),
    };
    let tlyric = match lyric_text_of(reply, "tlyric") {
        Some(t) => {
            if is_blank(t) {
                None
            } else {
                Some(string_of(t))
            }
        },
        None => None,
    };
    Ok(NeteaseLyrics { lrc, tlyric })
}

} // verus!
