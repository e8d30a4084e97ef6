use cd_core::json::Json;
use cd_core::lrclib;
use cd_core::netease::{
    album_cover_url, fetch_lyrics, lyric_url, score_parts, search_songs, search_url, song_detail_url,
    NeteaseAlbum, NeteaseArtist, NeteaseSong,
};

fn obj(pairs: Vec<(&str, Json)>) -> Json {
    let mut o = Json::empty_object();
    for (k, v) in pairs {
        o = o.with_member(k, v);
    }
    o
}

fn detail_with(pic: Json) -> Json {
    obj(vec![(
        "songs",
        Json::Array(vec![obj(vec![("album", obj(vec![("picUrl", pic)]))])]),
    )])
}

#[test]
fn netease_urls() {
    assert_eq!(
        search_url("晴天", "周杰伦"),
        "https://music.163.com/api/search/get/web?s=%E6%99%B4%E5%A4%A9%20%E5%91%A8%E6%9D%B0%E4%BC%A6&type=1&limit=10&offset=0"
    );
    assert_eq!(song_detail_url(186016), "https://music.163.com/api/song/detail?ids=%5B186016%5D");
    assert_eq!(lyric_url(186016), "https://music.163.com/api/song/lyric?id=186016&lv=1&kv=1&tv=-1");
}

#[test]
fn cover_url_from_detail() {
    assert_eq!(
        album_cover_url(&detail_with(Json::text("http://p1.music.126.net/x.jpg"))).unwrap(),
        "http://p1.music.126.net/x.jpg"
    );
    assert_eq!(album_cover_url(&detail_with(Json::text("ftp://x"))).unwrap_err(), "网易云无封面");
    assert_eq!(album_cover_url(&detail_with(Json::Null)).unwrap_err(), "网易云无封面");
    assert_eq!(album_cover_url(&Json::Null).unwrap_err(), "网易云无封面");
}

#[test]
fn lyrics_from_reply() {
    let reply = obj(vec![
        ("lrc", obj(vec![("lyric", Json::text("[00:01.00]hi"))])),
        ("tlyric", obj(vec![("lyric", Json::text("  "))])),
    ]);
    let ly = fetch_lyrics(&reply).unwrap();
    assert_eq!(ly.lrc, "[00:01.00]hi");
    assert_eq!(ly.tlyric, None);

    let reply = obj(vec![
        ("lrc", obj(vec![("lyric", Json::text("a"))])),
        ("tlyric", obj(vec![("lyric", Json::text("译"))])),
    ]);
    assert_eq!(fetch_lyrics(&reply).unwrap().tlyric.as_deref(), Some("译"));

    let empty = obj(vec![("lrc", obj(vec![("lyric", Json::text(""))]))]);
    assert_eq!(fetch_lyrics(&empty).unwrap_err(), "网易云无歌词");
}

#[test]
fn songs_of_search_reply() {
    let reply = obj(vec![("result", obj(vec![("songs", Json::Array(vec![]))]))]);
    assert!(matches!(search_songs(&reply), Json::Array(v) if v.is_empty()));
    assert!(search_songs(&Json::Null).is_null());
}

fn song(name: &str, artists: &[&str]) -> NeteaseSong {
    NeteaseSong {
        id: 1,
        name: name.into(),
        duration: Some(200000),
        artists: artists.iter().map(|a| NeteaseArtist { name: a.to_string() }).collect(),
        album: NeteaseAlbum { name: None, pic_url: None },
    }
}

#[test]
fn netease_text_scores() {
    let p = score_parts(&song("Hello (Movie Edit)", &["A", "B"]), "hello (movie edit.)", "b");
    assert_eq!(p.title, 50);
    assert_eq!(p.artist, 20);
    let p = score_parts(&song("Other", &["X"]), "Title", "Y");
    assert_eq!(p.title, -20);
    assert_eq!(p.artist, 0);
}

#[test]
fn lrclib_url_and_scores() {
    assert_eq!(
        lrclib::search_url("A B", "C", Some(215)),
        "https://lrclib.net/api/search?track_name=A%20B&artist_name=C&duration=215"
    );
    assert_eq!(lrclib::search_url("x", "y", None), "https://lrclib.net/api/search?track_name=x&artist_name=y");
    let p = lrclib::score_parts("Song!", Some("ARTIST"), Some("rid"), true, Some(true), "song", "artist", Some("rid"));
    assert_eq!((p.recording, p.title, p.artist, p.synced, p.instrumental), (100, 50, 20, 15, -60));
    let p = lrclib::score_parts("Other", Some("Else"), None, false, None, "song", "artist", Some("rid"));
    assert_eq!((p.recording, p.title, p.artist, p.synced, p.instrumental), (0, -15, -20, 0, 0));
    let p = lrclib::score_parts("x", None, Some("r"), false, Some(false), "x", "a", None);
    assert_eq!((p.recording, p.title, p.artist), (0, 50, 0));
}
