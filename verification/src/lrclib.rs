//! LRCLIB synchronised lyrics: the search URL and the text part of ranking
//! its results (the duration part, a float, is the caller's).
use vstd::prelude::*;
use crate::json::key_eq;
use crate::text;
use crate::text::{norm, push_decimal, push_str, string_of};
use crate::url;
use crate::url::push_urlencoded;

verus! {

/// Search URL: track and artist name, and the duration in whole seconds when
/// known (the album name is not sent: LRCLIB filters too strictly on it).
pub open spec fn spec_search_url(title: Seq<char>, artist: Seq<char>, secs: Option<u64>) -> Seq<
    char,
> {
    "https://lrclib.net/api"@ + "/search?track_name="@ + url::urlencoded(title)
        + "&artist_name="@ + url::urlencoded(artist) + match secs {
        Some(s) => "&duration="@ + text::dec_chars(s as nat),
        None => seq![],
    }
}

/// Search URL for a track.
pub fn search_url(title: &str, artist: &str, duration_secs: Option<u64>) -> (r: String)
    ensures
        r@ == spec_search_url(title@, artist@, duration_secs),
{
    let mut r = string_of("https://lrclib.net/api");
    push_str(&mut r, "/search?track_name=");
    push_urlencoded(&mut r, title);
    push_str(&mut r, "&artist_name=");
    push_urlencoded(&mut r, artist);
    match duration_secs {
        Some(s) => {
            push_str(&mut r, "&duration=");
            push_decimal(&mut r, s);
        },
        None => {
            assert(r@ =~= spec_search_url(title@, artist@, duration_secs));
        },
    }
    r
}

/// Integer parts of a result's score, in the order they are added: a
/// matching MusicBrainz recording id (+100), the title (+50 when the
/// normalised titles agree, else -15 unless identical), the artist (+20 when
/// the normalised names agree, -20 when they differ), synced lyrics (+15) and
/// instrumental tracks (-60).
pub struct LrcScoreParts {
    pub recording: i32,
    pub title: i32,
    pub artist: i32,
    pub synced: i32,
    pub instrumental: i32,
}

pub open spec fn opt_str_view(o: Option<&str>) -> Option<Seq<char>> {
    match o {
        Some(s) => Some(s@),
        None => None,
    }
}

pub open spec fn spec_recording_part(result_rid: Option<Seq<char>>, rid: Option<Seq<char>>) -> int {
    match rid {
        Some(r) => if result_rid == Some(r) {
            100
        } else {
            0
        },
        None => 0,
    }
}

pub open spec fn spec_title_part(name: Seq<char>, title: Seq<char>) -> int {
    if text::norm_chars(name) == text::norm_chars(title) {
        50
    } else if name != title {
        -15
    } else {
        0
    }
}

pub open spec fn spec_artist_part(artist_name: Option<Seq<char>>, artist: Seq<char>) -> int {
    match artist_name {
        Some(a) => if text::norm_chars(a) == text::norm_chars(artist) {
            20
        } else {
            -20
        },
        None => 0,
    }
}

/// The recording bonus goes only to a result of the requested recording: it
/// is 100 when a recording id is requested and the result carries exactly
/// that id, and 0 for a result with another id, with none, or when no id is
/// requested; so the requested recording outranks any other by 100 on this
/// part.
pub proof fn law_recording_bonus_only_for_the_recording(
    result_rid: Option<Seq<char>>,
    rid: Option<Seq<char>>,
    other: Option<Seq<char>>,
)
    ensures
        rid is Some && result_rid == rid ==> spec_recording_part(result_rid, rid) == 100,
        result_rid != rid ==> spec_recording_part(result_rid, rid) == 0,
        rid is None ==> spec_recording_part(result_rid, rid) == 0,
        rid is Some && other != rid ==> spec_recording_part(rid, rid) == spec_recording_part(
            other,
            rid,
        ) + 100,
{
}

/// The title part rewards a title that matches once normalised (+50) and
/// otherwise penalises (-15): identical titles always match, and the part
/// does not depend on which of the two is the result's.
pub proof fn law_title_part(name: Seq<char>, title: Seq<char>)
    ensures
        text::norm_chars(name) == text::norm_chars(title) ==> spec_title_part(name, title) == 50,
        text::norm_chars(name) != text::norm_chars(title) ==> spec_title_part(name, title) == -15,
        spec_title_part(name, name) == 50,
        spec_title_part(name, title) == spec_title_part(title, name),
{
}

/// The artist part: +20 when the result's artist matches once normalised,
/// -20 when it names another artist, 0 when it names none.
pub proof fn law_lrclib_artist_part(artist_name: Option<Seq<char>>, artist: Seq<char>)
    ensures
        artist_name is None ==> spec_artist_part(artist_name, artist) == 0,
        artist_name matches Some(a) && text::norm_chars(a) == text::norm_chars(artist)
            ==> spec_artist_part(artist_name, artist) == 20,
        artist_name matches Some(a) && text::norm_chars(a) != text::norm_chars(artist)
            ==> spec_artist_part(artist_name, artist) == -20,
{
}

/// The integer parts of the score of one search result.
pub fn score_parts(
    track_name: &str,
    artist_name: Option<&str>,
    result_recording_id: Option<&str>,
    has_synced: bool,
    instrumental: Option<bool>,
    title: &str,
    artist: &str,
    recording_id: Option<&str>,
) -> (r: LrcScoreParts)
    ensures
        r.recording == spec_recording_part(
            opt_str_view(result_recording_id),
            opt_str_view(recording_id),
        ),
        r.title == spec_title_part(track_name@, title@),
        r.artist == spec_artist_part(opt_str_view(artist_name), artist@),
        r.synced == (if has_synced {
            15int
        } else {
            0
        }),
        r.instrumental == (if instrumental == Some(true) {
            -60int
        } else {
            0
        }),
{
    let recording: i32 = match recording_id {
        Some(rid) => match result_recording_id {
            Some(x) => if key_eq(x, rid) {
                100
            } else {
                0
            },
            None => 0,
        },
        None => 0,
    };
    let nt = norm(track_name);
    let ti = norm(title);
    let t: i32 = if key_eq(nt.as_str(), ti.as_str()) {
        50
    } else if !key_eq(track_name, title) {
        -15
    } else {
        0
    };
    let a: i32 = match artist_name {
        Some(a) => {
            let na = norm(a);
            let nb = norm(artist);
            if key_eq(na.as_str(), nb.as_str()) {
                20
            } else {
                -20
            }
        },
        None => 0,
    };
    let ins: i32 = match instrumental {
        Some(true) => -60,
        _ => 0,
    };
    LrcScoreParts {
        recording,
        title: t,
        artist: a,
        synced: if has_synced {
            15
        } else {
            0
        },
        instrumental: ins,
    }
}

} // verus!
