//! MusicBrainz: release metadata, choosing the best candidate release for a
//! disc, request URLs, and the retry policy of the web service client
//! (1 request/s; transient gateway errors are retried).
use vstd::prelude::*;
use crate::json::key_eq;
use crate::text;
use crate::text::{push_char, push_decimal, push_str, string_of};
use crate::url;
use crate::url::push_urlencoded;

verus! {

/// Base of the MusicBrainz web service.
pub open spec fn mb_api() -> Seq<char> {
    "https://musicbrainz.org/ws/2"@
}

pub open spec fn opt_str(o: Option<String>) -> Option<Seq<char>> {
    match o {
        Some(s) => Some(s@),
        None => None,
    }
}

pub open spec fn opt_vec_view<T: View>(o: Option<Vec<T>>) -> Option<Seq<T::V>> {
    match o {
        Some(v) => Some(v@.map_values(|x: T| x@)),
        None => None,
    }
}

#[derive(Debug)]
pub struct ArtistCredit {
    pub name: String,
}

#[derive(Debug)]
pub struct RecordingRef {
    pub id: Option<String>,
}

#[derive(Debug)]
pub struct Track {
    pub title: String,
    pub length: Option<u64>,
    pub artist_credit: Option<Vec<ArtistCredit>>,
    pub recording: Option<RecordingRef>,
}

#[derive(Debug)]
pub struct Medium {
    pub format: Option<String>,
    pub track_count: Option<u32>,
    pub tracks: Option<Vec<Track>>,
    pub discs: Option<Vec<Disc>>,
}

#[derive(Debug)]
pub struct Disc {
    pub id: Option<String>,
    pub sectors: Option<u32>,
}

#[derive(Debug)]
pub struct ReleaseGroupRef {
    pub id: Option<String>,
}

#[derive(Debug)]
pub struct Release {
    pub id: String,
    pub title: String,
    pub date: Option<String>,
    pub country: Option<String>,
    pub status: Option<String>,
    pub barcode: Option<String>,
    pub disambiguation: Option<String>,
    pub artist_credit: Option<Vec<ArtistCredit>>,
    pub media: Option<Vec<Medium>>,
    pub release_group: Option<ReleaseGroupRef>,
}

pub struct TrackV {
    pub title: Seq<char>,
    pub length: Option<u64>,
    pub artist_credit: Option<Seq<Seq<char>>>,
    pub recording: Option<Option<Seq<char>>>,
}

pub struct MediumV {
    pub format: Option<Seq<char>>,
    pub track_count: Option<u32>,
    pub tracks: Option<Seq<TrackV>>,
    pub discs: Option<Seq<(Option<Seq<char>>, Option<u32>)>>,
}

pub struct ReleaseV {
    pub id: Seq<char>,
    pub title: Seq<char>,
    pub date: Option<Seq<char>>,
    pub country: Option<Seq<char>>,
    pub status: Option<Seq<char>>,
    pub barcode: Option<Seq<char>>,
    pub disambiguation: Option<Seq<char>>,
    pub artist_credit: Option<Seq<Seq<char>>>,
    pub media: Option<Seq<MediumV>>,
    pub release_group: Option<Option<Seq<char>>>,
}

impl View for ArtistCredit {
    type V = Seq<char>;

    open spec fn view(&self) -> Seq<char> {
        self.name@
    }
}

impl View for RecordingRef {
    type V = Option<Seq<char>>;

    open spec fn view(&self) -> Option<Seq<char>> {
        opt_str(self.id)
    }
}

impl View for Disc {
    type V = (Option<Seq<char>>, Option<u32>);

    open spec fn view(&self) -> (Option<Seq<char>>, Option<u32>) {
        (opt_str(self.id), self.sectors)
    }
}

impl View for ReleaseGroupRef {
    type V = Option<Seq<char>>;

    open spec fn view(&self) -> Option<Seq<char>> {
        opt_str(self.id)
    }
}

impl View for Track {
    type V = TrackV;

    open spec fn view(&self) -> TrackV {
        TrackV {
            title: self.title@,
            length: self.length,
            artist_credit: opt_vec_view(self.artist_credit),
            recording: match self.recording {
                Some(r) => Some(r@),
                None => None,
            },
        }
    }
}

impl View for Medium {
    type V = MediumV;

    open spec fn view(&self) -> MediumV {
        MediumV {
            format: opt_str(self.format),
            track_count: self.track_count,
            tracks: opt_vec_view(self.tracks),
            discs: opt_vec_view(self.discs),
        }
    }
}

impl View for Release {
    type V = ReleaseV;

    open spec fn view(&self) -> ReleaseV {
        ReleaseV {
            id: self.id@,
            title: self.title@,
            date: opt_str(self.date),
            country: opt_str(self.country),
            status: opt_str(self.status),
            barcode: opt_str(self.barcode),
            disambiguation: opt_str(self.disambiguation),
            artist_credit: opt_vec_view(self.artist_credit),
            media: opt_vec_view(self.media),
            release_group: match self.release_group {
                Some(g) => Some(g@),
                None => None,
            },
        }
    }
}

fn clone_opt_str(o: &Option<String>) -> (r: Option<String>)
    ensures
        opt_str(r) == opt_str(*o),
{
    match o {
        Some(s) => Some(s.clone()),
        None => None,
    }
}

impl Clone for ArtistCredit {
    fn clone(&self) -> (r: Self)
        ensures
            r@ == self@,
    {
        ArtistCredit { name: self.name.clone() }
    }
}

impl Clone for RecordingRef {
    fn clone(&self) -> (r: Self)
        ensures
            r@ == self@,
    {
        RecordingRef { id: clone_opt_str(&self.id) }
    }
}

impl Clone for Disc {
    fn clone(&self) -> (r: Self)
        ensures
            r@ == self@,
    {
        Disc { id: clone_opt_str(&self.id), sectors: self.sectors }
    }
}

impl Clone for ReleaseGroupRef {
    fn clone(&self) -> (r: Self)
        ensures
            r@ == self@,
    {
        ReleaseGroupRef { id: clone_opt_str(&self.id) }
    }
}

fn clone_credits(o: &Option<Vec<ArtistCredit>>) -> (r: Option<Vec<ArtistCredit>>)
    ensures
        opt_vec_view(r) == opt_vec_view(*o),
{
    match o {
        Some(v) => {
            let mut out: Vec<ArtistCredit> = Vec::new();
            let n = v.len();
            let mut i: usize = 0;
            while i < n
                invariant
                    n == v@.len(),
                    i <= n,
                    out@.len() == i,
                    forall|j: int| 0 <= j < i ==> out@[j]@ == v@[j]@,
                decreases n - i,
            {
                out.push(v[i].clone());
                i = i + 1;
            }
            assert(out@.map_values(|x: ArtistCredit| x@) =~= v@.map_values(|x: ArtistCredit| x@));
            Some(out)
        },
        None => None,
    }
}

fn clone_discs(o: &Option<Vec<Disc>>) -> (r: Option<Vec<Disc>>)
    ensures
        opt_vec_view(r) == opt_vec_view(*o),
{
    match o {
        Some(v) => {
            let mut out: Vec<Disc> = Vec::new();
            let n = v.len();
            let mut i: usize = 0;
            while i < n
                invariant
                    n == v@.len(),
                    i <= n,
                    out@.len() == i,
                    forall|j: int| 0 <= j < i ==> out@[j]@ == v@[j]@,
                decreases n - i,
            {
                out.push(v[i].clone());
                i = i + 1;
            }
            assert(out@.map_values(|x: Disc| x@) =~= v@.map_values(|x: Disc| x@));
            Some(out)
        },
        None => None,
    }
}

impl Clone for Track {
    fn clone(&self) -> (r: Self)
        ensures
            r@ == self@,
    {
        Track {
            title: self.title.clone(),
            length: self.length,
            artist_credit: clone_credits(&self.artist_credit),
            recording: match &self.recording {
                Some(r) => Some(r.clone()),
                None => None,
            },
        }
    }
}

/// A copy of a list of tracks.
pub fn clone_tracks(v: &Vec<Track>) -> (r: Vec<Track>)
    ensures
        r@.map_values(|x: Track| x@) == v@.map_values(|x: Track| x@),
{
    let mut out: Vec<Track> = Vec::new();
    let n = v.len();
    let mut i: usize = 0;
    while i < n
        invariant
            n == v@.len(),
            i <= n,
            out@.len() == i,
            forall|j: int| 0 <= j < i ==> out@[j]@ == v@[j]@,
        decreases n - i,
    {
        out.push(v[i].clone());
        i = i + 1;
    }
    assert(out@.map_values(|x: Track| x@) =~= v@.map_values(|x: Track| x@));
    out
}

impl Clone for Medium {
    fn clone(&self) -> (r: Self)
        ensures
            r@ == self@,
    {
        Medium {
            format: clone_opt_str(&self.format),
            track_count: self.track_count,
            tracks: match &self.tracks {
                Some(t) => Some(clone_tracks(t)),
                None => None,
            },
            discs: clone_discs(&self.discs),
        }
    }
}

impl Clone for Release {
    fn clone(&self) -> (r: Self)
        ensures
            r@ == self@,
    {
        let media = match &self.media {
            Some(v) => {
                let mut out: Vec<Medium> = Vec::new();
                let n = v.len();
                let mut i: usize = 0;
                while i < n
                    invariant
                        n == v@.len(),
                        i <= n,
                        out@.len() == i,
                        forall|j: int| 0 <= j < i ==> out@[j]@ == v@[j]@,
                    decreases n - i,
                {
                    out.push(v[i].clone());
                    i = i + 1;
                }
                assert(out@.map_values(|x: Medium| x@) =~= v@.map_values(|x: Medium| x@));
                Some(out)
            },
            None => None,
        };
        Release {
            id: self.id.clone(),
            title: self.title.clone(),
            date: clone_opt_str(&self.date),
            country: clone_opt_str(&self.country),
            status: clone_opt_str(&self.status),
            barcode: clone_opt_str(&self.barcode),
            disambiguation: clone_opt_str(&self.disambiguation),
            artist_credit: clone_credits(&self.artist_credit),
            media,
            release_group: match &self.release_group {
                Some(g) => Some(g.clone()),
                None => None,
            },
        }
    }
}

// ----- choosing a release -----

pub open spec fn is_cd(m: MediumV) -> bool {
    m.format == Some("CD"@)
}

pub open spec fn media_of(r: ReleaseV) -> Seq<MediumV> {
    match r.media {
        Some(ms) => ms,
        None => seq![],
    }
}

/// Largest track count among the media (a missing count is 0; no media, 0).
pub open spec fn max_track_count(ms: Seq<MediumV>) -> nat
    decreases ms.len(),
{
    if ms.len() == 0 {
        0
    } else {
        let c: nat = match ms.last().track_count {
            Some(c) => c as nat,
            None => 0,
        };
        let rest = max_track_count(ms.drop_last());
        if c > rest {
            c
        } else {
            rest
        }
    }
}

/// Preference for the release's country: Chinese-speaking regions first,
/// then Japan.
pub open spec fn country_bonus(c: Option<Seq<char>>) -> int {
    match c {
        Some(s) => if s == "TW"@ || s == "CN"@ || s == "HK"@ || s == "MO"@ {
            5
        } else if s == "JP"@ {
            2
        } else {
            0
        },
        None => 0,
    }
}

/// Score of a candidate release: official status, CD media (a single CD
/// counts extra), country, and whether the largest medium has the expected
/// number of tracks.
pub open spec fn release_score(r: ReleaseV, expect_tracks: Option<u32>) -> int {
    let ms = media_of(r);
    (if r.status == Some("Official"@) {
        10int
    } else {
        0
    }) + (if exists|i: int| 0 <= i < ms.len() && is_cd(#[trigger] ms[i]) {
        3int
    } else {
        0
    }) + (if ms.len() == 1 && is_cd(ms[0]) {
        1int
    } else {
        0
    }) + country_bonus(r.country) + (match expect_tracks {
        Some(exp) => if max_track_count(ms) == exp {
            8int
        } else {
            -4
        },
        None => 0,
    })
}

/// `i` is the last candidate with the highest score (what `max_by_key`
/// returns).
pub open spec fn is_last_best(rs: Seq<ReleaseV>, expect_tracks: Option<u32>, i: int) -> bool {
    &&& 0 <= i < rs.len()
    &&& forall|j: int|
        0 <= j < rs.len() ==> release_score(#[trigger] rs[j], expect_tracks) <= release_score(
            rs[i],
            expect_tracks,
        )
    &&& forall|j: int|
        i < j < rs.len() ==> release_score(#[trigger] rs[j], expect_tracks) < release_score(
            rs[i],
            expect_tracks,
        )
}

/// An "Official" release scores 10 more than the same release with any
/// other status or none.
pub proof fn law_official_status_bonus(
    r: ReleaseV,
    other: Option<Seq<char>>,
    expect_tracks: Option<u32>,
)
    requires
        other != Some("Official"@),
    ensures
        release_score((ReleaseV { status: Some("Official"@), ..r }), expect_tracks) == release_score(
            (ReleaseV { status: other, ..r }),
            expect_tracks,
        ) + 10,
{
}

/// Among candidates, a release that differs from an "Official" one only in
/// its status is never the one picked, wherever the two stand.
pub proof fn law_official_beats_unofficial(
    rs: Seq<ReleaseV>,
    expect_tracks: Option<u32>,
    i: int,
    j: int,
)
    requires
        0 <= i < rs.len(),
        0 <= j < rs.len(),
        rs[i].status == Some("Official"@),
        rs[j].status != Some("Official"@),
        rs[j] == (ReleaseV { status: rs[j].status, ..rs[i] }),
    ensures
        !is_last_best(rs, expect_tracks, j),
{
    law_official_status_bonus(rs[i], rs[j].status, expect_tracks);
    assert(rs[i] == (ReleaseV { status: Some("Official"@), ..rs[i] }));
    assert(release_score(rs[i], expect_tracks) > release_score(rs[j], expect_tracks));
}

/// The largest track count is the count of some medium (missing counts are
/// 0) and no medium has more; with no media it is 0.
pub proof fn law_max_track_count(ms: Seq<MediumV>)
    ensures
        forall|i: int|
            0 <= i < ms.len() ==> (match (#[trigger] ms[i]).track_count {
                Some(c) => c as nat,
                None => 0nat,
            }) <= max_track_count(ms),
        ms.len() == 0 ==> max_track_count(ms) == 0,
        ms.len() > 0 ==> exists|i: int|
            0 <= i < ms.len() && (match (#[trigger] ms[i]).track_count {
                Some(c) => c as nat,
                None => 0nat,
            }) == max_track_count(ms),
    decreases ms.len(),
{
    if ms.len() > 0 {
        let init = ms.drop_last();
        law_max_track_count(init);
        assert forall|i: int| 0 <= i < init.len() implies init[i] == ms[i] by {}
        let last = ms.len() - 1;
        let c: nat = match ms[last].track_count {
            Some(c) => c as nat,
            None => 0,
        };
        if c > max_track_count(init) || init.len() == 0 {
            assert(match ms[last].track_count {
                Some(c) => c as nat,
                None => 0nat,
            } == max_track_count(ms));
        } else {
            let k = choose|i: int|
                0 <= i < init.len() && (match (#[trigger] init[i]).track_count {
                    Some(c) => c as nat,
                    None => 0nat,
                }) == max_track_count(init);
            assert(ms[k] == init[k]);
        }
    }
}

/// What each kind of fact adds to a release's score, against the same
/// release without it: a country of TW, CN, HK or MO adds 5 and JP adds 2
/// (another country nothing); an expected track count adds 8 when some
/// medium has exactly that many tracks and none has more, and takes 4 away
/// otherwise; CD media add 3 when one of several media is a CD and 4 when
/// the release is a single CD.
pub proof fn law_release_score_parts(r: ReleaseV, exp: u32)
    ensures
        release_score(r, None) == release_score((ReleaseV { country: None, ..r }), None) + (
        match r.country {
            Some(c) => if c == "TW"@ || c == "CN"@ || c == "HK"@ || c == "MO"@ {
                5int
            } else if c == "JP"@ {
                2
            } else {
                0
            },
            None => 0,
        }),
        release_score(r, Some(exp)) == release_score(r, None) + (if exists|i: int|
            0 <= i < media_of(r).len() && (#[trigger] media_of(r)[i]).track_count == Some(exp)
                && forall|j: int|
                0 <= j < media_of(r).len() ==> (match (#[trigger] media_of(r)[j]).track_count {
                    Some(c) => c as nat,
                    None => 0nat,
                }) <= exp {
            8int
        } else if exp == 0 && forall|j: int|
            0 <= j < media_of(r).len() ==> #[trigger] media_of(r)[j].track_count is None
                || media_of(r)[j].track_count == Some(0u32) {
            8
        } else {
            -4
        }),
        release_score(r, None) == release_score((ReleaseV { media: None, ..r }), None) + (if media_of(
            r,
        ).len() == 1 && media_of(r)[0].format == Some("CD"@) {
            4int
        } else if exists|i: int|
            0 <= i < media_of(r).len() && (#[trigger] media_of(r)[i]).format == Some("CD"@) {
            3
        } else {
            0
        }),
{
    let ms = media_of(r);
    law_max_track_count(ms);
    let r0 = ReleaseV { media: None, ..r };
    assert(media_of(r0) =~= Seq::<MediumV>::empty());
    assert(!(exists|i: int| 0 <= i < media_of(r0).len() && is_cd(#[trigger] media_of(r0)[i])));
    if ms.len() == 1 && ms[0].format == Some("CD"@) {
        assert(is_cd(ms[0]));
    }
}

fn opt_eq(o: &Option<String>, lit: &str) -> (r: bool)
    ensures
        r == (opt_str(*o) == Some(lit@)),
{
    match o {
        Some(s) => key_eq(s.as_str(), lit),
        None => false,
    }
}

fn medium_is_cd(m: &Medium) -> (r: bool)
    ensures
        r == is_cd(m@),
{
    opt_eq(&m.format, "CD")
}

fn score_release(r: &Release, expect_tracks: Option<u32>) -> (s: i32)
    ensures
        s == release_score(r@, expect_tracks),
{
    let mut s: i32 = 0;
    if opt_eq(&r.status, "Official") {
        s = s + 10;
    }
    let ghost ms = media_of(r@);
    let empty: Vec<Medium> = Vec::new();
    let media: &Vec<Medium> = match &r.media {
        Some(v) => v,
        None => &empty,
    };
    assert(media@.map_values(|x: Medium| x@) =~= ms);
    let n = media.len();
    let mut any_cd = false;
    let mut max_count: u32 = 0;
    let mut i: usize = 0;
    while i < n
        invariant
            n == media@.len(),
            ms == media@.map_values(|x: Medium| x@),
            i <= n,
            any_cd == exists|j: int| 0 <= j < i && is_cd(#[trigger] ms[j]),
            max_count == max_track_count(ms.take(i as int)),
        decreases n - i,
    {
        assert(ms[i as int] == media@[i as int]@);
        if medium_is_cd(&media[i]) {
            any_cd = true;
        }
        let c: u32 = match media[i].track_count {
            Some(c) => c,
            None => 0,
        };
        assert(ms.take(i + 1).drop_last() =~= ms.take(i as int));
        if c > max_count {
            max_count = c;
        }
        i = i + 1;
    }
    assert(ms.take(n as int) =~= ms);
    if any_cd {
        s = s + 3;
    }
    if n == 1 {
        assert(ms[0] == media@[0]@);
        if medium_is_cd(&media[0]) {
            s = s + 1;
        }
    }
    match &r.country {
        Some(c) => {
            let cs = c.as_str();
            if key_eq(cs, "TW") || key_eq(cs, "CN") || key_eq(cs, "HK") || key_eq(cs, "MO") {
                s = s + 5;
            } else if key_eq(cs, "JP") {
                s = s + 2;
            }
        },
        None => {},
    }
    match expect_tracks {
        Some(exp) => {
            if max_count == exp {
                s = s + 8;
            } else {
                s = s - 4;
            }
        },
        None => {},
    }
    s
}

/// Index of the last candidate with the highest score, if any.
pub fn pick_release_index(releases: &[Release], expect_tracks: Option<u32>) -> (r: Option<usize>)
    ensures
        r is None <==> releases@.len() == 0,
        r matches Some(i) ==> is_last_best(
            releases@.map_values(|x: Release| x@),
            expect_tracks,
            i as int,
        ),
{
    let ghost rs = releases@.map_values(|x: Release| x@);
    let n = releases.len();
    if n == 0 {
        return None;
    }
    let mut best: usize = 0;
    let mut best_score: i32 = score_release(&releases[0], expect_tracks);
    let mut i: usize = 1;
    while i < n
        invariant
            n == releases@.len(),
            rs == releases@.map_values(|x: Release| x@),
            1 <= i <= n,
            best < i,
            best_score == release_score(rs[best as int], expect_tracks),
            forall|j: int|
                0 <= j < i ==> release_score(#[trigger] rs[j], expect_tracks) <= best_score,
            forall|j: int|
                best < j < i ==> release_score(#[trigger] rs[j], expect_tracks) < best_score,
        decreases n - i,
    {
        let sc = score_release(&releases[i], expect_tracks);
        assert(rs[i as int] == releases@[i as int]@);
        if sc >= best_score {
            best = i;
            best_score = sc;
        }
        i = i + 1;
    }
    Some(best)
}

/// The best candidate release for a disc: the last one with the highest
/// score (status, format, country, track count).
pub fn pick_release(releases: &[Release], expect_tracks: Option<u32>) -> (r: Option<Release>)
    ensures
        r is None <==> releases@.len() == 0,
        r matches Some(x) ==> exists|i: int|
            is_last_best(releases@.map_values(|y: Release| y@), expect_tracks, i)
                && #[trigger] releases@[i]@ == x@,
{
    match pick_release_index(releases, expect_tracks) {
        Some(i) => {
            let r = releases[i].clone();
            assert(releases@[i as int]@ == r@);
            Some(r)
        },
        None => None,
    }
}

/// Texts joined with a separator.
pub open spec fn join(parts: Seq<Seq<char>>, sep: Seq<char>) -> Seq<char>
    decreases parts.len(),
{
    if parts.len() == 0 {
        seq![]
    } else if parts.len() == 1 {
        parts[0]
    } else {
        join(parts.drop_last(), sep) + sep + parts.last()
    }
}

/// The artist credit names of a release joined with " / ".
pub fn release_artists(r: &Release) -> (s: String)
    ensures
        s@ == join(
            match opt_vec_view(r.artist_credit) {
                Some(names) => names,
                None => seq![],
            },
            " / "@,
        ),
{
    let mut s = String::new();
    match &r.artist_credit {
        Some(v) => {
            let ghost names = v@.map_values(|x: ArtistCredit| x@);
            let n = v.len();
            let mut i: usize = 0;
            while i < n
                invariant
                    n == v@.len(),
                    names == v@.map_values(|x: ArtistCredit| x@),
                    i <= n,
                    s@ == join(names.take(i as int), " / "@),
                decreases n - i,
            {
                if i > 0 {
                    push_str(&mut s, " / ");
                }
                push_str(&mut s, v[i].name.as_str());
                assert(names.take(i + 1).drop_last() =~= names.take(i as int));
                if i == 0 {
                    assert(s@ =~= join(names.take(1), " / "@));
                }
                i = i + 1;
            }
            assert(names.take(n as int) =~= names);
        },
        None => {},
    }
    s
}

/// The tracks of a release's first medium (none without media or tracks).
pub open spec fn first_medium_tracks(r: ReleaseV) -> Seq<TrackV> {
    let ms = media_of(r);
    if ms.len() > 0 {
        match ms[0].tracks {
            Some(ts) => ts,
            None => seq![],
        }
    } else {
        seq![]
    }
}

/// The track list of the first medium.
pub fn tracks_of(r: &Release) -> (v: Vec<Track>)
    ensures
        v@.map_values(|x: Track| x@) == first_medium_tracks(r@),
{
    match &r.media {
        Some(ms) => {
            if ms.len() > 0 {
                assert(media_of(r@)[0] == ms@[0]@);
                match &ms[0].tracks {
                    Some(ts) => clone_tracks(ts),
                    None => {
                        let v: Vec<Track> = Vec::new();
                        assert(v@.map_values(|x: Track| x@) =~= seq![]);
                        v
                    },
                }
            } else {
                let v: Vec<Track> = Vec::new();
                assert(v@.map_values(|x: Track| x@) =~= seq![]);
                v
            }
        },
        None => {
            let v: Vec<Track> = Vec::new();
            assert(v@.map_values(|x: Track| x@) =~= seq![]);
            v
        },
    }
}

// ----- request URLs -----

/// Query string "k1=v1&k2=v2..." with percent-encoded values.
pub open spec fn query_string(params: Seq<(Seq<char>, Seq<char>)>) -> Seq<char>
    decreases params.len(),
{
    if params.len() == 0 {
        seq![]
    } else if params.len() == 1 {
        params[0].0 + seq!['='] + url::urlencoded(params[0].1)
    } else {
        query_string(params.drop_last()) + seq!['&'] + params.last().0 + seq!['='] + url::urlencoded(
            params.last().1,
        )
    }
}

/// A web-service URL: API base, path, `?`, query string.
pub open spec fn spec_mb_url(path: Seq<char>, params: Seq<(Seq<char>, Seq<char>)>) -> Seq<char> {
    mb_api() + path + seq!['?'] + query_string(params)
}

/// URL of a web-service request.
pub fn mb_url(path: &str, params: &Vec<(String, String)>) -> (r: String)
    ensures
        r@ == spec_mb_url(path@, params@.map_values(|p: (String, String)| (p.0@, p.1@))),
{
    let ghost ps = params@.map_values(|p: (String, String)| (p.0@, p.1@));
    let mut r = String::new();
    push_str(&mut r, "https://musicbrainz.org/ws/2");
    push_str(&mut r, path);
    push_char(&mut r, '?');
    let ghost head = r@;
    let n = params.len();
    let mut i: usize = 0;
    while i < n
        invariant
            n == params@.len(),
            ps == params@.map_values(|p: (String, String)| (p.0@, p.1@)),
            i <= n,
            r@ == head + query_string(ps.take(i as int)),
        decreases n - i,
    {
        if i > 0 {
            push_char(&mut r, '&');
        }
        push_str(&mut r, params[i].0.as_str());
        push_char(&mut r, '=');
        push_urlencoded(&mut r, params[i].1.as_str());
        assert(ps.take(i + 1).drop_last() =~= ps.take(i as int));
        assert(ps.take(i + 1).last() == ps[i as int]);
        assert(r@ =~= head + query_string(ps.take(i + 1)));
        i = i + 1;
    }
    assert(ps.take(n as int) =~= ps);
    r
}

fn pair(k: &str, v: &str) -> (r: (String, String))
    ensures
        r.0@ == k@,
        r.1@ == v@,
{
    (string_of(k), string_of(v))
}

/// Request URL of the releases that carry a DiscID (with recordings and
/// artist credits).
pub fn discid_lookup_url(discid: &str) -> (r: String)
    ensures
        r@ == spec_mb_url(
            "/discid/"@ + url::urlencoded(discid@),
            seq![("inc"@, "recordings artist-credits"@), ("fmt"@, "json"@)],
        ),
{
    let mut path = string_of("/discid/");
    push_urlencoded(&mut path, discid);
    let params = vec![pair("inc", "recordings artist-credits"), pair("fmt", "json")];
    let r = mb_url(path.as_str(), &params);
    assert(params@.map_values(|p: (String, String)| (p.0@, p.1@)) =~= seq![
        ("inc"@, "recordings artist-credits"@),
        ("fmt"@, "json"@),
    ]);
    r
}

/// Request URL of a text search for releases (at most 8 results).
pub fn search_url(query: &str) -> (r: String)
    ensures
        r@ == spec_mb_url(
            "/release"@,
            seq![("query"@, query@), ("limit"@, "8"@), ("fmt"@, "json"@)],
        ),
{
    let params = vec![pair("query", query), pair("limit", "8"), pair("fmt", "json")];
    let r = mb_url("/release", &params);
    assert(params@.map_values(|p: (String, String)| (p.0@, p.1@)) =~= seq![
        ("query"@, query@),
        ("limit"@, "8"@),
        ("fmt"@, "json"@),
    ]);
    r
}

/// Request URL of one release with its media, recordings and artist credits.
pub fn release_url(id: &str) -> (r: String)
    ensures
        r@ == spec_mb_url(
            "/release/"@ + id@,
            seq![("inc"@, "media recordings artist-credits"@), ("fmt"@, "json"@)],
        ),
{
    let mut path = string_of("/release/");
    push_str(&mut path, id);
    let params = vec![pair("inc", "media recordings artist-credits"), pair("fmt", "json")];
    let r = mb_url(path.as_str(), &params);
    assert(params@.map_values(|p: (String, String)| (p.0@, p.1@)) =~= seq![
        ("inc"@, "media recordings artist-credits"@),
        ("fmt"@, "json"@),
    ]);
    r
}

// ----- retry policy -----

/// What one HTTP attempt gave: a response, an HTTP error status, or any other
/// failure (with its description).
pub enum HttpAttempt {
    Response,
    Status(u16, String),
    Failure(String),
}

/// What to do after an attempt.
pub enum RetryDecision {
    /// Read the response body.
    Deliver,
    /// The resource does not exist.
    NotFound,
    /// Remember the error, wait this many seconds, try again (if attempts remain).
    Retry { wait_secs: u64, error: String },
}

pub open spec fn spec_retry(attempt: u64, outcome: HttpAttempt) -> (u8, int, Seq<char>) {
    match outcome {
        HttpAttempt::Response => (0, 0, seq![]),
        HttpAttempt::Status(code, text) => if code == 404 {
            (1, 0, seq![])
        } else if 502 <= code <= 504 {
            (2, 3 * (attempt + 1), "HTTP "@ + text::dec_chars(code as nat))
        } else {
            (2, if attempt < 2 {
                2
            } else {
                0
            }, text@)
        },
        HttpAttempt::Failure(text) => (2, if attempt < 2 {
            2
        } else {
            0
        }, text@),
    }
}

/// Number of attempts of a request.
pub const MAX_ATTEMPTS: u64 = 3;

/// The decision after attempt `attempt` (from 0): a response is delivered,
/// 404 means not found, a gateway error (502-504) waits 3, 6, 9 seconds,
/// anything else waits 2 seconds unless it was the last attempt.
pub fn retry_decision(attempt: u64, outcome: HttpAttempt) -> (r: RetryDecision)
    requires
        attempt < MAX_ATTEMPTS,
    ensures
        spec_retry(attempt, outcome) == (match r {
            RetryDecision::Deliver => (0u8, 0int, Seq::<char>::empty()),
            RetryDecision::NotFound => (1u8, 0int, Seq::<char>::empty()),
            RetryDecision::Retry { wait_secs, error } => (2u8, wait_secs as int, error@),
        }),
{
    match outcome {
        HttpAttempt::Response => RetryDecision::Deliver,
        HttpAttempt::Status(code, text) => {
            if code == 404 {
                RetryDecision::NotFound
            } else if 502 <= code && code <= 504 {
                let mut e = string_of("HTTP ");
                push_decimal(&mut e, code as u64);
                RetryDecision::Retry { wait_secs: 3 * (attempt + 1), error: e }
            } else {
                RetryDecision::Retry { wait_secs: if attempt < 2 { 2 } else { 0 }, error: text }
            }
        },
        HttpAttempt::Failure(text) => {
            RetryDecision::Retry { wait_secs: if attempt < 2 { 2 } else { 0 }, error: text }
        },
    }
}

/// The error text of a request for something that does not exist.
pub fn not_found_error() -> (r: String)
    ensures
        r@ == "not_found"@,
{
    string_of("not_found")
}

/// A failed DiscID lookup: a DiscID unknown to MusicBrainz means no
/// candidate releases, not an error; any other failure stays an error.
pub fn lookup_failure(err: String) -> (r: Result<Vec<Release>, String>)
    ensures
        err@ == "not_found"@ ==> (r matches Ok(v) && v@.len() == 0),
        err@ != "not_found"@ ==> r == Err::<Vec<Release>, String>(err),
{
    if crate::json::key_eq(err.as_str(), "not_found") {
        Ok(Vec::new())
    } else {
        Err(err)
    }
}

/// The error after the last attempt failed.
pub fn retry_failure(last_err: &str) -> (r: String)
    ensures
        r@ == "MusicBrainz 请求失败: "@ + last_err@,
{
    let mut r = string_of("MusicBrainz 请求失败: ");
    push_str(&mut r, last_err);
    r
}

} // verus!
