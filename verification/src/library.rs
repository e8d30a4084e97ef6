//! The local disc collection (`library.json`): DiscID -> release snapshot,
//! with local title/artist overrides and the chosen medium of multi-disc
//! releases. A disc found here needs no network lookup.
//!
//! The document is `{"discs": {<discid>: {"release": .., "savedAt": ..,
//! "medium": ..}}}`; reading and writing the file is the caller's part.
use vstd::prelude::*;
use crate::json;
use crate::json::{Json, JsonNumber, JsonV};
use crate::text;
use crate::text::{is_blank, push_decimal, push_str, string_of, trimmed};

verus! {

/// The collection: one JSON document.
pub struct Library {
    data: Json,
}

/// Path to the entry of a disc.
pub open spec fn disc_path(discid: Seq<char>) -> Seq<Seq<char>> {
    seq!["discs"@, discid]
}

/// Path to a field of the entry of a disc.
pub open spec fn field_path(discid: Seq<char>, field: Seq<char>) -> Seq<Seq<char>> {
    seq!["discs"@, discid, field]
}

/// Path to a field of the release snapshot of a disc.
pub open spec fn release_field_path(discid: Seq<char>, field: Seq<char>) -> Seq<Seq<char>> {
    seq!["discs"@, discid, "release"@, field]
}

/// The entry stored for a disc (`data.get("discs")?.get(discid)`).
pub open spec fn lib_get(d: JsonV, discid: Seq<char>) -> Option<JsonV> {
    match json::jget(d, "discs"@) {
        Some(discs) => json::jget(discs, discid),
        None => None,
    }
}

/// The (discid, entry) members of the collection, in key order as stored.
pub open spec fn lib_entries(d: JsonV) -> json::Members {
    match json::jget(d, "discs"@) {
        Some(JsonV::Object(es)) => es,
        _ => seq![],
    }
}

/// The entry written for a release snapshot saved at `saved_at`.
pub open spec fn new_entry(release: JsonV, saved_at: Seq<char>) -> JsonV {
    JsonV::Object(
        json::obj_insert(
            json::obj_insert(seq![], "release"@, release),
            "savedAt"@,
            JsonV::Text(saved_at),
        ),
    )
}

/// The document after saving a release snapshot for a disc.
pub open spec fn lib_put(d: JsonV, discid: Seq<char>, release: JsonV, saved_at: Seq<char>) -> JsonV {
    json::set_path(d, disc_path(discid), new_entry(release, saved_at))
}

/// The document after removing a disc; unchanged unless "discs" is an object
/// member of an object.
pub open spec fn lib_remove(d: JsonV, discid: Seq<char>) -> JsonV {
    match (d, json::jget(d, "discs"@)) {
        (JsonV::Object(top), Some(JsonV::Object(es))) => JsonV::Object(
            json::obj_insert(top, "discs"@, JsonV::Object(json::obj_remove(es, discid))),
        ),
        _ => d,
    }
}

/// The medium recorded for a disc, truncated to 32 bits.
pub open spec fn lib_medium(d: JsonV, discid: Seq<char>) -> Option<u32> {
    match json::get_path(d, field_path(discid, "medium"@)) {
        JsonV::Number(JsonNumber::PosInt(n)) => Some(n as u32),
        _ => None,
    }
}

/// The document after recording the medium of a disc.
pub open spec fn lib_set_medium(d: JsonV, discid: Seq<char>, idx: u32) -> JsonV {
    json::set_path(
        d,
        field_path(discid, "medium"@),
        JsonV::Number(JsonNumber::PosInt(idx as u64)),
    )
}

/// An override counts when it is not blank; it is stored trimmed.
pub open spec fn given(o: Option<Seq<char>>) -> bool {
    o matches Some(t) && text::trim_chars(t).len() > 0
}

/// The artist credit written for a local artist override.
pub open spec fn artist_credit(name: Seq<char>) -> JsonV {
    JsonV::Array(
        seq![JsonV::Object(json::obj_insert(seq![], "name"@, JsonV::Text(name)))],
    )
}

/// The document after editing the local title and artist of a disc: the
/// release snapshot's path is created (as `null`) when missing, then a given
/// title replaces "title" and a given artist replaces "artist-credit".
pub open spec fn lib_update(
    d: JsonV,
    discid: Seq<char>,
    title: Option<Seq<char>>,
    artist: Option<Seq<char>>,
) -> JsonV {
    let rel = field_path(discid, "release"@);
    let d1 = json::set_path(d, rel, json::get_path(d, rel));
    let d2 = if given(title) {
        json::set_path(
            d1,
            release_field_path(discid, "title"@),
            JsonV::Text(text::trim_chars(title.unwrap())),
        )
    } else {
        d1
    };
    if given(artist) {
        json::set_path(
            d2,
            release_field_path(discid, "artist-credit"@),
            artist_credit(text::trim_chars(artist.unwrap())),
        )
    } else {
        d2
    }
}

/// Editing does not panic: the entry path can be written and, when a title or
/// artist is given, so can the release snapshot.
pub open spec fn update_ok(
    d: JsonV,
    discid: Seq<char>,
    title: Option<Seq<char>>,
    artist: Option<Seq<char>>,
) -> bool {
    let rel = field_path(discid, "release"@);
    &&& json::path_writable(d, rel)
    &&& (given(title) || given(artist)) ==> json::writable(json::get_path(d, rel))
}

pub open spec fn opt_view(o: Option<&str>) -> Option<Seq<char>> {
    match o {
        Some(s) => Some(s@),
        None => None,
    }
}

/// The stamp recorded with a saved release: "epoch-" and the seconds since
/// the Unix epoch.
pub open spec fn spec_stamp(secs: nat) -> Seq<char> {
    "epoch-"@ + text::dec_chars(secs)
}

/// The stamp for `secs` seconds since the Unix epoch.
pub fn chrono_now(secs: u64) -> (r: String)
    ensures
        r@ == spec_stamp(secs as nat),
{
    let mut r = String::new();
    push_str(&mut r, "epoch-");
    push_decimal(&mut r, secs);
    r
}

fn path2(a: &str, b: &str) -> (r: Vec<String>)
    ensures
        json::path_keys(r@) == seq![a@, b@],
{
    let r = vec![string_of(a), string_of(b)];
    assert(json::path_keys(r@) =~= seq![a@, b@]);
    r
}

fn path3(a: &str, b: &str, c: &str) -> (r: Vec<String>)
    ensures
        json::path_keys(r@) == seq![a@, b@, c@],
{
    let r = vec![string_of(a), string_of(b), string_of(c)];
    assert(json::path_keys(r@) =~= seq![a@, b@, c@]);
    r
}

fn path4(a: &str, b: &str, c: &str, d: &str) -> (r: Vec<String>)
    ensures
        json::path_keys(r@) == seq![a@, b@, c@, d@],
{
    let r = vec![string_of(a), string_of(b), string_of(c), string_of(d)];
    assert(json::path_keys(r@) =~= seq![a@, b@, c@, d@]);
    r
}

impl View for Library {
    type V = JsonV;

    closed spec fn view(&self) -> JsonV {
        self.data@
    }
}

impl Library {
    /// The collection from the parsed contents of `library.json`, or an empty
    /// one (`{"discs": {}}`) when there was nothing to parse.
    pub fn load(parsed: Option<Json>) -> (r: Library)
        ensures
            r@ == (match parsed {
                Some(j) => j@,
                None => JsonV::Object(json::obj_insert(seq![], "discs"@, JsonV::Object(seq![]))),
            }),
    {
        match parsed {
            Some(j) => Library { data: j },
            None => {
                let d = Json::empty_object().with_member("discs", Json::empty_object());
                Library { data: d }
            },
        }
    }

    /// The whole document, for writing `library.json`.
    pub fn document(&self) -> (r: &Json)
        ensures
            r@ == self@,
    {
        &self.data
    }

    /// The entry of a disc (a copy).
    pub fn get(&self, discid: &str) -> (r: Option<Json>)
        ensures
            r matches Some(x) ==> lib_get(self@, discid@) == Some(x@),
            r is None ==> lib_get(self@, discid@) is None,
    {
        match self.data.get("discs") {
            Some(d) => match d.get(discid) {
                Some(e) => Some(e.deep_clone()),
                None => None,
            },
            None => None,
        }
    }

    /// (discid, entry) pairs of the collection, in stored order.
    pub fn entries(&self) -> (r: Vec<(String, Json)>)
        ensures
            json::members_view(r@) == lib_entries(self@),
    {
        let mut out: Vec<(String, Json)> = Vec::new();
        match self.data.get("discs") {
            Some(Json::Object(es)) => {
                proof {
                    json::lemma_object_view_pub(*es);
                }
                let n = es.len();
                let mut i: usize = 0;
                while i < n
                    invariant
                        n == es@.len(),
                        i <= n,
                        out@.len() == i,
                        forall|j: int|
                            0 <= j < i ==> out@[j].0@ == es@[j].0@ && out@[j].1@ == es@[j].1@,
                    decreases n - i,
                {
                    out.push((es[i].0.clone(), es[i].1.deep_clone()));
                    i = i + 1;
                }
                assert(json::members_view(out@) =~= json::members_view(es@));
            },
            _ => {
                assert(json::members_view(out@) =~= seq![]);
            },
        }
        out
    }

    /// Whether saving a release for `discid` can be performed (else it panics).
    pub fn can_put(&self, discid: &str) -> (r: bool)
        ensures
            r == json::path_writable(self@, disc_path(discid@)),
    {
        let p = path2("discs", discid);
        assert(json::path_keys(p@).skip(0) =~= json::path_keys(p@));
        self.data.path_is_writable(&p, 0)
    }

    /// Saves a release snapshot for a disc, stamped `saved_at`.
    pub fn put(&mut self, discid: &str, release: &Json, saved_at: &str)
        requires
            json::path_writable(old(self)@, disc_path(discid@)),
        ensures
            final(self)@ == lib_put(old(self)@, discid@, release@, saved_at@),
    {
        let entry = Json::empty_object().with_member("release", release.deep_clone()).with_member(
            "savedAt",
            Json::text(saved_at),
        );
        let path = path2("discs", discid);
        assert(json::path_keys(path@).skip(0) =~= json::path_keys(path@));
        let d = self.data.deep_clone();
        self.data = d.set_path(&path, 0, entry);
    }

    /// Whether editing a disc's title and artist can be performed (else it
    /// panics).
    pub fn can_update(&self, discid: &str, title: Option<&str>, artist: Option<&str>) -> (r: bool)
        ensures
            r == update_ok(self@, discid@, opt_view(title), opt_view(artist)),
    {
        let rel = path3("discs", discid, "release");
        assert(json::path_keys(rel@).skip(0) =~= json::path_keys(rel@));
        if !self.data.path_is_writable(&rel, 0) {
            return false;
        }
        let t = match title {
            Some(t) => !is_blank(t),
            None => false,
        };
        let a = match artist {
            Some(a) => !is_blank(a),
            None => false,
        };
        if t || a {
            self.data.lookup_path(&rel, 0).is_writable()
        } else {
            true
        }
    }

    /// Edits the local title and artist of a disc; blank values are ignored.
    pub fn update(&mut self, discid: &str, title: Option<&str>, artist: Option<&str>)
        requires
            update_ok(old(self)@, discid@, opt_view(title), opt_view(artist)),
        ensures
            final(self)@ == lib_update(old(self)@, discid@, opt_view(title), opt_view(artist)),
    {
        let ghost d0 = self.data@;
        let ghost rel_keys = field_path(discid@, "release"@);
        let rel = path3("discs", discid, "release");
        assert(json::path_keys(rel@).skip(0) =~= json::path_keys(rel@));
        let current = self.data.lookup_path(&rel, 0);
        let d = self.data.deep_clone();
        self.data = d.set_path(&rel, 0, current);
        let ghost d1 = self.data@;
        match title {
            Some(t) => {
                if !is_blank(t) {
                    let p = path4("discs", discid, "release", "title");
                    assert(json::path_keys(p@).skip(0) =~= json::path_keys(p@));
                    proof {
                        reveal_with_fuel(json::path_writable, 2);
                        assert(release_field_path(discid@, "title"@) =~= rel_keys + seq!["title"@]);
                        json::lemma_path_writable_after_set(d0, rel_keys, json::get_path(d0, rel_keys), seq!["title"@]);
                        assert(json::writable(json::get_path(d0, rel_keys)));
                        assert(seq!["title"@].drop_first() =~= seq![]);
                        assert(json::path_writable(json::get_path(d0, rel_keys), seq!["title"@]));
                        assert(d1 == json::set_path(d0, rel_keys, json::get_path(d0, rel_keys)));
                        assert(json::path_keys(p@) == release_field_path(discid@, "title"@));
                    }
                    let d = self.data.deep_clone();
                    self.data = d.set_path(&p, 0, Json::Text(trimmed(t)));
                }
            },
            None => {},
        }
        let ghost d2 = self.data@;
        match artist {
            Some(a) => {
                if !is_blank(a) {
                    let p = path4("discs", discid, "release", "artist-credit");
                    assert(json::path_keys(p@).skip(0) =~= json::path_keys(p@));
                    proof {
                        let key = "artist-credit"@;
                        assert(release_field_path(discid@, key) =~= rel_keys + seq![key]);
                        if given(opt_view(title)) {
                            let tp = release_field_path(discid@, "title"@);
                            let tv = JsonV::Text(text::trim_chars(opt_view(title).unwrap()));
                            assert(tp =~= rel_keys + seq!["title"@]);
                            json::lemma_path_writable_after_set(d0, rel_keys, json::get_path(d0, rel_keys), seq!["title"@]);
                            lemma_set_keeps_writable(d1, rel_keys, "title"@, tv, key);
                            assert(d2 == json::set_path(d1, tp, tv));
                        } else {
                            reveal_with_fuel(json::path_writable, 2);
                            json::lemma_path_writable_after_set(d0, rel_keys, json::get_path(d0, rel_keys), seq![key]);
                            assert(json::writable(json::get_path(d0, rel_keys)));
                            assert(seq![key].drop_first() =~= seq![]);
                            assert(json::path_writable(json::get_path(d0, rel_keys), seq![key]));
                            assert(d2 == d1);
                        }
                        assert(json::path_keys(p@) == release_field_path(discid@, key));
                    }
                    let credit = credit_of(a);
                    let d = self.data.deep_clone();
                    self.data = d.set_path(&p, 0, credit);
                }
            },
            None => {},
        }
    }

    /// Removes a disc from the collection.
    pub fn remove(&mut self, discid: &str)
        ensures
            final(self)@ == lib_remove(old(self)@, discid@),
    {
        let is_obj = match &self.data {
            Json::Object(_) => true,
            _ => false,
        };
        if !is_obj {
            return;
        }
        let ghost top = self.data@;
        assert(top is Object);
        let discs = match self.data.get("discs") {
            Some(Json::Object(es)) => {
                let c = json::clone_members(es);
                proof {
                    json::lemma_object_view_pub(*es);
                    json::lemma_object_view_pub(c);
                }
                Some(Json::Object(c))
            },
            Some(other) => {
                assert(!(other@ is Object));
                None
            },
            None => None,
        };
        match discs {
            Some(d) => {
                let smaller = d.without_member(discid);
                let top = self.data.deep_clone();
                self.data = top.with_member("discs", smaller);
            },
            None => {},
        }
    }

    /// The medium recorded for a disc (A = 0, B = 1, ...).
    pub fn medium(&self, discid: &str) -> (r: Option<u32>)
        ensures
            r == lib_medium(self@, discid@),
    {
        let p = path3("discs", discid, "medium");
        assert(json::path_keys(p@).skip(0) =~= json::path_keys(p@));
        match self.data.lookup_path(&p, 0).as_u64() {
            Some(v) => Some(#[verifier::truncate] (v as u32)),
            None => None,
        }
    }

    /// Whether recording a medium for `discid` can be performed (else it
    /// panics).
    pub fn can_set_medium(&self, discid: &str) -> (r: bool)
        ensures
            r == json::path_writable(self@, field_path(discid@, "medium"@)),
    {
        let p = path3("discs", discid, "medium");
        assert(json::path_keys(p@).skip(0) =~= json::path_keys(p@));
        self.data.path_is_writable(&p, 0)
    }

    /// Records the medium of a disc (A = 0, B = 1, ...).
    pub fn set_medium(&mut self, discid: &str, idx: u32)
        requires
            json::path_writable(old(self)@, field_path(discid@, "medium"@)),
        ensures
            final(self)@ == lib_set_medium(old(self)@, discid@, idx),
    {
        let p = path3("discs", discid, "medium");
        assert(json::path_keys(p@).skip(0) =~= json::path_keys(p@));
        let d = self.data.deep_clone();
        self.data = d.set_path(&p, 0, Json::Number(JsonNumber::PosInt(idx as u64)));
    }
}

fn credit_of(a: &str) -> (r: Json)
    ensures
        r@ == artist_credit(text::trim_chars(a@)),
{
    let name = Json::empty_object().with_member("name", Json::Text(trimmed(a)));
    let ghost nv = name@;
    let v = vec![name];
    proof {
        json::lemma_array_view_pub(v);
        assert(Seq::new(v@.len(), |i: int| v@[i]@) =~= seq![nv]);
    }
    Json::Array(v)
}

proof fn lemma_set_keeps_writable(
    d: JsonV,
    rel: Seq<Seq<char>>,
    k: Seq<char>,
    x: JsonV,
    k2: Seq<char>,
)
    requires
        json::path_writable(d, rel + seq![k]),
    ensures
        json::path_writable(json::set_path(d, rel + seq![k], x), rel + seq![k2]),
    decreases rel.len(),
{
    reveal_with_fuel(json::path_writable, 2);
    if rel.len() == 0 {
        assert(rel + seq![k] =~= seq![k]);
        assert(rel + seq![k2] =~= seq![k2]);
        assert(seq![k].drop_first() =~= seq![]);
        assert(seq![k2].drop_first() =~= seq![]);
        json::law_obj_insert_get(json::members_of(d), k, x, k2);
        assert(json::path_writable(json::set_path(d, seq![k], x), seq![k2]));
    } else {
        let p = rel + seq![k];
        let q = rel + seq![k2];
        assert(p[0] == rel[0] && q[0] == rel[0]);
        assert(p.drop_first() =~= rel.drop_first() + seq![k]);
        assert(q.drop_first() =~= rel.drop_first() + seq![k2]);
        let child = json::set_path(json::jindex(d, rel[0]), p.drop_first(), x);
        json::law_obj_insert_get(json::members_of(d), rel[0], child, rel[0]);
        lemma_set_keeps_writable(json::jindex(d, rel[0]), rel.drop_first(), k, x, k2);
    }
}


proof fn lemma_set_other_leaf(
    d: JsonV,
    rel: Seq<Seq<char>>,
    k: Seq<char>,
    x: JsonV,
    k2: Seq<char>,
)
    requires
        k != k2,
    ensures
        json::get_path(json::set_path(d, rel + seq![k], x), rel + seq![k2]) == json::get_path(
            d,
            rel + seq![k2],
        ),
    decreases rel.len(),
{
    reveal_with_fuel(json::get_path, 2);
    reveal_with_fuel(json::set_path, 2);
    if rel.len() == 0 {
        assert(rel + seq![k] =~= seq![k]);
        assert(rel + seq![k2] =~= seq![k2]);
        assert(seq![k].drop_first() =~= seq![]);
        assert(seq![k2].drop_first() =~= seq![]);
        json::law_obj_insert_get(json::members_of(d), k, x, k2);
        if !(d is Object) {
            assert(json::jget(d, k2) is None);
        }
    } else {
        let p = rel + seq![k];
        let q = rel + seq![k2];
        assert(p[0] == rel[0] && q[0] == rel[0]);
        assert(p.drop_first() =~= rel.drop_first() + seq![k]);
        assert(q.drop_first() =~= rel.drop_first() + seq![k2]);
        let child = json::set_path(json::jindex(d, rel[0]), p.drop_first(), x);
        json::law_obj_insert_get(json::members_of(d), rel[0], child, rel[0]);
        lemma_set_other_leaf(json::jindex(d, rel[0]), rel.drop_first(), k, x, k2);
    }
}

/// Reading a disc just saved gives the entry saved.
pub proof fn law_put_get(d: JsonV, discid: Seq<char>, release: JsonV, saved_at: Seq<char>)
    requires
        json::path_writable(d, disc_path(discid)),
    ensures
        lib_get(lib_put(d, discid, release, saved_at), discid) == Some(
            new_entry(release, saved_at),
        ),
{
    let e = new_entry(release, saved_at);
    let path = disc_path(discid);
    let d2 = lib_put(d, discid, release, saved_at);
    json::law_set_path_get_path(d, path, e);
    reveal_with_fuel(json::get_path, 3);
    reveal_with_fuel(json::set_path, 3);
    let discs_new = json::set_path(json::jindex(d, path[0]), path.drop_first(), e);
    json::law_obj_insert_get(json::members_of(d), "discs"@, discs_new, "discs"@);
    assert(path.drop_first() =~= seq![discid]);
    assert(seq![discid].drop_first() =~= seq![]);
    json::law_obj_insert_get(json::members_of(json::jindex(d, "discs"@)), discid, e, discid);
}

/// Saving a disc leaves every other disc's entry as it was.
pub proof fn law_put_other(
    d: JsonV,
    discid: Seq<char>,
    release: JsonV,
    saved_at: Seq<char>,
    other: Seq<char>,
)
    requires
        json::path_writable(d, disc_path(discid)),
        other != discid,
    ensures
        lib_get(lib_put(d, discid, release, saved_at), other) == lib_get(d, other),
{
    let e = new_entry(release, saved_at);
    let path = disc_path(discid);
    reveal_with_fuel(json::set_path, 3);
    reveal_with_fuel(json::path_writable, 2);
    let old_discs = json::jindex(d, "discs"@);
    assert(path.drop_first() =~= seq![discid]);
    assert(seq![discid].drop_first() =~= seq![]);
    let discs_new = json::set_path(old_discs, path.drop_first(), e);
    json::law_obj_insert_get(json::members_of(d), "discs"@, discs_new, "discs"@);
    json::law_obj_insert_get(json::members_of(old_discs), discid, e, other);
    if !(old_discs is Object) {
        assert(json::jget(old_discs, other) is None);
    }
}

/// Saving a disc keeps the collection in DiscID order.
pub proof fn law_put_sorted(d: JsonV, discid: Seq<char>, release: JsonV, saved_at: Seq<char>)
    requires
        json::path_writable(d, disc_path(discid)),
        json::keys_sorted(lib_entries(d)),
    ensures
        json::keys_sorted(lib_entries(lib_put(d, discid, release, saved_at))),
{
    let e = new_entry(release, saved_at);
    let path = disc_path(discid);
    reveal_with_fuel(json::set_path, 3);
    reveal_with_fuel(json::path_writable, 2);
    let old_discs = json::jindex(d, "discs"@);
    assert(path.drop_first() =~= seq![discid]);
    assert(seq![discid].drop_first() =~= seq![]);
    let discs_new = json::set_path(old_discs, path.drop_first(), e);
    json::law_obj_insert_get(json::members_of(d), "discs"@, discs_new, "discs"@);
    assert(json::members_of(old_discs) == lib_entries(d));
    json::law_obj_insert_sorted(json::members_of(old_discs), discid, e);
}

/// A removed disc is gone; every other disc reads as before; the entries
/// are the old ones without that disc, in the same order (so a collection
/// in DiscID order stays so).
pub proof fn law_remove_get(d: JsonV, discid: Seq<char>, other: Seq<char>)
    ensures
        lib_get(lib_remove(d, discid), discid) is None,
        other != discid ==> lib_get(lib_remove(d, discid), other) == lib_get(d, other),
        lib_entries(lib_remove(d, discid)) == json::obj_remove(lib_entries(d), discid),
        json::keys_sorted(lib_entries(d)) ==> json::keys_sorted(
            lib_entries(lib_remove(d, discid)),
        ),
{
    match (d, json::jget(d, "discs"@)) {
        (JsonV::Object(top), Some(JsonV::Object(es))) => {
            let ne = JsonV::Object(json::obj_remove(es, discid));
            json::law_obj_insert_get(top, "discs"@, ne, "discs"@);
            json::law_obj_remove_get(es, discid, discid);
            json::law_obj_remove_get(es, discid, other);
        },
        _ => {
            let e = lib_entries(d);
            assert(e =~= Seq::<(Seq<char>, JsonV)>::empty());
            assert(json::obj_remove(e, discid) =~= e);
        },
    }
}

/// Removing a disc a second time changes neither what is read for any disc
/// nor the entries.
pub proof fn law_remove_twice(d: JsonV, discid: Seq<char>, other: Seq<char>)
    ensures
        lib_get(lib_remove(lib_remove(d, discid), discid), other) == lib_get(
            lib_remove(d, discid),
            other,
        ),
        lib_entries(lib_remove(lib_remove(d, discid), discid)) == lib_entries(
            lib_remove(d, discid),
        ),
{
    let d1 = lib_remove(d, discid);
    law_remove_get(d, discid, other);
    law_remove_get(d1, discid, other);
    law_remove_get(d, discid, discid);
    json::law_obj_remove_idempotent(lib_entries(d), discid);
}

/// The medium just recorded for a disc is the one read back.
pub proof fn law_set_medium_medium(d: JsonV, discid: Seq<char>, idx: u32)
    ensures
        lib_medium(lib_set_medium(d, discid, idx), discid) == Some(idx),
{
    let path = field_path(discid, "medium"@);
    let x = JsonV::Number(JsonNumber::PosInt(idx as u64));
    json::law_set_path_get_path(d, path, x);
    assert((idx as u64) as u32 == idx);
}

/// Recording the medium of a disc leaves its saved release snapshot as it
/// was.
pub proof fn law_set_medium_keeps_release(d: JsonV, discid: Seq<char>, idx: u32)
    ensures
        json::get_path(lib_set_medium(d, discid, idx), field_path(discid, "release"@))
            == json::get_path(d, field_path(discid, "release"@)),
{
    let base = seq!["discs"@, discid];
    assert(field_path(discid, "medium"@) =~= base + seq!["medium"@]);
    assert(field_path(discid, "release"@) =~= base + seq!["release"@]);
    assert("medium"@ != "release"@) by {
        reveal_strlit("medium");
        reveal_strlit("release");
        assert("medium"@.len() != "release"@.len());
    }
    lemma_set_other_leaf(
        d,
        base,
        "medium"@,
        JsonV::Number(JsonNumber::PosInt(idx as u64)),
        "release"@,
    );
}

/// Recording the medium of a disc changes nothing else: every other member
/// of that disc's entry ("release", "savedAt", ...) reads as before, and so
/// does the entry of every other disc.
pub proof fn law_set_medium_keeps_rest(
    d: JsonV,
    discid: Seq<char>,
    idx: u32,
    k: Seq<char>,
    other: Seq<char>,
)
    ensures
        k != "medium"@ ==> json::jget(
            json::jindex(json::jindex(lib_set_medium(d, discid, idx), "discs"@), discid),
            k,
        ) == json::jget(json::jindex(json::jindex(d, "discs"@), discid), k),
        other != discid ==> lib_get(lib_set_medium(d, discid, idx), other) == lib_get(d, other),
{
    reveal_with_fuel(json::set_path, 4);
    let x = JsonV::Number(JsonNumber::PosInt(idx as u64));
    let p = field_path(discid, "medium"@);
    let p1 = p.drop_first();
    let p2 = p1.drop_first();
    assert(p1 =~= seq![discid, "medium"@]);
    assert(p2 =~= seq!["medium"@]);
    assert(p2.drop_first() =~= Seq::<Seq<char>>::empty());
    let discs = json::jindex(d, "discs"@);
    let e = json::jindex(discs, discid);
    let e2 = json::set_path(e, p2, x);
    let discs2 = json::set_path(discs, p1, x);
    let d2 = lib_set_medium(d, discid, idx);
    assert(e2 == JsonV::Object(json::obj_insert(json::members_of(e), "medium"@, x)));
    assert(discs2 == JsonV::Object(json::obj_insert(json::members_of(discs), discid, e2)));
    assert(d2 == JsonV::Object(json::obj_insert(json::members_of(d), "discs"@, discs2)));
    json::law_obj_insert_get(json::members_of(d), "discs"@, discs2, "discs"@);
    assert(json::jindex(d2, "discs"@) == discs2);
    json::law_obj_insert_get(json::members_of(discs), discid, e2, discid);
    json::law_obj_insert_get(json::members_of(discs), discid, e2, other);
    assert(json::jindex(discs2, discid) == e2);
    json::law_obj_insert_get(json::members_of(e), "medium"@, x, k);
    if !(e is Object) {
        assert(json::jget(e, k) is None);
    }
    if !(discs is Object) {
        assert(json::jget(discs, other) is None);
    }
    if !(d is Object) {
        assert(json::jget(d, "discs"@) is None);
    }
    if other != discid {
        match json::jget(d, "discs"@) {
            Some(ds) => {
                assert(ds == discs);
            },
            None => {
                assert(discs == JsonV::Null);
            },
        }
    }
}

/// A disc without an entry, or whose entry records no non-negative integer
/// "medium", has no medium.
pub proof fn law_medium_absent(d: JsonV, discid: Seq<char>)
    ensures
        lib_get(d, discid) is None ==> lib_medium(d, discid) is None,
        (lib_get(d, discid) matches Some(e) && !(json::jget(e, "medium"@) matches Some(
            JsonV::Number(JsonNumber::PosInt(_)),
        ))) ==> lib_medium(d, discid) is None,
{
    reveal_with_fuel(json::get_path, 4);
    let p = field_path(discid, "medium"@);
    assert(p.drop_first() =~= seq![discid, "medium"@]);
    assert(p.drop_first().drop_first() =~= seq!["medium"@]);
    assert(p.drop_first().drop_first().drop_first() =~= Seq::<Seq<char>>::empty());
    let discs = json::jindex(d, "discs"@);
    let e = json::jindex(discs, discid);
    assert(json::get_path(d, p) == json::jindex(e, "medium"@));
    if lib_get(d, discid) is None {
        match json::jget(d, "discs"@) {
            Some(ds) => {
                assert(e == JsonV::Null);
            },
            None => {
                assert(discs == JsonV::Null);
                assert(e == JsonV::Null);
            },
        }
    }
}

/// After an edit with a non-blank title, the release snapshot's title is the
/// trimmed title (whatever artist was given with it).
pub proof fn law_update_title(
    d: JsonV,
    discid: Seq<char>,
    title: Seq<char>,
    artist: Option<Seq<char>>,
)
    requires
        given(Some(title)),
    ensures
        json::get_path(
            lib_update(d, discid, Some(title), artist),
            release_field_path(discid, "title"@),
        ) == JsonV::Text(text::trim_chars(title)),
{
    let rel = field_path(discid, "release"@);
    let d1 = json::set_path(d, rel, json::get_path(d, rel));
    let tp = release_field_path(discid, "title"@);
    let tv = JsonV::Text(text::trim_chars(title));
    let d2 = json::set_path(d1, tp, tv);
    json::law_set_path_get_path(d1, tp, tv);
    if given(artist) {
        let ap = release_field_path(discid, "artist-credit"@);
        assert(tp =~= rel + seq!["title"@]);
        assert(ap =~= rel + seq!["artist-credit"@]);
        assert("artist-credit"@ != "title"@) by {
            reveal_strlit("artist-credit");
            reveal_strlit("title");
            assert("artist-credit"@.len() != "title"@.len());
        }
        lemma_set_other_leaf(
            d2,
            rel,
            "artist-credit"@,
            artist_credit(text::trim_chars(artist.unwrap())),
            "title"@,
        );
    }
}

/// After an edit with a non-blank artist, the release snapshot's artist
/// credit is a single credit with the trimmed name.
pub proof fn law_update_artist(
    d: JsonV,
    discid: Seq<char>,
    title: Option<Seq<char>>,
    artist: Seq<char>,
)
    requires
        given(Some(artist)),
    ensures
        json::get_path(
            lib_update(d, discid, title, Some(artist)),
            release_field_path(discid, "artist-credit"@),
        ) == artist_credit(text::trim_chars(artist)),
{
    let rel = field_path(discid, "release"@);
    let d1 = json::set_path(d, rel, json::get_path(d, rel));
    let d2 = if given(title) {
        json::set_path(
            d1,
            release_field_path(discid, "title"@),
            JsonV::Text(text::trim_chars(title.unwrap())),
        )
    } else {
        d1
    };
    json::law_set_path_get_path(
        d2,
        release_field_path(discid, "artist-credit"@),
        artist_credit(text::trim_chars(artist)),
    );
}

} // verus!
