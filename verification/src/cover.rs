//! Album covers: choosing among cached cover files, the Cover Art Archive
//! URLs to try, and naming downloaded files.
//! Listing the cache directory and downloading are the caller's.
use vstd::prelude::*;
use crate::text;
use crate::text::{contains, push_char, push_str, string_of};
use vstd::string::StringSliceAdditionalSpecFns;

verus! {

/// The first eight characters of a release id: the part of it that cached
/// cover file names carry.
pub open spec fn spec_cache_key(release_id: Seq<char>) -> Seq<char> {
    if release_id.len() <= 8 {
        release_id
    } else {
        release_id.take(8)
    }
}

/// The cache key of a release id.
pub fn cache_key(release_id: &str) -> (r: String)
    ensures
        r@ == spec_cache_key(release_id@),
{
    let n = release_id.unicode_len();
    let m = if n < 8 {
        n
    } else {
        8
    };
    let mut r = String::new();
    let mut i: usize = 0;
    while i < m
        invariant
            n == release_id@.len(),
            m <= n,
            m == (if n < 8 {
                n
            } else {
                8
            }),
            i <= m,
            r@ == release_id@.take(i as int),
        decreases m - i,
    {
        push_char(&mut r, release_id.get_char(i));
        i = i + 1;
        assert(r@ =~= release_id@.take(i as int));
    }
    assert(release_id@.take(n as int) =~= release_id@);
    r
}

/// Scan of the cached files (name, modification time if known): among the
/// files whose name contains `key`, a later one replaces the current choice
/// unless both times are known and it is not newer; a file with an unknown
/// time counts as the epoch (time 0). Gives (time, index) of the choice.
pub open spec fn cache_choice(entries: Seq<(Seq<char>, Option<i128>)>, key: Seq<char>) -> Option<
    (int, int),
>
    decreases entries.len(),
{
    if entries.len() == 0 {
        None
    } else {
        let prev = cache_choice(entries.drop_last(), key);
        let e = entries.last();
        let here = (
            match e.1 {
                Some(t) => t as int,
                None => 0,
            },
            entries.len() - 1,
        );
        if !text::contains_chars(e.0, key) {
            prev
        } else {
            match prev {
                Some((t, i)) => match e.1 {
                    Some(mt) => if mt <= t {
                        prev
                    } else {
                        Some(here)
                    },
                    None => Some(here),
                },
                None => Some(here),
            }
        }
    }
}

pub open spec fn entries_view(entries: Seq<(String, Option<i128>)>) -> Seq<(Seq<char>, Option<i128>)> {
    entries.map_values(|e: (String, Option<i128>)| (e.0@, e.1))
}

/// Index of the cached cover to use among (file name, modification time in
/// nanoseconds since the epoch) pairs: the newest file whose name contains
/// `key` (a manually uploaded cover, being newest, wins).
pub fn find_cached(key: &str, entries: &Vec<(String, Option<i128>)>) -> (r: Option<usize>)
    ensures
        match cache_choice(entries_view(entries@), key@) {
            Some((t, i)) => r == Some(i as usize),
            None => r is None,
        },
{
    let ghost ev = entries_view(entries@);
    let n = entries.len();
    let mut best: Option<(i128, usize)> = None;
    let mut i: usize = 0;
    while i < n
        invariant
            n == entries@.len(),
            ev == entries_view(entries@),
            i <= n,
            match cache_choice(ev.take(i as int), key@) {
                Some((t, j)) => best matches Some(b) && b.0 == t && b.1 == j,
                None => best is None,
            },
        decreases n - i,
    {
        assert(ev.take(i + 1).drop_last() =~= ev.take(i as int));
        assert(ev.take(i + 1).last() == ev[i as int]);
        assert(ev[i as int] == (entries@[i as int].0@, entries@[i as int].1));
        let name = entries[i].0.as_str();
        let mt = entries[i].1;
        if contains(name, key) {
            let replace = match best {
                Some((t, _)) => match mt {
                    Some(m) => m > t,
                    None => true,
                },
                None => true,
            };
            if replace {
                let t: i128 = match mt {
                    Some(m) => m,
                    None => 0,
                };
                best = Some((t, i));
            }
        }
        i = i + 1;
    }
    assert(ev.take(n as int) =~= ev);
    match best {
        Some((_, j)) => Some(j),
        None => None,
    }
}

/// The chosen file's name contains the key; and when every file's time is
/// known, no file whose name contains the key is newer, and an earlier file
/// with the same time keeps its place.
pub proof fn law_cache_choice_newest(entries: Seq<(Seq<char>, Option<i128>)>, key: Seq<char>)
    ensures
        match cache_choice(entries, key) {
            Some((t, i)) => {
                &&& 0 <= i < entries.len()
                &&& text::contains_chars(entries[i].0, key)
                &&& t == (match entries[i].1 {
                    Some(m) => m as int,
                    None => 0,
                })
                &&& (forall|j: int| 0 <= j < entries.len() ==> (#[trigger] entries[j].1) is Some)
                    ==> forall|j: int|
                    0 <= j < entries.len() && text::contains_chars(#[trigger] entries[j].0, key)
                        ==> entries[j].1.unwrap() <= t && (entries[j].1.unwrap() == t ==> i <= j)
            },
            None => forall|j: int|
                0 <= j < entries.len() ==> !text::contains_chars(#[trigger] entries[j].0, key),
        },
    decreases entries.len(),
{
    if entries.len() > 0 {
        let init = entries.drop_last();
        law_cache_choice_newest(init, key);
        assert forall|j: int| 0 <= j < init.len() implies init[j] == entries[j] by {}
    }
}

/// Cover Art Archive base URL.
pub open spec fn caa_api() -> Seq<char> {
    "https://coverartarchive.org"@
}

/// URLs to try, in order: the release group's 500px front (when known), then
/// the release's 500px and 250px fronts.
pub open spec fn spec_cover_urls(release_id: Seq<char>, rg_id: Option<Seq<char>>) -> Seq<Seq<char>> {
    let rel = seq![
        caa_api() + "/release/"@ + release_id + "/front-500"@,
        caa_api() + "/release/"@ + release_id + "/front-250"@,
    ];
    match rg_id {
        Some(rg) => seq![caa_api() + "/release-group/"@ + rg + "/front-500"@] + rel,
        None => rel,
    }
}

fn caa_url(kind: &str, id: &str, size: &str) -> (r: String)
    ensures
        r@ == caa_api() + kind@ + id@ + size@,
{
    let mut r = string_of("https://coverartarchive.org");
    push_str(&mut r, kind);
    push_str(&mut r, id);
    push_str(&mut r, size);
    r
}

/// The cover URLs to try for a release.
pub fn cover_urls(release_id: &str, rg_id: Option<&str>) -> (r: Vec<String>)
    ensures
        r@.map_values(|s: String| s@) == spec_cover_urls(
            release_id@,
            match rg_id {
                Some(g) => Some(g@),
                None => None,
            },
        ),
{
    let mut r: Vec<String> = Vec::new();
    match rg_id {
        Some(g) => {
            r.push(caa_url("/release-group/", g, "/front-500"));
        },
        None => {},
    }
    r.push(caa_url("/release/", release_id, "/front-500"));
    r.push(caa_url("/release/", release_id, "/front-250"));
    assert(r@.map_values(|s: String| s@) =~= spec_cover_urls(
        release_id@,
        match rg_id {
            Some(g) => Some(g@),
            None => None,
        },
    ));
    r
}

/// After an HTTP error status, whether the next URL is worth trying: only
/// after "404 not found"; other statuses and network failures end the search.
pub fn try_next_after(status: Option<u16>) -> (r: bool)
    ensures
        r == (status == Some(404u16)),
{
    match status {
        Some(code) => code == 404,
        None => false,
    }
}

/// The eight-byte PNG signature.
pub open spec fn png_signature() -> Seq<u8> {
    seq![0x89u8, 0x50u8, 0x4Eu8, 0x47u8, 0x0Du8, 0x0Au8, 0x1Au8, 0x0Au8]
}

/// Whether `bytes` start with `prefix`.
pub open spec fn has_prefix(bytes: Seq<u8>, prefix: Seq<u8>) -> bool {
    prefix.len() <= bytes.len() && bytes.subrange(0, prefix.len() as int) == prefix
}

/// Whether `bytes` begin with `prefix`.
pub fn bytes_start_with(bytes: &[u8], prefix: &[u8]) -> (r: bool)
    ensures
        r == has_prefix(bytes@, prefix@),
{
    let n = bytes.len();
    let m = prefix.len();
    if m > n {
        return false;
    }
    let mut i: usize = 0;
    while i < m
        invariant
            n == bytes@.len(),
            m == prefix@.len(),
            m <= n,
            i <= m,
            forall|k: int| 0 <= k < i ==> bytes@[k] == prefix@[k],
        decreases m - i,
    {
        if bytes[i] != prefix[i] {
            assert(bytes@.subrange(0, m as int)[i as int] == bytes@[i as int]);
            return false;
        }
        i = i + 1;
    }
    assert(bytes@.subrange(0, m as int) =~= prefix@);
    true
}

/// Whether image data is PNG (by its signature).
pub fn is_png(bytes: &[u8]) -> (r: bool)
    ensures
        r == has_prefix(bytes@, png_signature()),
{
    let sig: [u8; 8] = [0x89u8, 0x50u8, 0x4Eu8, 0x47u8, 0x0Du8, 0x0Au8, 0x1Au8, 0x0Au8];
    assert(sig@ =~= png_signature());
    bytes_start_with(bytes, &sig)
}

/// File extension of downloaded cover data: "png" for PNG, else "jpg".
pub fn cover_ext(bytes: &[u8]) -> (r: &'static str)
    ensures
        r@ == (if has_prefix(bytes@, png_signature()) {
            "png"@
        } else {
            "jpg"@
        }),
{
    if is_png(bytes) {
        "png"
    } else {
        "jpg"
    }
}

/// Whether `release_id` can be cut after its first eight bytes (or is
/// shorter): a file name keeps only those.
pub open spec fn short_id_ok(release_id: &str) -> bool {
    let n = release_id.spec_bytes().len();
    vstd::utf8::is_char_boundary(release_id.spec_bytes(), if n < 8 {
        n as int
    } else {
        8
    })
}

/// Name of a downloaded cover file: "label-short.ext", `short` being the
/// first eight bytes of the release id.
pub fn cover_file_name(label: &str, release_id: &str, ext: &str) -> (r: String)
    requires
        short_id_ok(release_id),
    ensures
        vstd::utf8::encode_utf8(r@) == vstd::utf8::encode_utf8(label@) + seq![45u8]
            + release_id.spec_bytes().take(
            if release_id.spec_bytes().len() < 8 {
                release_id.spec_bytes().len() as int
            } else {
                8
            },
        ) + seq![46u8] + vstd::utf8::encode_utf8(ext@),
{
    let n = release_id.as_bytes().len();
    let k = if n < 8 {
        n
    } else {
        8
    };
    assert(n == release_id.spec_bytes().len());
    assert(vstd::utf8::is_char_boundary(release_id.spec_bytes(), k as int));
    let (short, _) = release_id.split_at(k);
    let mut r = string_of(label);
    push_char(&mut r, '-');
    push_str(&mut r, short);
    push_char(&mut r, '.');
    push_str(&mut r, ext);
    proof {
        let l = label@;
        let sh = short@;
        let e = ext@;
        assert(r@ =~= l + seq!['-'] + sh + seq!['.'] + e);
        lemma_encode_concat(l, seq!['-']);
        lemma_encode_concat(l + seq!['-'], sh);
        lemma_encode_concat(l + seq!['-'] + sh, seq!['.']);
        lemma_encode_concat(l + seq!['-'] + sh + seq!['.'], e);
        lemma_encode_ascii_char('-');
        lemma_encode_ascii_char('.');
        assert(short.spec_bytes() =~= release_id.spec_bytes().subrange(0, k as int));
        assert(release_id.spec_bytes().take(k as int) =~= release_id.spec_bytes().subrange(0, k as int));
    }
    r
}

proof fn lemma_encode_concat(a: Seq<char>, b: Seq<char>)
    ensures
        vstd::utf8::encode_utf8(a + b) == vstd::utf8::encode_utf8(a) + vstd::utf8::encode_utf8(b),
    decreases a.len(),
{
    if a.len() == 0 {
        assert(a + b =~= b);
        assert(vstd::utf8::encode_utf8(a) =~= seq![]);
        assert(seq![] + vstd::utf8::encode_utf8(b) =~= vstd::utf8::encode_utf8(b));
    } else {
        lemma_encode_concat(a.drop_first(), b);
        assert((a + b).drop_first() =~= a.drop_first() + b);
        assert((a + b)[0] == a[0]);
    }
}

proof fn lemma_encode_ascii_char(c: char)
    requires
        c == '-' || c == '.',
    ensures
        vstd::utf8::encode_utf8(seq![c]) == seq![c as u8],
{
    assert(vstd::utf8::is_ascii_chars(seq![c]));
    vstd::utf8::is_ascii_chars_encode_utf8(seq![c]);
    assert(vstd::utf8::encode_utf8(seq![c]) =~= seq![c as u8]);
}

} // verus!
