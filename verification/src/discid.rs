//! MusicBrainz disc identification: frame arithmetic over a table of
//! contents, the freedb-style TOC string, track durations and the DiscID
//! (SHA-1 of a hexadecimal TOC description, in MusicBrainz's Base64 variant).
//!
//! Offsets read from the drive are raw LBAs (first track at 0); the DiscID
//! works on frame offsets, which are LBA + 150.
use vstd::prelude::*;
use crate::text;
use crate::base64;
use crate::text::{push_char, push_decimal, push_hex, push_str, string_of};
use sha1::{Digest, Sha1};
use vstd::string::StringSliceAdditionalSpecFns;

verus! {

/// Control bit of a data (non-audio) track.
pub const CDROM_DATA_TRACK: u8 = 0x04;

/// Frames between LBA 0 and the first frame offset.
pub const LEADIN: u32 = 150;

/// Gap, in frames, before the data session of an enhanced (CD-Extra) disc.
pub const MULTISESSION_GAP: u32 = 11400;

/// A disc's table of contents as read from the drive.
#[derive(Debug, Clone, Default)]
pub struct Toc {
    pub first: u8,
    pub last: u8,
    /// (raw LBA, control bits) of each track
    pub tracks: Vec<(u32, u8)>,
    /// raw LBA of the lead-out
    pub leadout: u32,
}

pub open spec fn is_data_track(t: (u32, u8)) -> bool {
    t.1 & 4u8 != 0
}

/// The LBAs of the audio tracks, in order.
pub open spec fn audio_offsets_of(tracks: Seq<(u32, u8)>) -> Seq<u32>
    decreases tracks.len(),
{
    if tracks.len() == 0 {
        seq![]
    } else {
        let rest = audio_offsets_of(tracks.drop_last());
        if is_data_track(tracks.last()) {
            rest
        } else {
            rest.push(tracks.last().0)
        }
    }
}

/// The LBA of the first data track, if there is one.
pub open spec fn first_data_offset(tracks: Seq<(u32, u8)>) -> Option<u32>
    decreases tracks.len(),
{
    if tracks.len() == 0 {
        None
    } else {
        match first_data_offset(tracks.drop_last()) {
            Some(o) => Some(o),
            None => if is_data_track(tracks.last()) {
                Some(tracks.last().0)
            } else {
                None
            },
        }
    }
}

/// Frame offsets of the audio tracks (LBA + 150).
pub open spec fn audio_frames_of(audio: Seq<u32>) -> Seq<int> {
    Seq::new(audio.len(), |i: int| audio[i] + 150)
}

/// The frame offset that follows audio track `i`: the next audio track's, or
/// the lead-out's for the last one.
pub open spec fn next_frame(audio: Seq<u32>, leadout: int, i: int) -> int {
    if i + 1 < audio.len() {
        audio[i + 1] + 150
    } else {
        leadout
    }
}

/// Duration of audio track `i` in milliseconds (75 frames per second).
pub open spec fn duration_ms(audio: Seq<u32>, leadout: int, i: int) -> int {
    (next_frame(audio, leadout, i) - (audio[i] + 150)) * 1000 / 75
}

/// The decimal numerals of `nums`, each preceded by a space.
pub open spec fn spaced_decimals(nums: Seq<int>) -> Seq<char>
    decreases nums.len(),
{
    if nums.len() == 0 {
        seq![]
    } else {
        spaced_decimals(nums.drop_last()) + seq![' '] + text::dec_chars(nums.last() as nat)
    }
}

/// The eight-digit hexadecimal frame offsets of the audio tracks, followed
/// by zero entries up to 99 tracks.
pub open spec fn hex_frames(audio: Seq<u32>) -> Seq<char>
    decreases audio.len(),
{
    if audio.len() == 0 {
        seq![]
    } else {
        hex_frames(audio.drop_last()) + text::hex_fixed((audio.last() + 150) as nat, 8)
    }
}

/// `n` repetitions of "00000000".
pub open spec fn zero_entries(n: nat) -> Seq<char>
    decreases n,
{
    if n == 0 {
        seq![]
    } else {
        zero_entries((n - 1) as nat) + seq!['0', '0', '0', '0', '0', '0', '0', '0']
    }
}

impl Toc {
    pub open spec fn spec_audio(&self) -> Seq<u32> {
        audio_offsets_of(self.tracks@)
    }

    /// The lead-out frame offset can be computed without overflow.
    pub open spec fn leadout_ok(&self) -> bool {
        match first_data_offset(self.tracks@) {
            Some(o) => o + 150 <= u32::MAX && o + 150 >= 11400,
            None => self.leadout + 150 <= u32::MAX,
        }
    }

    /// The lead-out frame offset; on an enhanced disc the data track's offset
    /// less the session gap.
    pub open spec fn spec_leadout_frame(&self) -> int {
        match first_data_offset(self.tracks@) {
            Some(o) => o + 150 - 11400,
            None => self.leadout + 150,
        }
    }

    /// Every audio frame offset fits in a `u32`.
    pub open spec fn frames_fit(&self) -> bool {
        forall|i: int| 0 <= i < self.spec_audio().len() ==> self.spec_audio()[i] + 150 <= u32::MAX
    }

    /// Audio frame offsets never decrease, up to and including the lead-out.
    pub open spec fn frames_ordered(&self) -> bool {
        forall|i: int|
            0 <= i < self.spec_audio().len() ==> self.spec_audio()[i] + 150 <= next_frame(
                self.spec_audio(),
                self.spec_leadout_frame(),
                i,
            )
    }

    /// The frame numbers of a TOC string: first and last track, audio frame
    /// offsets and lead-out.
    pub open spec fn spec_toc_fields(&self) -> Seq<int> {
        audio_frames_of(self.spec_audio()).push(self.spec_leadout_frame())
    }

    /// "first last f1 ... fN leadout", all in decimal and separated by spaces.
    pub open spec fn spec_toc_string(&self) -> Seq<char> {
        text::dec_chars(self.first as nat) + seq![' '] + text::dec_chars(self.last as nat) + spaced_decimals(
            self.spec_toc_fields(),
        )
    }

    /// The text whose SHA-1 is the DiscID: first and last track (2 hex digits),
    /// lead-out and the 99 track frame offsets (8 hex digits each).
    pub open spec fn spec_disc_id_text(&self) -> Seq<char> {
        let audio = self.spec_audio();
        text::hex_fixed(self.first as nat, 2) + text::hex_fixed(self.last as nat, 2) + text::hex_fixed(
            self.spec_leadout_frame() as nat,
            8,
        ) + hex_frames(audio) + zero_entries(if audio.len() < 99 {
            (99 - audio.len()) as nat
        } else {
            0
        })
    }

    /// Whether the lead-out frame offset can be computed (it fits in a `u32`
    /// and a data track starts after the session gap).
    pub fn leadout_valid(&self) -> (r: bool)
        ensures
            r == self.leadout_ok(),
    {
        let n = self.tracks.len();
        let mut i: usize = 0;
        while i < n
            invariant
                n == self.tracks@.len(),
                i <= n,
                first_data_offset(self.tracks@.take(i as int)) is None,
            decreases n - i,
        {
            let (off, c) = self.tracks[i];
            assert(self.tracks@.take(i + 1).drop_last() =~= self.tracks@.take(i as int));
            if c & CDROM_DATA_TRACK != 0 {
                proof {
                    assert(is_data_track(self.tracks@[i as int]));
                    assert(self.tracks@.take(i + 1 - 1) =~= self.tracks@.take(i as int));
                    lemma_first_data_extends(self.tracks@, i as int + 1);
                }
                return off <= u32::MAX - 150 && off + 150 >= 11400;
            }
            i = i + 1;
        }
        assert(self.tracks@.take(n as int) =~= self.tracks@);
        self.leadout <= u32::MAX - 150
    }

    /// Whether every audio frame offset fits in a `u32` and, when the
    /// lead-out is valid, the frame offsets never decrease up to it.
    pub fn frames_valid(&self) -> (r: bool)
        ensures
            r == (self.frames_fit() && (self.leadout_ok() ==> self.frames_ordered())),
    {
        let audio = self.audio_offsets();
        let n = audio.len();
        let mut i: usize = 0;
        while i < n
            invariant
                n == audio@.len(),
                audio@ == self.spec_audio(),
                i <= n,
                forall|k: int| 0 <= k < i ==> audio@[k] + 150 <= u32::MAX,
            decreases n - i,
        {
            if audio[i] > u32::MAX - 150 {
                assert(!(self.spec_audio()[i as int] + 150 <= u32::MAX));
                return false;
            }
            i = i + 1;
        }
        if !self.leadout_valid() {
            return true;
        }
        let lf = self.leadout_frame();
        let mut k: usize = 0;
        while k < n
            invariant
                n == audio@.len(),
                audio@ == self.spec_audio(),
                self.frames_fit(),
                self.leadout_ok(),
                lf == self.spec_leadout_frame(),
                k <= n,
                forall|j: int|
                    0 <= j < k ==> audio@[j] + 150 <= next_frame(audio@, lf as int, j),
            decreases n - k,
        {
            let next: u32 = if k + 1 < n {
                audio[k + 1] + LEADIN
            } else {
                lf
            };
            assert(next == next_frame(audio@, lf as int, k as int));
            if audio[k] + LEADIN > next {
                assert(!(self.spec_audio()[k as int] + 150 <= next_frame(
                    self.spec_audio(),
                    self.spec_leadout_frame(),
                    k as int,
                )));
                return false;
            }
            k = k + 1;
        }
        true
    }

    /// The raw LBAs of the audio tracks, in track order.
    pub fn audio_offsets(&self) -> (r: Vec<u32>)
        ensures
            r@ == self.spec_audio(),
    {
        let mut v: Vec<u32> = Vec::new();
        let n = self.tracks.len();
        let mut i: usize = 0;
        while i < n
            invariant
                n == self.tracks@.len(),
                i <= n,
                v@ == audio_offsets_of(self.tracks@.take(i as int)),
            decreases n - i,
        {
            let (off, c) = self.tracks[i];
            assert(self.tracks@.take(i + 1).drop_last() =~= self.tracks@.take(i as int));
            if c & CDROM_DATA_TRACK == 0 {
                v.push(off);
            }
            i = i + 1;
        }
        assert(self.tracks@.take(n as int) =~= self.tracks@);
        v
    }

    /// Lead-out frame offset; on an enhanced disc (one with a data track) the
    /// data track's frame offset less the session gap.
    pub fn leadout_frame(&self) -> (r: u32)
        requires
            self.leadout_ok(),
        ensures
            r == self.spec_leadout_frame(),
    {
        let n = self.tracks.len();
        let mut i: usize = 0;
        while i < n
            invariant
                n == self.tracks@.len(),
                i <= n,
                first_data_offset(self.tracks@.take(i as int)) is None,
                self.leadout_ok(),
            decreases n - i,
        {
            let (off, c) = self.tracks[i];
            assert(self.tracks@.take(i + 1).drop_last() =~= self.tracks@.take(i as int));
            if c & CDROM_DATA_TRACK != 0 {
                proof {
                    assert(is_data_track(self.tracks@[i as int]));
                    assert(self.tracks@.take(i + 1 - 1) =~= self.tracks@.take(i as int));
                    lemma_first_data_extends(self.tracks@, i as int + 1);
                    assert(first_data_offset(self.tracks@) == Some(off));
                }
                return off + LEADIN - MULTISESSION_GAP;
            }
            i = i + 1;
        }
        assert(self.tracks@.take(n as int) =~= self.tracks@);
        self.leadout + LEADIN
    }

    /// freedb TOC string "first last f1 ... fN leadout" (frame offsets), as
    /// the MusicBrainz submission page expects it.
    pub fn toc_string(&self) -> (s: String)
        requires
            self.leadout_ok(),
            self.frames_fit(),
        ensures
            s@ == self.spec_toc_string(),
    {
        let audio = self.audio_offsets();
        let lf = self.leadout_frame();
        let mut s = String::new();
        push_decimal(&mut s, self.first as u64);
        push_char(&mut s, ' ');
        push_decimal(&mut s, self.last as u64);
        let ghost head = s@;
        let ghost fields = self.spec_toc_fields();
        let n = audio.len();
        let mut i: usize = 0;
        while i < n
            invariant
                n == audio@.len(),
                audio@ == self.spec_audio(),
                self.frames_fit(),
                fields == audio_frames_of(audio@).push(lf as int),
                i <= n,
                s@ == head + spaced_decimals(fields.take(i as int)),
            decreases n - i,
        {
            let f = audio[i] + LEADIN;
            push_char(&mut s, ' ');
            push_decimal(&mut s, f as u64);
            assert(fields.take(i + 1).drop_last() =~= fields.take(i as int));
            assert(fields.take(i + 1).last() == f);
            assert(s@ =~= head + spaced_decimals(fields.take(i + 1)));
            i = i + 1;
        }
        push_char(&mut s, ' ');
        push_decimal(&mut s, lf as u64);
        assert(fields.take(n + 1) =~= fields);
        assert(fields.take(n + 1).drop_last() =~= fields.take(n as int));
        assert(s@ =~= head + spaced_decimals(fields));
        s
    }

    /// Duration of each audio track in milliseconds; the last one ends at
    /// the lead-out.
    pub fn track_durations_ms(&self) -> (r: Vec<u64>)
        requires
            self.leadout_ok(),
            self.frames_fit(),
            self.frames_ordered(),
        ensures
            r@.len() == self.spec_audio().len(),
            forall|i: int|
                0 <= i < r@.len() ==> r@[i] == duration_ms(
                    self.spec_audio(),
                    self.spec_leadout_frame(),
                    i,
                ),
    {
        let audio = self.audio_offsets();
        let leadout = self.leadout_frame();
        let n = audio.len();
        let mut out: Vec<u64> = Vec::new();
        let mut i: usize = 0;
        while i < n
            invariant
                n == audio@.len(),
                audio@ == self.spec_audio(),
                leadout == self.spec_leadout_frame(),
                self.frames_fit(),
                self.frames_ordered(),
                i <= n,
                out@.len() == i,
                forall|k: int| 0 <= k < i ==> out@[k] == duration_ms(audio@, leadout as int, k),
            decreases n - i,
        {
            let next = if i + 1 < n {
                audio[i + 1] + LEADIN
            } else {
                leadout
            };
            assert(next == next_frame(audio@, leadout as int, i as int));
            let here = audio[i] + LEADIN;
            let dur = (next - here) as u64 * 1000 / 75;
            out.push(dur);
            i = i + 1;
        }
        out
    }
}

proof fn lemma_first_data_extends(tracks: Seq<(u32, u8)>, k: int)
    requires
        0 < k <= tracks.len(),
        first_data_offset(tracks.take(k - 1)) is None,
        is_data_track(tracks[k - 1]),
    ensures
        first_data_offset(tracks) == Some(tracks[k - 1].0),
    decreases tracks.len() - k,
{
    if k == tracks.len() {
        assert(tracks.take(k) =~= tracks);
        assert(tracks.drop_last() =~= tracks.take(k - 1));
    } else {
        assert(tracks.drop_last().take(k - 1) =~= tracks.take(k - 1));
        lemma_first_data_extends(tracks.drop_last(), k);
    }
}


proof fn lemma_first_data_none(tracks: Seq<(u32, u8)>)
    requires
        forall|j: int| 0 <= j < tracks.len() ==> !is_data_track(#[trigger] tracks[j]),
    ensures
        first_data_offset(tracks) is None,
    decreases tracks.len(),
{
    if tracks.len() > 0 {
        let t = tracks.drop_last();
        assert forall|j: int| 0 <= j < t.len() implies !is_data_track(#[trigger] t[j]) by {
            assert(t[j] == tracks[j]);
        }
        lemma_first_data_none(t);
        assert(!is_data_track(tracks[tracks.len() - 1]));
    }
}

proof fn lemma_hex_frames(audio: Seq<u32>)
    ensures
        hex_frames(audio).len() == 8 * audio.len(),
        forall|i: int|
            0 <= i < audio.len() ==> #[trigger] hex_frames(audio).subrange(8 * i, 8 * i + 8)
                == text::hex_fixed((audio[i] + 150) as nat, 8),
    decreases audio.len(),
{
    if audio.len() > 0 {
        let init = audio.drop_last();
        lemma_hex_frames(init);
        let h = hex_frames(init);
        let l = text::hex_fixed((audio.last() + 150) as nat, 8);
        text::lemma_hex_fixed_len((audio.last() + 150) as nat, 8);
        assert forall|i: int| 0 <= i < audio.len() implies #[trigger] hex_frames(audio).subrange(
            8 * i,
            8 * i + 8,
        ) == text::hex_fixed((audio[i] + 150) as nat, 8) by {
            if i < init.len() {
                assert((h + l).subrange(8 * i, 8 * i + 8) =~= h.subrange(8 * i, 8 * i + 8));
                assert(init[i] == audio[i]);
            } else {
                assert((h + l).subrange(8 * i, 8 * i + 8) =~= l);
            }
        }
    }
}

proof fn lemma_zero_entries(n: nat)
    ensures
        zero_entries(n).len() == 8 * n,
        forall|i: int| 0 <= i < 8 * n ==> #[trigger] zero_entries(n)[i] == '0',
    decreases n,
{
    if n > 0 {
        lemma_zero_entries((n - 1) as nat);
        let z = zero_entries((n - 1) as nat);
        let e = seq!['0', '0', '0', '0', '0', '0', '0', '0'];
        assert forall|i: int| 0 <= i < 8 * n implies #[trigger] zero_entries(n)[i] == '0' by {
            if i < z.len() {
                assert((z + e)[i] == z[i]);
            } else {
                assert((z + e)[i] == e[i - z.len()]);
            }
        }
    }
}

/// After the lead-out, the DiscID text holds the frame offset (LBA + 150) of
/// each audio track in order, eight hex digits each, then "0" padding up to
/// 99 tracks: 804 characters for a disc of at most 99 audio tracks.
pub proof fn law_disc_id_text_tracks(toc: Toc)
    ensures
        forall|i: int|
            0 <= i < toc.spec_audio().len() ==> #[trigger] toc.spec_disc_id_text().subrange(
                12 + 8 * i,
                20 + 8 * i,
            ) == text::hex_fixed((toc.spec_audio()[i] + 150) as nat, 8),
        toc.spec_audio().len() <= 99 ==> toc.spec_disc_id_text().len() == 804,
        forall|j: int|
            12 + 8 * toc.spec_audio().len() <= j < toc.spec_disc_id_text().len()
                ==> #[trigger] toc.spec_disc_id_text()[j] == '0',
{
    let audio = toc.spec_audio();
    let a = text::hex_fixed(toc.first as nat, 2);
    let b = text::hex_fixed(toc.last as nat, 2);
    let c = text::hex_fixed(toc.spec_leadout_frame() as nat, 8);
    let n: nat = if audio.len() < 99 {
        (99 - audio.len()) as nat
    } else {
        0
    };
    let h = hex_frames(audio);
    let z = zero_entries(n);
    text::lemma_hex_fixed_len(toc.first as nat, 2);
    text::lemma_hex_fixed_len(toc.last as nat, 2);
    text::lemma_hex_fixed_len(toc.spec_leadout_frame() as nat, 8);
    lemma_hex_frames(audio);
    lemma_zero_entries(n);
    let t = toc.spec_disc_id_text();
    let head = a + b + c;
    assert(t =~= head + h + z);
    assert forall|i: int| 0 <= i < audio.len() implies #[trigger] t.subrange(12 + 8 * i, 20 + 8 * i)
        == text::hex_fixed((audio[i] + 150) as nat, 8) by {
        assert(t.subrange(12 + 8 * i, 20 + 8 * i) =~= h.subrange(8 * i, 8 * i + 8));
    }
    assert forall|j: int| 12 + 8 * audio.len() <= j < t.len() implies #[trigger] t[j] == '0' by {
        assert(t[j] == z[j - 12 - 8 * audio.len()]);
    }
}

/// The text hashed into the DiscID starts with the first and last track
/// numbers (two hex digits each) and the lead-out frame offset (eight hex
/// digits): on an enhanced disc the first data track's LBA + 150 - 11400,
/// otherwise the lead-out LBA + 150. This is the lead-out the TOC string
/// ends with and the last track's duration runs to.
pub proof fn law_disc_id_text_leadout(toc: Toc)
    ensures
        toc.spec_disc_id_text().subrange(0, 2) == text::hex_fixed(toc.first as nat, 2),
        toc.spec_disc_id_text().subrange(2, 4) == text::hex_fixed(toc.last as nat, 2),
        (forall|j: int| 0 <= j < toc.tracks@.len() ==> !is_data_track(#[trigger] toc.tracks@[j]))
            ==> toc.spec_disc_id_text().subrange(4, 12) == text::hex_fixed(
            (toc.leadout + 150) as nat,
            8,
        ),
        forall|k: int|
            #![trigger toc.tracks@[k]]
            0 <= k < toc.tracks@.len() && toc.tracks@[k].1 & 4u8 != 0 && (forall|j: int|
                0 <= j < k ==> toc.tracks@[j].1 & 4u8 == 0) ==> toc.spec_disc_id_text().subrange(
                4,
                12,
            ) == text::hex_fixed((toc.tracks@[k].0 + 150 - 11400) as nat, 8),
        toc.spec_disc_id_text().subrange(4, 12) == text::hex_fixed(
            toc.spec_leadout_frame() as nat,
            8,
        ),
        toc.spec_toc_string().subrange(
            toc.spec_toc_string().len() - text::dec_chars(toc.spec_leadout_frame() as nat).len(),
            toc.spec_toc_string().len() as int,
        ) == text::dec_chars(toc.spec_leadout_frame() as nat),
{
    let audio = toc.spec_audio();
    let a = text::hex_fixed(toc.first as nat, 2);
    let b = text::hex_fixed(toc.last as nat, 2);
    let c = text::hex_fixed(toc.spec_leadout_frame() as nat, 8);
    let rest = hex_frames(audio) + zero_entries(if audio.len() < 99 {
        (99 - audio.len()) as nat
    } else {
        0
    });
    text::lemma_hex_fixed_len(toc.first as nat, 2);
    text::lemma_hex_fixed_len(toc.last as nat, 2);
    text::lemma_hex_fixed_len(toc.spec_leadout_frame() as nat, 8);
    let t = toc.spec_disc_id_text();
    assert(t =~= a + b + c + rest);
    assert(t.subrange(0, 2) =~= a);
    assert(t.subrange(2, 4) =~= b);
    assert(t.subrange(4, 12) =~= c);
    let tr = toc.tracks@;
    if forall|j: int| 0 <= j < tr.len() ==> !is_data_track(#[trigger] tr[j]) {
        lemma_first_data_none(tr);
    }
    assert forall|k: int|
        #![trigger tr[k]]
        0 <= k < tr.len() && tr[k].1 & 4u8 != 0 && (forall|j: int| 0 <= j < k ==> tr[j].1 & 4u8 == 0)
            implies t.subrange(4, 12) == text::hex_fixed((tr[k].0 + 150 - 11400) as nat, 8) by {
        let p = tr.take(k);
        assert forall|j: int| 0 <= j < p.len() implies !is_data_track(#[trigger] p[j]) by {
            assert(p[j] == tr[j]);
        }
        lemma_first_data_none(p);
        assert(tr.take(k + 1 - 1) =~= p);
        lemma_first_data_extends(tr, k + 1);
    }
    // the TOC string ends with the same lead-out, in decimal
    let fields = toc.spec_toc_fields();
    let head = text::dec_chars(toc.first as nat) + seq![' '] + text::dec_chars(toc.last as nat);
    let sp = spaced_decimals(fields);
    assert(fields.last() == toc.spec_leadout_frame());
    assert(sp =~= spaced_decimals(fields.drop_last()) + seq![' '] + text::dec_chars(
        toc.spec_leadout_frame() as nat,
    ));
    let d = text::dec_chars(toc.spec_leadout_frame() as nat);
    let ts = toc.spec_toc_string();
    assert(ts =~= (head + spaced_decimals(fields.drop_last()) + seq![' ']) + d);
    assert(ts.subrange(ts.len() - d.len(), ts.len() as int) =~= d);
}

/// The SHA-1 digest of a byte string.
pub uninterp spec fn sha1_of(data: Seq<u8>) -> Seq<u8>;

/// `sha1::Sha1::digest`. Claimed: the result is `sha1_of` of the input and,
/// SHA-1 digests being 160 bits, 20 bytes long.
#[verifier::external_body]
fn sha1_digest(data: &[u8]) -> (d: Vec<u8>)
    ensures
        d@ == sha1_of(data@),
        d@.len() == 20,
{
    Sha1::digest(data).to_vec()
}

/// MusicBrainz's Base64 variant: `.` and `_` for the last two values and `-`
/// for padding.
pub open spec fn mb_base64(data: Seq<u8>) -> Seq<char> {
    base64::b64_encoding(data, '.', '_', '-')
}

/// MusicBrainz's Base64 is standard Base64 with `+`, `/` and `=` replaced by
/// `.`, `_` and `-`; like it, four characters per started group of three
/// bytes (a 20-byte digest gives 28).
pub proof fn law_mb_base64_is_std_mapped(d: Seq<u8>)
    ensures
        mb_base64(d) == base64::std_base64(d).map_values(
            |c: char|
                if c == '+' {
                    '.'
                } else if c == '/' {
                    '_'
                } else if c == '=' {
                    '-'
                } else {
                    c
                },
        ),
        mb_base64(d).len() == 4 * ((d.len() + 2) / 3),
{
    base64::lemma_encoding_mapped(d);
    base64::law_base64_length(d, '.', '_', '-');
    let m = base64::std_base64(d).map_values(
        |c: char|
            if c == '+' {
                '.'
            } else if c == '/' {
                '_'
            } else if c == '=' {
                '-'
            } else {
                c
            },
    );
    assert forall|i: int| 0 <= i < m.len() implies m[i] == mb_base64(d)[i] by {
        assert(base64::mb_char(base64::std_base64(d)[i]) == mb_base64(d)[i]);
    }
    assert(m =~= mb_base64(d));
}

/// MusicBrainz-style Base64 of a digest (20 bytes give 28 characters).
pub fn b64_mb(data: &[u8]) -> (s: String)
    ensures
        s@ == mb_base64(data@),
{
    base64::encode_with(data, '.', '_', '-')
}

/// The hexadecimal TOC description whose SHA-1 is the DiscID.
pub fn disc_id_text(toc: &Toc) -> (s: String)
    requires
        toc.leadout_ok(),
        toc.frames_fit(),
    ensures
        s@ == toc.spec_disc_id_text(),
{
    let audio = toc.audio_offsets();
    let leadout = toc.leadout_frame();
    let mut s = String::new();
    push_hex(&mut s, toc.first as u64, 2);
    push_hex(&mut s, toc.last as u64, 2);
    push_hex(&mut s, leadout as u64, 8);
    let ghost head = s@;
    let n = audio.len();
    let mut i: usize = 0;
    while i < n
        invariant
            n == audio@.len(),
            audio@ == toc.spec_audio(),
            toc.frames_fit(),
            i <= n,
            s@ == head + hex_frames(audio@.take(i as int)),
        decreases n - i,
    {
        push_hex(&mut s, (audio[i] + LEADIN) as u64, 8);
        assert(audio@.take(i + 1).drop_last() =~= audio@.take(i as int));
        assert(s@ =~= head + hex_frames(audio@.take(i + 1)));
        i = i + 1;
    }
    assert(audio@.take(n as int) =~= audio@);
    let ghost mid = s@;
    let mut k: usize = n;
    while k < 99
        invariant
            n <= k <= 99 || (n > 99 && k == n),
            s@ == mid + zero_entries((k - n) as nat),
        decreases 99 - k,
    {
        let ghost before = s@;
        push_str(&mut s, "00000000");
        proof {
            reveal_strlit("00000000");
        }
        assert(s@ =~= mid + zero_entries((k + 1 - n) as nat));
        k = k + 1;
    }
    assert(s@ =~= toc.spec_disc_id_text());
    s
}

/// The DiscID of a table of contents: MusicBrainz Base64 of the SHA-1 of its
/// hexadecimal description. A disc without audio tracks has none.
pub fn compute_disc_id(toc: &Toc) -> (r: Result<String, String>)
    requires
        toc.spec_audio().len() > 0 ==> toc.leadout_ok() && toc.frames_fit(),
    ensures
        r is Err <==> toc.spec_audio().len() == 0,
        r matches Err(e) ==> e@ == "没有音频轨"@,
        r matches Ok(id) ==> id@ == mb_base64(
            sha1_of(vstd::utf8::encode_utf8(toc.spec_disc_id_text())),
        ) && id@.len() == 28,
{
    let audio = toc.audio_offsets();
    if audio.len() == 0 {
        return Err(string_of("没有音频轨"));
    }
    let text = disc_id_text(toc);
    let digest = sha1_digest(text.as_str().as_bytes());
    proof {
        base64::law_base64_length(digest@, '.', '_', '-');
    }
    Ok(b64_mb(digest.as_slice()))
}

} // verus!
