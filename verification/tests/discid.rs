use cd_core::discid::{b64_mb, compute_disc_id, disc_id_text, Toc};

fn official_toc() -> Toc {
    Toc {
        first: 1,
        last: 6,
        tracks: vec![
            (0, 0x02),
            (15213, 0x02),
            (32164, 0x02),
            (46442, 0x02),
            (63264, 0x02),
            (80339, 0x02),
        ],
        leadout: 95312,
    }
}

fn cd_extra_toc() -> Toc {
    Toc {
        first: 1,
        last: 8,
        tracks: vec![
            (0, 0x00),
            (13959, 0x00),
            (33436, 0x00),
            (52927, 0x00),
            (65631, 0x00),
            (77742, 0x00),
            (99024, 0x00),
            (125824, 0x06),
        ],
        leadout: 188333,
    }
}

#[test]
fn official_example() {
    let toc = official_toc();
    assert_eq!(compute_disc_id(&toc).unwrap(), "49HHV7Eb8UKF3aQiNmu1GR8vKTY-");
    assert_eq!(toc.toc_string(), "1 6 150 15363 32314 46592 63414 80489 95462");
}

#[test]
fn cd_extra_leadout_correction() {
    let toc = cd_extra_toc();
    assert_eq!(toc.leadout_frame(), 114574);
    assert_eq!(compute_disc_id(&toc).unwrap().len(), 28);
}

#[test]
fn audio_offsets_skip_data_tracks() {
    assert_eq!(
        cd_extra_toc().audio_offsets(),
        vec![0, 13959, 33436, 52927, 65631, 77742, 99024]
    );
    assert_eq!(official_toc().audio_offsets().len(), 6);
}

#[test]
fn leadout_frame_without_data_track() {
    assert_eq!(official_toc().leadout_frame(), 95462);
}

#[test]
fn toc_string_of_enhanced_disc_ends_at_corrected_leadout() {
    assert_eq!(
        cd_extra_toc().toc_string(),
        "1 8 150 14109 33586 53077 65781 77892 99174 114574"
    );
}

#[test]
fn track_durations_in_ms() {
    let d = official_toc().track_durations_ms();
    assert_eq!(d.len(), 6);
    // (15363 - 150) frames = 15213 frames = 202840 ms
    assert_eq!(d[0], 15213 * 1000 / 75);
    assert_eq!(d[5], (95462 - 80489) * 1000 / 75);
}

#[test]
fn disc_without_audio_has_no_id() {
    let toc = Toc { first: 1, last: 1, tracks: vec![(0, 0x04)], leadout: 20000 };
    assert_eq!(compute_disc_id(&toc).unwrap_err(), "没有音频轨");
}

#[test]
fn disc_id_text_is_hex_with_99_entries() {
    let t = disc_id_text(&official_toc());
    assert_eq!(t.len(), 2 + 2 + 8 + 99 * 8);
    assert!(t.starts_with("0106000174E6"));
    assert!(t[12..20].eq("00000096"));
    assert!(t.ends_with("00000000"));
}

#[test]
fn mb_base64_padding_and_alphabet() {
    assert_eq!(b64_mb(&[0xfb, 0xff]), "._8-");
    assert_eq!(b64_mb(&[0xfb, 0xff, 0xbf]), "._._");
    assert_eq!(b64_mb(&[0xff]), "_w--");
    assert_eq!(b64_mb(&[]), "");
    assert_eq!(b64_mb(&[0u8; 20]).len(), 28);
}

#[test]
fn mb_base64_is_standard_base64_remapped() {
    for data in [&b""[..], b"\xfb", b"\xfb\xff", b"\xfb\xff\xfe", b"hello world!!", &[0xffu8; 20][..]] {
        let mapped: String = cd_core::base64::b64(data)
            .chars()
            .map(|c| match c {
                '+' => '.',
                '/' => '_',
                '=' => '-',
                c => c,
            })
            .collect();
        assert_eq!(cd_core::discid::b64_mb(data), mapped);
        assert_eq!(cd_core::discid::b64_mb(data).len(), 4 * ((data.len() + 2) / 3));
    }
}
