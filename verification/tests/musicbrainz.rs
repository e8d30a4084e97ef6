use cd_core::mb::{
    lookup_failure, not_found_error,
    discid_lookup_url, pick_release, pick_release_index, release_artists, release_url, retry_decision,
    retry_failure, search_url, tracks_of, ArtistCredit, HttpAttempt, Medium, Release, RetryDecision, Track,
};

fn medium(format: Option<&str>, count: Option<u32>) -> Medium {
    Medium { format: format.map(String::from), track_count: count, tracks: None, discs: None }
}

fn release(id: &str, status: Option<&str>, country: Option<&str>, media: Option<Vec<Medium>>) -> Release {
    Release {
        id: id.into(),
        title: "T".into(),
        date: None,
        country: country.map(String::from),
        status: status.map(String::from),
        barcode: None,
        disambiguation: None,
        artist_credit: None,
        media,
        release_group: None,
    }
}

#[test]
fn picks_official_cd_from_preferred_country() {
    let rels = vec![
        release("a", None, Some("US"), Some(vec![medium(Some("CD"), Some(10))])),
        release("b", Some("Official"), Some("TW"), Some(vec![medium(Some("CD"), Some(10))])),
        release("c", Some("Official"), Some("JP"), Some(vec![medium(Some("Vinyl"), Some(10))])),
    ];
    assert_eq!(pick_release(&rels, None).unwrap().id, "b");
    assert_eq!(pick_release_index(&rels, None), Some(1));
}

#[test]
fn track_count_decides() {
    let rels = vec![
        release("a", Some("Official"), None, Some(vec![medium(Some("CD"), Some(12))])),
        release("b", Some("Official"), None, Some(vec![medium(Some("CD"), Some(10))])),
    ];
    assert_eq!(pick_release(&rels, Some(10)).unwrap().id, "b");
    assert_eq!(pick_release(&rels, Some(12)).unwrap().id, "a");
}

#[test]
fn ties_go_to_the_last_candidate() {
    let rels = vec![release("a", None, None, None), release("b", None, None, None)];
    assert_eq!(pick_release(&rels, None).unwrap().id, "b");
    assert!(pick_release(&[], None).is_none());
}

#[test]
fn single_cd_counts_extra() {
    let rels = vec![
        release("one", None, None, Some(vec![medium(Some("CD"), None)])),
        release("two", None, None, Some(vec![medium(Some("CD"), None), medium(Some("CD"), None)])),
    ];
    assert_eq!(pick_release(&rels, None).unwrap().id, "one");
}

#[test]
fn artists_joined() {
    let mut r = release("a", None, None, None);
    assert_eq!(release_artists(&r), "");
    r.artist_credit = Some(vec![ArtistCredit { name: "A".into() }, ArtistCredit { name: "B".into() }]);
    assert_eq!(release_artists(&r), "A / B");
}

#[test]
fn tracks_of_first_medium() {
    let t = Track { title: "x".into(), length: Some(1000), artist_credit: None, recording: None };
    let mut m = medium(Some("CD"), Some(1));
    m.tracks = Some(vec![t]);
    let r = release("a", None, None, Some(vec![m, medium(None, None)]));
    let ts = tracks_of(&r);
    assert_eq!(ts.len(), 1);
    assert_eq!(ts[0].title, "x");
    assert!(tracks_of(&release("b", None, None, None)).is_empty());
}

#[test]
fn request_urls() {
    assert_eq!(
        discid_lookup_url("49HHV7Eb8UKF3aQiNmu1GR8vKTY-"),
        "https://musicbrainz.org/ws/2/discid/49HHV7Eb8UKF3aQiNmu1GR8vKTY-?inc=recordings%20artist-credits&fmt=json"
    );
    assert_eq!(
        search_url("周杰伦 范特西"),
        "https://musicbrainz.org/ws/2/release?query=%E5%91%A8%E6%9D%B0%E4%BC%A6%20%E8%8C%83%E7%89%B9%E8%A5%BF&limit=8&fmt=json"
    );
    assert_eq!(
        release_url("abc"),
        "https://musicbrainz.org/ws/2/release/abc?inc=media%20recordings%20artist-credits&fmt=json"
    );
}

#[test]
fn retry_policy() {
    assert!(matches!(retry_decision(0, HttpAttempt::Response), RetryDecision::Deliver));
    assert!(matches!(retry_decision(1, HttpAttempt::Status(404, "x".into())), RetryDecision::NotFound));
    match retry_decision(1, HttpAttempt::Status(503, "x".into())) {
        RetryDecision::Retry { wait_secs, error } => {
            assert_eq!(wait_secs, 6);
            assert_eq!(error, "HTTP 503");
        }
        _ => panic!("retry expected"),
    }
    match retry_decision(2, HttpAttempt::Failure("timeout".into())) {
        RetryDecision::Retry { wait_secs, error } => {
            assert_eq!(wait_secs, 0);
            assert_eq!(error, "timeout");
        }
        _ => panic!("retry expected"),
    }
    match retry_decision(0, HttpAttempt::Status(400, "bad".into())) {
        RetryDecision::Retry { wait_secs, error } => {
            assert_eq!(wait_secs, 2);
            assert_eq!(error, "bad");
        }
        _ => panic!("retry expected"),
    }
    assert_eq!(retry_failure("HTTP 503"), "MusicBrainz 请求失败: HTTP 503");
}

#[test]
fn unknown_discid_means_no_candidates() {
    assert_eq!(not_found_error(), "not_found");
    assert!(lookup_failure(not_found_error()).unwrap().is_empty());
    assert_eq!(lookup_failure("HTTP 503".to_string()).unwrap_err(), "HTTP 503");
}
