use cd_core::cover::{cache_key, cover_ext, cover_file_name, cover_urls, find_cached, is_png, try_next_after};

#[test]
fn cache_key_is_first_eight_chars() {
    assert_eq!(cache_key("76df3287-6cda-33eb-8e9a-044b5e15ffdd"), "76df3287");
    assert_eq!(cache_key("abc"), "abc");
    assert_eq!(cache_key("一二三四五六七八九"), "一二三四五六七八");
}

#[test]
fn newest_matching_file_wins() {
    let files = vec![
        ("cover-76df3287.jpg".to_string(), Some(100i128)),
        ("other.jpg".to_string(), Some(500)),
        ("76df3287-76df3287.png".to_string(), Some(300)),
        ("x-76df3287.jpg".to_string(), Some(300)),
    ];
    assert_eq!(find_cached("76df3287", &files), Some(2));
    assert_eq!(find_cached("nothing", &files), None);
}

#[test]
fn unknown_time_replaces_the_choice() {
    let files = vec![("a-k.jpg".to_string(), Some(10i128)), ("b-k.jpg".to_string(), None)];
    assert_eq!(find_cached("k", &files), Some(1));
    let files = vec![("b-k.jpg".to_string(), None), ("a-k.jpg".to_string(), Some(-5i128))];
    assert_eq!(find_cached("k", &files), Some(0));
}

#[test]
fn urls_to_try() {
    assert_eq!(
        cover_urls("R", Some("G")),
        vec![
            "https://coverartarchive.org/release-group/G/front-500",
            "https://coverartarchive.org/release/R/front-500",
            "https://coverartarchive.org/release/R/front-250",
        ]
    );
    assert_eq!(cover_urls("R", None).len(), 2);
    assert!(try_next_after(Some(404)));
    assert!(!try_next_after(Some(403)));
    assert!(!try_next_after(Some(500)));
    assert!(!try_next_after(None));
}

#[test]
fn file_names_and_types() {
    let png = [0x89u8, b'P', b'N', b'G', b'\r', b'\n', 0x1a, b'\n', 0];
    assert!(is_png(&png));
    assert_eq!(cover_ext(&png), "png");
    assert_eq!(cover_ext(&[0xff, 0xd8, 0xff]), "jpg");
    assert_eq!(cover_file_name("76df3287", "76df3287-6cda", "png"), "76df3287-76df3287.png");
    assert_eq!(cover_file_name("ab", "ab", "jpg"), "ab-ab.jpg");
}
