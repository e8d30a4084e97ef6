use cd_core::json::{Json, JsonNumber};
use cd_core::library::{chrono_now, Library};

fn text(s: &str) -> Json {
    Json::text(s)
}

fn release(title: &str) -> Json {
    Json::empty_object().with_member("id", text("r1")).with_member("title", text(title))
}

fn keys(j: &Json) -> Vec<String> {
    match j {
        Json::Object(es) => es.iter().map(|(k, _)| k.clone()).collect(),
        _ => vec![],
    }
}

#[test]
fn empty_collection_has_discs_object() {
    let lib = Library::load(None);
    assert!(lib.entries().is_empty());
    assert!(lib.get("abc").is_none());
    assert_eq!(keys(lib.document()), vec!["discs".to_string()]);
}

#[test]
fn put_then_get_returns_entry() {
    let mut lib = Library::load(None);
    assert!(lib.can_put("disc-1"));
    lib.put("disc-1", &release("Album"), "epoch-5");
    let e = lib.get("disc-1").unwrap();
    assert_eq!(keys(&e), vec!["release".to_string(), "savedAt".to_string()]);
    assert_eq!(e.get("savedAt").unwrap().as_str(), Some("epoch-5"));
    assert_eq!(
        e.get("release").unwrap().get("title").unwrap().as_str(),
        Some("Album")
    );
    assert!(lib.get("disc-2").is_none());
}

#[test]
fn entries_are_in_discid_order() {
    let mut lib = Library::load(None);
    lib.put("c", &release("C"), "t");
    lib.put("a", &release("A"), "t");
    lib.put("b", &release("B"), "t");
    let ks: Vec<String> = lib.entries().into_iter().map(|(k, _)| k).collect();
    assert_eq!(ks, vec!["a", "b", "c"]);
}

#[test]
fn put_twice_replaces() {
    let mut lib = Library::load(None);
    lib.put("a", &release("Old"), "t1");
    lib.put("a", &release("New"), "t2");
    assert_eq!(lib.entries().len(), 1);
    let e = lib.get("a").unwrap();
    assert_eq!(e.get("release").unwrap().get("title").unwrap().as_str(), Some("New"));
}

#[test]
fn remove_drops_only_that_disc() {
    let mut lib = Library::load(None);
    lib.put("a", &release("A"), "t");
    lib.put("b", &release("B"), "t");
    lib.remove("a");
    assert!(lib.get("a").is_none());
    assert!(lib.get("b").is_some());
    lib.remove("zzz");
    assert_eq!(lib.entries().len(), 1);
}

#[test]
fn remove_on_non_object_document_changes_nothing() {
    let mut lib = Library::load(Some(Json::Array(vec![])));
    lib.remove("a");
    assert!(matches!(lib.document(), Json::Array(v) if v.is_empty()));
}

#[test]
fn medium_roundtrip() {
    let mut lib = Library::load(None);
    assert_eq!(lib.medium("a"), None);
    assert!(lib.can_set_medium("a"));
    lib.set_medium("a", 1);
    assert_eq!(lib.medium("a"), Some(1));
    // recording a medium for an unknown disc creates its entry
    assert!(lib.get("a").is_some());
}

#[test]
fn medium_is_truncated_to_32_bits() {
    let doc = Json::empty_object().with_member(
        "discs",
        Json::empty_object().with_member(
            "a",
            Json::empty_object().with_member("medium", Json::Number(JsonNumber::PosInt((1u64 << 32) + 3))),
        ),
    );
    let lib = Library::load(Some(doc));
    assert_eq!(lib.medium("a"), Some(3));
}

#[test]
fn update_trims_and_ignores_blank() {
    let mut lib = Library::load(None);
    lib.put("a", &release("Old"), "t");
    assert!(lib.can_update("a", Some("  New Title "), Some("  ")));
    lib.update("a", Some("  New Title "), Some("  "));
    let rel = lib.get("a").unwrap().get("release").unwrap().deep_clone();
    assert_eq!(rel.get("title").unwrap().as_str(), Some("New Title"));
    assert!(rel.get("artist-credit").is_none());

    lib.update("a", None, Some(" Singer "));
    let rel = lib.get("a").unwrap().get("release").unwrap().deep_clone();
    let credit = rel.get("artist-credit").unwrap();
    assert_eq!(credit.get_index(0).unwrap().get("name").unwrap().as_str(), Some("Singer"));
    assert!(credit.get_index(1).is_none());
}

#[test]
fn update_of_unknown_disc_creates_null_release() {
    let mut lib = Library::load(None);
    lib.update("x", None, None);
    let e = lib.get("x").unwrap();
    assert!(e.get("release").unwrap().is_null());
}

#[test]
fn update_into_a_text_release_is_refused() {
    let doc = Json::empty_object().with_member(
        "discs",
        Json::empty_object().with_member("a", Json::empty_object().with_member("release", text("oops"))),
    );
    let lib = Library::load(Some(doc));
    assert!(!lib.can_update("a", Some("T"), None));
    assert!(lib.can_update("a", Some("   "), None));
    assert!(!Library::load(Some(Json::Bool(true))).can_put("a"));
}

#[test]
fn saved_at_stamp() {
    assert_eq!(chrono_now(0), "epoch-0");
    assert_eq!(chrono_now(1700000000), "epoch-1700000000");
}

#[test]
fn set_medium_keeps_saved_release() {
    let mut lib = Library::load(None);
    lib.put("a", &release("Album"), "t");
    assert!(lib.can_set_medium("a"));
    lib.set_medium("a", 2);
    assert_eq!(lib.medium("a"), Some(2));
    let e = lib.get("a").unwrap();
    assert_eq!(e.get("release").unwrap().get("title").unwrap().as_str(), Some("Album"));
    assert_eq!(e.get("savedAt").unwrap().as_str(), Some("t"));
}

#[test]
fn remove_twice_is_remove_once() {
    let mut lib = Library::load(None);
    lib.put("a", &release("A"), "t");
    lib.put("b", &release("B"), "t");
    lib.remove("a");
    let once: Vec<String> = lib.entries().into_iter().map(|(k, _)| k).collect();
    lib.remove("a");
    let twice: Vec<String> = lib.entries().into_iter().map(|(k, _)| k).collect();
    assert_eq!(once, twice);
    assert_eq!(twice, vec!["b"]);
}

#[test]
fn remove_clears_a_key_given_twice() {
    let discs = Json::Object(vec![
        ("a".to_string(), release("A1")),
        ("b".to_string(), release("B")),
        ("a".to_string(), release("A2")),
    ]);
    let mut lib = Library::load(Some(Json::empty_object().with_member("discs", discs)));
    lib.remove("a");
    assert!(lib.get("a").is_none());
    assert!(lib.get("b").is_some());
    assert_eq!(lib.entries().len(), 1);
}

#[test]
fn set_medium_changes_nothing_else() {
    let mut lib = Library::load(None);
    lib.put("a", &release("A"), "t1");
    lib.put("b", &release("B"), "t2");
    lib.set_medium("a", 1);
    let a = lib.get("a").unwrap();
    assert_eq!(a.get("savedAt").unwrap().as_str(), Some("t1"));
    assert_eq!(a.get("release").unwrap().get("title").unwrap().as_str(), Some("A"));
    let b = lib.get("b").unwrap();
    assert_eq!(keys(&b), vec!["release".to_string(), "savedAt".to_string()]);
    assert_eq!(lib.medium("b"), None);
    assert_eq!(lib.medium("zzz"), None);
}
