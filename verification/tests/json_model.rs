use cd_core::json::{key_eq, key_less, Json, JsonNumber};

#[test]
fn members_are_kept_in_byte_order_of_keys() {
    let o = Json::empty_object()
        .with_member("b", Json::Null)
        .with_member("a", Json::Bool(true))
        .with_member("Z", Json::Null)
        .with_member("é", Json::Null)
        .with_member("a", Json::Bool(false));
    match &o {
        Json::Object(es) => {
            let ks: Vec<&str> = es.iter().map(|(k, _)| k.as_str()).collect();
            assert_eq!(ks, vec!["Z", "a", "b", "é"]);
        }
        _ => panic!("object expected"),
    }
    assert!(matches!(o.get("a"), Some(Json::Bool(false))));
}

#[test]
fn lookups() {
    let arr = Json::Array(vec![Json::text("x"), Json::Number(JsonNumber::PosInt(7))]);
    assert_eq!(arr.get_index(0).unwrap().as_str(), Some("x"));
    assert_eq!(arr.get_index(1).unwrap().as_u64(), Some(7));
    assert!(arr.get_index(2).is_none());
    assert!(arr.get("x").is_none());
    assert_eq!(Json::Number(JsonNumber::NegInt(-1)).as_u64(), None);
    assert_eq!(Json::Number(JsonNumber::Float(1.5f64.to_bits())).as_u64(), None);
}

#[test]
fn removing_members() {
    let o = Json::empty_object().with_member("a", Json::Null).with_member("b", Json::Null);
    let o = o.without_member("a");
    assert!(o.get("a").is_none());
    assert!(o.get("b").is_some());
    assert!(matches!(Json::Bool(true).without_member("a"), Json::Bool(true)));
}

#[test]
fn key_order_is_byte_order() {
    assert!(key_less("Z", "a"));
    assert!(key_less("ab", "abc"));
    assert!(!key_less("abc", "abc"));
    assert!(key_less("z", "é"));
    assert!(key_eq("周", "周"));
    assert!(!key_eq("a", "b"));
}

#[test]
fn set_path_creates_objects() {
    let path = vec!["x".to_string(), "y".to_string()];
    let doc = Json::Null;
    assert!(doc.path_is_writable(&path, 0));
    let doc = doc.set_path(&path, 0, Json::text("v"));
    assert_eq!(doc.lookup_path(&path, 0).as_str(), Some("v"));
    assert!(doc.lookup_path(&vec!["x".to_string(), "z".to_string()], 0).is_null());
    assert!(!Json::text("s").path_is_writable(&path, 0));
}
