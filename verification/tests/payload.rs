use resource_indexer::model::Resource;
use resource_indexer::model::ScannedFile;
use resource_indexer::model::build_resource;
use resource_indexer::payload::encode_resource;
use resource_indexer::text::push_decimal;

#[test]
fn payload_exact_json() {
    let r = Resource {
        id: String::from("000061"),
        path: String::from("a"),
        captured_at: Some(120),
    };
    assert_eq!(
        encode_resource(&r),
        "{\"id\":\"000061\",\"path\":\"a\",\"captured_at\":120}"
    );
}

#[test]
fn payload_null_when_unaugmented() {
    let f = ScannedFile { path: String::from("a"), captured_at: None };
    let r = build_resource(&f);
    assert_eq!(
        encode_resource(&r),
        "{\"id\":\"000061\",\"path\":\"a\",\"captured_at\":null}"
    );
}

#[test]
fn payload_escapes_path() {
    let r = Resource {
        id: String::from("x"),
        path: String::from("a\"b\\c\n"),
        captured_at: None,
    };
    assert_eq!(
        encode_resource(&r),
        "{\"id\":\"x\",\"path\":\"a\\\"b\\\\c\\u000a\",\"captured_at\":null}"
    );
}

#[test]
fn payload_parses_as_json() {
    let f = ScannedFile { path: String::from("/roots/pic \"one\".jpg"), captured_at: Some(7) };
    let r = build_resource(&f);
    let text = encode_resource(&r);
    let v: serde_json::Value = serde_json::from_str(&text).unwrap();
    assert_eq!(v.get("id").unwrap().as_str().unwrap(), r.id);
    assert_eq!(v.get("path").unwrap().as_str().unwrap(), "/roots/pic \"one\".jpg");
    assert_eq!(v.get("captured_at").unwrap().as_u64().unwrap(), 7);
}

#[test]
fn decimal_rendering() {
    let mut s = String::new();
    push_decimal(&mut s, 0);
    assert_eq!(s, "0");
    let mut t = String::new();
    push_decimal(&mut t, 18446744073709551615);
    assert_eq!(t, "18446744073709551615");
}
