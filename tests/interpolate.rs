use zone_package::package::InterpolatedString;
use zone_package::target::TargetMap;

#[test]
fn interpolate_noop() {
    let target = TargetMap::new();
    let is = InterpolatedString(String::from("nothing to change"));

    let s = is.interpolate(&target).unwrap();
    assert_eq!(s, is.0);
}

#[test]
fn interpolate_single() {
    let mut target = TargetMap::new();
    target.insert("key1".to_string(), "value1".to_string());
    let is = InterpolatedString(String::from("{{key1}}"));

    let s = is.interpolate(&target).unwrap();
    assert_eq!(s, "value1");
}

#[test]
fn interpolate_single_with_prefix() {
    let mut target = TargetMap::new();
    target.insert("key1".to_string(), "value1".to_string());
    let is = InterpolatedString(String::from("prefix-{{key1}}"));

    let s = is.interpolate(&target).unwrap();
    assert_eq!(s, "prefix-value1");
}

#[test]
fn interpolate_single_with_suffix() {
    let mut target = TargetMap::new();
    target.insert("key1".to_string(), "value1".to_string());
    let is = InterpolatedString(String::from("{{key1}}-suffix"));

    let s = is.interpolate(&target).unwrap();
    assert_eq!(s, "value1-suffix");
}

#[test]
fn interpolate_multiple() {
    let mut target = TargetMap::new();
    target.insert("key1".to_string(), "value1".to_string());
    target.insert("key2".to_string(), "value2".to_string());
    let is = InterpolatedString(String::from("{{key1}}-{{key2}}"));

    let s = is.interpolate(&target).unwrap();
    assert_eq!(s, "value1-value2");
}

#[test]
fn interpolate_missing_key() {
    let mut target = TargetMap::new();
    target.insert("key1".to_string(), "value1".to_string());
    let is = InterpolatedString(String::from("{{key3}}"));

    let err = is
        .interpolate(&target)
        .expect_err("Interpolating string should have failed");
    assert_eq!(
        err.message(),
        "Key 'key3' not found in target, but required in '{{key3}}'"
    );
}

#[test]
fn interpolate_missing_closing() {
    let mut target = TargetMap::new();
    target.insert("key1".to_string(), "value1".to_string());
    let is = InterpolatedString(String::from("{{key1"));

    let err = is
        .interpolate(&target)
        .expect_err("Interpolating string should have failed");
    assert_eq!(
        err.message(),
        "Missing closing '}}' character in '{{key1'"
    );
}

#[test]
fn interpolate_key_as_literal() {
    let mut target = TargetMap::new();
    target.insert("oh{{no".to_string(), "value".to_string());
    let is = InterpolatedString(String::from("{{oh{{no}}"));

    let s = is.interpolate(&target).unwrap();
    assert_eq!(s, "value");
}

#[test]
fn interpolate_absent_key_with_empty_target_names_the_key() {
    let target = TargetMap::new();
    let err = InterpolatedString(String::from("{{absent}}"))
        .interpolate(&target)
        .unwrap_err();
    assert!(err.message().contains("'absent'"));
}

#[test]
fn interpolate_is_left_to_right_and_single_pass() {
    let mut target = TargetMap::new();
    target.insert("a".to_string(), "{{b}}".to_string());
    target.insert("b".to_string(), "x".to_string());
    let s = InterpolatedString(String::from("<{{a}}|{{b}}>")).interpolate(&target).unwrap();
    assert_eq!(s, "<{{b}}|x>");
}

#[test]
fn target_insert_replaces_value() {
    let mut target = TargetMap::new();
    target.insert("k".to_string(), "1".to_string());
    target.insert("k".to_string(), "2".to_string());
    assert_eq!(target.get(&"k".to_string()), Some(&"2".to_string()));
    assert_eq!(target.get(&"j".to_string()), None);
}

#[test]
fn target_parses_pairs() {
    let t = TargetMap::parse("  image=standard\tswitch=asic  machine=gimlet ").unwrap();
    assert_eq!(t.get(&"image".to_string()), Some(&"standard".to_string()));
    assert_eq!(t.get(&"switch".to_string()), Some(&"asic".to_string()));
    assert_eq!(t.to_text(), "image=standard machine=gimlet switch=asic ");
    let again = TargetMap::parse("k=1 k=2 v==x").unwrap();
    assert_eq!(again.get(&"k".to_string()), Some(&"2".to_string()));
    assert_eq!(again.get(&"v".to_string()), Some(&"=x".to_string()));
    assert_eq!(TargetMap::parse("").unwrap(), TargetMap::new());
}

#[test]
fn target_parse_refuses_token_without_equals() {
    let err = TargetMap::parse("a=b oops c=d").unwrap_err();
    assert_eq!(err.message(), "Cannot parse key-value pair out of 'oops'");
}
