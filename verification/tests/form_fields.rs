use datalogts::errors::RelayError;
use datalogts::form::{extract_fields, unquote_plus};

fn extract(body: &[u8]) -> Result<(Vec<u8>, Vec<u8>, Vec<u8>, Vec<u8>), RelayError> {
    extract_fields(&body.to_vec()).map(|s| (s.api, s.app, s.env, s.data))
}

#[test]
fn extract_all_fields() {
    let (api, app, env, data) = extract(b"api=a1&app=b2&env=c3&data=hello").unwrap();
    assert_eq!(api, b"a1".to_vec());
    assert_eq!(app, b"b2".to_vec());
    assert_eq!(env, b"c3".to_vec());
    assert_eq!(data, b"hello".to_vec());
}

#[test]
fn extract_key_order_free() {
    let (api, app, env, data) = extract(b"data=d&env=e&app=a&api=i").unwrap();
    assert_eq!(api, b"i".to_vec());
    assert_eq!(app, b"a".to_vec());
    assert_eq!(env, b"e".to_vec());
    assert_eq!(data, b"d".to_vec());
}

#[test]
fn first_value_wins() {
    let (api, _, _, data) = extract(b"api=first&api=second&app=a&env=e&data=x&data=y").unwrap();
    assert_eq!(api, b"first".to_vec());
    assert_eq!(data, b"x".to_vec());
}

#[test]
fn missing_key_is_malformed() {
    assert_eq!(extract(b"api=a&app=b&env=c"), Err(RelayError::MalformedRequest));
    assert_eq!(extract(b""), Err(RelayError::MalformedRequest));
}

#[test]
fn invalid_utf8_body_is_malformed() {
    let mut body = b"api=a&app=b&env=c&data=".to_vec();
    body.push(0xff);
    body.push(0xfe);
    assert_eq!(
        extract_fields(&body).map(|s| s.api).err(),
        Some(RelayError::MalformedRequest)
    );
}

#[test]
fn percent_and_plus_decode() {
    let (_, _, _, data) = extract(b"api=a&app=b&env=c&data=a%20b+c%21").unwrap();
    assert_eq!(data, b"a b c!".to_vec());
}

#[test]
fn semicolon_separates_pairs() {
    let (api, app, env, data) = extract(b"api=a;app=b;env=c;data=d").unwrap();
    assert_eq!(api, b"a".to_vec());
    assert_eq!(app, b"b".to_vec());
    assert_eq!(env, b"c".to_vec());
    assert_eq!(data, b"d".to_vec());
}

#[test]
fn empty_value_does_not_count() {
    let (api, _, _, _) = extract(b"api=&api=real&app=b&env=c&data=d").unwrap();
    assert_eq!(api, b"real".to_vec());
    assert_eq!(extract(b"api=&app=b&env=c&data=d"), Err(RelayError::MalformedRequest));
}

#[test]
fn pair_without_equals_is_skipped() {
    let (api, _, _, _) = extract(b"api&api=x&app=b&env=c&data=d").unwrap();
    assert_eq!(api, b"x".to_vec());
}

#[test]
fn extra_equals_are_trimmed_from_value() {
    let (api, _, _, _) = extract(b"api===x&app=b&env=c&data=d").unwrap();
    assert_eq!(api, b"x".to_vec());
}

#[test]
fn encoded_key_matches() {
    let (api, _, _, _) = extract(b"a%70i=viaescape&app=b&env=c&data=d").unwrap();
    assert_eq!(api, b"viaescape".to_vec());
}

#[test]
fn malformed_escape_stays_literal() {
    assert_eq!(unquote_plus(&b"%zz".to_vec()), b"%zz".to_vec());
    assert_eq!(unquote_plus(&b"%4".to_vec()), b"%4".to_vec());
    assert_eq!(unquote_plus(&b"a%".to_vec()), b"a%".to_vec());
    assert_eq!(unquote_plus(&b"%%41".to_vec()), b"%A".to_vec());
}

#[test]
fn unquote_decodes_both_hex_cases() {
    assert_eq!(unquote_plus(&b"%41%6a%6A".to_vec()), b"Ajj".to_vec());
}

#[test]
fn plus_becomes_space_before_decoding() {
    assert_eq!(unquote_plus(&b"%2B+".to_vec()), b"+ ".to_vec());
}

#[test]
fn non_utf8_value_is_skipped() {
    let (_, _, _, data) = extract(b"api=a&app=b&env=c&data=%ff&data=ok").unwrap();
    assert_eq!(data, b"ok".to_vec());
}
