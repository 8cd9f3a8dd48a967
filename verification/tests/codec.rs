use chat_relay::codec::{confirmation_text, encode_envelope, parse_envelope, Confirmation};

#[test]
fn encode_then_parse_round_trips() {
    let rid = b"a\"b\\c\nd e".to_vec();
    let contents = vec![0u8, 1, 9, 10, 99, 100, 255];
    let frame = encode_envelope(&rid, &contents);
    let e = parse_envelope(&frame).unwrap();
    assert_eq!(e.receiver_id, rid);
    assert_eq!(e.contents, contents);
}

#[test]
fn encode_envelope_is_canonical_json() {
    let frame = encode_envelope(&b"bob".to_vec(), &vec![1, 2]);
    assert_eq!(frame, b"{\"receiver_id\":\"bob\",\"contents\":[1,2]}".to_vec());
    // and serde reads it back as an object of that shape
    let v: serde_json::Value = serde_json::from_slice(&frame).unwrap();
    assert_eq!(v["receiver_id"], "bob");
}

#[test]
fn parses_canonical_envelope() {
    let e = parse_envelope(b"{\"receiver_id\":\"bob\",\"contents\":[1,2,3]}").unwrap();
    assert_eq!(e.receiver_id, b"bob".to_vec());
    assert_eq!(e.contents, vec![1, 2, 3]);
}

#[test]
fn parses_members_in_either_order() {
    let e = parse_envelope(b"{\"contents\":[255,0],\"receiver_id\":\"alice\"}").unwrap();
    assert_eq!(e.receiver_id, b"alice".to_vec());
    assert_eq!(e.contents, vec![255, 0]);
}

#[test]
fn parses_empty_contents_and_empty_receiver() {
    let e = parse_envelope(b"{\"receiver_id\":\"\",\"contents\":[]}").unwrap();
    assert_eq!(e.receiver_id, Vec::<u8>::new());
    assert_eq!(e.contents, Vec::<u8>::new());
}

#[test]
fn unescapes_receiver_id() {
    let e = parse_envelope(b"{\"receiver_id\":\"a\\\"b\\\\c\\n\",\"contents\":[7]}").unwrap();
    assert_eq!(e.receiver_id, b"a\"b\\c\n".to_vec());
}

#[test]
fn rejects_frames_outside_the_shape() {
    // not an object at all
    assert!(parse_envelope(b"receiver_id").is_none());
    // missing member
    assert!(parse_envelope(b"{\"receiver_id\":\"bob\"}").is_none());
    // the same member twice
    assert!(parse_envelope(b"{\"receiver_id\":\"a\",\"receiver_id\":\"b\"}").is_none());
    // an unknown key
    assert!(parse_envelope(b"{\"receiver\":\"bob\",\"contents\":[1]}").is_none());
    // trailing bytes after the object
    assert!(parse_envelope(b"{\"receiver_id\":\"bob\",\"contents\":[1]} ").is_none());
    // an element above 255
    assert!(parse_envelope(b"{\"receiver_id\":\"bob\",\"contents\":[256]}").is_none());
    // a leading zero
    assert!(parse_envelope(b"{\"receiver_id\":\"bob\",\"contents\":[01]}").is_none());
    // a unicode escape is not accepted
    assert!(parse_envelope(b"{\"receiver_id\":\"\\u0062\",\"contents\":[1]}").is_none());
    // an unterminated string
    assert!(parse_envelope(b"{\"receiver_id\":\"bob,\"contents\":[1]}").is_none());
    // an empty frame
    assert!(parse_envelope(b"").is_none());
}

#[test]
fn boundary_bytes_parse_exactly() {
    let e = parse_envelope(b"{\"receiver_id\":\"b\",\"contents\":[0,9,10,99,100,199,200,255]}")
        .unwrap();
    assert_eq!(e.contents, vec![0, 9, 10, 99, 100, 199, 200, 255]);
}

#[test]
fn envelope_matches_serde_encoding() {
    // the frame a serde-built client sends for receiver "bob", payload [1,2]
    let mut map = serde_json::Map::new();
    map.insert(
        "receiver_id".to_string(),
        serde_json::Value::String("bob".to_string()),
    );
    map.insert(
        "contents".to_string(),
        serde_json::Value::Array(vec![serde_json::Value::from(1u8), serde_json::Value::from(2u8)]),
    );
    let client_frame = serde_json::to_string(&serde_json::Value::Object(map)).unwrap();
    let e = parse_envelope(client_frame.as_bytes()).unwrap();
    assert_eq!(e.receiver_id, b"bob".to_vec());
    assert_eq!(e.contents, vec![1, 2]);
}

#[test]
fn confirmation_frames_are_tagged_json() {
    let s = confirmation_text(&Confirmation::Success);
    assert_eq!(s, "{\"MessageConfirmation\":\"Success\"}");
    let v: serde_json::Value = serde_json::from_str(&s).unwrap();
    assert_eq!(v["MessageConfirmation"], "Success");
    let e = confirmation_text(&Confirmation::Error);
    assert_eq!(e, "{\"MessageConfirmation\":\"Error\"}");
}
