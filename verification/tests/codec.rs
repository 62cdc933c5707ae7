use raft_store::codec::{decode_message, encode_message};
use raft_store::types::Message;

fn round_trip(m: &Message) {
    let bytes = encode_message(m);
    let back = decode_message(&bytes).expect("a serialized message deserializes");
    assert_eq!(&back, m);
    let again = encode_message(&back);
    assert_eq!(again, bytes);
}

#[test]
fn round_trip_create_index() {
    round_trip(&Message::CreateIndex {
        uid: Some("movies".to_string()),
        primary_key: Some("id".to_string()),
    });
    round_trip(&Message::CreateIndex { uid: None, primary_key: None });
}

#[test]
fn round_trip_update_index() {
    round_trip(&Message::UpdateIndex {
        index_uid: "movies".to_string(),
        update: "{\"name\": \"films\"}".to_string(),
    });
}

#[test]
fn round_trip_delete_index() {
    round_trip(&Message::DeleteIndex { index_uid: "movies".to_string() });
}

#[test]
fn round_trip_document_addition() {
    round_trip(&Message::DocumentAddition {
        update_query: "primaryKey=id".to_string(),
        index_uid: "movies".to_string(),
        documents: "[{\"id\": 1}]".to_string(),
        partial: true,
    });
    round_trip(&Message::DocumentAddition {
        update_query: String::new(),
        index_uid: String::new(),
        documents: String::new(),
        partial: false,
    });
}

#[test]
fn round_trip_documents_deletion() {
    round_trip(&Message::DocumentsDeletion {
        index_uid: "movies".to_string(),
        ids: vec!["1".to_string(), "2".to_string(), "three".to_string()],
    });
    round_trip(&Message::DocumentsDeletion { index_uid: "m".to_string(), ids: Vec::new() });
}

#[test]
fn round_trip_clear_all_documents() {
    round_trip(&Message::ClearAllDocuments { index_uid: "movies".to_string() });
}

#[test]
fn round_trip_settings_update() {
    round_trip(&Message::SettingsUpdate {
        index_uid: "movies".to_string(),
        update: "{\"rankingRules\": []}".to_string(),
    });
}

#[test]
fn round_trip_non_ascii_text() {
    round_trip(&Message::DeleteIndex { index_uid: "pel\u{00ed}culas-\u{4e2d}\u{6587}".to_string() });
}

#[test]
fn exact_bytes_of_delete_index() {
    let bytes = encode_message(&Message::DeleteIndex { index_uid: "ab".to_string() });
    assert_eq!(bytes, vec![2u8, 2, 0, 0, 0, 0, 0, 0, 0, 97, 98]);
}

#[test]
fn unknown_tag_is_rejected() {
    assert_eq!(decode_message(&vec![9u8]), None);
    assert_eq!(decode_message(&Vec::new()), None);
}

#[test]
fn trailing_bytes_are_rejected() {
    let mut bytes = encode_message(&Message::DeleteIndex { index_uid: "ab".to_string() });
    bytes.push(0);
    assert_eq!(decode_message(&bytes), None);
}

#[test]
fn truncated_input_is_rejected() {
    let bytes = encode_message(&Message::DeleteIndex { index_uid: "ab".to_string() });
    let cut = bytes[..bytes.len() - 1].to_vec();
    assert_eq!(decode_message(&cut), None);
}

#[test]
fn invalid_utf8_is_rejected() {
    // Tag 2, a one-byte string whose byte is not valid UTF-8.
    let bytes = vec![2u8, 1, 0, 0, 0, 0, 0, 0, 0, 0xff];
    assert_eq!(decode_message(&bytes), None);
}
