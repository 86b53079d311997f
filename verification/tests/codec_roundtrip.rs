use social_feed::codec::{decode_post, encode_post};
use social_feed::post::Post;

#[test]
fn encode_decode_round_trip() {
    let p = Post {
        id: 7,
        author: 12345678901234567890,
        text: b"a social post \xf0\x9f\x8e\x89 with bytes".to_vec(),
        created_at: 1700000000,
        updated_at: u64::MAX,
    };
    let bytes = encode_post(&p);
    let q = decode_post(&bytes).unwrap();
    assert_eq!(q.id, p.id);
    assert_eq!(q.author, p.author);
    assert_eq!(q.text, p.text);
    assert_eq!(q.created_at, p.created_at);
    assert_eq!(q.updated_at, p.updated_at);
}

#[test]
fn empty_text_round_trips() {
    let p = Post { id: 0, author: 0, text: Vec::new(), created_at: 0, updated_at: 0 };
    let bytes = encode_post(&p);
    assert_eq!(bytes.len(), 32);
    let q = decode_post(&bytes).unwrap();
    assert_eq!(q.id, 0);
    assert!(q.text.is_empty());
}

#[test]
fn truncated_bodies_decode_to_nothing() {
    let p = Post { id: 1, author: 2, text: b"abc".to_vec(), created_at: 3, updated_at: 4 };
    let bytes = encode_post(&p);
    for cut in [0usize, 1, 16, 31] {
        let short: Vec<u8> = bytes[..cut].to_vec();
        assert!(decode_post(&short).is_none());
    }
}

#[test]
fn header_fields_are_little_endian() {
    let p = Post { id: 0x0102030405060708, author: 0, text: Vec::new(), created_at: 0, updated_at: 0 };
    let bytes = encode_post(&p);
    assert_eq!(bytes[0], 0x08);
    assert_eq!(bytes[7], 0x01);
}
