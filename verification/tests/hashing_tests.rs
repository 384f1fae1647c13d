use subsonic_vault::hasher::hash_bytes;
use subsonic_vault::hasher::hash_bytes_chunked;
use subsonic_vault::hex_encode;
use subsonic_vault::StreamingHasher;

#[test]
fn hex_encode_known_values() {
    assert_eq!(hex_encode(vec![]), "".to_string());
    assert_eq!(hex_encode(vec![0x00]), "00".to_string());
    assert_eq!(hex_encode(vec![0x0f, 0xa0, 0xff]), "0fa0ff".to_string());
    assert_eq!(hex_encode(vec![0x12, 0x34, 0xab, 0xcd]), "1234abcd".to_string());
}

#[test]
fn digest_of_empty_input() {
    assert_eq!(hash_bytes(&vec![]), "d41d8cd98f00b204e9800998ecf8427e".to_string());
}

#[test]
fn digest_of_known_input() {
    assert_eq!(hash_bytes(&b"abc".to_vec()), "900150983cd24fb0d6963f7d28e17f72".to_string());
}

#[test]
fn digest_is_lowercase_hex_of_fixed_length() {
    let d = hash_bytes(&b"some audio bytes".to_vec());
    assert_eq!(d.len(), 32);
    assert!(d.chars().all(|c| c.is_ascii_hexdigit() && !c.is_ascii_uppercase()));
}

#[test]
fn chunk_size_does_not_change_the_digest() {
    let data: Vec<u8> = (0u16..4096).map(|i| (i % 251) as u8).collect();
    let whole = hash_bytes(&data);
    for chunk_size in [1usize, 2, 3, 7, 64, 1000, 4096, 10000] {
        assert_eq!(hash_bytes_chunked(&data, chunk_size), whole);
    }
}

#[test]
fn streaming_hasher_matches_whole_buffer() {
    let mut h = StreamingHasher::new();
    h.feed(b"hello ");
    h.feed(b"");
    h.feed(b"world");
    let streamed = h.finish_hex();
    assert_eq!(streamed, hash_bytes(&b"hello world".to_vec()));
}

#[test]
fn different_content_gives_different_digest() {
    assert_ne!(hash_bytes(&b"version one".to_vec()), hash_bytes(&b"version two".to_vec()));
}
