use ffmpeg_aui2::hashing::{
    index_header, index_header_name, index_name, should_create_index, version_nonce, FileHasher,
};

#[test]
fn files_are_hashed_in_pieces() {
    let data: Vec<u8> = (0..5000u32).map(|i| (i * 7 % 251) as u8).collect();
    let mut pieces = FileHasher::new();
    for chunk in data.chunks(333) {
        pieces.write(chunk);
    }
    assert_eq!(pieces.finish(), xxhash_rust::xxh3::xxh3_64(&data));
    assert_eq!(FileHasher::new().finish(), 0x2d06800538d394c2);
}

#[test]
fn nonces_are_hashes_of_seconds() {
    let seconds: u64 = 1_700_000_000;
    assert_eq!(version_nonce(seconds), xxhash_rust::xxh3::xxh3_64(&seconds.to_le_bytes()));
    let seconds: u64 = 0x0123_4567_89ab_cdef;
    assert_eq!(version_nonce(seconds), xxhash_rust::xxh3::xxh3_64(&seconds.to_le_bytes()));
    assert_ne!(version_nonce(1), 1);
}

#[test]
fn index_names_are_hexadecimal() {
    assert_eq!(index_header_name(0xab), "00000000000000ab.header.index");
    assert_eq!(index_name(u64::MAX), "ffffffffffffffff.index");
}

#[test]
fn indexes_are_made_when_they_do_not_stand() {
    let header = index_header("a.mp4".to_string(), 5, 7);
    assert_eq!(header.filename, "a.mp4");
    assert!(!should_create_index(true, true, Some(&header), 5, 7));
    assert!(should_create_index(true, true, Some(&header), 6, 7));
    assert!(should_create_index(true, true, Some(&header), 5, 8));
    assert!(should_create_index(true, true, None, 5, 7));
    assert!(should_create_index(false, true, Some(&header), 5, 7));
    assert!(should_create_index(true, false, Some(&header), 5, 7));
}
