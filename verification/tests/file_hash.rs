use ffmpeg_aui2::file_hash::{file_hash, hash_plan, ByteRange, END_BYTES};
use xxhash_rust::xxh3::xxh3_64;

fn range(start: u64, end: u64) -> ByteRange {
    ByteRange { start, end }
}

/// A file whose bytes differ from place to place.
fn content(len: usize) -> Vec<u8> {
    (0..len).map(|i| (i % 251) as u8).collect()
}

#[test]
fn whole_files_are_planned() {
    let plan = hash_plan(false, 5, 9);
    assert_eq!(plan.numbers, Vec::<u64>::new());
    assert_eq!(plan.ranges, vec![range(0, 5)]);
    assert_eq!(hash_plan(false, u64::MAX, 9).ranges, vec![range(0, u64::MAX)]);
}

#[test]
fn rough_plans_take_both_ends() {
    let plan = hash_plan(true, 1_000_000, 7);
    assert_eq!(plan.numbers, vec![1_000_000, 7]);
    assert_eq!(plan.ranges, vec![range(0, 262_144), range(737_856, 1_000_000)]);
    assert_eq!(hash_plan(true, 0, 7).ranges, vec![range(0, 0), range(0, 0)]);
    assert_eq!(hash_plan(true, 3, 7).ranges, vec![range(0, 3), range(0, 3)]);
    assert_eq!(
        hash_plan(true, END_BYTES + 1, 7).ranges,
        vec![range(0, END_BYTES), range(1, END_BYTES + 1)]
    );
}

#[test]
fn plans_are_begun_with_their_numbers() {
    let mut bytes = 1_000_000u64.to_le_bytes().to_vec();
    bytes.extend(7u64.to_le_bytes());
    assert_eq!(hash_plan(true, 1_000_000, 7).begin().finish(), xxh3_64(&bytes));
    assert_eq!(hash_plan(false, 1_000_000, 7).begin().finish(), xxh3_64(&[]));
}

#[test]
fn whole_hashes_are_those_of_the_bytes() {
    let bytes = content(600_000);
    assert_eq!(file_hash(false, 1, &bytes), xxh3_64(&bytes));
    assert_eq!(file_hash(false, 2, &bytes), xxh3_64(&bytes));
    assert_eq!(file_hash(false, 2, &[]), xxh3_64(&[]));
}

#[test]
fn rough_hashes_take_size_time_and_ends() {
    let bytes = content(600_000);
    let end = END_BYTES as usize;
    let mut fed = 600_000u64.to_le_bytes().to_vec();
    fed.extend(5u64.to_le_bytes());
    fed.extend(&bytes[..end]);
    fed.extend(&bytes[600_000 - end..]);
    assert_eq!(file_hash(true, 5, &bytes), xxh3_64(&fed));

    let mut other = bytes.clone();
    other[300_000] ^= 1;
    assert_eq!(file_hash(true, 5, &other), file_hash(true, 5, &bytes));
    assert_ne!(file_hash(false, 5, &other), file_hash(false, 5, &bytes));
    assert_ne!(file_hash(true, 6, &bytes), file_hash(true, 5, &bytes));
    for place in [0, end - 1, 600_000 - end, 599_999] {
        let mut other = bytes.clone();
        other[place] ^= 1;
        assert_ne!(file_hash(true, 5, &other), file_hash(true, 5, &bytes));
    }
    assert_ne!(file_hash(true, 5, &content(600_001)), file_hash(true, 5, &bytes));
}
