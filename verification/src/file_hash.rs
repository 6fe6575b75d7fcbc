//! What of a file goes into its hash.
use vstd::arithmetic::div_mod::lemma_div_denominator;
use vstd::prelude::*;

use crate::hashing::{le_bytes, le_bytes_of, no_bytes, xxh3_of, FileHasher};

verus! {

/// How many bytes of each end of a file a rough hash takes.
pub const END_BYTES: u64 = 262_144;

/// The bytes of a file from one position up to another.
#[derive(Debug, Clone, Copy, PartialEq, Eq, Structural)]
pub struct ByteRange {
    pub start: u64,
    pub end: u64,
}

/// What a hash is fed: some numbers, and behind them some bytes of the file.
pub struct HashPlan {
    pub numbers: Vec<u64>,
    pub ranges: Vec<ByteRange>,
}

/// How many bytes of each end of a file of a size a rough hash takes.
pub open spec fn end_length(size: u64) -> u64 {
    if size < END_BYTES {
        size
    } else {
        END_BYTES
    }
}

/// The numbers that go into a hash: for a rough one, the size of the file and
/// the seconds since the epoch at which it was written.
pub open spec fn numbers_hashed(rough: bool, size: u64, modified_secs: u64) -> Seq<u64> {
    if rough {
        seq![size, modified_secs]
    } else {
        seq![]
    }
}

/// The bytes of a file that go into a hash: for a rough one, those at its two
/// ends; else all of them.
pub open spec fn ranges_hashed(rough: bool, size: u64) -> Seq<ByteRange> {
    if rough {
        seq![
            ByteRange { start: 0, end: end_length(size) },
            ByteRange { start: (size - end_length(size)) as u64, end: size },
        ]
    } else {
        seq![ByteRange { start: 0, end: size }]
    }
}

/// The bytes of some numbers, one number behind the other.
pub open spec fn bytes_of_numbers(numbers: Seq<u64>) -> Seq<u8>
    decreases numbers.len(),
{
    if numbers.len() == 0 {
        no_bytes()
    } else {
        bytes_of_numbers(numbers.drop_last()) + le_bytes_of(numbers.last())
    }
}

/// The bytes of a file in some ranges, one range behind the other.
pub open spec fn bytes_in_ranges(ranges: Seq<ByteRange>, content: Seq<u8>) -> Seq<u8>
    decreases ranges.len(),
{
    if ranges.len() == 0 {
        no_bytes()
    } else {
        bytes_in_ranges(ranges.drop_last(), content) + content.subrange(
            ranges.last().start as int,
            ranges.last().end as int,
        )
    }
}

/// The bytes that the hash of a file is made of.
pub open spec fn hashed_bytes(rough: bool, modified_secs: u64, content: Seq<u8>) -> Seq<u8> {
    let size = content.len() as u64;
    bytes_of_numbers(numbers_hashed(rough, size, modified_secs)) + bytes_in_ranges(
        ranges_hashed(rough, size),
        content,
    )
}

/// The hash of a file.
pub open spec fn file_hash_of(rough: bool, modified_secs: u64, content: Seq<u8>) -> u64 {
    xxh3_of(hashed_bytes(rough, modified_secs, content))
}

/// What the hash of a file of a size is fed.
pub fn hash_plan(rough: bool, size: u64, modified_secs: u64) -> (res: HashPlan)
    ensures
        res.numbers@ == numbers_hashed(rough, size, modified_secs),
        res.ranges@ == ranges_hashed(rough, size),
{
    let mut numbers: Vec<u64> = Vec::new();
    let mut ranges: Vec<ByteRange> = Vec::new();
    if rough {
        let length: u64 = if size < END_BYTES {
            size
        } else {
            END_BYTES
        };
        numbers.push(size);
        numbers.push(modified_secs);
        ranges.push(ByteRange { start: 0, end: length });
        ranges.push(ByteRange { start: size - length, end: size });
    } else {
        ranges.push(ByteRange { start: 0, end: size });
    }
    proof {
        assert(numbers@ =~= numbers_hashed(rough, size, modified_secs));
        assert(ranges@ =~= ranges_hashed(rough, size));
    }
    HashPlan { numbers, ranges }
}

impl HashPlan {
    /// A hasher that was fed the numbers, and awaits the bytes of the ranges.
    pub fn begin(&self) -> (res: FileHasher)
        ensures
            res@ == bytes_of_numbers(self.numbers@),
    {
        let mut hasher: FileHasher = FileHasher::new();
        let mut i: usize = 0;
        while i < self.numbers.len()
            invariant
                i <= self.numbers@.len(),
                hasher@ == bytes_of_numbers(self.numbers@.take(i as int)),
            decreases self.numbers@.len() - i,
        {
            let bytes: Vec<u8> = le_bytes(self.numbers[i]);
            hasher.write(bytes.as_slice());
            i = i + 1;
            proof {
                let taken = self.numbers@.take(i as int);
                assert(taken.drop_last() =~= self.numbers@.take(i - 1));
                assert(taken.last() == self.numbers@[i - 1]);
            }
        }
        proof {
            assert(self.numbers@.take(i as int) =~= self.numbers@);
        }
        hasher
    }
}

/// The hash of a file whose bytes are at hand.
pub fn file_hash(rough: bool, modified_secs: u64, content: &[u8]) -> (res: u64)
    ensures
        res == file_hash_of(rough, modified_secs, content@),
{
    let length: usize = content.len();
    let size: u64 = length as u64;
    let plan: HashPlan = hash_plan(rough, size, modified_secs);
    let mut hasher: FileHasher = plan.begin();
    let ghost begun = hasher@;
    let mut i: usize = 0;
    proof {
        assert(begun + bytes_in_ranges(plan.ranges@.take(0), content@) =~= begun);
    }
    while i < plan.ranges.len()
        invariant
            i <= plan.ranges@.len(),
            size == length,
            length == content@.len(),
            plan.ranges@ == ranges_hashed(rough, size),
            hasher@ == begun + bytes_in_ranges(plan.ranges@.take(i as int), content@),
        decreases plan.ranges@.len() - i,
    {
        let range: ByteRange = plan.ranges[i];
        let piece: &[u8] = vstd::slice::slice_subrange(
            content,
            range.start as usize,
            range.end as usize,
        );
        hasher.write(piece);
        i = i + 1;
        proof {
            let taken = plan.ranges@.take(i as int);
            assert(taken.drop_last() =~= plan.ranges@.take(i - 1));
            assert(taken.last() == range);
            assert(begun + bytes_in_ranges(taken, content@) =~= begun + bytes_in_ranges(
                taken.drop_last(),
                content@,
            ) + piece@);
        }
    }
    proof {
        assert(plan.ranges@.take(i as int) =~= plan.ranges@);
    }
    hasher.finish()
}

proof fn rough_bytes(modified_secs: u64, content: Seq<u8>)
    requires
        content.len() <= u64::MAX,
    ensures
        ({
            let size = content.len() as u64;
            let length = end_length(size) as int;
            hashed_bytes(true, modified_secs, content) == le_bytes_of(size) + le_bytes_of(
                modified_secs,
            ) + content.subrange(0, length) + content.subrange(size - length, size as int)
        }),
{
    let size = content.len() as u64;
    let length = end_length(size) as int;
    let numbers = numbers_hashed(true, size, modified_secs);
    let ranges = ranges_hashed(true, size);
    assert(numbers.drop_last() =~= seq![size]);
    assert(numbers.drop_last().drop_last() =~= Seq::<u64>::empty());
    assert(ranges.drop_last() =~= seq![ByteRange { start: 0, end: end_length(size) }]);
    assert(ranges.drop_last().drop_last() =~= Seq::<ByteRange>::empty());
    reveal_with_fuel(bytes_of_numbers, 3);
    reveal_with_fuel(bytes_in_ranges, 3);
    assert(hashed_bytes(true, modified_secs, content) =~= le_bytes_of(size) + le_bytes_of(
        modified_secs,
    ) + content.subrange(0, length) + content.subrange(size - length, size as int));
}

/// A hash that is not rough is that of the bytes of the file, whatever the time
/// at which it was written.
pub proof fn whole_files_are_hashed(modified_secs: u64, content: Seq<u8>)
    requires
        content.len() <= u64::MAX,
    ensures
        file_hash_of(false, modified_secs, content) == xxh3_of(content),
{
    let size = content.len() as u64;
    let ranges = ranges_hashed(false, size);
    assert(ranges.drop_last() =~= Seq::<ByteRange>::empty());
    reveal_with_fuel(bytes_in_ranges, 2);
    assert(hashed_bytes(false, modified_secs, content) =~= content);
}

/// Two files of one size that were written at one time and agree at both ends
/// have one rough hash.
pub proof fn rough_hash_reads_the_ends(modified_secs: u64, a: Seq<u8>, b: Seq<u8>)
    requires
        a.len() <= u64::MAX,
        a.len() == b.len(),
        a.take(end_length(a.len() as u64) as int) == b.take(end_length(a.len() as u64) as int),
        a.skip(a.len() - end_length(a.len() as u64)) == b.skip(
            a.len() - end_length(a.len() as u64),
        ),
    ensures
        file_hash_of(true, modified_secs, a) == file_hash_of(true, modified_secs, b),
{
    let size = a.len() as u64;
    let length = end_length(size) as int;
    rough_bytes(modified_secs, a);
    rough_bytes(modified_secs, b);
    assert(a.subrange(0, length) =~= a.take(length));
    assert(b.subrange(0, length) =~= b.take(length));
    assert(a.subrange(size - length, size as int) =~= a.skip(size - length));
    assert(b.subrange(size - length, size as int) =~= b.skip(size - length));
}

proof fn quotients(n: u64)
    ensures
        n / 0x100 / 0x100 == n / 0x1_0000,
        n / 0x1_0000 / 0x100 == n / 0x100_0000,
        n / 0x100_0000 / 0x100 == n / 0x1_0000_0000,
        n / 0x1_0000_0000 / 0x100 == n / 0x100_0000_0000,
        n / 0x100_0000_0000 / 0x100 == n / 0x1_0000_0000_0000,
        n / 0x1_0000_0000_0000 / 0x100 == n / 0x100_0000_0000_0000,
{
    lemma_div_denominator(n as int, 0x100, 0x100);
    lemma_div_denominator(n as int, 0x1_0000, 0x100);
    lemma_div_denominator(n as int, 0x100_0000, 0x100);
    lemma_div_denominator(n as int, 0x1_0000_0000, 0x100);
    lemma_div_denominator(n as int, 0x100_0000_0000, 0x100);
    lemma_div_denominator(n as int, 0x1_0000_0000_0000, 0x100);
}

proof fn last_byte_and_rest(a: u64, b: u64)
    requires
        (a % 0x100) as u8 == (b % 0x100) as u8,
        a / 0x100 == b / 0x100,
    ensures
        a == b,
{
}

proof fn le_bytes_tell_apart(a: u64, b: u64)
    requires
        le_bytes_of(a) == le_bytes_of(b),
    ensures
        a == b,
{
    let x = le_bytes_of(a);
    let y = le_bytes_of(b);
    assert(x[0] == y[0] && x[1] == y[1] && x[2] == y[2] && x[3] == y[3]);
    assert(x[4] == y[4] && x[5] == y[5] && x[6] == y[6] && x[7] == y[7]);
    quotients(a);
    quotients(b);
    last_byte_and_rest(a / 0x1_0000_0000_0000, b / 0x1_0000_0000_0000);
    last_byte_and_rest(a / 0x100_0000_0000, b / 0x100_0000_0000);
    last_byte_and_rest(a / 0x1_0000_0000, b / 0x1_0000_0000);
    last_byte_and_rest(a / 0x100_0000, b / 0x100_0000);
    last_byte_and_rest(a / 0x1_0000, b / 0x1_0000);
    last_byte_and_rest(a / 0x100, b / 0x100);
    last_byte_and_rest(a, b);
}

proof fn parts_of(first: Seq<u8>, second: Seq<u8>, third: Seq<u8>, fourth: Seq<u8>)
    ensures
        ({
            let whole = first + second + third + fourth;
            let i = first.len() as int;
            let j = i + second.len();
            let k = j + third.len();
            &&& whole.subrange(0, i) == first
            &&& whole.subrange(i, j) == second
            &&& whole.subrange(j, k) == third
            &&& whole.subrange(k, k + fourth.len()) == fourth
        }),
{
    let whole = first + second + third + fourth;
    let i = first.len() as int;
    let j = i + second.len();
    let k = j + third.len();
    assert(whole.subrange(0, i) =~= first);
    assert(whole.subrange(i, j) =~= second);
    assert(whole.subrange(j, k) =~= third);
    assert(whole.subrange(k, k + fourth.len()) =~= fourth);
}

proof fn eight_bytes(n: u64)
    ensures
        le_bytes_of(n).len() == 8,
{
}

/// A rough hash is made of the size of the file, the time at which it was
/// written and both of its ends: where one of them differs, other bytes are
/// hashed.
pub proof fn rough_hash_takes_size_time_and_ends(
    a_secs: u64,
    a: Seq<u8>,
    b_secs: u64,
    b: Seq<u8>,
)
    requires
        a.len() <= u64::MAX,
        b.len() <= u64::MAX,
        hashed_bytes(true, a_secs, a) == hashed_bytes(true, b_secs, b),
    ensures
        a_secs == b_secs,
        a.len() == b.len(),
        a.take(end_length(a.len() as u64) as int) == b.take(end_length(a.len() as u64) as int),
        a.skip(a.len() - end_length(a.len() as u64)) == b.skip(
            a.len() - end_length(a.len() as u64),
        ),
{
    let a_size = a.len() as u64;
    let b_size = b.len() as u64;
    let a_end = end_length(a_size) as int;
    let b_end = end_length(b_size) as int;
    rough_bytes(a_secs, a);
    rough_bytes(b_secs, b);
    eight_bytes(a_size);
    eight_bytes(a_secs);
    eight_bytes(b_size);
    eight_bytes(b_secs);
    parts_of(
        le_bytes_of(a_size),
        le_bytes_of(a_secs),
        a.subrange(0, a_end),
        a.subrange(a_size - a_end, a_size as int),
    );
    parts_of(
        le_bytes_of(b_size),
        le_bytes_of(b_secs),
        b.subrange(0, b_end),
        b.subrange(b_size - b_end, b_size as int),
    );
    le_bytes_tell_apart(a_size, b_size);
    le_bytes_tell_apart(a_secs, b_secs);
    assert(a.subrange(0, a_end) =~= a.take(a_end));
    assert(b.subrange(0, a_end) =~= b.take(a_end));
    assert(a.subrange(a_size - a_end, a_size as int) =~= a.skip(a_size - a_end));
    assert(b.subrange(a_size - a_end, a_size as int) =~= b.skip(a_size - a_end));
}

/// A rough hash takes a quarter of a megabyte of each end, and the whole of a
/// file that is smaller.
pub proof fn ends_are_a_quarter_of_a_megabyte(size: u64)
    ensures
        end_length(size) <= size,
        end_length(size) <= 262_144,
        end_length(size) == size || end_length(size) == 262_144,
{
}

/// A rough hash is that of the size of the file, the time at which it was
/// written, its first and its last quarter of a megabyte, in this order; of a smaller
/// file the whole stands for either end.
pub proof fn rough_hash_is_made_of_its_parts(modified_secs: u64, content: Seq<u8>, end: int)
    requires
        content.len() <= u64::MAX,
        end == (if content.len() < 262_144 {
            content.len() as int
        } else {
            262_144
        }),
    ensures
        file_hash_of(true, modified_secs, content) == xxh3_of(
            le_bytes_of(content.len() as u64) + le_bytes_of(modified_secs) + content.take(end)
                + content.skip(content.len() - end),
        ),
{
    rough_bytes(modified_secs, content);
    assert(content.subrange(0, end) =~= content.take(end));
    assert(content.subrange(content.len() - end, content.len() as int) =~= content.skip(
        content.len() - end,
    ));
}

} // verus!
