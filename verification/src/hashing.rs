//! The hashes by which a file and a build of the plugin are recognised.
use vstd::prelude::*;

use crate::index::IndexHeaderFile;
use crate::text::{chars_of, extend, hex, hex_of, hex_tells_apart, string_of};

verus! {

/// `xxhash_rust::xxh3::Xxh3Default`, a hasher that is fed bytes piece by piece.
#[verifier::external_type_specification]
#[verifier::external_body]
pub struct ExXxh3Default(xxhash_rust::xxh3::Xxh3Default);

/// The bytes that a hasher was fed.
pub uninterp spec fn bytes_fed(hasher: xxhash_rust::xxh3::Xxh3Default) -> Seq<u8>;

/// The 64-bit XXH3 hash of some bytes, with the default seed and secret.
pub uninterp spec fn xxh3_of(bytes: Seq<u8>) -> u64;

/// `Xxh3Default::new`: the hasher was fed nothing.
#[verifier::external_body]
fn hasher_new() -> (res: xxhash_rust::xxh3::Xxh3Default)
    ensures
        bytes_fed(res) == no_bytes(),
{
    xxhash_rust::xxh3::Xxh3Default::new()
}

/// `Xxh3Default::update`: the bytes are fed to the hasher behind those before.
#[verifier::external_body]
fn hasher_update(hasher: &mut xxhash_rust::xxh3::Xxh3Default, bytes: &[u8])
    ensures
        bytes_fed(*final(hasher)) == bytes_fed(*old(hasher)) + bytes@,
{
    hasher.update(bytes)
}

/// `Xxh3Default::digest`: the hash of the bytes that were fed, whatever the
/// pieces in which they came.
#[verifier::external_body]
fn hasher_digest(hasher: &xxhash_rust::xxh3::Xxh3Default) -> (res: u64)
    ensures
        res == xxh3_of(bytes_fed(*hasher)),
{
    hasher.digest()
}

/// No bytes at all.
pub open spec fn no_bytes() -> Seq<u8> {
    seq![]
}

/// Hashes a file as it is read.
pub struct FileHasher {
    inner: xxhash_rust::xxh3::Xxh3Default,
}

impl View for FileHasher {
    type V = Seq<u8>;

    closed spec fn view(&self) -> Seq<u8> {
        bytes_fed(self.inner)
    }
}

impl FileHasher {
    /// A hasher that was fed nothing.
    pub fn new() -> (res: FileHasher)
        ensures
            res@ == no_bytes(),
    {
        FileHasher { inner: hasher_new() }
    }

    /// Feeds the next bytes.
    pub fn write(&mut self, bytes: &[u8])
        ensures
            final(self)@ == old(self)@ + bytes@,
    {
        hasher_update(&mut self.inner, bytes);
    }

    /// The hash of the bytes that were fed.
    pub fn finish(&self) -> (res: u64)
        ensures
            res == xxh3_of(self@),
    {
        hasher_digest(&self.inner)
    }
}

/// The hash of a file does not depend on the pieces in which it is read.
pub proof fn pieces_do_not_matter(before: Seq<u8>, first: Seq<u8>, second: Seq<u8>)
    ensures
        xxh3_of((before + first) + second) == xxh3_of(before + (first + second)),
{
    assert((before + first) + second =~= before + (first + second));
}

/// The eight bytes of a number, the lowest first.
pub open spec fn le_bytes_of(n: u64) -> Seq<u8> {
    seq![
        (n % 0x100) as u8,
        (n / 0x100 % 0x100) as u8,
        (n / 0x1_0000 % 0x100) as u8,
        (n / 0x100_0000 % 0x100) as u8,
        (n / 0x1_0000_0000 % 0x100) as u8,
        (n / 0x100_0000_0000 % 0x100) as u8,
        (n / 0x1_0000_0000_0000 % 0x100) as u8,
        (n / 0x100_0000_0000_0000) as u8,
    ]
}

pub(crate) fn le_bytes(n: u64) -> (res: Vec<u8>)
    ensures
        res@ == le_bytes_of(n),
{
    let mut res: Vec<u8> = Vec::new();
    res.push((n % 0x100) as u8);
    res.push((n / 0x100 % 0x100) as u8);
    res.push((n / 0x1_0000 % 0x100) as u8);
    res.push((n / 0x100_0000 % 0x100) as u8);
    res.push((n / 0x1_0000_0000 % 0x100) as u8);
    res.push((n / 0x100_0000_0000 % 0x100) as u8);
    res.push((n / 0x1_0000_0000_0000 % 0x100) as u8);
    res.push((n / 0x100_0000_0000_0000) as u8);
    proof {
        assert(res@ =~= le_bytes_of(n));
    }
    res
}

/// The number by which a build of the plugin is recognised: the hash of the
/// seconds since the epoch at which its file was written.
pub fn version_nonce(modified_secs: u64) -> (res: u64)
    ensures
        res == xxh3_of(le_bytes_of(modified_secs)),
{
    let bytes: Vec<u8> = le_bytes(modified_secs);
    let mut hasher: FileHasher = FileHasher::new();
    hasher.write(bytes.as_slice());
    proof {
        assert(no_bytes() + le_bytes_of(modified_secs) =~= le_bytes_of(modified_secs));
    }
    hasher.finish()
}

/// The name of the header of the index of a file with a hash.
pub open spec fn header_name_of(hash: u64) -> Seq<char> {
    hex_of(hash as nat, 16) + ".header.index"@
}

/// The name of the index of a file with a hash.
pub open spec fn index_name_of(hash: u64) -> Seq<char> {
    hex_of(hash as nat, 16) + ".index"@
}

/// The name of the header of the index of a file with a hash.
pub fn index_header_name(hash: u64) -> (res: String)
    ensures
        res@ == header_name_of(hash),
{
    let mut name: Vec<char> = hex(hash, 16);
    extend(&mut name, &chars_of(".header.index"));
    string_of(&name)
}

/// The name of the index of a file with a hash.
pub fn index_name(hash: u64) -> (res: String)
    ensures
        res@ == index_name_of(hash),
{
    let mut name: Vec<char> = hex(hash, 16);
    extend(&mut name, &chars_of(".index"));
    string_of(&name)
}

proof fn hex_length(n: nat, digits: nat)
    ensures
        hex_of(n, digits).len() == digits,
    decreases digits,
{
    if digits > 0 {
        hex_length(n / 16, (digits - 1) as nat);
    }
}

/// Files with different hashes have different indexes, and no index has the
/// name of a header.
pub proof fn index_names_tell_files_apart(a: u64, b: u64)
    ensures
        header_name_of(a) == header_name_of(b) ==> a == b,
        index_name_of(a) == index_name_of(b) ==> a == b,
        index_name_of(a) != header_name_of(b),
{
    hex_length(a as nat, 16);
    hex_length(b as nat, 16);
    reveal_strlit(".header.index");
    reveal_strlit(".index");
    let x = hex_of(a as nat, 16);
    let y = hex_of(b as nat, 16);
    assert(header_name_of(a).take(16) =~= x);
    assert(header_name_of(b).take(16) =~= y);
    assert(index_name_of(a).take(16) =~= x);
    assert(index_name_of(b).take(16) =~= y);
    if x == y {
        hex_tells_apart(a, b);
    }
    assert(index_name_of(a).len() == 22);
    assert(header_name_of(b).len() == 29);
}

/// Whether an index stands: both of its files are there, and its header, which
/// can be read, names the file and the build of the plugin.
pub open spec fn index_stands(
    header_exists: bool,
    index_exists: bool,
    header: Option<IndexHeaderFile>,
    hash: u64,
    nonce: u64,
) -> bool {
    header_exists && index_exists && (header matches Some(h) && h.filehash == hash
        && h.version_nonce == nonce)
}

/// Whether the index of a file has to be made. `header` is what its header
/// holds, unless that cannot be read.
pub fn should_create_index(
    header_exists: bool,
    index_exists: bool,
    header: Option<&IndexHeaderFile>,
    hash: u64,
    nonce: u64,
) -> (res: bool)
    ensures
        res == !index_stands(
            header_exists,
            index_exists,
            match header {
                Some(h) => Some(*h),
                None => None,
            },
            hash,
            nonce,
        ),
{
    if header_exists && index_exists {
        match header {
            Some(h) => !(h.filehash == hash && h.version_nonce == nonce),
            None => true,
        }
    } else {
        true
    }
}

/// The header of an index that is made for a file by a build of the plugin.
pub fn index_header(filename: String, hash: u64, nonce: u64) -> (res: IndexHeaderFile)
    ensures
        res == (IndexHeaderFile { filename, filehash: hash, version_nonce: nonce }),
{
    IndexHeaderFile { filename, filehash: hash, version_nonce: nonce }
}

/// An index that was made stands for the same file and build, and for no other.
pub proof fn index_stands_for_its_file(
    filename: String,
    hash: u64,
    nonce: u64,
    other_hash: u64,
    other_nonce: u64,
)
    ensures
        index_stands(
            true,
            true,
            Some(IndexHeaderFile { filename, filehash: hash, version_nonce: nonce }),
            other_hash,
            other_nonce,
        ) <==> other_hash == hash && other_nonce == nonce,
{
}

/// The bytes of a number give back the number, the lowest first.
pub proof fn bytes_add_up_to_the_number(n: u64)
    ensures
        ({
            let b = le_bytes_of(n);
            &&& b.len() == 8
            &&& n == b[0] + b[1] * 0x100 + b[2] * 0x1_0000 + b[3] * 0x100_0000 + b[4]
                * 0x1_0000_0000 + b[5] * 0x100_0000_0000 + b[6] * 0x1_0000_0000_0000 + b[7]
                * 0x100_0000_0000_0000
        }),
{
    let n0 = n as int;
    let n1 = next_byte(n0, 0x1);
    let n2 = next_byte(n0, 0x100);
    let n3 = next_byte(n0, 0x1_0000);
    let n4 = next_byte(n0, 0x100_0000);
    let n5 = next_byte(n0, 0x1_0000_0000);
    let n6 = next_byte(n0, 0x100_0000_0000);
    let n7 = next_byte(n0, 0x1_0000_0000_0000);
    assert(n7 < 0x100);
    let b = le_bytes_of(n);
    assert(n0 == b[0] + 0x100 * n1);
    assert(n1 == b[1] + 0x100 * n2);
    assert(n2 == b[2] + 0x100 * n3);
    assert(n3 == b[3] + 0x100 * n4);
    assert(n4 == b[4] + 0x100 * n5);
    assert(n5 == b[5] + 0x100 * n6);
    assert(n6 == b[6] + 0x100 * n7);
    assert(n7 == b[7]);
}

/// What is left of a number behind a place is its byte there and what is left
/// behind that.
proof fn next_byte(n: int, unit: int) -> (rest: int)
    requires
        n >= 0,
        unit > 0,
    ensures
        rest == n / (unit * 0x100),
        n / unit == n / unit % 0x100 + 0x100 * rest,
{
    vstd::arithmetic::div_mod::lemma_div_denominator(n, unit, 0x100);
    n / (unit * 0x100)
}

/// An index does not stand without both of its files and a header that can be
/// read.
pub proof fn index_needs_both_files(
    header_exists: bool,
    index_exists: bool,
    header: Option<IndexHeaderFile>,
    hash: u64,
    nonce: u64,
)
    ensures
        index_stands(header_exists, index_exists, header, hash, nonce) ==> header_exists
            && index_exists && header is Some,
        header_exists && index_exists && header is Some ==> (index_stands(
            header_exists,
            index_exists,
            header,
            hash,
            nonce,
        ) <==> header->0.filehash == hash && header->0.version_nonce == nonce),
{
}

} // verus!
