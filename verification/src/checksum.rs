//! Checksums the cache is keyed by. The raw algorithms live in outside
//! crates; what this crate adds and verifies is how they are applied: the
//! POSIX `cksum` length suffix, and the URL and dependency hashes.
use vstd::prelude::*;

verus! {

/// The 64-bit XXH3 hash of a byte string; a function of the bytes alone.
pub uninterp spec fn xxh3_of(data: Seq<u8>) -> u64;

/// Relies on xxhash_rust::xxh3::xxh3_64: the unseeded 64-bit XXH3 digest,
/// a pure function of the input bytes.
#[verifier::external_body]
pub fn xxh3_64(data: &Vec<u8>) -> (r: u64)
    ensures
        r == xxh3_of(data@),
{
    xxhash_rust::xxh3::xxh3_64(data.as_slice())
}

/// The CRC-32/CKSUM digest of a byte string; a function of the bytes alone.
pub uninterp spec fn crc32_cksum_of(data: Seq<u8>) -> u32;

/// Relies on crc::Crc::checksum with the CRC_32_CKSUM algorithm: the POSIX
/// cksum polynomial over the input bytes, a pure function of them.
#[verifier::external_body]
pub fn crc32_cksum(data: &Vec<u8>) -> (r: u32)
    ensures
        r == crc32_cksum_of(data@),
{
    let c = crc::Crc::<u32>::new(&crc::CRC_32_CKSUM);
    c.checksum(data.as_slice())
}

/// The little-endian length suffix POSIX cksum appends: the minimal base-256
/// digits of a positive length, or one zero byte for the empty input.
pub open spec fn size_octets(n: nat) -> Seq<u8> {
    if n == 0 {
        seq![0u8]
    } else {
        size_octets_pos(n)
    }
}

/// Base-256 digits of a positive value, least significant first, no leading
/// zero digit.
pub open spec fn size_octets_pos(n: nat) -> Seq<u8>
    decreases n,
{
    if n == 0 {
        Seq::empty()
    } else {
        seq![(n % 256) as u8] + size_octets_pos(n / 256)
    }
}

/// The POSIX cksum of a byte string: the CRC over the data followed by its
/// length suffix.
pub open spec fn posix_cksum_of(data: Seq<u8>) -> u32 {
    crc32_cksum_of(data + size_octets(data.len()))
}

/// POSIX `cksum` of in-memory data, as the `cksum` tool computes it.
pub fn posix_cksum(data: &Vec<u8>) -> (r: u32)
    ensures
        r == posix_cksum_of(data@),
{
    let mut buf: Vec<u8> = Vec::new();
    let mut i: usize = 0;
    while i < data.len()
        invariant
            i <= data.len(),
            buf@ == data@.subrange(0, i as int),
        decreases data.len() - i,
    {
        buf.push(data[i]);
        assert(buf@ =~= data@.subrange(0, i + 1 as int));
        i += 1;
    }
    assert(buf@ =~= data@);
    if data.len() == 0 {
        buf.push(0);
        assert(buf@ =~= data@ + size_octets(data@.len() as nat));
    } else {
        let ghost total: nat = data@.len() as nat;
        let mut s: usize = data.len();
        let ghost mut done: Seq<u8> = Seq::empty();
        assert(done + size_octets_pos(total) =~= size_octets_pos(total));
        while s > 0
            invariant
                buf@ == data@ + done,
                size_octets_pos(total) == done + size_octets_pos(s as nat),
            decreases s,
        {
            let d: u8 = (s % 256) as u8;
            buf.push(d);
            proof {
                assert(size_octets_pos(s as nat) == seq![d] + size_octets_pos(s as nat / 256));
                assert(done + size_octets_pos(s as nat) =~= done.push(d) + size_octets_pos(
                    s as nat / 256,
                ));
                assert(buf@ =~= data@ + done.push(d));
            }
            s = s / 256;
            proof {
                done = done.push(d);
            }
        }
        assert(size_octets_pos(0nat) =~= Seq::<u8>::empty());
        assert(done + size_octets_pos(0nat) =~= done);
        assert(buf@ =~= data@ + size_octets(data@.len() as nat));
    }
    crc32_cksum(&buf)
}

} // verus!
