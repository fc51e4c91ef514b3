//! Hexadecimal formatting and parsing. Digest values become lowercase-hex
//! file names; hex digest strings from a recipe are decoded through the `hex`
//! crate against an exact byte-level specification.
use vstd::prelude::*;

verus! {

/// The lowercase hex digit for a value below 16.
pub open spec fn hex_digit(v: u8) -> u8 {
    if v < 10 {
        (48 + v) as u8
    } else {
        (87 + v) as u8
    }
}

/// Two lowercase hex digits of one byte, high nibble first.
pub open spec fn hex_of_byte(b: u8) -> Seq<u8> {
    seq![hex_digit(b / 16), hex_digit(b % 16)]
}

/// Lowercase hex of a byte string, left to right.
pub open spec fn hex_of_bytes(s: Seq<u8>) -> Seq<u8>
    decreases s.len(),
{
    if s.len() == 0 {
        Seq::empty()
    } else {
        hex_of_byte(s[0]) + hex_of_bytes(s.skip(1))
    }
}

pub proof fn lemma_hex_of_bytes_len(s: Seq<u8>)
    ensures
        hex_of_bytes(s).len() == 2 * s.len(),
    decreases s.len(),
{
    if s.len() > 0 {
        lemma_hex_of_bytes_len(s.skip(1));
    }
}

/// Appending a byte appends its two digits.
pub proof fn lemma_hex_of_bytes_push(s: Seq<u8>, b: u8)
    ensures
        hex_of_bytes(s.push(b)) == hex_of_bytes(s) + hex_of_byte(b),
    decreases s.len(),
{
    if s.len() == 0 {
        assert(s.push(b).len() == 1);
        assert(s.push(b)[0] == b);
        assert(s.push(b).skip(1) =~= Seq::<u8>::empty());
        assert(hex_of_bytes(s.push(b)) == hex_of_byte(b) + hex_of_bytes(Seq::<u8>::empty()));
        assert(hex_of_byte(b) + Seq::<u8>::empty() =~= hex_of_byte(b));
        assert(hex_of_bytes(s) + hex_of_byte(b) =~= hex_of_byte(b));
    } else {
        assert(s.push(b).skip(1) =~= s.skip(1).push(b));
        lemma_hex_of_bytes_push(s.skip(1), b);
        assert(hex_of_bytes(s.push(b)) =~= hex_of_bytes(s) + hex_of_byte(b));
    }
}

/// Lowercase-hex encoding of a byte vector.
pub fn bytes_to_hex(b: &Vec<u8>) -> (r: Vec<u8>)
    ensures
        r@ == hex_of_bytes(b@),
        r@.len() == 2 * b@.len(),
{
    let mut r: Vec<u8> = Vec::new();
    let mut i: usize = 0;
    while i < b.len()
        invariant
            i <= b.len(),
            r@ == hex_of_bytes(b@.subrange(0, i as int)),
        decreases b.len() - i,
    {
        let hi = b[i] / 16;
        let lo = b[i] % 16;
        r.push(if hi < 10 { 48 + hi } else { 87 + hi });
        r.push(if lo < 10 { 48 + lo } else { 87 + lo });
        proof {
            lemma_hex_of_bytes_push(b@.subrange(0, i as int), b@[i as int]);
            assert(b@.subrange(0, i as int).push(b@[i as int]) =~= b@.subrange(0, i + 1 as int));
            assert(r@ =~= hex_of_bytes(b@.subrange(0, i + 1 as int)));
        }
        i += 1;
    }
    assert(b@.subrange(0, b@.len() as int) =~= b@);
    proof {
        lemma_hex_of_bytes_len(b@);
    }
    r
}

/// Equal hex strings come only from equal byte strings.
pub proof fn lemma_hex_of_bytes_injective(a: Seq<u8>, b: Seq<u8>)
    requires
        hex_of_bytes(a) == hex_of_bytes(b),
    ensures
        a == b,
    decreases a.len(),
{
    lemma_hex_of_bytes_len(a);
    lemma_hex_of_bytes_len(b);
    if a.len() == 0 {
        assert(a =~= b);
    } else {
        let ha = hex_of_byte(a[0]) + hex_of_bytes(a.skip(1));
        let hb = hex_of_byte(b[0]) + hex_of_bytes(b.skip(1));
        assert(ha == hb);
        assert(ha[0] == hex_digit(a[0] / 16) && ha[1] == hex_digit(a[0] % 16));
        assert(hb[0] == hex_digit(b[0] / 16) && hb[1] == hex_digit(b[0] % 16));
        assert(a[0] / 16 == b[0] / 16 && a[0] % 16 == b[0] % 16);
        assert(a[0] == b[0]);
        assert(hex_of_bytes(a.skip(1)) =~= ha.skip(2));
        assert(hex_of_bytes(b.skip(1)) =~= hb.skip(2));
        lemma_hex_of_bytes_injective(a.skip(1), b.skip(1));
        assert(a =~= seq![a[0]] + a.skip(1));
        assert(b =~= seq![b[0]] + b.skip(1));
    }
}

/// A character is a hex digit as the `hex` crate accepts them.
pub open spec fn is_hex_char(c: u8) -> bool {
    (48 <= c <= 57) || (97 <= c <= 102) || (65 <= c <= 70)
}

/// The numeric value of one accepted hex character.
pub open spec fn hex_char_val(c: u8) -> u8 {
    if 48 <= c <= 57 {
        (c - 48) as u8
    } else if 97 <= c <= 102 {
        (c - 87) as u8
    } else {
        (c - 55) as u8
    }
}

/// The bytes encoded by an even-length hex string.
pub open spec fn decoded_hex(s: Seq<u8>) -> Seq<u8> {
    Seq::new(s.len() / 2, |i: int| (16 * hex_char_val(s[2 * i]) + hex_char_val(s[2 * i + 1])) as u8)
}

/// A string the `hex` crate decodes: even length, hex characters throughout.
pub open spec fn is_hex_string(s: Seq<u8>) -> bool {
    s.len() % 2 == 0 && forall|i: int| 0 <= i < s.len() ==> is_hex_char(#[trigger] s[i])
}

/// Relies on hex::decode: succeeds exactly on even-length strings of hex
/// characters (either case) and maps each digit pair to one byte.
#[verifier::external_body]
pub fn hex_decode(s: &Vec<u8>) -> (r: Result<Vec<u8>, ()>)
    ensures
        r is Ok <==> is_hex_string(s@),
        r matches Ok(v) ==> v@ == decoded_hex(s@),
{
    match hex::decode(s) {
        Ok(v) => Ok(v),
        Err(_) => Err(()),
    }
}

/// The sixteen lowercase hex digits of a 64-bit value, most significant first:
/// digit `i` encodes bits `60 - 4 i` and up.
pub open spec fn hex16_of_u64(v: u64) -> Seq<u8> {
    Seq::new(16, |i: int| hex_digit(nibble16(v, i)))
}

/// Nibble `i` of a 64-bit value counted from the most significant.
pub open spec fn nibble16(v: u64, i: int) -> u8
    recommends
        0 <= i < 16,
{
    ((v >> ((15 - i) * 4) as u64) & 0xf) as u8
}

/// Fixed-width hex of a 64-bit value, as `{:016x}` prints it.
pub fn u64_to_hex16(v: u64) -> (r: Vec<u8>)
    ensures
        r@ == hex16_of_u64(v),
        r@.len() == 16,
{
    let mut r: Vec<u8> = Vec::new();
    let mut i: usize = 0;
    while i < 16
        invariant
            i <= 16,
            r@.len() == i,
            forall|j: int| 0 <= j < i ==> r@[j] == hex_digit(nibble16(v, j)),
        decreases 16 - i,
    {
        let shift: u64 = ((15 - i) * 4) as u64;
        let nib: u8 = ((v >> shift) & 0xf) as u8;
        assert(nib == nibble16(v, i as int));
        assert(nib < 16) by (bit_vector)
            requires
                nib == ((v >> shift) & 0xf) as u8,
        ;
        r.push(if nib < 10 { 48 + nib } else { 87 + nib });
        i += 1;
    }
    assert(r@ =~= hex16_of_u64(v));
    r
}

/// Equal sixteen-digit hex strings come only from equal values.
pub proof fn lemma_hex16_injective(a: u64, b: u64)
    requires
        hex16_of_u64(a) == hex16_of_u64(b),
    ensures
        a == b,
{
    assert forall|i: int| 0 <= i < 16 implies nibble16(a, i) == nibble16(b, i) by {
        assert(hex16_of_u64(a)[i] == hex16_of_u64(b)[i]);
        assert(hex16_of_u64(a)[i] == hex_digit(nibble16(a, i)));
        assert(hex16_of_u64(b)[i] == hex_digit(nibble16(b, i)));
        let na = nibble16(a, i);
        let nb = nibble16(b, i);
        let sh = ((15 - i) * 4) as u64;
        assert(na < 16 && nb < 16) by (bit_vector)
            requires
                na == ((a >> sh) & 0xf) as u8,
                nb == ((b >> sh) & 0xf) as u8,
        ;
        assert(na == nb);
    }
    assert(nibble16(a, 0) == nibble16(b, 0));
    assert(nibble16(a, 1) == nibble16(b, 1));
    assert(nibble16(a, 2) == nibble16(b, 2));
    assert(nibble16(a, 3) == nibble16(b, 3));
    assert(nibble16(a, 4) == nibble16(b, 4));
    assert(nibble16(a, 5) == nibble16(b, 5));
    assert(nibble16(a, 6) == nibble16(b, 6));
    assert(nibble16(a, 7) == nibble16(b, 7));
    assert(nibble16(a, 8) == nibble16(b, 8));
    assert(nibble16(a, 9) == nibble16(b, 9));
    assert(nibble16(a, 10) == nibble16(b, 10));
    assert(nibble16(a, 11) == nibble16(b, 11));
    assert(nibble16(a, 12) == nibble16(b, 12));
    assert(nibble16(a, 13) == nibble16(b, 13));
    assert(nibble16(a, 14) == nibble16(b, 14));
    assert(nibble16(a, 15) == nibble16(b, 15));
    assert(a == b) by (bit_vector)
        requires
            ((a >> 60u64) & 0xf) as u8 == ((b >> 60u64) & 0xf) as u8,
            ((a >> 56u64) & 0xf) as u8 == ((b >> 56u64) & 0xf) as u8,
            ((a >> 52u64) & 0xf) as u8 == ((b >> 52u64) & 0xf) as u8,
            ((a >> 48u64) & 0xf) as u8 == ((b >> 48u64) & 0xf) as u8,
            ((a >> 44u64) & 0xf) as u8 == ((b >> 44u64) & 0xf) as u8,
            ((a >> 40u64) & 0xf) as u8 == ((b >> 40u64) & 0xf) as u8,
            ((a >> 36u64) & 0xf) as u8 == ((b >> 36u64) & 0xf) as u8,
            ((a >> 32u64) & 0xf) as u8 == ((b >> 32u64) & 0xf) as u8,
            ((a >> 28u64) & 0xf) as u8 == ((b >> 28u64) & 0xf) as u8,
            ((a >> 24u64) & 0xf) as u8 == ((b >> 24u64) & 0xf) as u8,
            ((a >> 20u64) & 0xf) as u8 == ((b >> 20u64) & 0xf) as u8,
            ((a >> 16u64) & 0xf) as u8 == ((b >> 16u64) & 0xf) as u8,
            ((a >> 12u64) & 0xf) as u8 == ((b >> 12u64) & 0xf) as u8,
            ((a >> 8u64) & 0xf) as u8 == ((b >> 8u64) & 0xf) as u8,
            ((a >> 4u64) & 0xf) as u8 == ((b >> 4u64) & 0xf) as u8,
            ((a >> 0u64) & 0xf) as u8 == ((b >> 0u64) & 0xf) as u8,
    ;
}

} // verus!
