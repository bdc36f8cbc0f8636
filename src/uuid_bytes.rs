use vstd::prelude::*;

verus! {

/// Byte `i` (0 is the most significant) of the 16-byte big-endian form of `x`.
pub open spec fn be_byte(x: u128, i: int) -> u8 {
    ((x >> ((8 * (15 - i)) as u128)) & 0xff) as u8
}

/// The 16-byte big-endian form of `x`.
pub open spec fn be_bytes(x: u128) -> Seq<u8> {
    Seq::new(16, |i: int| be_byte(x, i))
}

/// The number whose big-endian digits in base 256 are `b`, cut to 128 bits.
pub open spec fn be_value(b: Seq<u8>) -> u128
    decreases b.len(),
{
    if b.len() == 0 {
        0
    } else {
        ((be_value(b.drop_last()) << 8u128) | (b.last() as u128)) as u128
    }
}

/// The 16 bytes of `x`, most significant first.
pub fn uuid_to_bytes(x: u128) -> (r: Vec<u8>)
    ensures
        r@ == be_bytes(x),
{
    let mut r: Vec<u8> = Vec::new();
    let mut i: usize = 0;
    while i < 16
        invariant
            i <= 16,
            r@.len() == i,
            forall|j: int| 0 <= j < i ==> r@[j] == be_byte(x, j),
        decreases 16 - i,
    {
        let shift: u128 = (8 * (15 - i)) as u128;
        let b: u8 = ((x >> shift) & 0xff) as u8;
        r.push(b);
        i = i + 1;
    }
    assert(r@ =~= be_bytes(x));
    r
}

/// The number that `b` spells in big-endian order.
pub fn uuid_from_bytes(b: &Vec<u8>) -> (r: u128)
    requires
        b@.len() == 16,
    ensures
        r == be_value(b@),
{
    let mut acc: u128 = 0;
    let mut i: usize = 0;
    while i < 16
        invariant
            i <= 16,
            b@.len() == 16,
            acc == be_value(b@.take(i as int)),
        decreases 16 - i,
    {
        assert(b@.take(i as int + 1).drop_last() =~= b@.take(i as int));
        acc = (acc << 8u128) | (b[i] as u128);
        i = i + 1;
    }
    assert(b@.take(16) =~= b@);
    acc
}

proof fn lemma_be_value_prefix(x: u128, n: int)
    requires
        0 <= n <= 16,
    ensures
        be_value(be_bytes(x).take(n)) == if n == 0 { 0u128 } else { x >> ((8 * (16 - n)) as u128) },
    decreases n,
{
    if n > 0 {
        lemma_be_value_prefix(x, n - 1);
        assert(be_bytes(x).take(n).drop_last() =~= be_bytes(x).take(n - 1));
        let s: u128 = (8 * (16 - n)) as u128;
        let last = be_bytes(x).take(n).last();
        assert(last == be_byte(x, n - 1));
        assert(be_byte(x, n - 1) == ((x >> s) & 0xff) as u8);
        let v = x >> s;
        assert(((v & 0xff) as u8) as u128 == v & 0xff) by (bit_vector);
        assert(be_value(be_bytes(x).take(n)) == ((be_value(be_bytes(x).take(n - 1)) << 8u128) | (last as u128)) as u128);
        if n == 1 {
            assert(((0u128 << 8u128) | ((x >> 120u128) & 0xff)) == x >> 120u128) by (bit_vector);
        } else {
            let p: u128 = (8 * (16 - (n - 1))) as u128;
            assert(p == s + 8);
            assert(s <= 112);
            assert(s <= 112 ==> ((x >> (s + 8)) << 8u128) | ((x >> s) & 0xff) == x >> s) by (bit_vector);
        }
    }
}

/// Reading back the bytes of a number gives the number.
pub proof fn lemma_uuid_bytes_round_trip(x: u128)
    ensures
        be_value(be_bytes(x)) == x,
        be_bytes(x).len() == 16,
{
    lemma_be_value_prefix(x, 16);
    assert(be_bytes(x).take(16) =~= be_bytes(x));
    assert(x >> 0u128 == x) by (bit_vector);
}

} // verus!
