//! Big-endian encodings of natural numbers.

use vstd::arithmetic::div_mod::lemma_div_denominator;
use vstd::prelude::*;

verus! {

/// The number that the octets `s` denote in big-endian order.
pub open spec fn be_uint(s: Seq<u8>) -> nat
    decreases s.len(),
{
    if s.len() == 0 {
        0
    } else {
        be_uint(s.drop_last()) * 256 + s.last() as nat
    }
}

/// The `k` least significant octets of `n`, in big-endian order.
pub open spec fn be_bytes(n: nat, k: nat) -> Seq<u8>
    decreases k,
{
    if k == 0 {
        Seq::empty()
    } else {
        be_bytes(n / 256, (k - 1) as nat).push((n % 256) as u8)
    }
}

/// The number of values that `k` octets can denote.
pub open spec fn pow256(k: nat) -> nat
    decreases k,
{
    if k == 0 {
        1
    } else {
        256 * pow256((k - 1) as nat)
    }
}

/// `be_bytes` gives as many octets as it was asked for.
pub broadcast proof fn lemma_be_bytes_len(n: nat, k: nat)
    ensures
        #[trigger] be_bytes(n, k).len() == k,
    decreases k,
{
    if k > 0 {
        lemma_be_bytes_len(n / 256, (k - 1) as nat);
    }
}

/// Reading the octets of a number gives the number back, if it fits.
pub proof fn lemma_be_uint_of_bytes(n: nat, k: nat)
    requires
        n < pow256(k),
    ensures
        be_uint(be_bytes(n, k)) == n,
    decreases k,
{
    lemma_be_bytes_len(n, k);
    if k > 0 {
        assert(n / 256 < pow256((k - 1) as nat));
        lemma_be_uint_of_bytes(n / 256, (k - 1) as nat);
        let s = be_bytes(n, k);
        assert(s.drop_last() =~= be_bytes(n / 256, (k - 1) as nat));
    }
}

/// Writing the number that some octets denote gives the octets back.
pub proof fn lemma_be_bytes_of_uint(s: Seq<u8>)
    ensures
        be_bytes(be_uint(s), s.len()) == s,
        be_uint(s) < pow256(s.len()),
    decreases s.len(),
{
    if s.len() > 0 {
        lemma_be_bytes_of_uint(s.drop_last());
        let hi = be_uint(s.drop_last());
        let lo = s.last() as nat;
        assert((hi * 256 + lo) / 256 == hi && (hi * 256 + lo) % 256 == lo);
        assert(s =~= s.drop_last().push(s.last()));
    } else {
        assert(be_bytes(be_uint(s), s.len()) =~= s);
    }
}

/// The bounds of the machine integers, counted in octets.
pub proof fn lemma_pow256_values()
    ensures
        pow256(1) == 0x100,
        pow256(2) == 0x1_0000,
        pow256(3) == 0x100_0000,
        pow256(4) == 0x1_0000_0000,
        pow256(16) == u128::MAX + 1,
{
    reveal_with_fuel(pow256, 17);
}

/// The two octets of a 16 bit number.
pub proof fn lemma_be_bytes_2(n: u16)
    ensures
        be_bytes(n as nat, 2) == seq![(n / 256) as u8, (n % 256) as u8],
{
    reveal_with_fuel(be_bytes, 3);
    assert(be_bytes(n as nat, 2) =~= seq![(n / 256) as u8, (n % 256) as u8]);
}

/// The 4 octets of a 32 bit number.
pub fn octets4(n: u32) -> (r: [u8; 4])
    ensures
        r@ == be_bytes(n as nat, 4),
{
    let r = [
        (n / 0x100_0000) as u8,
        (n / 0x1_0000 % 0x100) as u8,
        (n / 0x100 % 0x100) as u8,
        (n % 0x100) as u8,
    ];
    proof {
        reveal_with_fuel(be_bytes, 5);
        assert(r@ =~= be_bytes(n as nat, 4));
    }
    r
}

/// The 16 octets of a 128 bit number.
pub fn octets16(n: u128) -> (r: [u8; 16])
    ensures
        r@ == be_bytes(n as nat, 16),
{
    let mut r: [u8; 16] = [0; 16];
    let mut x: u128 = n;
    let mut i: usize = 16;
    assert(be_bytes(n as nat, 16) =~= be_bytes(x as nat, 16) + r@.subrange(16, 16));
    while i > 0
        invariant
            i <= 16,
            be_bytes(n as nat, 16) =~= be_bytes(x as nat, i as nat) + r@.subrange(i as int, 16),
        decreases i,
    {
        let ghost before = r@;
        r[i - 1] = (x % 256) as u8;
        proof {
            lemma_be_bytes_len(x as nat, i as nat);
            lemma_be_bytes_len((x / 256) as nat, (i - 1) as nat);
            assert(r@ =~= before.update(i - 1, (x % 256) as u8));
            assert(before.subrange(i as int, 16) =~= r@.subrange(i as int, 16));
            assert(r@.subrange(i - 1, 16) =~= seq![(x % 256) as u8] + r@.subrange(i as int, 16));
        }
        x = x / 256;
        i = i - 1;
    }
    assert(be_bytes(x as nat, 0) =~= Seq::<u8>::empty());
    assert(r@.subrange(0, 16) =~= r@);
    r
}

/// The number that the `k` octets of `s` from `i` on denote.
pub open spec fn be_field(s: Seq<u8>, i: int, k: int) -> nat {
    be_uint(s.subrange(i, i + k))
}

/// More octets can denote more values.
pub proof fn lemma_pow256_monotone(i: nat, j: nat)
    requires
        i <= j,
    ensures
        pow256(i) <= pow256(j),
    decreases j - i,
{
    if i < j {
        lemma_pow256_monotone(i, (j - 1) as nat);
    }
}

/// A field of two, three or four octets, octet by octet.
pub proof fn lemma_be_fields(s: Seq<u8>, i: int)
    ensures
        0 <= i && i + 2 <= s.len() ==> be_field(s, i, 2) == 0x100 * s[i] + s[i + 1],
        0 <= i && i + 3 <= s.len() ==> be_field(s, i, 3) == 0x1_0000 * s[i] + 0x100 * s[i + 1] + s[i
            + 2],
        0 <= i && i + 4 <= s.len() ==> be_field(s, i, 4) == 0x100_0000 * s[i] + 0x1_0000 * s[i + 1]
            + 0x100 * s[i + 2] + s[i + 3],
{
    reveal_with_fuel(be_uint, 5);
}

/// The octets of a number are its digits to the base of 256, the first one
/// counting most.
pub proof fn lemma_be_bytes_digit(n: nat, k: nat, i: int)
    requires
        0 <= i < k,
    ensures
        be_bytes(n, k)[i] == (n / pow256((k - 1 - i) as nat)) % 256,
    decreases k,
{
    lemma_be_bytes_len(n / 256, (k - 1) as nat);
    assert(be_bytes(n, k) == be_bytes(n / 256, (k - 1) as nat).push((n % 256) as u8));
    if i == k - 1 {
        assert(pow256((k - 1 - i) as nat) == 1);
        assert(n / 1 == n);
    } else {
        lemma_be_bytes_digit(n / 256, (k - 1) as nat, i);
        let p = pow256((k - 2 - i) as nat);
        lemma_pow256_monotone(0, (k - 2 - i) as nat);
        lemma_div_denominator(n as int, 256, p as int);
        assert(pow256((k - 1 - i) as nat) == 256 * p);
        assert((n / 256) / p == n / (256 * p));
    }
}

/// What an octet tells in its bits.
pub(crate) proof fn lemma_octet_bits(x: u8)
    ensures
        x & 0x80 != 0 <==> x >= 0x80,
        x & 0x40 != 0 <==> x % 0x80 >= 0x40,
        x & 0x20 != 0 <==> x % 0x40 >= 0x20,
        x & 0x7F == x % 0x80,
        x & 0x3F == x % 0x40,
        x & 0x03 == x % 4,
{
    assert(x & 0x80 != 0 <==> x >= 0x80) by (bit_vector);
    assert(x & 0x40 != 0 <==> x % 0x80 >= 0x40) by (bit_vector);
    assert(x & 0x20 != 0 <==> x % 0x40 >= 0x20) by (bit_vector);
    assert(x & 0x7F == x % 0x80) by (bit_vector);
    assert(x & 0x3F == x % 0x40) by (bit_vector);
    assert(x & 0x03 == x % 4) by (bit_vector);
}

} // verus!
