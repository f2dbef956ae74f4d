//! The Fletcher checksum of LSPs.

use vstd::arithmetic::div_mod::lemma_mod_multiples_vanish;
use vstd::prelude::*;

verus! {

/// The sum of the octets.
pub open spec fn octet_sum(d: Seq<u8>) -> int
    decreases d.len(),
{
    if d.len() == 0 {
        0
    } else {
        octet_sum(d.drop_last()) + d.last()
    }
}

/// The sum of the octet sums of all the non-empty prefixes.
pub open spec fn running_sum(d: Seq<u8>) -> int
    decreases d.len(),
{
    if d.len() == 0 {
        0
    } else {
        running_sum(d.drop_last()) + octet_sum(d)
    }
}

/// Whether both sums vanish modulo 255, so that the octets carry a checksum
/// that fits them.
pub open spec fn sums_vanish(d: Seq<u8>) -> bool {
    octet_sum(d) % 255 == 0 && running_sum(d) % 255 == 0
}

/// `fletcher::calc_fletcher16` gives the octet sum modulo 255 in its lower
/// octet, and the running sum modulo 255 in its upper octet.
pub assume_specification[ fletcher::calc_fletcher16 ](data: &[u8]) -> (r: u16)
    ensures
        r == octet_sum(data@) % 255 + 256 * (running_sum(data@) % 255),
;

/// The octet other than zero that is congruent to `m` modulo 255.
pub open spec fn check_octet(m: int) -> u8 {
    if m % 255 == 0 {
        255
    } else {
        (m % 255) as u8
    }
}

/// The first check octet of the octets `d`, in which the check octets are
/// the ones at 12 and 13. The length is taken modulo 2^16.
pub open spec fn check_octet_0(d: Seq<u8>) -> u8 {
    check_octet((d.len() % 0x1_0000 - 13) * octet_sum(d) - running_sum(d))
}

/// The second check octet.
pub open spec fn check_octet_1(d: Seq<u8>) -> u8 {
    check_octet(-octet_sum(d) - check_octet_0(d))
}

proof fn lemma_sums_update(d: Seq<u8>, i: int, v: u8)
    requires
        0 <= i < d.len(),
    ensures
        octet_sum(d.update(i, v)) == octet_sum(d) + (v - d[i]),
        running_sum(d.update(i, v)) == running_sum(d) + (d.len() - i) * (v - d[i]),
    decreases d.len(),
{
    let u = d.update(i, v);
    if i == d.len() - 1 {
        assert(u.drop_last() =~= d.drop_last());
        assert((d.len() - i) * (v - d[i]) == v - d[i]) by (nonlinear_arith)
            requires
                i == d.len() - 1,
        ;
    } else {
        lemma_sums_update(d.drop_last(), i, v);
        assert(u.drop_last() =~= d.drop_last().update(i, v));
        let n = d.len() as int;
        let delta = v - d[i];
        assert((n - 1 - i) * delta + delta == (n - i) * delta) by (nonlinear_arith);
    }
}

/// A multiple of 255 can be left out of what a check octet is made from.
pub(crate) proof fn lemma_check_octet_mod(m: int, k: int)
    ensures
        check_octet(m + 255 * k) == check_octet(m),
{
    lemma_mod_multiples_vanish(k, m, 255);
    assert(m + 255 * k == 255 * k + m);
}

/// With the check octets in their place, both sums vanish.
pub proof fn lemma_check_octets_fit(d: Seq<u8>)
    requires
        14 <= d.len() < 0x1_0000,
        d[12] == 0,
        d[13] == 0,
    ensures
        sums_vanish(d.update(12, check_octet_0(d)).update(13, check_octet_1(d))),
{
    let n = d.len() as int;
    let s = octet_sum(d);
    let r = running_sum(d);
    let x = check_octet_0(d) as int;
    let y = check_octet_1(d) as int;
    let m = (n - 13) * s - r;
    let d1 = d.update(12, check_octet_0(d));
    lemma_sums_update(d, 12, check_octet_0(d));
    lemma_sums_update(d1, 13, check_octet_1(d));
    // Both check octets, up to multiples of 255.
    let p = if m % 255 == 0 {
        m / 255 - 1
    } else {
        m / 255
    };
    assert(x == m - 255 * p);
    let q = if (-s - x) % 255 == 0 {
        (-s - x) / 255 - 1
    } else {
        (-s - x) / 255
    };
    assert(y == -s - x - 255 * q);
    assert(s + x + y == 255 * (-q));
    lemma_mod_multiples_vanish(-q, 0, 255);
    let k = -p - (n - 13) * q;
    assert(r + (n - 12) * x + (n - 13) * y == 255 * k) by (nonlinear_arith)
        requires
            m == (n - 13) * s - r,
            x == m - 255 * p,
            y == -s - x - 255 * q,
            k == -p - (n - 13) * q,
    ;
    lemma_mod_multiples_vanish(k, 0, 255);
}

/// Computes the check octets of `data`, the part of an LSP from the LSP ID on
/// with the checksum field zeroed.
pub fn fletcher_check_octets(data: &[u8]) -> (r: [u8; 2])
    requires
        data@.len() % 0x1_0000 >= 13,
    ensures
        r@ == seq![check_octet_0(data@), check_octet_1(data@)],
{
    let checksum = fletcher::calc_fletcher16(data);
    let c0: u32 = (checksum % 256) as u32;
    let c1: u32 = (checksum / 256) as u32;
    let sop: u32 = (data.len() % 0x1_0000) as u32 - 13;
    assert(sop * c0 <= 0xFFFF * 255) by (nonlinear_arith)
        requires
            sop <= 0xFFFF,
            c0 <= 255,
    ;
    let m: u32 = (sop * c0 + 255 - c1) % 255;
    let x: u32 = if m == 0 {
        255
    } else {
        m
    };
    let y: u32 = 510 - c0 - x;
    let y: u32 = if y > 255 {
        y - 255
    } else {
        y
    };
    proof {
        let s = octet_sum(data@);
        let r = running_sum(data@);
        assert(c0 == s % 255 && c1 == r % 255);
        let a = s / 255;
        let b = r / 255;
        assert(sop * s - r == (sop * c0 - c1) + 255 * (sop * a - b)) by (nonlinear_arith)
            requires
                s == 255 * a + c0,
                r == 255 * b + c1,
        ;
        lemma_check_octet_mod(sop * c0 - c1, sop * a - b);
        lemma_check_octet_mod(sop * c0 - c1, 1);
        assert(x == check_octet_0(data@));
        lemma_check_octet_mod(-c0 - x, -a);
        lemma_check_octet_mod(-c0 - x, 2);
        assert(y == check_octet_1(data@));
    }
    let r = [x as u8, y as u8];
    assert(r@ =~= seq![check_octet_0(data@), check_octet_1(data@)]);
    r
}

/// Two numbers whose difference is no multiple of 255 do not both vanish.
proof fn lemma_not_both(s: int, delta: int)
    requires
        s % 255 == 0,
        (s + delta) % 255 == 0,
    ensures
        delta % 255 == 0,
{
}

/// Another octet in one place does not go unnoticed, unless it differs by 255:
/// that is, a zero that became 255, or the other way round.
pub proof fn lemma_octet_noticed(d: Seq<u8>, i: int, v: u8)
    requires
        octet_sum(d) % 255 == 0,
        0 <= i < d.len(),
        v != d[i],
        v - d[i] != 255,
        d[i] - v != 255,
    ensures
        octet_sum(d.update(i, v)) % 255 != 0,
{
    lemma_sums_update(d, i, v);
    if octet_sum(d.update(i, v)) % 255 == 0 {
        lemma_not_both(octet_sum(d), v - d[i]);
    }
}

/// Nor do two neighboring octets that changed places, unless they differ by 255.
pub proof fn lemma_swap_noticed(d: Seq<u8>, i: int)
    requires
        running_sum(d) % 255 == 0,
        0 <= i < d.len() - 1,
        d[i] != d[i + 1],
        d[i] - d[i + 1] != 255,
        d[i + 1] - d[i] != 255,
    ensures
        running_sum(d.update(i, d[i + 1]).update(i + 1, d[i])) % 255 != 0,
        octet_sum(d.update(i, d[i + 1]).update(i + 1, d[i])) == octet_sum(d),
{
    let e = d.update(i, d[i + 1]);
    let n = d.len() as int;
    let delta = d[i + 1] - d[i];
    lemma_sums_update(d, i, d[i + 1]);
    lemma_sums_update(e, i + 1, d[i]);
    assert((n - i) * delta + (n - (i + 1)) * (-delta) == delta) by (nonlinear_arith);
    if running_sum(e.update(i + 1, d[i])) % 255 == 0 {
        lemma_not_both(running_sum(d), delta);
    }
}

/// The check octets that fit are the only ones that do.
pub(crate) proof fn lemma_fitting_octets_unique(d: Seq<u8>, x: u8, y: u8)
    requires
        14 <= d.len() < 0x1_0000,
        d[12] == 0,
        d[13] == 0,
        x != 0,
        y != 0,
    ensures
        check_octet_0(d) != 0,
        check_octet_1(d) != 0,
        sums_vanish(d.update(12, x).update(13, y)) <==> check_octet_0(d) == x && check_octet_1(d)
            == y,
{
    let a = check_octet_0(d);
    let b = check_octet_1(d);
    let n = d.len() as int;
    let fit = d.update(12, a).update(13, b);
    let other = d.update(12, x).update(13, y);
    lemma_check_octets_fit(d);
    lemma_sums_update(d, 12, a);
    lemma_sums_update(d.update(12, a), 13, b);
    lemma_sums_update(d, 12, x);
    lemma_sums_update(d.update(12, x), 13, y);
    if octet_sum(other) % 255 == 0 && running_sum(other) % 255 == 0 {
        let p = x - a;
        let q = y - b;
        assert(octet_sum(other) == octet_sum(fit) + (p + q));
        lemma_not_both(octet_sum(fit), p + q);
        assert(running_sum(other) == running_sum(fit) + ((n - 12) * p + (n - 13) * q)) by {
            assert((n - 12) * (x - 0) + (n - 13) * (y - 0) == (n - 12) * (a - 0) + (n - 13) * (b - 0)
                + ((n - 12) * p + (n - 13) * q)) by (nonlinear_arith)
                requires
                    p == x - a,
                    q == y - b,
            ;
        }
        lemma_not_both(running_sum(fit), (n - 12) * p + (n - 13) * q);
        let k = (p + q) / 255;
        assert(p + q == 255 * k);
        assert((n - 12) * p + (n - 13) * q == p + (n - 13) * k * 255) by (nonlinear_arith)
            requires
                p + q == 255 * k,
        ;
        let m = (n - 13) * k;
        assert(p % 255 == 0) by {
            lemma_mod_multiples_vanish(m, p, 255);
            assert(255 * m + p == p + m * 255);
        }
    }
}

/// The check octets are the only ones that fit: neither is zero, and no other
/// pair without a zero makes both sums vanish.
pub proof fn lemma_check_octets_unique(data: &[u8], r: [u8; 2], x: u8, y: u8)
    requires
        call_ensures(fletcher_check_octets, (data,), r),
        14 <= data@.len() < 0x1_0000,
        data@[12] == 0,
        data@[13] == 0,
        x != 0,
        y != 0,
    ensures
        r@[0] != 0,
        r@[1] != 0,
        ({
            let d = data@.update(12, x).update(13, y);
            octet_sum(d) % 255 == 0 && running_sum(d) % 255 == 0
        }) <==> r@[0] == x && r@[1] == y,
{
    lemma_fitting_octets_unique(data@, x, y);
}

/// The sums are what they are called: each octet counts once in the one, and as
/// often as there are octets from it on in the other.
pub proof fn lemma_sums(d: Seq<u8>, v: u8)
    ensures
        octet_sum(seq![]) == 0,
        running_sum(seq![]) == 0,
        octet_sum(d.push(v)) == octet_sum(d) + v,
        running_sum(d.push(v)) == running_sum(d) + octet_sum(d) + v,
{
    assert(d.push(v).drop_last() =~= d);
}

} // verus!
