//! Ordered sets of networks.

use vstd::prelude::*;

use crate::utils::net::{Ipv4Network, Ipv6Network};

verus! {

/// Networks in order: by address, then by prefix length.
pub trait Ranked: Copy {
    /// The place of the network in the order.
    spec fn rank(self) -> int;

    /// No two networks share a place.
    proof fn lemma_rank(a: Self, b: Self)
        ensures
            a.rank() == b.rank() ==> a == b,
    ;

    /// Whether this network comes before the other one.
    fn precedes(&self, other: &Self) -> (r: bool)
        ensures
            r == (self.rank() < other.rank()),
    ;
}

impl Ranked for Ipv4Network {
    open spec fn rank(self) -> int {
        self.addr.bits * 256 + self.prefix
    }

    proof fn lemma_rank(a: Ipv4Network, b: Ipv4Network) {
    }

    fn precedes(&self, other: &Ipv4Network) -> (r: bool) {
        self.addr.bits < other.addr.bits || (self.addr.bits == other.addr.bits && self.prefix
            < other.prefix)
    }
}

impl Ranked for Ipv6Network {
    open spec fn rank(self) -> int {
        self.addr.bits * 256 + self.prefix
    }

    proof fn lemma_rank(a: Ipv6Network, b: Ipv6Network) {
    }

    fn precedes(&self, other: &Ipv6Network) -> (r: bool) {
        self.addr.bits < other.addr.bits || (self.addr.bits == other.addr.bits && self.prefix
            < other.prefix)
    }
}

/// A set of networks, kept in ascending order.
#[derive(Clone, Debug)]
pub struct AddrSet<N> {
    pub list: Vec<N>,
}

/// Whether a list is in strictly ascending order.
pub open spec fn ascending<N: Ranked>(l: Seq<N>) -> bool {
    forall|i: int, j: int|
        0 <= i < j < l.len() ==> (#[trigger] l[i]).rank() < (#[trigger] l[j]).rank()
}

impl<N: Ranked> View for AddrSet<N> {
    type V = Set<N>;

    open spec fn view(&self) -> Set<N> {
        self.list@.to_set()
    }
}

impl<N: Ranked> AddrSet<N> {
    /// Whether the order is kept.
    pub open spec fn wf(self) -> bool {
        ascending(self.list@)
    }

    /// The empty set.
    pub fn new() -> (r: AddrSet<N>)
        ensures
            r.wf(),
            r.list@.len() == 0,
            r@ == Set::<N>::empty(),
    {
        let r = AddrSet { list: Vec::new() };
        assert(r@ =~= Set::<N>::empty());
        r
    }

    /// Whether the set has no element.
    pub fn is_empty(&self) -> (r: bool)
        ensures
            r == (self.list@.len() == 0),
            r == (self@ == Set::<N>::empty()),
    {
        proof {
            if self.list@.len() == 0 {
                assert(self@ =~= Set::<N>::empty());
            } else {
                assert(self@.contains(self.list@[0]));
            }
        }
        self.list.len() == 0
    }

    /// How many of the elements come before `n`.
    fn position(&self, n: &N) -> (k: usize)
        requires
            self.wf(),
        ensures
            k <= self.list@.len(),
            forall|i: int| 0 <= i < k ==> (#[trigger] self.list@[i]).rank() < n.rank(),
            forall|i: int| k <= i < self.list@.len() ==> (#[trigger] self.list@[i]).rank()
                >= n.rank(),
    {
        let mut k: usize = 0;
        while k < self.list.len() && self.list[k].precedes(n)
            invariant
                self.wf(),
                k <= self.list@.len(),
                forall|i: int| 0 <= i < k ==> (#[trigger] self.list@[i]).rank() < n.rank(),
            ensures
                k < self.list@.len() ==> self.list@[k as int].rank() >= n.rank(),
            decreases self.list@.len() - k,
        {
            k = k + 1;
        }
        k
    }

    /// Adds an element, and tells whether it is new.
    pub fn insert(&mut self, n: N) -> (r: bool)
        requires
            old(self).wf(),
        ensures
            final(self).wf(),
            final(self)@ == old(self)@.insert(n),
            r == !old(self)@.contains(n),
    {
        let ghost l = self.list@;
        let k = self.position(&n);
        if k < self.list.len() && !n.precedes(&self.list[k]) {
            proof {
                N::lemma_rank(n, l[k as int]);
                assert(l.contains(n));
                assert(self@ =~= old(self)@.insert(n));
            }
            return false;
        }
        proof {
            if l.contains(n) {
                let i = choose|i: int| 0 <= i < l.len() && l[i] == n;
                assert(l[i].rank() == n.rank());
            }
        }
        self.list.insert(k, n);
        proof {
            let m = self.list@;
            assert(m[k as int] == n);
            assert forall|x: N| self@.contains(x) <==> old(self)@.insert(n).contains(x) by {
                if l.contains(x) {
                    let i = choose|i: int| 0 <= i < l.len() && l[i] == x;
                    assert(m[if i < k {
                        i
                    } else {
                        i + 1
                    }] == x);
                }
                if m.contains(x) && x != n {
                    let i = choose|i: int| 0 <= i < m.len() && m[i] == x;
                    assert(l[if i < k {
                        i
                    } else {
                        i - 1
                    }] == x);
                }
            }
            assert(self@ =~= old(self)@.insert(n));
        }
        true
    }

    /// Takes an element out, and tells whether it was there.
    pub fn remove(&mut self, n: &N) -> (r: bool)
        requires
            old(self).wf(),
        ensures
            final(self).wf(),
            final(self)@ == old(self)@.remove(*n),
            r == old(self)@.contains(*n),
    {
        let ghost l = self.list@;
        let k = self.position(n);
        if k < self.list.len() && !n.precedes(&self.list[k]) {
            proof {
                N::lemma_rank(*n, l[k as int]);
            }
            let _ = self.list.remove(k);
            proof {
                let m = self.list@;
                assert(l.contains(*n));
                assert forall|x: N| self@.contains(x) <==> old(self)@.remove(*n).contains(x) by {
                    if l.contains(x) && x != *n {
                        let i = choose|i: int| 0 <= i < l.len() && l[i] == x;
                        assert(m[if i < k {
                            i
                        } else {
                            i - 1
                        }] == x);
                    }
                    if m.contains(x) {
                        let i = choose|i: int| 0 <= i < m.len() && m[i] == x;
                        let j = if i < k {
                            i
                        } else {
                            i + 1
                        };
                        assert(l[j] == x);
                        assert(l[j].rank() != l[k as int].rank());
                    }
                }
                assert(self@ =~= old(self)@.remove(*n));
            }
            return true;
        }
        proof {
            if l.contains(*n) {
                let i = choose|i: int| 0 <= i < l.len() && l[i] == *n;
                assert(l[i].rank() == n.rank());
            }
            assert(self@ =~= old(self)@.remove(*n));
        }
        false
    }

    /// The element that comes before all others.
    pub fn first(&self) -> (r: N)
        requires
            self.wf(),
            self.list@.len() > 0,
        ensures
            r == self.list@[0],
            self@.contains(r),
            forall|x: N| self@.contains(x) ==> r.rank() <= #[trigger] x.rank(),
    {
        assert(self.list@.contains(self.list@[0]));
        self.list[0]
    }
}

/// Networks are ordered by their addresses, and those with the same address by
/// the lengths of their prefixes.
pub proof fn lemma_order(a: Ipv4Network, b: Ipv4Network, c: Ipv6Network, d: Ipv6Network)
    ensures
        a.addr.bits < b.addr.bits ==> a.rank() < b.rank(),
        a.addr.bits == b.addr.bits && a.prefix < b.prefix ==> a.rank() < b.rank(),
        a.rank() == b.rank() ==> a == b,
        c.addr.bits < d.addr.bits ==> c.rank() < d.rank(),
        c.addr.bits == d.addr.bits && c.prefix < d.prefix ==> c.rank() < d.rank(),
        c.rank() == d.rank() ==> c == d,
{
}

/// What is inserted is in the set, what is removed is not, and nothing else
/// changes. Both tell whether there was something to do. The first element is
/// one, and no other comes before it.
pub proof fn lemma_set_operations<N: Ranked>(
    a: AddrSet<N>,
    n: N,
    with: AddrSet<N>,
    added: bool,
    without: AddrSet<N>,
    removed: bool,
)
    requires
        exists|x: &mut AddrSet<N>| #[trigger]
            call_ensures(AddrSet::<N>::insert, (x, n), added) && *x == a && *final(x) == with,
        exists|x: &mut AddrSet<N>| #[trigger]
            call_ensures(AddrSet::<N>::remove, (x, &n), removed) && *x == a && *final(x) == without,
    ensures
        with@.contains(n),
        !without@.contains(n),
        forall|m: N| m != n ==> (#[trigger] with@.contains(m) <==> a@.contains(m)),
        forall|m: N| m != n ==> (#[trigger] without@.contains(m) <==> a@.contains(m)),
        removed <==> a@.contains(n),
        added <==> !a@.contains(n),
        forall|i: int, j: int|
            0 <= i < j < with.list@.len() ==> (#[trigger] with.list@[i]).rank() < (
            #[trigger] with.list@[j]).rank(),
        forall|i: int, j: int|
            0 <= i < j < without.list@.len() ==> (#[trigger] without.list@[i]).rank() < (
            #[trigger] without.list@[j]).rank(),
{
}

/// The set is empty exactly if it has no element, and its first element comes
/// before all others.
pub proof fn lemma_set_queries<N: Ranked>(a: AddrSet<N>, empty: bool, first: N)
    requires
        call_ensures(AddrSet::<N>::is_empty, (&a,), empty),
        call_ensures(AddrSet::<N>::first, (&a,), first),
        a.list@.len() > 0,
    ensures
        !empty,
        a@.contains(first),
        forall|m: N| #[trigger] a@.contains(m) ==> m == first || first.rank() < m.rank(),
{
    assert forall|m: N| #[trigger] a@.contains(m) implies m == first || first.rank() < m.rank() by {
        N::lemma_rank(first, m);
        assert(first.rank() <= m.rank());
    }
}

/// The set is empty exactly if nothing is in it.
pub proof fn lemma_set_empty<N: Ranked>(a: AddrSet<N>, empty: bool)
    requires
        call_ensures(AddrSet::<N>::is_empty, (&a,), empty),
    ensures
        empty <==> forall|n: N| !(#[trigger] a@.contains(n)),
{
    if a.list@.len() > 0 {
        assert(a@.contains(a.list@[0]));
    }
}

/// A new set is empty.
pub proof fn lemma_new_set<N: Ranked>(r: AddrSet<N>, n: N)
    requires
        call_ensures(AddrSet::<N>::new, (), r),
    ensures
        r.list@.len() == 0,
        !r@.contains(n),
{
}

/// What is in the set is what its list holds.
pub proof fn lemma_members<N: Ranked>(a: AddrSet<N>, n: N)
    ensures
        a@.contains(n) <==> exists|i: int| 0 <= i < a.list@.len() && #[trigger] a.list@[i] == n,
{
}

} // verus!
