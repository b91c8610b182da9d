//! The order of packets: by their sequence bytes alone, the first byte
//! first. Kind, timestamp and payload do not enter into it, so two packets
//! that differ only there compare as equal without being equal.

use crate::packet::Packet;
use std::cmp::Ordering;
use vstd::prelude::*;

verus! {

/// Compares two byte strings position by position: the first position
/// where they differ decides, and a string that ends there comes first.
pub open spec fn bytewise(a: Seq<u8>, b: Seq<u8>) -> Ordering
    decreases a.len(),
{
    if a.len() == 0 && b.len() == 0 {
        Ordering::Equal
    } else if a.len() == 0 {
        Ordering::Less
    } else if b.len() == 0 {
        Ordering::Greater
    } else if a[0] < b[0] {
        Ordering::Less
    } else if a[0] > b[0] {
        Ordering::Greater
    } else {
        bytewise(a.drop_first(), b.drop_first())
    }
}

/// Strings compare as equal exactly when they are the same string.
pub proof fn lemma_bytewise_equal(a: Seq<u8>, b: Seq<u8>)
    ensures
        bytewise(a, b) == Ordering::Equal <==> a == b,
    decreases a.len(),
{
    if a.len() > 0 && b.len() > 0 {
        lemma_bytewise_equal(a.drop_first(), b.drop_first());
        if a[0] == b[0] && a.drop_first() == b.drop_first() {
            assert(a =~= seq![a[0]] + a.drop_first());
            assert(b =~= seq![b[0]] + b.drop_first());
        }
    } else if a.len() == 0 && b.len() == 0 {
        assert(a =~= b);
    }
}

/// Turning a comparison round turns its result round.
pub proof fn lemma_bytewise_antisymmetric(a: Seq<u8>, b: Seq<u8>)
    ensures
        bytewise(a, b) == Ordering::Less <==> bytewise(b, a) == Ordering::Greater,
    decreases a.len(),
{
    if a.len() > 0 && b.len() > 0 {
        lemma_bytewise_antisymmetric(a.drop_first(), b.drop_first());
    }
}

impl PartialOrd for Packet {
    fn partial_cmp(&self, other: &Self) -> (order: Option<Ordering>) {
        let a = &self.seq;
        let b = &other.seq;
        proof {
            let a1 = a@.drop_first();
            let a2 = a1.drop_first();
            let a3 = a2.drop_first();
            let a4 = a3.drop_first();
            let b1 = b@.drop_first();
            let b2 = b1.drop_first();
            let b3 = b2.drop_first();
            let b4 = b3.drop_first();
            assert(a1[0] == a@[1] && a2[0] == a@[2] && a3[0] == a@[3] && a4[0] == a@[4]);
            assert(b1[0] == b@[1] && b2[0] == b@[2] && b3[0] == b@[3] && b4[0] == b@[4]);
            assert(bytewise(a4.drop_first(), b4.drop_first()) == Ordering::Equal);
            assert(bytewise(a4, b4) == if a@[4] < b@[4] {
                Ordering::Less
            } else if a@[4] > b@[4] {
                Ordering::Greater
            } else {
                Ordering::Equal
            });
            assert(a@[3] == b@[3] ==> bytewise(a3, b3) == bytewise(a4, b4));
            assert(a@[2] == b@[2] ==> bytewise(a2, b2) == bytewise(a3, b3));
            assert(a@[1] == b@[1] ==> bytewise(a1, b1) == bytewise(a2, b2));
            assert(a@[0] == b@[0] ==> bytewise(a@, b@) == bytewise(a1, b1));
        }
        if a[0] < b[0] {
            Some(Ordering::Less)
        } else if a[0] > b[0] {
            Some(Ordering::Greater)
        } else if a[1] < b[1] {
            Some(Ordering::Less)
        } else if a[1] > b[1] {
            Some(Ordering::Greater)
        } else if a[2] < b[2] {
            Some(Ordering::Less)
        } else if a[2] > b[2] {
            Some(Ordering::Greater)
        } else if a[3] < b[3] {
            Some(Ordering::Less)
        } else if a[3] > b[3] {
            Some(Ordering::Greater)
        } else if a[4] < b[4] {
            Some(Ordering::Less)
        } else if a[4] > b[4] {
            Some(Ordering::Greater)
        } else {
            Some(Ordering::Equal)
        }
    }
}

impl vstd::std_specs::cmp::PartialOrdSpecImpl for Packet {
    open spec fn obeys_partial_cmp_spec() -> bool {
        true
    }

    open spec fn partial_cmp_spec(&self, other: &Self) -> Option<Ordering> {
        Some(bytewise(self.seq@, other.seq@))
    }
}

} // verus!
