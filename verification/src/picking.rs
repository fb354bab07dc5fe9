//! Which of several hits is the one that counts.

use crate::scalar::{Order, Scalar};
use vstd::prelude::*;

verus! {

/// The position of the closest of the first `n` hits: the first hit, unless
/// a later one is at a distance that is less than that of every hit before
/// it that was the closest in its turn. A distance that is a NaN is less
/// than none and greater than none.
pub open spec fn closest_upto<T>(hits: Seq<(T, Scalar)>, n: nat) -> Option<int>
    decreases n,
{
    if n == 0 {
        None
    } else {
        match closest_upto(hits, (n - 1) as nat) {
            None => Some(n - 1),
            Some(k) => if hits[n - 1].1.spec_order(&hits[k].1) == Some(Order::Less) {
                Some(n - 1)
            } else {
                Some(k)
            },
        }
    }
}

/// The closest of the hits, in ghost code.
pub open spec fn spec_closest<T>(hits: Seq<(T, Scalar)>) -> Option<T> {
    match closest_upto(hits, hits.len()) {
        Some(k) => Some(hits[k].0),
        None => None,
    }
}

/// The closest hit is one of the hits. If no distance is a NaN, no hit is
/// closer than it, and the hits before it are all farther.
pub proof fn lemma_closest<T>(hits: Seq<(T, Scalar)>, n: nat)
    requires
        n <= hits.len(),
    ensures
        n == 0 <==> closest_upto(hits, n) is None,
        closest_upto(hits, n) matches Some(k) ==> 0 <= k < n,
        (forall|i: int| 0 <= i < n ==> !(#[trigger] hits[i]).1.spec_is_nan()) ==> (closest_upto(
            hits,
            n,
        ) matches Some(k) ==> {
            &&& forall|i: int|
                0 <= i < n ==> (#[trigger] hits[i]).1.spec_order(&hits[k].1) != Some(Order::Less)
            &&& forall|i: int|
                0 <= i < k ==> (#[trigger] hits[i]).1.spec_order(&hits[k].1) == Some(
                    Order::Greater,
                )
        }),
    decreases n,
{
    if n > 0 {
        lemma_closest(hits, (n - 1) as nat);
    }
}

/// The closest of the hits: the one at the least distance, and among
/// several at that distance the first. Nothing if there is no hit.
pub fn closest<T: Copy>(hits: &Vec<(T, Scalar)>) -> (r: Option<T>)
    ensures
        r == spec_closest(hits@),
{
    let mut best: Option<usize> = None;
    let mut i: usize = 0;
    while i < hits.len()
        invariant
            i <= hits@.len(),
            match best {
                Some(k) => k < i && closest_upto(hits@, i as nat) == Some(k as int),
                None => closest_upto(hits@, i as nat) is None,
            },
        decreases hits@.len() - i,
    {
        best = match best {
            None => Some(i),
            Some(k) => match hits[i].1.order(&hits[k].1) {
                Some(Order::Less) => Some(i),
                _ => Some(k),
            },
        };
        i += 1;
    }
    match best {
        Some(k) => Some(hits[k].0),
        None => None,
    }
}

} // verus!
