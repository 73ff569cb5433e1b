//! The calls into `rand`, `rand_chacha` and `itertools`, and one into
//! `String`. Nothing in this file is proved: Verus takes each contract here
//! on trust, as a statement of what the called function does.

use itertools::structs::Permutations;
use itertools::Itertools;
use rand::seq::SliceRandom;
use rand::SeedableRng;
use rand_chacha::ChaCha12Rng;
use std::ops::Range;
use vstd::prelude::*;

verus! {

/// An order of the numbers below `n`: each of them once.
pub open spec fn is_order(order: Seq<usize>, n: nat) -> bool {
    &&& order.len() == n
    &&& forall|i: int| 0 <= i < order.len() ==> order[i] < n
    &&& order.no_duplicates()
}

/// The items of `parts` in their order, with `sep` between each two.
pub open spec fn joined(parts: Seq<Seq<char>>, sep: Seq<char>) -> Seq<char>
    decreases parts.len(),
{
    if parts.len() == 0 {
        Seq::empty()
    } else if parts.len() == 1 {
        parts[0]
    } else {
        joined(parts.drop_last(), sep) + sep + parts.last()
    }
}

/// `Itertools::join` on the strings of `parts`. Trusted: the result holds
/// all of them in their order, with `sep` between each two and nothing
/// else.
#[verifier::external_body]
pub(crate) fn join(parts: &Vec<String>, sep: &str) -> (all: String)
    ensures
        all@ == joined(parts.deep_view(), sep@),
{
    parts.iter().join(sep)
}

/// `String::push`. Trusted: it appends the character to the end of the
/// string.
pub assume_specification[ String::push ](text: &mut String, c: char)
    ensures
        final(text)@ == old(text)@.push(c),
;

/// What `SliceRandom::shuffle` makes of `order` with a `ChaCha12Rng` seeded
/// with `seed`.
pub uninterp spec fn shuffled(order: Seq<usize>, seed: u64) -> Seq<usize>;

/// `SliceRandom::shuffle` on `order`, with the `ChaCha12Rng` that
/// `SeedableRng::seed_from_u64` makes of `seed`. Trusted: the shuffle only
/// swaps items, so the same items are there afterwards, each as often as
/// before; and the generator is the ChaCha cipher run on its seed, so the
/// outcome depends on `order` and `seed` alone.
#[verifier::external_body]
pub(crate) fn shuffle(order: &mut Vec<usize>, seed: u64)
    ensures
        final(order)@ == shuffled(old(order)@, seed),
        final(order)@.to_multiset() == old(order)@.to_multiset(),
{
    order.shuffle(&mut ChaCha12Rng::seed_from_u64(seed));
}

/// `rand::random` for a `u64`: a number drawn from the generator of the
/// running thread. Nothing is claimed of it.
#[verifier::external_body]
pub(crate) fn random_seed() -> u64 {
    rand::random()
}

/// `itertools::structs::Permutations`, the iterator that hands out the
/// orders of a search. Verus sees nothing inside it.
#[verifier::external_type_specification]
#[verifier::external_body]
#[verifier::reject_recursive_types(I)]
pub struct ExPermutations<I: Iterator>(itertools::structs::Permutations<I>);

/// The orders that `orders` has not handed out yet, the next one first.
pub uninterp spec fn pending(orders: Permutations<Range<usize>>) -> Seq<Seq<usize>>;

/// The orders of the numbers below `n`, in the sequence in which
/// `Itertools::permutations` hands them out.
pub uninterp spec fn index_orders(n: nat) -> Seq<Seq<usize>>;

/// `Itertools::permutations` on the numbers below `n`, taken `n` at a time.
/// Trusted: the iterator hands out orders of these numbers only, leaves
/// none of their orders out, and goes through them in a sequence that
/// depends on `n` alone.
#[verifier::external_body]
pub(crate) fn all_orders(n: usize) -> (orders: Permutations<Range<usize>>)
    ensures
        pending(orders) == index_orders(n as nat),
        forall|k: int|
            0 <= k < pending(orders).len() ==> is_order(#[trigger] pending(orders)[k], n as nat),
        forall|order: Seq<usize>| is_order(order, n as nat) ==> pending(orders).contains(order),
{
    (0..n).permutations(n)
}

/// `Iterator::next` of `Permutations`. Trusted: it hands out the next of
/// the orders that are left and keeps the rest, or tells that none is left.
#[verifier::external_body]
pub(crate) fn next_order(orders: &mut Permutations<Range<usize>>) -> (order: Option<Vec<usize>>)
    ensures
        order is Some <==> pending(*old(orders)).len() > 0,
        order matches Some(next) ==> next@ == pending(*old(orders))[0] && pending(*final(orders))
            == pending(*old(orders)).drop_first(),
        order is None ==> pending(*final(orders)).len() == 0,
{
    orders.next()
}

} // verus!
