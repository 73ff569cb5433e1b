//! The slide builder: every horizontal photo becomes a slide of its own, the
//! vertical photos are paired two by two in a given or a shuffled order.

use crate::photo::{Orientation, Photo, PhotoView, Slide, SlideView};
use crate::trusted::{is_order, shuffle, shuffled};
use vstd::prelude::*;

verus! {

/// The positions in `photos` of the photos laid out as `orient`, ascending.
pub open spec fn positions(photos: Seq<PhotoView>, orient: Orientation) -> Seq<int>
    decreases photos.len(),
{
    if photos.len() == 0 {
        Seq::empty()
    } else if photos.last().orient == orient {
        positions(photos.drop_last(), orient).push(photos.len() - 1)
    } else {
        positions(photos.drop_last(), orient)
    }
}

/// The number of slides that `photos` make: one for each horizontal photo
/// and one for every two vertical photos.
pub open spec fn slide_count(photos: Seq<PhotoView>) -> nat {
    positions(photos, Orientation::Horizontal).len()
        + positions(photos, Orientation::Vertical).len() / 2
}

/// The place of a slide in a plan: the positions of its photos in the list
/// of photos the slides are built from.
pub enum Slot {
    Pair(int, int),
    Single(int),
}

impl Slot {
    /// Whether the photo at position `at` stands in this slot.
    pub open spec fn holds(self, at: int) -> bool {
        match self {
            Slot::Pair(first, second) => first == at || second == at,
            Slot::Single(only) => only == at,
        }
    }
}

/// The plan of the pool built from `photos` when the vertical photos are
/// taken in the order `order`: first a slide for each horizontal photo, as
/// they come in `photos`; then the vertical photos two by two, the first
/// of `order` with the second, the third with the fourth and so on. With an
/// odd number of vertical photos the last of `order` is left out.
pub open spec fn plan(photos: Seq<PhotoView>, order: Seq<usize>) -> Seq<Slot> {
    let wide = positions(photos, Orientation::Horizontal);
    let tall = positions(photos, Orientation::Vertical);
    Seq::new(wide.len(), |k: int| Slot::Single(wide[k])) + Seq::new(
        tall.len() / 2,
        |k: int| Slot::Pair(tall[order[2 * k] as int], tall[order[2 * k + 1] as int]),
    )
}

/// The slide that stands at `slot`.
pub open spec fn slide_at(photos: Seq<PhotoView>, slot: Slot) -> SlideView {
    match slot {
        Slot::Pair(first, second) => SlideView::Vertical(photos[first], photos[second]),
        Slot::Single(only) => SlideView::Horizontal(photos[only]),
    }
}

/// The pool of slides built from `photos` when the vertical photos are taken
/// in the order `order`.
pub open spec fn pool_of(photos: Seq<PhotoView>, order: Seq<usize>) -> Seq<SlideView> {
    Seq::new(plan(photos, order).len(), |k: int| slide_at(photos, plan(photos, order)[k]))
}

/// The positions of the vertical photos that the plan pairs, in the order in
/// which it takes them: twice the half, rounded down, of their number.
pub open spec fn paired(photos: Seq<PhotoView>, order: Seq<usize>) -> Seq<int> {
    let tall = positions(photos, Orientation::Vertical);
    Seq::new(2 * (tall.len() / 2), |m: int| tall[order[m] as int])
}

/// The numbers below `n` in ascending order.
pub open spec fn ascending(n: nat) -> Seq<usize> {
    Seq::new(n, |i: int| i as usize)
}

/// The order in which `build` takes the vertical photos of `photos` for the
/// seed `seed`: the shuffle of their ascending order.
pub open spec fn shuffled_order(photos: Seq<PhotoView>, seed: u64) -> Seq<usize> {
    shuffled(ascending(positions(photos, Orientation::Vertical).len()), seed)
}

/// `positions` lists exactly the photos laid out as `orient`, each once and
/// in ascending order.
pub proof fn lemma_positions(photos: Seq<PhotoView>, orient: Orientation)
    ensures
        positions(photos, orient).len() <= photos.len(),
        forall|k: int|
            0 <= k < positions(photos, orient).len() ==> 0 <= #[trigger] positions(
                photos,
                orient,
            )[k] < photos.len() && photos[positions(photos, orient)[k]].orient == orient,
        forall|j: int, k: int|
            0 <= j < k < positions(photos, orient).len() ==> positions(photos, orient)[j]
                < positions(photos, orient)[k],
        forall|i: int|
            0 <= i < photos.len() && (#[trigger] photos[i]).orient == orient ==> positions(
                photos,
                orient,
            ).contains(i),
    decreases photos.len(),
{
    if photos.len() > 0 {
        let rest = photos.drop_last();
        let before = positions(rest, orient);
        let all = positions(photos, orient);
        lemma_positions(rest, orient);
        assert forall|i: int| 0 <= i < photos.len() && (#[trigger] photos[i]).orient
            == orient implies all.contains(i) by {
            if i < photos.len() - 1 {
                assert(rest[i].orient == orient);
                let k = choose|k: int| 0 <= k < before.len() && before[k] == i;
                assert(all[k] == i);
            } else {
                assert(all[all.len() - 1] == i);
            }
        }
    }
}

/// A sequence with the same items as an order of the numbers below `n`,
/// each as often, is such an order too.
pub proof fn lemma_same_items_is_order(order: Seq<usize>, other: Seq<usize>, n: nat)
    requires
        is_order(order, n),
        order.to_multiset() == other.to_multiset(),
    ensures
        is_order(other, n),
{
    vstd::seq_lib::to_multiset_len(order);
    vstd::seq_lib::to_multiset_len(other);
    assert forall|i: int| 0 <= i < other.len() implies other[i] < n by {
        vstd::seq_lib::to_multiset_contains(other, other[i]);
        vstd::seq_lib::to_multiset_contains(order, other[i]);
    }
    order.lemma_multiset_has_no_duplicates();
    other.lemma_multiset_has_no_duplicates_conv();
}

/// An order of the numbers below `n` leaves none of them out.
pub proof fn lemma_order_is_complete(order: Seq<usize>, n: nat)
    requires
        is_order(order, n),
    ensures
        n <= usize::MAX + 1,
        forall|v: usize| v < n ==> #[trigger] order.contains(v),
{
    let places = Seq::new(order.len(), |i: int| order[i] as int);
    let below = vstd::set_lib::set_int_range(0, n as int);
    places.unique_seq_to_set();
    vstd::seq_lib::seq_to_set_is_finite(places);
    vstd::set_lib::lemma_int_range(0, n as int);
    assert(places.to_set().subset_of(below)) by {
        assert forall|v: int| places.to_set().contains(v) implies below.contains(v) by {
            let i = choose|i: int| 0 <= i < places.len() && places[i] == v;
            assert(order[i] < n);
        }
    }
    vstd::set_lib::lemma_subset_equality(places.to_set(), below);
    if n > usize::MAX + 1 {
        assert(below.contains(usize::MAX + 1));
    }
    assert forall|v: usize| v < n implies #[trigger] order.contains(v) by {
        assert(below.contains(v as int));
        let i = choose|i: int| 0 <= i < places.len() && places[i] == v as int;
        assert(order[i] == v);
    }
}

/// The pool holds as many slides as the photos make, each of them with its
/// photos laid out as it asks.
pub proof fn lemma_pool_well_formed(photos: Seq<PhotoView>, order: Seq<usize>)
    requires
        is_order(order, positions(photos, Orientation::Vertical).len()),
    ensures
        pool_of(photos, order).len() == slide_count(photos),
        forall|k: int|
            0 <= k < pool_of(photos, order).len() ==> (#[trigger] pool_of(
                photos,
                order,
            )[k]).well_formed(),
{
    lemma_positions(photos, Orientation::Horizontal);
    lemma_positions(photos, Orientation::Vertical);
}

/// The builder drops no horizontal photo: each one stands in exactly one
/// slot of the plan, and alone.
pub proof fn lemma_horizontal_photos_kept(photos: Seq<PhotoView>, order: Seq<usize>, at: int)
    requires
        is_order(order, positions(photos, Orientation::Vertical).len()),
        0 <= at < photos.len(),
        photos[at].orient == Orientation::Horizontal,
    ensures
        exists|k: int|
            0 <= k < plan(photos, order).len() && plan(photos, order)[k] == Slot::Single(at),
        forall|k: int|
            0 <= k < plan(photos, order).len() && (#[trigger] plan(photos, order)[k]).holds(at)
                ==> plan(photos, order)[k] == Slot::Single(at),
        forall|j: int, k: int|
            0 <= j < plan(photos, order).len() && 0 <= k < plan(photos, order).len()
                && (#[trigger] plan(photos, order)[j]).holds(at)
                && (#[trigger] plan(photos, order)[k]).holds(at) ==> j == k,
{
    let wide = positions(photos, Orientation::Horizontal);
    let slots = plan(photos, order);
    lemma_positions(photos, Orientation::Horizontal);
    lemma_positions(photos, Orientation::Vertical);
    let here = choose|k: int| 0 <= k < wide.len() && wide[k] == at;
    assert(slots[here] == Slot::Single(at));
}

/// Of `v` vertical photos the builder pairs `2 * (v / 2)`: the slots after
/// those of the horizontal photos hold them two by two, and none of them
/// stands there twice.
pub proof fn lemma_vertical_photos_paired(photos: Seq<PhotoView>, order: Seq<usize>)
    requires
        is_order(order, positions(photos, Orientation::Vertical).len()),
    ensures
        plan(photos, order).len() == slide_count(photos),
        paired(photos, order).len() == 2 * (positions(photos, Orientation::Vertical).len() / 2),
        paired(photos, order).no_duplicates(),
        forall|m: int|
            0 <= m < paired(photos, order).len() ==> 0 <= #[trigger] paired(photos, order)[m]
                < photos.len() && photos[paired(photos, order)[m]].orient
                == Orientation::Vertical,
        forall|k: int|
            0 <= k < positions(photos, Orientation::Vertical).len() / 2 ==> #[trigger] plan(
                photos,
                order,
            )[positions(photos, Orientation::Horizontal).len() + k] == Slot::Pair(
                paired(photos, order)[2 * k],
                paired(photos, order)[2 * k + 1],
            ),
{
    lemma_positions(photos, Orientation::Vertical);
}

/// No photo stands in two slots of the plan, nor twice in one.
pub proof fn lemma_no_photo_twice(photos: Seq<PhotoView>, order: Seq<usize>)
    requires
        is_order(order, positions(photos, Orientation::Vertical).len()),
    ensures
        forall|j: int, k: int, at: int|
            0 <= j < k < plan(photos, order).len() ==> !(#[trigger] plan(photos, order)[j].holds(at)
                && #[trigger] plan(photos, order)[k].holds(at)),
        forall|k: int|
            0 <= k < plan(photos, order).len() ==> (#[trigger] plan(photos, order)[k] matches
                Slot::Pair(first, second) ==> first != second),
{
    lemma_positions(photos, Orientation::Horizontal);
    lemma_positions(photos, Orientation::Vertical);
    lemma_vertical_photos_paired(photos, order);
}

/// The positions of the photos of `photos` laid out as `orient`, ascending.
pub fn photos_laid_out(photos: &Vec<Photo>, orient: Orientation) -> (found: Vec<usize>)
    ensures
        found.len() == positions(photos.deep_view(), orient).len(),
        forall|k: int|
            0 <= k < found.len() ==> found[k] as int == positions(photos.deep_view(), orient)[k],
{
    let ghost all = photos.deep_view();
    let mut found: Vec<usize> = Vec::new();
    let mut i: usize = 0;
    while i < photos.len()
        invariant
            i <= photos.len(),
            all == photos.deep_view(),
            found.len() == positions(all.take(i as int), orient).len(),
            forall|k: int|
                0 <= k < found.len() ==> found[k] as int == positions(
                    all.take(i as int),
                    orient,
                )[k],
        decreases photos.len() - i,
    {
        assert(all.take(i + 1).drop_last() =~= all.take(i as int));
        if photos[i].orient() == orient {
            found.push(i);
        }
        i += 1;
    }
    assert(all.take(photos.len() as int) =~= all);
    found
}

/// The numbers below `n` in ascending order.
pub fn ascending_order(n: usize) -> (order: Vec<usize>)
    ensures
        order@ == ascending(n as nat),
        is_order(order@, n as nat),
{
    let mut order: Vec<usize> = Vec::new();
    let mut i: usize = 0;
    while i < n
        invariant
            i <= n,
            order.len() == i,
            forall|k: int| 0 <= k < i ==> order[k] == k,
        decreases n - i,
    {
        order.push(i);
        i += 1;
    }
    order
}

/// The slides of the plan for `photos` and `order`, given the positions of
/// the horizontal photos, `wide`, and of the vertical ones, `tall`.
fn assemble(photos: &Vec<Photo>, wide: &Vec<usize>, tall: &Vec<usize>, order: &Vec<usize>) -> (pool:
    Vec<Slide>)
    requires
        wide.len() == positions(photos.deep_view(), Orientation::Horizontal).len(),
        forall|k: int|
            0 <= k < wide.len() ==> wide[k] as int == positions(
                photos.deep_view(),
                Orientation::Horizontal,
            )[k],
        tall.len() == positions(photos.deep_view(), Orientation::Vertical).len(),
        forall|k: int|
            0 <= k < tall.len() ==> tall[k] as int == positions(
                photos.deep_view(),
                Orientation::Vertical,
            )[k],
        is_order(order@, tall.len() as nat),
    ensures
        pool.deep_view() == pool_of(photos.deep_view(), order@),
        pool.len() == slide_count(photos.deep_view()),
        forall|k: int| 0 <= k < pool.len() ==> (#[trigger] pool[k])@.well_formed(),
{
    let ghost all = photos.deep_view();
    let ghost slots = plan(all, order@);
    proof {
        lemma_positions(all, Orientation::Horizontal);
        lemma_positions(all, Orientation::Vertical);
    }
    let mut pool: Vec<Slide> = Vec::new();
    let mut k: usize = 0;
    while k < wide.len()
        invariant
            k <= wide.len(),
            pool.len() == k,
            all == photos.deep_view(),
            slots == plan(all, order@),
            wide.len() == positions(all, Orientation::Horizontal).len(),
            forall|j: int|
                0 <= j < wide.len() ==> wide[j] as int == positions(
                    all,
                    Orientation::Horizontal,
                )[j],
            forall|j: int|
                0 <= j < positions(all, Orientation::Horizontal).len() ==> 0
                    <= #[trigger] positions(all, Orientation::Horizontal)[j] < all.len(),
            forall|j: int| 0 <= j < k ==> pool[j]@ == slide_at(all, slots[j]),
        decreases wide.len() - k,
    {
        let at: usize = wide[k];
        pool.push(Slide::Horizontal(photos[at].clone()));
        k += 1;
    }
    let pairs: usize = tall.len() / 2;
    let mut k: usize = 0;
    while k < pairs
        invariant
            k <= pairs,
            pairs == tall.len() / 2,
            pool.len() == wide.len() + k,
            all == photos.deep_view(),
            slots == plan(all, order@),
            wide.len() == positions(all, Orientation::Horizontal).len(),
            tall.len() == positions(all, Orientation::Vertical).len(),
            forall|j: int|
                0 <= j < tall.len() ==> tall[j] as int == positions(all, Orientation::Vertical)[j],
            forall|j: int|
                0 <= j < positions(all, Orientation::Vertical).len() ==> 0 <= #[trigger] positions(
                    all,
                    Orientation::Vertical,
                )[j] < all.len(),
            is_order(order@, tall.len() as nat),
            forall|j: int| 0 <= j < pool.len() ==> pool[j]@ == slide_at(all, slots[j]),
        decreases pairs - k,
    {
        let first: usize = tall[order[2 * k]];
        let second: usize = tall[order[2 * k + 1]];
        pool.push(Slide::Vertical(photos[first].clone(), photos[second].clone()));
        k += 1;
    }
    proof {
        assert(pool.deep_view() =~= pool_of(all, order@));
        lemma_pool_well_formed(all, order@);
        assert forall|k: int| 0 <= k < pool.len() implies (#[trigger] pool[k])@.well_formed() by {
            assert(pool[k]@ == pool.deep_view()[k]);
        }
    }
    pool
}

/// The pool of slides built from `photos` when the vertical photos are
/// taken in the order `order`, which holds each number below the number of
/// vertical photos once.
pub fn build_slides(photos: &Vec<Photo>, order: &Vec<usize>) -> (pool: Vec<Slide>)
    requires
        is_order(order@, positions(photos.deep_view(), Orientation::Vertical).len()),
    ensures
        pool.deep_view() == pool_of(photos.deep_view(), order@),
        pool.len() == slide_count(photos.deep_view()),
        forall|k: int| 0 <= k < pool.len() ==> (#[trigger] pool[k])@.well_formed(),
{
    let wide: Vec<usize> = photos_laid_out(photos, Orientation::Horizontal);
    let tall: Vec<usize> = photos_laid_out(photos, Orientation::Vertical);
    assemble(photos, &wide, &tall, order)
}

/// The pool of slides built from `photos`: a slide for each horizontal
/// photo, as they come in `photos`, then the vertical photos two by two in
/// an order shuffled with `seed`. The same photos and seed give the same
/// pool. No horizontal photo is left out (`lemma_horizontal_photos_kept`),
/// of the vertical photos at most one is, and no photo stands in the pool
/// twice (`lemma_vertical_photos_paired`, `lemma_no_photo_twice`).
pub fn build(photos: &Vec<Photo>, seed: u64) -> (pool: Vec<Slide>)
    ensures
        is_order(
            shuffled_order(photos.deep_view(), seed),
            positions(photos.deep_view(), Orientation::Vertical).len(),
        ),
        pool.deep_view() == pool_of(photos.deep_view(), shuffled_order(photos.deep_view(), seed)),
        pool.len() == slide_count(photos.deep_view()),
        forall|k: int| 0 <= k < pool.len() ==> (#[trigger] pool[k])@.well_formed(),
{
    let wide: Vec<usize> = photos_laid_out(photos, Orientation::Horizontal);
    let tall: Vec<usize> = photos_laid_out(photos, Orientation::Vertical);
    let mut order: Vec<usize> = ascending_order(tall.len());
    let ghost sorted = order@;
    shuffle(&mut order, seed);
    proof {
        lemma_same_items_is_order(sorted, order@, tall.len() as nat);
    }
    assemble(photos, &wide, &tall, &order)
}

} // verus!
