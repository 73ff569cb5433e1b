//! The search for the most interesting slideshow: in every round the
//! vertical photos are paired anew and every order of the slides is tried.

use crate::builder::{
    ascending, build, lemma_order_is_complete, pool_of, positions, shuffled_order, slide_count,
};
use crate::photo::{Orientation, Photo, PhotoView, Slide, SlideView};
use crate::score::{
    interest, lemma_interest_bounds, lemma_interest_symmetric, lemma_total_interest_step,
    score_slide, total_interest,
};
use crate::trusted::{all_orders, index_orders, is_order, next_order, pending, random_seed};
use vstd::prelude::*;

verus! {

/// The number of rounds of a search.
pub const ROUNDS: usize = 100;

/// The slides of `pool` in the order `order`.
pub open spec fn arrange(pool: Seq<SlideView>, order: Seq<usize>) -> Seq<SlideView> {
    Seq::new(order.len(), |i: int| pool[order[i] as int])
}

/// The interest of the slideshow that shows `pool` in the order `order`.
pub open spec fn order_interest(pool: Seq<SlideView>, order: Seq<usize>) -> int {
    total_interest(arrange(pool, order))
}

/// `at` is the place of the first of the highest values of `values`.
pub open spec fn is_first_max(values: Seq<int>, at: int) -> bool {
    &&& 0 <= at < values.len()
    &&& forall|k: int| 0 <= k < values.len() ==> values[k] <= values[at]
    &&& forall|k: int| 0 <= k < at ==> values[k] < values[at]
}

/// The place of the first of the highest values of `values`.
pub open spec fn first_max(values: Seq<int>) -> int {
    choose|at: int| is_first_max(values, at)
}

/// The interests of the slideshows that show `pool` in each of `orders`.
pub open spec fn order_interests(pool: Seq<SlideView>, orders: Seq<Seq<usize>>) -> Seq<int> {
    Seq::new(orders.len(), |k: int| order_interest(pool, orders[k]))
}

/// The first of `orders` in which `pool` is most interesting.
pub open spec fn best_of(pool: Seq<SlideView>, orders: Seq<Seq<usize>>) -> Seq<usize> {
    orders[first_max(order_interests(pool, orders))]
}

/// The order in which the search shows `pool`: of all orders of its slides
/// the first in which it is most interesting.
pub open spec fn best_order_of(pool: Seq<SlideView>) -> Seq<usize> {
    best_of(pool, index_orders(pool.len()))
}

/// Whether `table` holds in row `i` and column `j` the interest of showing
/// slide `j` of `pool` right after slide `i`.
pub open spec fn is_score_table(table: Seq<Vec<u32>>, pool: Seq<SlideView>) -> bool {
    &&& table.len() == pool.len()
    &&& forall|i: int| 0 <= i < table.len() ==> (#[trigger] table[i]).len() == pool.len()
    &&& forall|i: int, j: int|
        0 <= i < pool.len() && 0 <= j < pool.len() ==> #[trigger] table[i][j] == interest(
            pool[i],
            pool[j],
        )
}

/// The seed with which round `round` of a search seeded with `seed` pairs
/// the vertical photos.
pub open spec fn round_seed(seed: u64, round: nat) -> u64 {
    seed.wrapping_add(round as u64)
}

/// The pool of slides of round `round`.
pub open spec fn round_pool(photos: Seq<PhotoView>, seed: u64, round: nat) -> Seq<SlideView> {
    pool_of(photos, shuffled_order(photos, round_seed(seed, round)))
}

/// The slideshow of round `round`: its pool in its best order.
pub open spec fn round_show(photos: Seq<PhotoView>, seed: u64, round: nat) -> Seq<SlideView> {
    arrange(round_pool(photos, seed, round), best_order_of(round_pool(photos, seed, round)))
}

/// The interests of the slideshows of all rounds.
pub open spec fn round_interests(photos: Seq<PhotoView>, seed: u64) -> Seq<int> {
    Seq::new(ROUNDS as nat, |round: int| total_interest(round_show(photos, seed, round as nat)))
}

/// What a search over `photos` seeded with `seed` finds: nothing where the
/// photos make no slide, else the slideshow of the first of the rounds with
/// the most interesting slideshow.
pub open spec fn search_result(photos: Seq<PhotoView>, seed: u64) -> Option<Seq<SlideView>> {
    if slide_count(photos) == 0 {
        None
    } else {
        Some(round_show(photos, seed, first_max(round_interests(photos, seed)) as nat))
    }
}

/// `show` holds, in the order `order`, the slides built from `photos` with
/// the vertical photos paired in the order `pairing`, and these slides are
/// in no order more interesting.
pub open spec fn is_best_show_with(
    photos: Seq<PhotoView>,
    show: Seq<SlideView>,
    pairing: Seq<usize>,
    order: Seq<usize>,
) -> bool {
    &&& is_order(pairing, positions(photos, Orientation::Vertical).len())
    &&& is_order(order, slide_count(photos))
    &&& show == arrange(pool_of(photos, pairing), order)
    &&& forall|other: Seq<usize>|
        is_order(other, slide_count(photos)) ==> #[trigger] order_interest(
            pool_of(photos, pairing),
            other,
        ) <= total_interest(show)
}

/// `show` holds all slides built from `photos` for some pairing of the
/// vertical photos, in an order in which they are most interesting.
pub open spec fn is_best_show(photos: Seq<PhotoView>, show: Seq<SlideView>) -> bool {
    exists|pairing: Seq<usize>, order: Seq<usize>| #[trigger]
        is_best_show_with(photos, show, pairing, order)
}

/// Only one place is that of the first of the highest values.
pub proof fn lemma_first_max_unique(values: Seq<int>, at: int)
    requires
        is_first_max(values, at),
    ensures
        first_max(values) == at,
{
    let other = first_max(values);
    if other < at {
        assert(values[other] < values[at]);
    } else if at < other {
        assert(values[at] < values[other]);
    }
}

/// A slideshow that shows a pool in an order of all its places has a slide
/// for every place of the pool, and for none two.
pub proof fn lemma_every_slide_shown_once(pool: Seq<SlideView>, order: Seq<usize>)
    requires
        is_order(order, pool.len()),
    ensures
        arrange(pool, order).len() == pool.len(),
        forall|k: usize| k < pool.len() ==> #[trigger] order.contains(k),
        order.no_duplicates(),
        forall|k: int| 0 <= k < pool.len() ==> arrange(pool, order).contains(#[trigger] pool[k]),
{
    lemma_order_is_complete(order, pool.len());
    assert forall|k: int| 0 <= k < pool.len() implies arrange(pool, order).contains(
        #[trigger] pool[k],
    ) by {
        assert(order.contains(k as usize));
        let i = choose|i: int| 0 <= i < order.len() && order[i] == k as usize;
        assert(arrange(pool, order)[i] == pool[k]);
    }
}

/// The interest of the slideshow that shows `pool` in the order `order`,
/// which holds places of `pool` only.
pub fn order_score(pool: &Vec<Slide>, order: &Vec<usize>) -> (total: u128)
    requires
        forall|i: int| 0 <= i < order.len() ==> order[i] < pool.len(),
    ensures
        total == order_interest(pool.deep_view(), order@),
{
    let ghost show = arrange(pool.deep_view(), order@);
    let mut total: u128 = 0;
    if order.len() < 2 {
        return total;
    }
    let mut i: usize = 1;
    while i < order.len()
        invariant
            1 <= i <= order.len(),
            show == arrange(pool.deep_view(), order@),
            forall|k: int| 0 <= k < order.len() ==> order[k] < pool.len(),
            total == total_interest(show.take(i as int)),
            total <= 100 * (i - 1),
        decreases order.len() - i,
    {
        let step: u32 = score_slide(&pool[order[i - 1]], &pool[order[i]]);
        proof {
            lemma_total_interest_step(show, i as int);
        }
        total = total + step as u128;
        i += 1;
    }
    assert(show.take(order.len() as int) =~= show);
    total
}

/// The interests of all pairs of slides of `pool`: row `i` holds in column
/// `j` the interest of showing slide `j` right after slide `i`.
pub fn score_table(pool: &Vec<Slide>) -> (table: Vec<Vec<u32>>)
    ensures
        is_score_table(table@, pool.deep_view()),
{
    let n: usize = pool.len();
    let mut table: Vec<Vec<u32>> = Vec::new();
    let mut i: usize = 0;
    while i < n
        invariant
            i <= n,
            n == pool.len(),
            table.len() == i,
            forall|r: int| 0 <= r < i ==> (#[trigger] table[r]).len() == n,
            forall|r: int, c: int|
                0 <= r < i && 0 <= c < n ==> #[trigger] table[r][c] == interest(pool[r]@, pool[c]@),
        decreases n - i,
    {
        let mut row: Vec<u32> = Vec::new();
        let mut j: usize = 0;
        while j < n
            invariant
                j <= n,
                i < n,
                n == pool.len(),
                table.len() == i,
                row.len() == j,
                forall|r: int| 0 <= r < i ==> (#[trigger] table[r]).len() == n,
                forall|r: int, c: int|
                    0 <= r < i && 0 <= c < n ==> #[trigger] table[r][c] == interest(
                        pool[r]@,
                        pool[c]@,
                    ),
                forall|c: int|
                    0 <= c < j ==> #[trigger] row[c] == interest(pool[i as int]@, pool[c]@),
            decreases n - j,
        {
            let score: u32 = if j < i {
                proof {
                    lemma_interest_symmetric(pool[j as int]@, pool[i as int]@);
                }
                table[j][i]
            } else {
                score_slide(&pool[i], &pool[j])
            };
            row.push(score);
            j += 1;
        }
        table.push(row);
        i += 1;
    }
    table
}

/// The interest of the slideshow that shows `pool` in the order `order`,
/// read from the table of the interests of its pairs.
fn table_score(
    table: &Vec<Vec<u32>>,
    order: &Vec<usize>,
    Ghost(pool): Ghost<Seq<SlideView>>,
) -> (total: u128)
    requires
        is_score_table(table@, pool),
        forall|i: int| 0 <= i < order.len() ==> order[i] < pool.len(),
    ensures
        total == order_interest(pool, order@),
{
    let ghost show = arrange(pool, order@);
    let mut total: u128 = 0;
    if order.len() < 2 {
        return total;
    }
    let mut i: usize = 1;
    while i < order.len()
        invariant
            1 <= i <= order.len(),
            show == arrange(pool, order@),
            is_score_table(table@, pool),
            forall|k: int| 0 <= k < order.len() ==> order[k] < pool.len(),
            total == total_interest(show.take(i as int)),
            total <= 100 * (i - 1),
        decreases order.len() - i,
    {
        let from: usize = order[i - 1];
        let to: usize = order[i];
        let step: u32 = table[from][to];
        proof {
            lemma_total_interest_step(show, i as int);
            lemma_interest_bounds(show[i - 1], show[i as int]);
        }
        total = total + step as u128;
        i += 1;
    }
    assert(show.take(order.len() as int) =~= show);
    total
}

/// The slides of `pool` in the order `order`, which holds places of `pool`
/// only.
pub fn arrange_slides(pool: &Vec<Slide>, order: &Vec<usize>) -> (show: Vec<Slide>)
    requires
        forall|i: int| 0 <= i < order.len() ==> order[i] < pool.len(),
    ensures
        show.deep_view() == arrange(pool.deep_view(), order@),
{
    let mut show: Vec<Slide> = Vec::new();
    let mut i: usize = 0;
    while i < order.len()
        invariant
            i <= order.len(),
            show.len() == i,
            forall|k: int| 0 <= k < order.len() ==> order[k] < pool.len(),
            forall|k: int| 0 <= k < i ==> show[k]@ == pool[order[k] as int]@,
        decreases order.len() - i,
    {
        show.push(pool[order[i]].clone());
        i += 1;
    }
    show
}

/// The best order of the slides of `pool`, with the interest of the
/// slideshow in that order: no order of all the slides is more interesting,
/// and of those that are as interesting it is the first that was tried.
pub fn best_order(pool: &Vec<Slide>) -> (best: (Vec<usize>, u128))
    ensures
        best.0@ == best_order_of(pool.deep_view()),
        best.1 == order_interest(pool.deep_view(), best.0@),
        is_order(best.0@, pool.len() as nat),
        forall|order: Seq<usize>|
            is_order(order, pool.len() as nat) ==> order_interest(pool.deep_view(), order)
                <= best.1,
{
    let ghost slides = pool.deep_view();
    let table: Vec<Vec<u32>> = score_table(pool);
    let mut orders = all_orders(pool.len());
    let ghost all = pending(orders);
    let ghost totals = order_interests(slides, all);
    let mut best_order: Vec<usize> = Vec::new();
    let mut best_total: u128 = 0;
    let mut found: bool = false;
    let ghost mut done: int = 0;
    let ghost mut at: int = 0;
    loop
        invariant
            slides == pool.deep_view(),
            is_score_table(table@, slides),
            totals == order_interests(slides, all),
            forall|k: int| 0 <= k < all.len() ==> is_order(#[trigger] all[k], pool.len() as nat),
            0 <= done <= all.len(),
            pending(orders) == all.skip(done),
            found == (done > 0),
            found ==> is_first_max(totals.take(done), at) && best_order@ == all[at] && best_total
                == totals[at],
        ensures
            done == all.len(),
        decreases all.len() - done,
    {
        let next: Option<Vec<usize>> = next_order(&mut orders);
        match next {
            None => {
                break ;
            },
            Some(order) => {
                let total: u128 = table_score(&table, &order, Ghost(slides));
                if !found || total > best_total {
                    best_order = order;
                    best_total = total;
                    found = true;
                    proof {
                        at = done;
                    }
                }
                proof {
                    done = done + 1;
                }
            },
        }
    }
    proof {
        assert(is_order(ascending(pool.len() as nat), pool.len() as nat));
        assert(totals.take(done) =~= totals);
        lemma_first_max_unique(totals, at);
        assert forall|order: Seq<usize>| is_order(order, pool.len() as nat) implies order_interest(
            slides,
            order,
        ) <= best_total by {
            let k = choose|k: int| 0 <= k < all.len() && all[k] == order;
            assert(totals[k] == order_interest(slides, order));
        }
    }
    (best_order, best_total)
}

/// Searches for the most interesting slideshow of `photos`. Each of the
/// `ROUNDS` rounds pairs the vertical photos in an order shuffled with a
/// seed of its own, derived from `seed`, and finds the best order of the
/// slides; a later round replaces the slideshow of an earlier one only
/// where it is more interesting. The result is nothing if and only if the
/// photos make no slide. The same photos and seed give the same slideshow.
pub fn search(photos: &Vec<Photo>, seed: u64) -> (best: Option<Vec<Slide>>)
    ensures
        best.deep_view() == search_result(photos.deep_view(), seed),
        best is None <==> slide_count(photos.deep_view()) == 0,
        best matches Some(show) ==> show.len() == slide_count(photos.deep_view()),
        best matches Some(show) ==> forall|k: int|
            0 <= k < show.len() ==> (#[trigger] show[k])@.well_formed(),
        best matches Some(show) ==> is_best_show(photos.deep_view(), show.deep_view()),
{
    let ghost all = photos.deep_view();
    let ghost totals = round_interests(all, seed);
    let mut record: Option<Vec<Slide>> = None;
    let mut record_total: u128 = 0;
    let ghost mut at: int = 0;
    let mut round: usize = 0;
    while round < ROUNDS
        invariant
            round <= ROUNDS,
            all == photos.deep_view(),
            totals == round_interests(all, seed),
            slide_count(all) == 0 || round == 0 ==> record is None,
            slide_count(all) > 0 && round > 0 ==> {
                &&& record matches Some(show)
                &&& is_first_max(totals.take(round as int), at)
                &&& show.deep_view() == round_show(all, seed, at as nat)
                &&& record_total == totals[at]
                &&& show.len() == slide_count(all)
                &&& forall|k: int| 0 <= k < show.len() ==> (#[trigger] show[k])@.well_formed()
                &&& is_best_show(all, show.deep_view())
            },
        decreases ROUNDS - round,
    {
        let pool: Vec<Slide> = build(photos, seed.wrapping_add(round as u64));
        let ghost pairing = shuffled_order(all, round_seed(seed, round as nat));
        if pool.len() > 0 {
            let (order, total) = best_order(&pool);
            let better: bool = match &record {
                None => true,
                Some(_) => total > record_total,
            };
            if better {
                let show: Vec<Slide> = arrange_slides(&pool, &order);
                assert(is_best_show_with(all, show.deep_view(), pairing, order@));
                assert forall|k: int| 0 <= k < show.len() implies (
                #[trigger] show[k])@.well_formed() by {
                    assert(show[k]@ == show.deep_view()[k]);
                }
                record = Some(show);
                record_total = total;
                proof {
                    at = round as int;
                }
            }
        }
        round += 1;
    }
    proof {
        assert(totals.take(ROUNDS as int) =~= totals);
        if slide_count(all) > 0 {
            lemma_first_max_unique(totals, at);
        }
    }
    record
}

/// Searches for the most interesting slideshow of `photos`, as `search`
/// does with a seed drawn at random.
pub fn generate_slideshow(photos: Vec<Photo>) -> (best: Option<Vec<Slide>>)
    ensures
        exists|seed: u64| best.deep_view() == #[trigger] search_result(photos.deep_view(), seed),
        best is None <==> slide_count(photos.deep_view()) == 0,
        best matches Some(show) ==> show.len() == slide_count(photos.deep_view()),
        best matches Some(show) ==> forall|k: int|
            0 <= k < show.len() ==> (#[trigger] show[k])@.well_formed(),
        best matches Some(show) ==> is_best_show(photos.deep_view(), show.deep_view()),
{
    let seed: u64 = random_seed();
    search(&photos, seed)
}

} // verus!
