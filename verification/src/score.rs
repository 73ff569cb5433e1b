//! The interest of two neighbouring slides, and of a whole slideshow.

use crate::photo::{Slide, SlideView};
use crate::tags::distinct_tags;
use vstd::prelude::*;

verus! {

/// The interest of showing `b` right after `a`. With `t` the number of tags
/// of both slides, repeats counted, and `u` the number of distinct tags among
/// them, it is `100 - floor(100 * u / t)`: 0 where no tag is repeated, and
/// the closer to 100 the more of the tags are repeats. Two slides without
/// any tag have no tag in common: their interest is 0.
pub open spec fn interest(a: SlideView, b: SlideView) -> int {
    let all = a.tags() + b.tags();
    if all.len() == 0 {
        0
    } else {
        100 - (100 * (all.to_set().len() as int)) / (all.len() as int)
    }
}

/// The interest of a slideshow: the sum of the interests of each slide and
/// the one shown right after it.
pub open spec fn total_interest(show: Seq<SlideView>) -> int
    decreases show.len(),
{
    if show.len() < 2 {
        0
    } else {
        total_interest(show.drop_last()) + interest(show[show.len() - 2], show[show.len() - 1])
    }
}

/// The interest of two slides lies between 0 and 100.
pub proof fn lemma_interest_bounds(a: SlideView, b: SlideView)
    ensures
        0 <= interest(a, b) <= 100,
{
    let all = a.tags() + b.tags();
    if all.len() > 0 {
        all.lemma_cardinality_of_set();
        let u = all.to_set().len() as int;
        let t = all.len() as int;
        assert(0 <= (100 * u) / t <= 100) by (nonlinear_arith)
            requires
                0 <= u <= t,
                0 < t,
        ;
    }
}

/// The interest of two slides does not depend on which of them comes first.
pub proof fn lemma_interest_symmetric(a: SlideView, b: SlideView)
    ensures
        interest(a, b) == interest(b, a),
{
    vstd::seq_lib::seq_to_set_distributes_over_add(a.tags(), b.tags());
    vstd::seq_lib::seq_to_set_distributes_over_add(b.tags(), a.tags());
    assert((a.tags() + b.tags()).to_set() =~= (b.tags() + a.tags()).to_set());
}

/// A slideshow of fewer than two slides has no neighbours: its interest is 0.
pub proof fn lemma_total_interest_short(show: Seq<SlideView>)
    requires
        show.len() <= 1,
    ensures
        total_interest(show) == 0,
{
}

/// Showing one more slide adds the interest of the last two slides.
pub proof fn lemma_total_interest_step(show: Seq<SlideView>, i: int)
    requires
        1 <= i < show.len(),
    ensures
        total_interest(show.take(i + 1)) == total_interest(show.take(i)) + interest(
            show[i - 1],
            show[i],
        ),
{
    assert(show.take(i + 1).drop_last() =~= show.take(i));
}

/// The interest of a slideshow is at least 0, and at most 100 for each slide
/// after the first.
pub proof fn lemma_total_interest_bounds(show: Seq<SlideView>)
    ensures
        0 <= total_interest(show),
        show.len() == 0 ==> total_interest(show) == 0,
        show.len() > 0 ==> total_interest(show) <= 100 * (show.len() - 1),
    decreases show.len(),
{
    if show.len() >= 2 {
        lemma_total_interest_bounds(show.drop_last());
        lemma_interest_bounds(show[show.len() - 2], show[show.len() - 1]);
    }
}

/// The first slides of a slideshow are never more interesting than the whole.
pub proof fn lemma_total_interest_prefix(show: Seq<SlideView>, i: int)
    requires
        0 <= i <= show.len(),
    ensures
        total_interest(show.take(i)) <= total_interest(show),
    decreases show.len() - i,
{
    if i == show.len() {
        assert(show.take(i) =~= show);
    } else {
        lemma_total_interest_prefix(show, i + 1);
        if i >= 1 {
            lemma_total_interest_step(show, i);
            lemma_interest_bounds(show[i - 1], show[i]);
        } else {
            lemma_total_interest_bounds(show.take(i + 1));
        }
    }
}

/// The interest of showing `s2` right after `s1`.
pub fn score_slide(s1: &Slide, s2: &Slide) -> (score: u32)
    ensures
        score == interest(s1@, s2@),
        score <= 100,
{
    let mut all: Vec<&String> = s1.tags();
    let mut rest: Vec<&String> = s2.tags();
    let ghost first = all.deep_view();
    let ghost second = rest.deep_view();
    all.append(&mut rest);
    assert(all.deep_view() == first + second);
    let total: usize = all.len();
    if total == 0 {
        return 0;
    }
    let distinct: Vec<&String> = distinct_tags(&all);
    let unique: usize = distinct.len();
    proof {
        lemma_interest_bounds(s1@, s2@);
    }
    let share: u128 = (100 * (unique as u128)) / (total as u128);
    (100 - share) as u32
}

/// The interest of the slideshow `s1`: the sum of the interests of each
/// slide and the one shown right after it, 0 where there are fewer than two
/// slides. The sum has to fit the result, as it does for every slideshow of
/// up to 42 949 673 slides.
pub fn score_slideshow(s1: &[Slide]) -> (total: u32)
    requires
        total_interest(s1.deep_view()) <= u32::MAX,
    ensures
        total == total_interest(s1.deep_view()),
        s1.len() <= 1 ==> total == 0,
{
    let ghost show = s1.deep_view();
    let mut total: u32 = 0;
    if s1.len() < 2 {
        return total;
    }
    let mut i: usize = 1;
    while i < s1.len()
        invariant
            1 <= i <= s1.len(),
            show == s1.deep_view(),
            total == total_interest(show.take(i as int)),
            total_interest(show) <= u32::MAX,
        decreases s1.len() - i,
    {
        let step: u32 = score_slide(&s1[i - 1], &s1[i]);
        proof {
            lemma_total_interest_step(show, i as int);
            lemma_total_interest_prefix(show, i + 1);
        }
        total = total + step;
        i += 1;
    }
    assert(show.take(s1.len() as int) =~= show);
    total
}

} // verus!
