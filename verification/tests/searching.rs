use itertools::Itertools;
use slideshow::search::{arrange_slides, best_order, order_score, score_table, ROUNDS};
use slideshow::{
    deserialize, generate_slideshow, score_slideshow, search, Orientation, Photo, Slide,
};

fn photo(idx: usize, orient: Orientation, tags: &[&str]) -> Photo {
    Photo::new(idx, orient, tags.iter().map(|tag| tag.to_string()).collect())
}

fn wide(idx: usize, tags: &[&str]) -> Slide {
    Slide::Horizontal(photo(idx, Orientation::Horizontal, tags))
}

fn three_slides() -> Vec<Slide> {
    vec![wide(0, &["a", "b"]), wide(1, &["c", "d"]), wide(2, &["a", "b", "c", "d"])]
}

fn orders_of(n: usize) -> Vec<Vec<usize>> {
    if n == 0 {
        return vec![Vec::new()];
    }
    let mut orders = Vec::new();
    for shorter in orders_of(n - 1) {
        for at in 0..n {
            let mut longer = shorter.clone();
            longer.insert(at, n - 1);
            orders.push(longer);
        }
    }
    orders
}

fn indices(show: &[Slide]) -> Vec<usize> {
    let mut found = Vec::new();
    for slide in show {
        match slide {
            Slide::Vertical(first, second) => {
                found.push(first.idx());
                found.push(second.idx());
            }
            Slide::Horizontal(only) => found.push(only.idx()),
        }
    }
    found
}

#[test]
fn a_search_has_a_hundred_rounds() {
    assert_eq!(ROUNDS, 100);
}

#[test]
fn an_order_scores_the_sum_over_its_neighbours() {
    let pool = three_slides();
    assert_eq!(order_score(&pool, &vec![0, 1, 2]), 34);
    assert_eq!(order_score(&pool, &vec![0, 2, 1]), 68);
    assert_eq!(order_score(&pool, &vec![2, 1, 0]), 34);
    assert_eq!(order_score(&pool, &vec![1]), 0);
    assert_eq!(order_score(&pool, &Vec::new()), 0);
    assert_eq!(order_score(&pool, &vec![2, 2]), 50);
}

#[test]
fn slides_are_arranged_in_the_given_order() {
    let pool = three_slides();
    let show = arrange_slides(&pool, &vec![2, 0, 1]);
    assert_eq!(show, vec![pool[2].clone(), pool[0].clone(), pool[1].clone()]);
    assert_eq!(score_slideshow(&show) as u128, order_score(&pool, &vec![2, 0, 1]));
    assert!(arrange_slides(&pool, &Vec::new()).is_empty());
}

#[test]
fn the_best_order_is_the_first_of_the_most_interesting() {
    let pool = three_slides();
    let (order, total) = best_order(&pool);
    assert_eq!(total, 68);
    assert_eq!(order, vec![0, 2, 1]);
}

#[test]
fn no_order_is_more_interesting_than_the_best() {
    let pool = vec![
        wide(0, &["a", "b"]),
        wide(1, &["b", "c"]),
        wide(2, &["c", "a", "a"]),
        wide(3, &["d"]),
        wide(4, &["d", "a"]),
    ];
    let (order, total) = best_order(&pool);
    let mut sorted = order.clone();
    sorted.sort();
    assert_eq!(sorted, vec![0, 1, 2, 3, 4]);
    assert_eq!(order_score(&pool, &order), total);
    let orders = orders_of(5);
    assert_eq!(orders.len(), 120);
    let highest = orders.iter().map(|other| order_score(&pool, other)).max().unwrap();
    assert_eq!(total, highest);
}

#[test]
fn the_best_order_of_one_slide_or_none() {
    assert_eq!(best_order(&vec![wide(0, &["a"])]), (vec![0], 0));
    assert_eq!(best_order(&Vec::new()), (Vec::new(), 0));
}

#[test]
fn searching_no_photos_twice_finds_nothing_both_times() {
    assert_eq!(search(&Vec::new(), 0), None);
    assert_eq!(search(&Vec::new(), 0), None);
    assert_eq!(generate_slideshow(Vec::new()), None);
    assert_eq!(generate_slideshow(Vec::new()), None);
}

#[test]
fn a_single_vertical_photo_is_searched_in_vain() {
    let photos = vec![photo(0, Orientation::Vertical, &["x"])];
    assert_eq!(search(&photos, 3), None);
    assert_eq!(generate_slideshow(photos), None);
}

#[test]
fn two_photos_with_the_same_tags_make_a_slideshow_of_50() {
    let photos = vec![
        photo(0, Orientation::Horizontal, &["a", "b"]),
        photo(1, Orientation::Horizontal, &["a", "b"]),
    ];
    let show = search(&photos, 9).unwrap();
    assert_eq!(show.len(), 2);
    assert_eq!(score_slideshow(&show), 50);
    assert_eq!(
        show,
        vec![Slide::Horizontal(photos[0].clone()), Slide::Horizontal(photos[1].clone())]
    );
}

#[test]
fn the_search_finds_the_most_interesting_order() {
    let photos = vec![
        photo(0, Orientation::Horizontal, &["a", "b"]),
        photo(1, Orientation::Horizontal, &["c", "d"]),
        photo(2, Orientation::Horizontal, &["a", "b", "c", "d"]),
    ];
    let show = search(&photos, 0).unwrap();
    assert_eq!(score_slideshow(&show), 68);
    assert_eq!(indices(&show), vec![0, 2, 1]);
    assert_eq!(deserialize(show), "3\n0\n2\n1");
}

#[test]
fn the_search_finds_the_most_interesting_pairing() {
    // Pairing the photos with the same tag gives the slides a a, b b and
    // c c, and two neighbours then have 2 distinct tags of 4: 50 each. Any
    // other pairing has a slide of two tags, and scores less.
    let photos = vec![
        photo(0, Orientation::Vertical, &["a"]),
        photo(1, Orientation::Vertical, &["b"]),
        photo(2, Orientation::Vertical, &["c"]),
        photo(3, Orientation::Vertical, &["a"]),
        photo(4, Orientation::Vertical, &["b"]),
        photo(5, Orientation::Vertical, &["c"]),
    ];
    for seed in [0, 17, 1000] {
        let show = search(&photos, seed).unwrap();
        assert_eq!(show.len(), 3);
        assert_eq!(score_slideshow(&show), 100);
        for slide in &show {
            match slide {
                Slide::Vertical(first, second) => assert_eq!(first.tags(), second.tags()),
                Slide::Horizontal(_) => panic!("a vertical photo stands alone"),
            }
        }
    }
}

#[test]
fn the_same_seed_gives_the_same_slideshow() {
    let photos = vec![
        photo(0, Orientation::Vertical, &["a", "b"]),
        photo(1, Orientation::Horizontal, &["b", "c"]),
        photo(2, Orientation::Vertical, &["c", "d", "e"]),
        photo(3, Orientation::Vertical, &["a", "e"]),
        photo(4, Orientation::Horizontal, &["f"]),
        photo(5, Orientation::Vertical, &["f", "a"]),
        photo(6, Orientation::Vertical, &["b"]),
    ];
    for seed in [0, 7, u64::MAX] {
        let first = search(&photos, seed);
        let second = search(&photos, seed);
        assert!(first.is_some());
        assert_eq!(first, second);
    }
}

#[test]
fn a_slideshow_holds_every_photo_at_most_once() {
    let photos = vec![
        photo(0, Orientation::Vertical, &["a", "b"]),
        photo(1, Orientation::Horizontal, &["b", "c"]),
        photo(2, Orientation::Vertical, &["c", "d", "e"]),
        photo(3, Orientation::Vertical, &["a", "e"]),
        photo(4, Orientation::Horizontal, &["f"]),
    ];
    let show = generate_slideshow(photos.clone()).unwrap();
    assert_eq!(show.len(), 3);
    let mut used = indices(&show);
    assert_eq!(used.len(), 4);
    used.sort();
    used.dedup();
    assert_eq!(used.len(), 4);
    assert!(used.contains(&1) && used.contains(&4));
    for slide in &show {
        match slide {
            Slide::Vertical(first, second) => {
                assert_eq!(first, &photos[first.idx()]);
                assert_eq!(second, &photos[second.idx()]);
                assert_eq!(first.orient(), Orientation::Vertical);
                assert_eq!(second.orient(), Orientation::Vertical);
            }
            Slide::Horizontal(only) => {
                assert_eq!(only, &photos[only.idx()]);
                assert_eq!(only.orient(), Orientation::Horizontal);
            }
        }
    }
}

#[test]
fn the_table_holds_the_score_of_every_pair() {
    let pool = vec![
        wide(0, &["a", "b"]),
        wide(1, &["b", "c"]),
        Slide::Vertical(
            photo(2, Orientation::Vertical, &["a"]),
            photo(3, Orientation::Vertical, &["a", "c"]),
        ),
        wide(4, &[]),
    ];
    let table = score_table(&pool);
    assert_eq!(table.len(), 4);
    for from in 0..4 {
        assert_eq!(table[from].len(), 4);
        for to in 0..4 {
            assert_eq!(table[from][to], slideshow::score_slide(&pool[from], &pool[to]));
        }
    }
    assert_eq!(table[0][1], 25);
    assert_eq!(table[1][0], 25);
    assert_eq!(table[0][0], 50);
    assert!(score_table(&Vec::new()).is_empty());
}

#[test]
fn the_best_order_is_the_first_of_the_highest_among_all_permutations() {
    let pool = vec![
        wide(0, &["a", "b"]),
        wide(1, &["b", "c"]),
        wide(2, &["c", "a", "a"]),
        wide(3, &["d"]),
        wide(4, &["d", "a"]),
        wide(5, &["b", "d"]),
    ];
    let mut expected: Option<(Vec<usize>, u128)> = None;
    for order in (0..pool.len()).permutations(pool.len()) {
        let total = order_score(&pool, &order);
        let better = match &expected {
            None => true,
            Some((_, highest)) => total > *highest,
        };
        if better {
            expected = Some((order, total));
        }
    }
    assert_eq!(Some(best_order(&pool)), expected);
}

#[test]
fn eight_slides_are_searched_through_all_their_orders() {
    let tags: [&[&str]; 8] = [
        &["a", "b", "c"],
        &["b", "c", "d"],
        &["c", "d", "e"],
        &["d", "e", "f"],
        &["e", "f", "g"],
        &["f", "g", "h"],
        &["g", "h", "a"],
        &["h", "a", "b"],
    ];
    let photos: Vec<Photo> = tags
        .iter()
        .enumerate()
        .map(|(idx, tags)| photo(idx, Orientation::Horizontal, tags))
        .collect();
    let pool: Vec<Slide> = photos.iter().cloned().map(Slide::Horizontal).collect();
    let highest = orders_of(8).iter().map(|order| order_score(&pool, order)).max().unwrap();
    let show = search(&photos, 5).unwrap();
    assert_eq!(show.len(), 8);
    assert_eq!(score_slideshow(&show) as u128, highest);
    // neighbours in a ring share two tags of six: 100 - floor(400 / 6) = 34
    assert_eq!(highest, 7 * 34);
}
