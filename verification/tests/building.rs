use rand::seq::SliceRandom;
use rand::SeedableRng;
use rand_chacha::ChaCha12Rng;
use slideshow::builder::{ascending_order, photos_laid_out};
use slideshow::{build, build_slides, Orientation, Photo, Slide};

fn photo(idx: usize, orient: Orientation, tags: &[&str]) -> Photo {
    Photo::new(idx, orient, tags.iter().map(|tag| tag.to_string()).collect())
}

fn mixed() -> Vec<Photo> {
    vec![
        photo(0, Orientation::Horizontal, &["a"]),
        photo(1, Orientation::Vertical, &["b"]),
        photo(2, Orientation::Vertical, &["c"]),
        photo(3, Orientation::Horizontal, &["d"]),
        photo(4, Orientation::Vertical, &["e"]),
    ]
}

fn indices(slide: &Slide) -> Vec<usize> {
    match slide {
        Slide::Vertical(first, second) => vec![first.idx(), second.idx()],
        Slide::Horizontal(only) => vec![only.idx()],
    }
}

#[test]
fn a_photo_keeps_what_it_was_made_with() {
    let made = photo(7, Orientation::Vertical, &["x", "y", "x"]);
    assert_eq!(made.idx(), 7);
    assert_eq!(made.orient(), Orientation::Vertical);
    assert_eq!(made.nb_tags(), 3);
    assert_eq!(made.tags(), &vec!["x".to_string(), "y".to_string(), "x".to_string()]);
    assert_eq!(made.clone(), made);
    let slide = Slide::Horizontal(photo(1, Orientation::Horizontal, &["t"]));
    assert_eq!(slide.clone(), slide);
}

#[test]
fn photos_are_found_by_their_orientation() {
    let photos = mixed();
    assert_eq!(photos_laid_out(&photos, Orientation::Horizontal), vec![0, 3]);
    assert_eq!(photos_laid_out(&photos, Orientation::Vertical), vec![1, 2, 4]);
    assert!(photos_laid_out(&Vec::new(), Orientation::Vertical).is_empty());
}

#[test]
fn the_ascending_order_counts_from_zero() {
    assert_eq!(ascending_order(4), vec![0, 1, 2, 3]);
    assert!(ascending_order(0).is_empty());
}

#[test]
fn slides_follow_the_given_order_of_the_vertical_photos() {
    let photos = mixed();
    let pool = build_slides(&photos, &vec![2, 0, 1]);
    assert_eq!(
        pool,
        vec![
            Slide::Horizontal(photos[0].clone()),
            Slide::Horizontal(photos[3].clone()),
            Slide::Vertical(photos[4].clone(), photos[1].clone()),
        ]
    );
    let pool = build_slides(&photos, &vec![0, 1, 2]);
    assert_eq!(indices(&pool[2]), vec![1, 2]);
}

#[test]
fn four_vertical_photos_make_two_pairs() {
    let photos: Vec<Photo> = (0..4).map(|idx| photo(idx, Orientation::Vertical, &["t"])).collect();
    let pool = build_slides(&photos, &vec![3, 1, 0, 2]);
    assert_eq!(pool.len(), 2);
    assert_eq!(indices(&pool[0]), vec![3, 1]);
    assert_eq!(indices(&pool[1]), vec![0, 2]);
}

#[test]
fn every_horizontal_photo_gets_one_slide_of_its_own() {
    let photos = mixed();
    for seed in 0..20 {
        let pool = build(&photos, seed);
        for at in [0, 3] {
            let holding: Vec<&Slide> =
                pool.iter().filter(|slide| indices(slide).contains(&at)).collect();
            assert_eq!(holding.len(), 1);
            assert_eq!(holding[0], &Slide::Horizontal(photos[at].clone()));
        }
    }
}

#[test]
fn vertical_photos_are_paired_two_by_two_and_none_twice() {
    for count in 0..8 {
        let photos: Vec<Photo> =
            (0..count).map(|idx| photo(idx, Orientation::Vertical, &["t"])).collect();
        for seed in 0..10 {
            let pool = build(&photos, seed);
            assert_eq!(pool.len(), count / 2);
            let mut used: Vec<usize> = Vec::new();
            for slide in &pool {
                assert!(matches!(slide, Slide::Vertical(_, _)));
                used.extend(indices(slide));
            }
            assert_eq!(used.len(), 2 * (count / 2));
            used.sort();
            used.dedup();
            assert_eq!(used.len(), 2 * (count / 2));
            assert!(used.iter().all(|idx| *idx < count));
        }
    }
}

#[test]
fn a_single_vertical_photo_makes_no_slide() {
    let photos = vec![photo(0, Orientation::Vertical, &["x"])];
    assert!(build(&photos, 1).is_empty());
    assert!(build_slides(&photos, &vec![0]).is_empty());
}

#[test]
fn no_photos_make_no_slides() {
    assert!(build(&Vec::new(), 5).is_empty());
    assert!(build_slides(&Vec::new(), &Vec::new()).is_empty());
}

#[test]
fn the_same_seed_gives_the_same_pool() {
    let photos: Vec<Photo> =
        (0..9).map(|idx| photo(idx, Orientation::Vertical, &["t"])).collect();
    for seed in [0, 1, 42, u64::MAX] {
        assert_eq!(build(&photos, seed), build(&photos, seed));
    }
}

#[test]
fn seeds_shuffle_the_vertical_photos() {
    let photos: Vec<Photo> =
        (0..6).map(|idx| photo(idx, Orientation::Vertical, &["t"])).collect();
    let unshuffled = build_slides(&photos, &ascending_order(6));
    let pools: Vec<Vec<Slide>> = (0..30).map(|seed| build(&photos, seed)).collect();
    assert!(pools.iter().any(|pool| *pool != unshuffled));
    assert!(pools.iter().any(|pool| *pool != pools[0]));
}

#[test]
fn the_vertical_photos_are_paired_in_the_order_of_a_seeded_shuffle() {
    let photos = vec![
        photo(0, Orientation::Vertical, &["a"]),
        photo(1, Orientation::Horizontal, &["b"]),
        photo(2, Orientation::Vertical, &["c"]),
        photo(3, Orientation::Vertical, &["d"]),
        photo(4, Orientation::Vertical, &["e"]),
        photo(5, Orientation::Horizontal, &["f"]),
        photo(6, Orientation::Vertical, &["g"]),
        photo(7, Orientation::Vertical, &["h"]),
        photo(8, Orientation::Vertical, &["i"]),
    ];
    for seed in [0, 1, 2, 3, 99, u64::MAX] {
        let mut order: Vec<usize> = (0..7).collect();
        order.shuffle(&mut ChaCha12Rng::seed_from_u64(seed));
        assert_eq!(build(&photos, seed), build_slides(&photos, &order));
    }
}
