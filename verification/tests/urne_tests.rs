use urne::chain::Chain;
use urne::chain::Either;
use urne::join::Joiner;
use urne::list::List;
use urne::map::Mapper;
use urne::rng::Rand;
use urne::Urne;
use urne::UrneModel;

fn seeded(seed: u64) -> Rand {
    Rand::from_seed(seed)
}

#[test]
fn peeking_draws_distinct_elements() {
    let model = List::new(vec![10, 20, 30, 40, 50]);
    let mut rng = seeded(1);
    let mut pool = model.peeking();
    let drawn = pool.choose_multiple(&mut rng, 3).expect("3 of 5 must succeed");
    assert_eq!(drawn.len(), 3);
    for x in &drawn {
        assert!(model.list.contains(*x));
    }
    for i in 0..drawn.len() {
        for j in 0..drawn.len() {
            if i != j {
                assert_ne!(drawn[i], drawn[j]);
            }
        }
    }
    // The session does not consume: a full draw still succeeds afterwards.
    assert_eq!(pool.size(), 5);
    let mut all = pool.choose_multiple(&mut rng, 5).expect("5 of 5 must succeed");
    all.sort();
    assert_eq!(all, vec![&10, &20, &30, &40, &50]);
    // A second, independent session over the same model can redraw anything.
    let mut again = model.peeking();
    let mut all_again = again.choose_multiple(&mut rng, 5).expect("fresh session is full");
    all_again.sort();
    assert_eq!(all_again, vec![&10, &20, &30, &40, &50]);
}

#[test]
fn choose_multiple_fails_beyond_length() {
    let model = List::new(vec![1, 2, 3, 4]);
    let mut rng = seeded(2);
    let mut peek = model.peeking();
    assert!(peek.choose_multiple(&mut rng, 5).is_none());
    let mut take = model.taking();
    assert!(take.choose_multiple(&mut rng, 5).is_none());
    // The failed draw consumed nothing: the full draw still succeeds.
    assert_eq!(take.size(), 4);
    let got = take.choose_multiple(&mut rng, 4).expect("4 of 4 must succeed");
    assert_eq!(got.len(), 4);
    assert_eq!(take.size(), 0);
}

#[test]
fn taking_never_repeats() {
    let model = List::new(vec![0, 1, 2, 3, 4, 5]);
    let mut rng = seeded(3);
    let mut pool = model.taking();
    let mut drawn: Vec<i32> = Vec::new();
    for _ in 0..6 {
        let x = pool.choose_one(&mut rng).expect("pool is not yet empty");
        assert!(!drawn.contains(x));
        drawn.push(*x);
    }
    assert_eq!(pool.size(), 0);
    assert!(pool.choose_one(&mut rng).is_none());
    drawn.sort();
    assert_eq!(drawn, vec![0, 1, 2, 3, 4, 5]);
}

#[test]
fn join_size_is_minimum_and_pairs_are_fresh() {
    let left = List::new(vec![1, 2, 3]);
    let right = List::new(vec![10, 20, 30, 40, 50]);
    let model = Joiner::new(left, right, |a: &i32, b: &i32| (*a, *b));
    assert_eq!(model.size(), 3);
    let mut rng = seeded(4);
    let mut pool = model.peeking();
    assert_eq!(pool.size(), 3);
    assert!(pool.choose_multiple(&mut rng, 4).is_none());
    let pairs = pool.choose_multiple(&mut rng, 3).expect("3 <= min(3, 5)");
    assert_eq!(pairs.len(), 3);
    for (a, b) in &pairs {
        assert!([1, 2, 3].contains(a));
        assert!([10, 20, 30, 40, 50].contains(b));
    }
    for i in 0..3 {
        for j in 0..3 {
            if i != j {
                // No element of either side is reused within the call.
                assert_ne!(pairs[i].0, pairs[j].0);
                assert_ne!(pairs[i].1, pairs[j].1);
            }
        }
    }
    assert!(pool.choose_one(&mut rng).is_some());
}

#[test]
fn join_failure_consumes_nothing() {
    let left = List::new(vec![1, 2]);
    let right = List::new(vec![10, 20, 30, 40, 50]);
    let model = Joiner::new(left, right, |a: &i32, b: &i32| (*a, *b));
    let mut rng = seeded(5);
    let mut pool = model.taking();
    assert_eq!(pool.size(), 2);
    assert!(pool.choose_multiple(&mut rng, 3).is_none());
    // Had the failed draw consumed the short side, this would fail too.
    let pairs = pool.choose_multiple(&mut rng, 2).expect("2 <= min(2, 5)");
    assert_eq!(pairs.len(), 2);
    assert_eq!(pool.size(), 0);
}

#[test]
fn chain_size_is_sum_and_partition_is_bounded() {
    for seed in 0..20 {
        let model = Chain::new(
            List::new(vec![1, 2, 3]),
            List::new(vec![4, 5, 6]),
            1,
            1,
            |e: Either<&i32, &i32>| match e {
                Either::Left(x) => Either::Left(*x),
                Either::Right(x) => Either::Right(*x),
            },
        );
        assert_eq!(model.size(), 6);
        let mut rng = seeded(seed);
        let mut pool = model.taking();
        assert!(pool.choose_multiple(&mut rng, 7).is_none());
        let drawn = pool.choose_multiple(&mut rng, 5).expect("5 <= 3 + 3");
        assert_eq!(drawn.len(), 5);
        let lefts = drawn.iter().filter(|e| matches!(e, Either::Left(_))).count();
        let rights = drawn.len() - lefts;
        // Post-rebalancing each side supplied within its capacity, so the
        // starved side still contributed at least two items.
        assert!(lefts <= 3);
        assert!(rights <= 3);
        assert!(lefts >= 2);
        assert!(rights >= 2);
    }
}

#[test]
fn taking_six_strings_draw_three() {
    let words: Vec<String> = vec!["ash", "birch", "cedar", "elm", "fir", "oak"]
        .into_iter()
        .map(|w| w.to_string())
        .collect();
    let model = List::new(words.clone());
    let mut rng = seeded(7);
    let mut pool = model.taking();
    let drawn = pool.choose_multiple(&mut rng, 3).expect("3 of 6 must succeed");
    assert_eq!(drawn.len(), 3);
    for w in &drawn {
        assert!(words.contains(*w));
    }
    for i in 0..3 {
        for j in 0..3 {
            if i != j {
                assert_ne!(drawn[i], drawn[j]);
            }
        }
    }
    assert_eq!(pool.size(), 3);
}

#[test]
fn chain_rebalances_towards_large_side() {
    for seed in 0..20 {
        let model = Chain::new(
            List::new(vec![100]),
            List::new(vec![1, 2, 3, 4, 5]),
            1,
            1,
            |e: Either<&i32, &i32>| match e {
                Either::Left(x) => Either::Left(*x),
                Either::Right(x) => Either::Right(*x),
            },
        );
        let mut rng = seeded(seed);
        let mut pool = model.taking();
        // A naive 50/50 split could ask the size-1 side for both items;
        // rebalancing must move the excess to the size-5 side.
        let drawn = pool.choose_multiple(&mut rng, 2).expect("2 <= 1 + 5");
        assert_eq!(drawn.len(), 2);
        let lefts = drawn.iter().filter(|e| matches!(e, Either::Left(_))).count();
        assert!(lefts <= 1);
    }
}

#[test]
fn mapper_transforms_every_draw() {
    let model = Mapper::new(List::new(vec![1, 2, 3]), |x: &i32| *x * 10);
    assert_eq!(model.size(), 3);
    let mut rng = seeded(8);
    let mut peek = model.peeking();
    let drawn = peek.choose_multiple(&mut rng, 2).expect("2 of 3 must succeed");
    assert_eq!(drawn.len(), 2);
    for v in &drawn {
        assert!([10, 20, 30].contains(v));
    }
    assert_ne!(drawn[0], drawn[1]);
    let mut take = model.taking();
    let mut all: Vec<i32> = Vec::new();
    while let Some(v) = take.choose_one(&mut rng) {
        all.push(v);
    }
    all.sort();
    assert_eq!(all, vec![10, 20, 30]);
}

#[test]
fn chain_with_full_left_weight_prefers_left() {
    let model = Chain::new(
        List::new(vec![1, 2]),
        List::new(vec![30, 40]),
        1,
        0,
        |e: Either<&i32, &i32>| match e {
            Either::Left(x) => Either::Left(*x),
            Either::Right(x) => Either::Right(*x),
        },
    );
    let mut rng = seeded(9);
    let mut pool = model.taking();
    // Weight 1:0 routes every single draw left until that side is empty,
    // then falls back to the right side.
    let first = pool.choose_one(&mut rng).expect("four items remain");
    let second = pool.choose_one(&mut rng).expect("three items remain");
    assert!(matches!(first, Either::Left(_)));
    assert!(matches!(second, Either::Left(_)));
    let third = pool.choose_one(&mut rng).expect("two items remain");
    let fourth = pool.choose_one(&mut rng).expect("one item remains");
    assert!(matches!(third, Either::Right(_)));
    assert!(matches!(fourth, Either::Right(_)));
    assert!(pool.choose_one(&mut rng).is_none());
}

#[test]
fn chain_falls_back_when_chosen_side_is_empty() {
    let empty: Vec<i32> = Vec::new();
    let model = Chain::new(
        List::new(vec![7]),
        List::new(empty),
        0,
        1,
        |e: Either<&i32, &i32>| match e {
            Either::Left(x) => *x,
            Either::Right(x) => *x,
        },
    );
    let mut rng = seeded(10);
    let mut pool = model.taking();
    // Weight 0:1 picks the right side, which is empty, so the draw falls
    // back to the left side.
    assert_eq!(pool.choose_one(&mut rng), Some(7));
    assert!(pool.choose_one(&mut rng).is_none());
}

#[test]
fn single_slot_draw_returns_the_only_element() {
    let model = List::new(vec!["only".to_string()]);
    let mut rng = seeded(11);
    let mut pool = model.taking();
    assert_eq!(pool.choose_one(&mut rng).map(|s| s.as_str()), Some("only"));
    assert!(pool.choose_one(&mut rng).is_none());
}

#[test]
fn model_manufactures_independent_sessions() {
    let model = List::new(vec![1, 2, 3]);
    let mut rng = seeded(12);
    let mut t1 = model.taking();
    let mut t2 = model.taking();
    let a = t1.choose_multiple(&mut rng, 3).expect("own copy is full");
    let b = t2.choose_multiple(&mut rng, 3).expect("independent copy is full");
    assert_eq!(a.len(), 3);
    assert_eq!(b.len(), 3);
    assert_eq!(t1.size(), 0);
    assert_eq!(t2.size(), 0);
}

#[test]
fn same_seed_same_draws() {
    let model = List::new(vec![2, 4, 6, 8, 10, 12, 14]);
    let mut rng_a = seeded(13);
    let mut rng_b = seeded(13);
    let first = model.taking().choose_multiple(&mut rng_a, 5).expect("5 of 7");
    let second = model.taking().choose_multiple(&mut rng_b, 5).expect("5 of 7");
    assert_eq!(first, second);
}

#[test]
fn nested_composition_draws() {
    let doubled = Mapper::new(List::new(vec![1, 2, 3, 4]), |x: &i32| *x * 2);
    let model = Joiner::new(doubled, List::new(vec![5, 6, 7]), |a: i32, b: &i32| a + *b);
    assert_eq!(model.size(), 3);
    let mut rng = seeded(14);
    let mut pool = model.taking();
    let drawn = pool.choose_multiple(&mut rng, 3).expect("3 <= min(4, 3)");
    assert_eq!(drawn.len(), 3);
    for v in &drawn {
        // Smallest possible sum 2 + 5, largest 8 + 7.
        assert!(7 <= *v && *v <= 15);
    }
    assert!(pool.choose_one(&mut rng).is_none());
}

#[test]
fn models_compose_by_reference() {
    let base = List::new(vec![1, 2, 3]);
    let pair = Joiner::new(&base, &base, |a: &i32, b: &i32| (*a, *b));
    assert_eq!(pair.size(), 3);
    let mut rng = seeded(16);
    let mut pool = pair.taking();
    let got = pool.choose_multiple(&mut rng, 3).expect("3 <= min(3, 3)");
    assert_eq!(got.len(), 3);
    // The borrowed model itself is untouched.
    assert_eq!(base.size(), 3);
}

#[test]
fn urn_object_interface_draws() {
    let model = List::new(vec![1, 2, 3]);
    let mut rng = seeded(15);
    let mut pool = model.taking();
    let one = urne::UrneObj::choose_one(&mut pool, &mut rng).expect("pool is full");
    assert!(model.list.contains(one));
    let rest = urne::UrneObj::choose_multiple(&mut pool, &mut rng, 2).expect("2 remain");
    assert_eq!(rest.len(), 2);
    assert!(urne::UrneObj::choose_one(&mut pool, &mut rng).is_none());
}
