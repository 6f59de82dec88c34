use bsp_dungeon::prng::Prng;
use rand::Rng;
use rand::SeedableRng;
use rand_pcg::Pcg64;

#[test]
fn test_new_prng() {
    let prng = Prng::new(0);
    assert_eq!(0, prng.seed());
    let mut rng = Pcg64::seed_from_u64(0);
    assert_eq!(5, rng.random_range(1..6));
}

#[test]
fn test_roll() {
    let mut prng = Prng::new(0);
    assert_eq!(1, prng.roll(1));
    assert_eq!(1, prng.roll(2));
    assert_eq!(3, prng.roll(3));
    assert_eq!(1, prng.roll(4));
    assert_eq!(5, prng.roll(5));
    assert_eq!(1, prng.roll(6));
}

#[test]
fn rolls_stay_inside_the_closed_range() {
    let mut prng = Prng::new(987654321);
    for sides in 1..=40u64 {
        for _ in 0..25 {
            let v = prng.roll(sides);
            assert!(1 <= v && v <= sides);
        }
    }
}

#[test]
fn one_sided_rolls_are_forced() {
    let mut prng = Prng::new(7);
    for _ in 0..10 {
        assert_eq!(1, prng.roll(1));
    }
}

#[test]
fn equal_seeds_give_equal_roll_sequences() {
    let mut a = Prng::new(123456789);
    let mut b = Prng::new(123456789);
    for sides in 1..=100u64 {
        assert_eq!(a.roll(sides), b.roll(sides));
    }
}
