use tetrust::mocks::SingleValueRangeRng;
use tetrust::randwrapper::{RangeRng, ThreadRangeRng};

fn gen_wrapper<R: RangeRng>(rng: &mut R, lower: usize, upper: usize) -> usize {
    rng.gen_range(lower, upper)
}

#[test]
fn test_thread_random() {
    // this test is mostly here to verify that things compile
    let mut rng = ThreadRangeRng::new();
    let first_value = rng.gen_range(0, 10);
    let next_value = gen_wrapper(&mut rng, 10, 20);
    assert_ne!(first_value, next_value);
}

#[test]
fn test_thread_random_in_range() {
    let mut rng = ThreadRangeRng::new();
    for _ in 0..50 {
        let value = rng.gen_range(3, 7);
        assert!((3..7).contains(&value));
    }
}

#[test]
fn test_single_value_random() {
    let mut rng = SingleValueRangeRng::new(10usize);
    let first_value = rng.gen_range(0, 100);
    for _ in 1..10 {
        let next_value = gen_wrapper(&mut rng, 0, 100);
        assert_eq!(first_value, next_value);
    }
}
