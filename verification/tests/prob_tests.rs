use rand::rngs::StdRng;
use rand::SeedableRng;
use spacerl::prob::{select, select_array};

#[test]
fn select_returns_one_of_the_candidates() {
    let mut rng: StdRng = SeedableRng::seed_from_u64(11);
    let candidates = vec![3, 5, 8];
    for _ in 0..50 {
        let picked = select(&mut rng, &candidates);
        assert!(picked.is_some());
        assert!(candidates.contains(picked.unwrap()));
    }
}

#[test]
fn select_single_candidate_is_that_candidate() {
    let mut rng: StdRng = SeedableRng::seed_from_u64(2);
    let candidates = vec![42];
    assert_eq!(select(&mut rng, &candidates), Some(&42));
}

#[test]
fn select_array_returns_an_element() {
    let mut rng: StdRng = SeedableRng::seed_from_u64(5);
    let candidates = ["a", "b"];
    let mut seen_a = false;
    let mut seen_b = false;
    for _ in 0..100 {
        let picked = *select_array(&mut rng, &candidates);
        assert!(picked == "a" || picked == "b");
        if picked == "a" {
            seen_a = true;
        } else {
            seen_b = true;
        }
    }
    assert!(seen_a && seen_b);
}
