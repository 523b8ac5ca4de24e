use hwlocality::bitmap::Bitmap;
use hwlocality::range::IndexRange;
use rand::rngs::StdRng;
use rand::{Rng, SeedableRng};

fn random_bitmap(rng: &mut StdRng) -> Bitmap {
    let mut b = Bitmap::new();
    let n: usize = rng.gen_range(0..12);
    for _ in 0..n {
        b.set(rng.gen_range(0..80));
    }
    if rng.gen_bool(0.5) {
        let from: usize = rng.gen_range(0..100);
        b.set_range(IndexRange::starting_at(from));
    }
    b
}

#[test]
fn random_invert_twice_is_identity() {
    let mut rng = StdRng::seed_from_u64(1);
    for _ in 0..200 {
        let x = random_bitmap(&mut rng);
        let mut y = x.clone();
        y.invert();
        y.invert();
        assert!(y == x);
    }
}

#[test]
fn random_and_not_is_and_of_complement() {
    let mut rng = StdRng::seed_from_u64(2);
    for _ in 0..200 {
        let x = random_bitmap(&mut rng);
        let y = random_bitmap(&mut rng);
        assert!(x.and_not(&y) == &x & &!&y);
    }
}

#[test]
fn random_subset_laws() {
    let mut rng = StdRng::seed_from_u64(3);
    let empty = Bitmap::new();
    for _ in 0..200 {
        let x = random_bitmap(&mut rng);
        assert_eq!(empty.includes(&x), x.is_empty());
        assert!(x.includes(&empty));
    }
}

#[test]
fn random_disjoint_union_weight() {
    let mut rng = StdRng::seed_from_u64(4);
    for _ in 0..200 {
        let x = random_bitmap(&mut rng);
        let y = random_bitmap(&mut rng).and_not(&x);
        let w = (&x | &y).weight();
        match (x.weight(), y.weight()) {
            (Some(a), Some(b)) => assert_eq!(w, Some(a + b)),
            _ => assert_eq!(w, None),
        }
    }
}

#[test]
fn random_range_round_trip() {
    let mut rng = StdRng::seed_from_u64(5);
    for _ in 0..100 {
        let lo: usize = rng.gen_range(0..60);
        let hi: usize = rng.gen_range(0..60);
        let b = Bitmap::from_range(IndexRange::inclusive(lo, hi));
        let got: Vec<usize> = b.iter_set().to_vec().iter().map(|i| i.to_usize()).collect();
        let want: Vec<usize> = (lo..=hi).collect();
        assert_eq!(got, want);
    }
}

#[test]
fn random_text_matches_membership() {
    let mut rng = StdRng::seed_from_u64(6);
    for _ in 0..100 {
        let x = random_bitmap(&mut rng);
        let mut rebuilt = Bitmap::new();
        for (first, last) in x.runs() {
            match last {
                Some(l) => rebuilt.set_range(IndexRange::inclusive(first, l)),
                None => rebuilt.set_range(IndexRange::starting_at(first)),
            }
        }
        assert!(rebuilt == x);
    }
}
