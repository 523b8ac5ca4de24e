use hwlocality::bitmap::Bitmap;
use hwlocality::index::{BitmapIndex, IndexError, MAX_INDEX};
use hwlocality::range::{IndexBound, IndexRange};
use std::cmp::Ordering;

fn indices(v: &[BitmapIndex]) -> Vec<usize> {
    v.iter().map(|i| i.to_usize()).collect()
}

fn test_basic_inplace(initial: &Bitmap, inverse: &Bitmap) {
    let mut buf = initial.clone();
    buf.clear();
    assert!(buf.is_empty());

    buf.copy_from(initial);
    buf.fill();
    assert!(buf.is_full());

    buf.copy_from(initial);
    buf.invert();
    assert!(buf == *inverse);

    if initial.weight().unwrap_or(usize::MAX) > 0 {
        buf.copy_from(initial);
        buf.singlify();
        assert_eq!(buf.weight(), Some(1));
    }
}

#[test]
fn empty() {
    let empty = Bitmap::new();
    let inverse = Bitmap::full();

    let test_empty = |empty: &Bitmap| {
        assert_eq!(empty.first_set(), None);
        assert_eq!(empty.first_unset().map(|i| i.to_usize()), Some(0));
        assert!(empty.is_empty());
        assert!(!empty.is_full());
        assert_eq!(empty.iter_set().to_vec().len(), 0);
        assert_eq!(empty.iter_unset().next(), empty.first_unset());
        assert_eq!(empty.last_set(), None);
        assert_eq!(empty.last_unset(), None);
        assert_eq!(empty.weight(), Some(0));

        assert_eq!(empty.to_string(), "");
        assert!(!empty == inverse);
    };

    test_empty(&empty);
    test_empty(&empty.clone());
    test_empty(&Bitmap::default());

    test_basic_inplace(&empty, &inverse);
}

#[test]
fn full() {
    let full = Bitmap::full();
    let inverse = Bitmap::new();

    let test_full = |full: &Bitmap| {
        assert_eq!(full.first_set().map(|i| i.to_usize()), Some(0));
        assert_eq!(full.first_unset(), None);
        assert!(!full.is_empty());
        assert!(full.is_full());
        assert_eq!(full.iter_set().next(), full.first_set());
        assert_eq!(full.iter_unset().to_vec().len(), 0);
        assert_eq!(full.last_set(), None);
        assert_eq!(full.last_unset(), None);
        assert_eq!(full.weight(), None);

        assert_eq!(full.to_string(), "0-");
        assert!(!full == inverse);
    };

    test_full(&full);
    test_full(&full.clone());

    test_basic_inplace(&full, &inverse);
}

#[test]
fn from_range_formats_and_weighs() {
    let b = Bitmap::from_range(IndexRange::inclusive(12, 34));
    assert_eq!(b.to_string(), "12-34");
    assert_eq!(b.weight(), Some(23));
    assert!(b.is_set(12));
    assert!(b.is_set(34));
    assert!(!b.is_set(11));
    assert!(!b.is_set(35));
}

#[test]
fn set_only_keeps_one_index() {
    let mut b = Bitmap::from_range(IndexRange::inclusive(12, 34));
    b.set_only(42);
    assert_eq!(b.to_string(), "42");
}

#[test]
fn set_all_but_leaves_one_hole() {
    let mut b = Bitmap::from_range(IndexRange::inclusive(12, 34));
    b.set_all_but(42);
    assert_eq!(b.to_string(), "0-41,43-");
}

#[test]
fn full_is_infinite_and_inverts_to_empty() {
    assert_eq!(Bitmap::full().weight(), None);
    assert!(Bitmap::full().is_full());
    assert!(!&Bitmap::full() == Bitmap::new());
}

#[test]
fn and_not_of_overlapping_ranges() {
    let a = Bitmap::from_range(IndexRange::inclusive(12, 56));
    let b = Bitmap::from_range(IndexRange::inclusive(34, 78));
    assert_eq!(a.and_not(&b).to_string(), "12-33");
    let mut c = a.clone();
    c.and_not_assign(&b);
    assert_eq!(c.to_string(), "12-33");
}

#[test]
fn iterating_a_range_yields_its_indices() {
    let b = Bitmap::from_range(IndexRange::inclusive(12, 21));
    assert_eq!(
        indices(&b.iter_set().to_vec()),
        vec![12, 13, 14, 15, 16, 17, 18, 19, 20, 21]
    );
}

#[test]
fn iterating_unset_indices_below_an_infinite_tail() {
    let b = Bitmap::from_range(IndexRange::starting_at(12));
    assert_eq!(
        indices(&b.iter_unset().to_vec()),
        vec![0, 1, 2, 3, 4, 5, 6, 7, 8, 9, 10, 11]
    );
}

#[test]
fn iterator_stays_finished() {
    let b = Bitmap::from_range(IndexRange::inclusive(3, 4));
    let mut it = b.iter_set();
    assert_eq!(it.next().map(|i| i.to_usize()), Some(3));
    assert_eq!(it.next().map(|i| i.to_usize()), Some(4));
    assert_eq!(it.next(), None);
    assert_eq!(it.next(), None);
}

#[test]
fn range_bounds_are_honoured() {
    let half_open = Bitmap::from_range(IndexRange::half_open(12, 34));
    assert_eq!(half_open.to_string(), "12-33");
    assert_eq!(half_open.weight(), Some(22));
    let excluded = Bitmap::from_range(IndexRange {
        start: IndexBound::Excluded(3),
        end: IndexBound::Excluded(6),
    });
    assert_eq!(excluded.to_string(), "4-5");
    let below = Bitmap::from_range(IndexRange::ending_before(12));
    assert_eq!(below.to_string(), "0-11");
    assert_eq!(below.first_unset().map(|i| i.to_usize()), Some(12));
    let everything = Bitmap::from_range(IndexRange {
        start: IndexBound::Unbounded,
        end: IndexBound::Unbounded,
    });
    assert!(everything.is_full());
    let nothing = Bitmap::from_range(IndexRange {
        start: IndexBound::Excluded(MAX_INDEX as usize),
        end: IndexBound::Unbounded,
    });
    assert!(nothing.is_empty());
    let reversed = Bitmap::from_range(IndexRange::inclusive(5, 4));
    assert!(reversed.is_empty());
}

#[test]
fn set_and_unset_ranges() {
    let mut b = Bitmap::from_range(IndexRange::inclusive(12, 56));
    b.set_range(IndexRange::inclusive(34, 78));
    assert_eq!(b.to_string(), "12-78");
    b.set_range(IndexRange::starting_at(2));
    assert_eq!(b.to_string(), "2-");

    let mut c = Bitmap::from_range(IndexRange::inclusive(12, 34));
    c.unset_range(IndexRange::inclusive(14, 18));
    assert_eq!(c.to_string(), "12-13,19-34");
    c.unset_range(IndexRange::starting_at(26));
    assert_eq!(c.to_string(), "12-13,19-25");
}

#[test]
fn single_index_edits() {
    let mut b = Bitmap::from_range(IndexRange::inclusive(12, 34));
    b.set(42);
    assert_eq!(b.to_string(), "12-34,42");
    b.unset(24);
    assert_eq!(b.to_string(), "12-23,25-34,42");
    assert_eq!(b.weight(), Some(23));
}

#[test]
fn invert_a_range() {
    let mut b = Bitmap::from_range(IndexRange::inclusive(12, 34));
    b.invert();
    assert_eq!(b.to_string(), "0-11,35-");
    b.invert();
    assert_eq!(b.to_string(), "12-34");
}

#[test]
fn first_and_last_indices() {
    let b = Bitmap::from_range(IndexRange::inclusive(12, 34));
    assert_eq!(b.first_set().map(|i| i.to_usize()), Some(12));
    assert_eq!(b.last_set().map(|i| i.to_usize()), Some(34));
    assert_eq!(b.first_unset().map(|i| i.to_usize()), Some(0));
    assert_eq!(b.last_unset(), None);
    let tail = Bitmap::from_range(IndexRange::starting_at(12));
    assert_eq!(tail.last_unset().map(|i| i.to_usize()), Some(11));
    assert_eq!(tail.last_set(), None);
}

#[test]
fn singlify_picks_the_least_index() {
    let mut b = Bitmap::from_range(IndexRange::inclusive(12, 34));
    b.singlify();
    assert_eq!(b.weight(), Some(1));
    assert_eq!(b.to_string(), "12");
    let mut e = Bitmap::new();
    e.singlify();
    assert!(e.is_empty());
}

#[test]
fn intersects_and_includes() {
    let b1 = Bitmap::from_range(IndexRange::inclusive(12, 34));
    let b2 = Bitmap::from_range(IndexRange::inclusive(56, 78));
    assert!(!b1.intersects(&b2));
    let b3 = Bitmap::from_range(IndexRange::inclusive(34, 56));
    assert!(b1.intersects(&b3));
    assert!(b2.intersects(&b3));

    let outer = Bitmap::from_range(IndexRange::inclusive(12, 78));
    let inner = Bitmap::from_range(IndexRange::inclusive(34, 56));
    assert!(outer.includes(&inner));
    assert!(!inner.includes(&outer));
}

#[test]
fn empty_includes_only_empty() {
    let empty = Bitmap::new();
    let some = Bitmap::from_range(IndexRange::inclusive(3, 5));
    assert!(empty.includes(&Bitmap::new()));
    assert!(!empty.includes(&some));
    assert!(!empty.includes(&Bitmap::full()));
    assert!(some.includes(&empty));
    assert!(Bitmap::full().includes(&empty));
}

#[test]
fn binary_operators() {
    let a = Bitmap::from_range(IndexRange::inclusive(0, 9));
    let b = Bitmap::from_range(IndexRange::inclusive(5, 14));
    assert_eq!((&a & &b).to_string(), "5-9");
    assert_eq!((&a | &b).to_string(), "0-14");
    assert_eq!((&a ^ &b).to_string(), "0-4,10-14");
    assert_eq!((!&a).to_string(), "10-");

    let mut c = a.clone();
    c &= &b;
    assert_eq!(c.to_string(), "5-9");
    c |= &Bitmap::from_range(IndexRange::starting_at(20));
    assert_eq!(c.to_string(), "5-9,20-");
    c ^= &Bitmap::full();
    assert_eq!(c.to_string(), "0-4,10-19");
}

#[test]
fn and_not_matches_and_of_complement() {
    let x = Bitmap::from_range(IndexRange::inclusive(3, 40));
    let mut y = Bitmap::from_range(IndexRange::inclusive(10, 20));
    y.set(33);
    assert!(x.and_not(&y) == &x & &!&y);
    let tail = Bitmap::from_range(IndexRange::starting_at(25));
    assert!(tail.and_not(&y) == &tail & &!&y);
}

#[test]
fn disjoint_union_weight() {
    let x = Bitmap::from_range(IndexRange::inclusive(0, 4));
    let y = Bitmap::from_range(IndexRange::inclusive(10, 12));
    assert_eq!((&x | &y).weight(), Some(8));
    let tail = Bitmap::from_range(IndexRange::starting_at(20));
    assert_eq!((&x | &tail).weight(), None);
}

#[test]
fn order_of_bitmaps() {
    let empty = Bitmap::new();
    let small = Bitmap::from_range(IndexRange::inclusive(0, 3));
    let high = Bitmap::from_index(BitmapIndex::try_from_usize(10).unwrap());
    let full = Bitmap::full();
    assert_eq!(empty.compare(&small), Ordering::Less);
    assert_eq!(small.compare(&high), Ordering::Less);
    assert_eq!(high.compare(&small), Ordering::Greater);
    assert_eq!(full.compare(&high), Ordering::Greater);
    assert_eq!(small.compare(&small.clone()), Ordering::Equal);
    assert!(empty < small);
    assert!(high > small);
    let tail = Bitmap::from_range(IndexRange::starting_at(5));
    assert_eq!(tail.compare(&full), Ordering::Less);
}

#[test]
fn building_from_indices() {
    let idx = |i: usize| BitmapIndex::try_from_usize(i).unwrap();
    let b = Bitmap::from_indices(&[idx(7), idx(1), idx(2), idx(7)]);
    assert_eq!(b.to_string(), "1-2,7");
    assert_eq!(b.weight(), Some(3));
    let mut c = Bitmap::full();
    c.extend(&[idx(3)]);
    assert!(c.is_full());
}

#[test]
fn equality_ignores_representation() {
    let mut a = Bitmap::from_range(IndexRange::inclusive(0, 100));
    a.unset_range(IndexRange::inclusive(3, 100));
    let b = Bitmap::from_range(IndexRange::inclusive(0, 2));
    assert!(a == b);
    let mut c = Bitmap::from_range(IndexRange::inclusive(0, 100));
    c.set_range(IndexRange::starting_at(50));
    assert!(c == Bitmap::full());
}

#[test]
fn runs_of_a_bitmap() {
    let mut b = Bitmap::from_range(IndexRange::inclusive(2, 4));
    b.set(9);
    b.set_range(IndexRange::starting_at(20));
    assert_eq!(b.runs(), vec![(2, Some(4)), (9, Some(9)), (20, None)]);
    assert_eq!(b.to_string(), "2-4,9,20-");
}

#[test]
fn large_indices_format_in_decimal() {
    let mut b = Bitmap::new();
    b.set(1234);
    b.set(MAX_INDEX as usize);
    assert_eq!(b.to_string(), "1234,2147483647");
    assert_eq!(b.last_set().map(|i| i.to_usize()), Some(MAX_INDEX as usize));
}

#[test]
fn raw_form_describes_the_set() {
    let b = Bitmap::from_range(IndexRange::starting_at(3));
    let (prefix, tail) = b.as_ptr();
    assert!(tail);
    assert!(prefix.len() >= 3);
    assert!(prefix.iter().take(3).all(|bit| !bit));
}

#[test]
fn index_conversions() {
    assert_eq!(BitmapIndex::try_from_usize(5).map(|i| i.get()), Some(5));
    assert_eq!(BitmapIndex::try_from_usize(MAX_INDEX as usize + 1), None);
    assert_eq!(BitmapIndex::try_from_i64(-1), Err(IndexError::Negative));
    assert_eq!(
        BitmapIndex::try_from_i64(MAX_INDEX as i64 + 1),
        Err(IndexError::TooLarge)
    );
    assert_eq!(BitmapIndex::try_from_i64(7).map(|i| i.to_i32()), Ok(7));
    assert_eq!(BitmapIndex::try_from_c_int(-1), None);
    assert_eq!(BitmapIndex::try_from_c_uint(u32::MAX), None);
    assert_eq!(BitmapIndex::max_value().checked_succ(), None);
    assert_eq!(BitmapIndex::min_value().checked_pred(), None);
    assert_eq!(
        BitmapIndex::min_value().checked_succ().map(|i| i.get()),
        Some(1)
    );
    assert_eq!(
        BitmapIndex::max_value().checked_pred().map(|i| i.get()),
        Some(MAX_INDEX - 1)
    );
}

#[test]
fn raw_prefix_can_be_filled_in_place() {
    let mut b = Bitmap::from_range(IndexRange::inclusive(0, 5));
    {
        let prefix = b.as_mut_ptr();
        prefix[1] = false;
        prefix[3] = false;
    }
    assert_eq!(b.to_string(), "0,2,4-5");
}
