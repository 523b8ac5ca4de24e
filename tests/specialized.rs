use hwlocality::bitmap::Bitmap;
use hwlocality::range::IndexRange;
use hwlocality::specialized::{BitmapKind, CpuSet, NodeSet, SpecializedBitmap};

#[test]
fn kinds_are_tagged() {
    assert_eq!(CpuSet::bitmap_kind(), BitmapKind::CpuSet);
    assert_eq!(NodeSet::bitmap_kind(), BitmapKind::NodeSet);
}

#[test]
fn specialized_display_names_the_kind() {
    let cpus = CpuSet::from_range(IndexRange::inclusive(0, 3));
    assert_eq!(cpus.to_string(), "CpuSet(0-3)");
    let mut nodes = NodeSet::new();
    nodes.set(1);
    assert_eq!(nodes.to_string(), "NodeSet(1)");
    assert_eq!(NodeSet::full().to_string(), "NodeSet(0-)");
}

#[test]
fn specialized_algebra_stays_in_kind() {
    let a = CpuSet::from_range(IndexRange::inclusive(0, 7));
    let b = CpuSet::from_range(IndexRange::inclusive(4, 11));
    assert_eq!((&a & &b).to_string(), "CpuSet(4-7)");
    assert_eq!((&a | &b).to_string(), "CpuSet(0-11)");
    assert_eq!((&a ^ &b).to_string(), "CpuSet(0-3,8-11)");
    assert_eq!((!&a).to_string(), "CpuSet(8-)");
    assert_eq!(a.and_not(&b).to_string(), "CpuSet(0-3)");
    assert!(a.intersects(&b));
    assert!(!a.includes(&b));
    assert_eq!(a.weight(), Some(8));
}

#[test]
fn conversions_to_and_from_plain_bitmaps() {
    let plain = Bitmap::from_range(IndexRange::inclusive(2, 5));
    let cpus = CpuSet::from_bitmap(plain.clone());
    assert!(*cpus.as_bitmap() == plain);
    let back = cpus.into_bitmap();
    assert!(back == plain);
    let nodes = NodeSet::from_bitmap(back);
    assert_eq!(nodes.to_string(), "NodeSet(2-5)");
}
