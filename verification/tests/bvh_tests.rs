use raytracer::bvh::{bvh_split, BvhSplit};

#[test]
fn single_object_is_both_children() {
    assert_eq!(bvh_split(4, 5), BvhSplit::Single(4));
}

#[test]
fn two_objects_go_one_each() {
    assert_eq!(bvh_split(0, 2), BvhSplit::Pair(0, 1));
}

#[test]
fn more_objects_are_halved() {
    assert_eq!(bvh_split(0, 3), BvhSplit::Halves(1));
    assert_eq!(bvh_split(10, 20), BvhSplit::Halves(15));
    assert_eq!(bvh_split(10, 21), BvhSplit::Halves(15));
}

#[test]
fn halves_never_empty() {
    for start in 0..20usize {
        for end in start + 3..start + 40 {
            match bvh_split(start, end) {
                BvhSplit::Halves(mid) => assert!(start < mid && mid < end),
                other => panic!("unexpected split {:?}", other),
            }
        }
    }
}

#[test]
fn split_near_the_top_of_usize() {
    assert_eq!(bvh_split(usize::MAX - 3, usize::MAX), BvhSplit::Halves(usize::MAX - 2));
}
