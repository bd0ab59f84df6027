use raytracer::perlin::Perlin;

#[test]
fn new_keeps_point_count() {
    let p = Perlin::new(256);
    assert_eq!(p.point_count(), 256);
}

#[test]
fn new_with_a_single_point() {
    let p = Perlin::new(1);
    assert_eq!(p.point_count(), 1);
}

#[test]
fn corner_index_is_a_gradient_index() {
    let p = Perlin::new(256);
    for i in -300isize..300 {
        for d in 0..2usize {
            assert!(p.corner_index(i, 3 * i, -7 * i, d, 1 - d, d) < 256);
        }
    }
}

#[test]
fn corner_index_is_deterministic() {
    let p = Perlin::new(256);
    assert_eq!(p.corner_index(5, -6, 7, 1, 0, 1), p.corner_index(5, -6, 7, 1, 0, 1));
}

#[test]
fn corner_index_offset_is_next_lattice_point() {
    let p = Perlin::new(256);
    for i in -20isize..20 {
        assert_eq!(p.corner_index(i, 2, 3, 1, 0, 0), p.corner_index(i + 1, 2, 3, 0, 0, 0));
        assert_eq!(p.corner_index(4, i, 3, 0, 1, 0), p.corner_index(4, i + 1, 3, 0, 0, 0));
        assert_eq!(p.corner_index(4, 2, i, 0, 0, 1), p.corner_index(4, 2, i + 1, 0, 0, 0));
    }
}

#[test]
fn corner_index_repeats_every_256_cells() {
    let p = Perlin::new(256);
    assert_eq!(p.corner_index(-1, 0, 0, 0, 0, 0), p.corner_index(255, 0, 0, 0, 0, 0));
    assert_eq!(p.corner_index(1000, -513, 77, 0, 0, 0), p.corner_index(1000 - 256 * 4, -513 + 256 * 3, 77, 0, 0, 0));
}

#[test]
fn corner_index_handles_extreme_coordinates() {
    let p = Perlin::new(256);
    // isize::MAX + 1 lies in slot 0, like 0 itself
    assert_eq!(p.corner_index(isize::MAX, 0, 0, 1, 0, 0), p.corner_index(0, 0, 0, 0, 0, 0));
    assert_eq!(p.corner_index(isize::MIN, 0, 0, 0, 0, 0), p.corner_index(0, 0, 0, 0, 0, 0));
}

#[test]
fn corner_index_along_one_axis_is_a_permutation() {
    // With two coordinates fixed, the 256 slots of the third axis reach 256
    // distinct gradient entries, because each table is a permutation.
    let p = Perlin::new(256);
    for (j, k) in [(0isize, 0isize), (17, -40), (255, 128)] {
        let mut seen = vec![false; 256];
        for i in 0..256isize {
            let idx = p.corner_index(i, j, k, 0, 0, 0);
            assert!(!seen[idx]);
            seen[idx] = true;
        }
        let mut seen_y = vec![false; 256];
        for i in 0..256isize {
            let idx = p.corner_index(k, i, j, 0, 0, 0);
            assert!(!seen_y[idx]);
            seen_y[idx] = true;
        }
    }
}

#[test]
fn larger_power_of_two_table() {
    let p = Perlin::new(1024);
    for i in 0..300isize {
        assert!(p.corner_index(i, i, i, 1, 1, 1) < 1024);
    }
}

#[test]
fn tables_are_shuffled() {
    // Unshuffled tables would hash (i, 0, 0) to i for every i.
    let p = Perlin::new(256);
    let unmoved = (0..256isize).filter(|&i| p.corner_index(i, 0, 0, 0, 0, 0) == i as usize).count();
    assert!(unmoved < 256);
}
