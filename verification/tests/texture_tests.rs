use raytracer::material::Lambertian;
use raytracer::matrix::Matrix;
use raytracer::texture::{checker_is_even, SolidColor};

#[test]
fn checker_origin_is_even() {
    assert!(checker_is_even(0, 0, 0));
}

#[test]
fn checker_neighbours_alternate() {
    for x in -5isize..5 {
        for y in -5isize..5 {
            for z in -5isize..5 {
                let here = checker_is_even(x, y, z);
                assert_ne!(checker_is_even(x + 1, y, z), here);
                assert_ne!(checker_is_even(x, y + 1, z), here);
                assert_ne!(checker_is_even(x, y, z + 1), here);
            }
        }
    }
}

#[test]
fn checker_negative_cells() {
    assert!(!checker_is_even(-1, 0, 0));
    assert!(checker_is_even(-1, -1, 0));
    assert!(!checker_is_even(-3, 2, 0));
}

#[test]
fn checker_extreme_coordinates_do_not_overflow() {
    // 3 * isize::MAX is odd
    assert!(!checker_is_even(isize::MAX, isize::MAX, isize::MAX));
    // 3 * isize::MIN is even
    assert!(checker_is_even(isize::MIN, isize::MIN, isize::MIN));
    assert!(!checker_is_even(isize::MAX, isize::MIN, 0));
}

#[test]
fn solid_color_is_the_same_everywhere() {
    let t = SolidColor::from((0.2, 0.3, 0.1));
    assert_eq!(*t.value(), (0.2, 0.3, 0.1));
}

#[test]
fn lambertian_keeps_albedo() {
    let m = Lambertian::new((0.5f64, 0.5f64, 0.5f64));
    assert_eq!(*m.albedo(), (0.5, 0.5, 0.5));
}

#[test]
fn matrix_keeps_columns() {
    let m = Matrix::new(vec![(1.0, 0.0, 0.0), (0.0, 1.0, 0.0), (0.0, 0.0, 1.0)]);
    assert_eq!(m.columns().len(), 3);
    assert_eq!(m.columns()[1], (0.0, 1.0, 0.0));
}
