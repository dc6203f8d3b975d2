use donut::binary64::Binary64;
use donut::intersection::{find_closest_root, get_surface_intersection};

fn pattern(value: f64) -> Binary64 {
    Binary64 {
        bits: value.to_bits(),
    }
}

fn offsets(eye: f64, roots: &[f64]) -> Vec<Binary64> {
    roots.iter().map(|root| pattern(eye - root)).collect()
}

fn residuals(values: &[Option<f64>]) -> Vec<Option<Binary64>> {
    values.iter().map(|value| value.map(pattern)).collect()
}

#[test]
fn no_root_gives_no_hit() {
    assert_eq!(find_closest_root(&[], pattern(1.0)), None);
    assert_eq!(find_closest_root(&[], pattern(-1.0)), None);
}

#[test]
fn roots_behind_the_eye_are_not_hit() {
    // The eye is at 5 and looks towards larger coordinates.
    let behind = offsets(5.0, &[-1.0, 1.0, 4.5]);
    assert_eq!(find_closest_root(&behind, pattern(-1.0)), None);
}

#[test]
fn nearer_of_two_crossings_is_hit() {
    // The ray enters the tube at -0.35 and leaves it at 0.35.
    let crossings = offsets(-5.0, &[-0.35, 0.35]);
    assert_eq!(find_closest_root(&crossings, pattern(-1.0)), Some(0));
    let crossings = offsets(5.0, &[-0.35, 0.35]);
    assert_eq!(find_closest_root(&crossings, pattern(1.0)), Some(1));
}

#[test]
fn nearest_of_four_crossings_is_hit() {
    let crossings = offsets(-3.0, &[-1.5, -0.8, 0.8, 1.5]);
    assert_eq!(find_closest_root(&crossings, pattern(-2.0)), Some(0));
    let crossings = offsets(3.0, &[-1.5, -0.8, 0.8, 1.5]);
    assert_eq!(find_closest_root(&crossings, pattern(0.25)), Some(3));
}

#[test]
fn only_roots_ahead_count_from_inside() {
    // The eye sits between the crossings and looks towards smaller coordinates.
    let crossings = offsets(0.0, &[-1.5, -0.8, 0.8, 1.5]);
    assert_eq!(find_closest_root(&crossings, pattern(1.0)), Some(1));
    assert_eq!(find_closest_root(&crossings, pattern(-1.0)), Some(2));
}

#[test]
fn first_of_equally_near_roots_is_hit() {
    let same = vec![pattern(2.0), pattern(1.0), pattern(1.0), pattern(3.0)];
    assert_eq!(find_closest_root(&same, pattern(1.0)), Some(1));
}

#[test]
fn sign_of_zero_decides_reachability() {
    let at_eye = vec![pattern(0.0), pattern(-0.0)];
    assert_eq!(find_closest_root(&at_eye, pattern(1.0)), Some(0));
    assert_eq!(find_closest_root(&at_eye, pattern(-1.0)), Some(1));
    assert_eq!(find_closest_root(&at_eye, pattern(-0.0)), Some(1));
}

#[test]
fn leading_offset_that_is_no_number_is_kept() {
    let list = vec![pattern(f64::NAN), pattern(1.0), pattern(0.5)];
    assert_eq!(find_closest_root(&list, pattern(1.0)), Some(0));
}

#[test]
fn later_offset_that_is_no_number_is_skipped() {
    let list = vec![pattern(1.0), pattern(f64::NAN), pattern(0.5)];
    assert_eq!(find_closest_root(&list, pattern(1.0)), Some(2));
    let list = vec![pattern(0.5), pattern(f64::NAN), pattern(1.0)];
    assert_eq!(find_closest_root(&list, pattern(1.0)), Some(0));
}

#[test]
fn find_closest_root_agrees_with_a_float_fold() {
    let pool = [
        0.0,
        -0.0,
        0.5,
        -0.5,
        1.0,
        -1.0,
        2.5,
        -2.5,
        f64::INFINITY,
        f64::NEG_INFINITY,
        f64::NAN,
        -f64::NAN,
    ];
    let mut seed: u64 = 0x2545_F491_4F6C_DD1D;
    for _ in 0..2000 {
        let mut list: Vec<f64> = Vec::new();
        seed ^= seed << 13;
        seed ^= seed >> 7;
        seed ^= seed << 17;
        let len = (seed % 5) as usize;
        for k in 0..len {
            let pick = ((seed >> (8 * (k + 1))) % pool.len() as u64) as usize;
            list.push(pool[pick]);
        }
        let direction = pool[((seed >> 48) % pool.len() as u64) as usize];

        let mut expected: Option<usize> = None;
        for (i, d) in list.iter().enumerate() {
            if d.is_sign_positive() == direction.is_sign_positive() {
                match expected {
                    Some(k) => {
                        if d.abs() < list[k].abs() {
                            expected = Some(i);
                        }
                    }
                    None => expected = Some(i),
                }
            }
        }
        let patterns: Vec<Binary64> = list.iter().map(|d| pattern(*d)).collect();
        assert_eq!(
            find_closest_root(&patterns, pattern(direction)),
            expected,
            "{:?} {:?}",
            list,
            direction
        );
    }
}

#[test]
fn no_candidate_gives_no_point() {
    assert_eq!(get_surface_intersection(&[], pattern(0.0175)), None);
    assert_eq!(
        get_surface_intersection(&residuals(&[None, None, None]), pattern(0.0175)),
        None
    );
}

#[test]
fn candidate_outside_tolerance_is_refused() {
    let list = residuals(&[Some(0.02), None, Some(1.5)]);
    assert_eq!(get_surface_intersection(&list, pattern(0.0175)), None);
}

#[test]
fn candidate_at_tolerance_is_accepted() {
    let list = residuals(&[None, Some(0.0175), None]);
    assert_eq!(get_surface_intersection(&list, pattern(0.0175)), Some(1));
}

#[test]
fn smallest_residual_wins() {
    let list = residuals(&[Some(1e-9), Some(1e-12), Some(1e-3)]);
    assert_eq!(get_surface_intersection(&list, pattern(0.0175)), Some(1));
    let list = residuals(&[Some(1e-12), Some(1e-9), Some(0.5)]);
    assert_eq!(get_surface_intersection(&list, pattern(0.0175)), Some(0));
    let list = residuals(&[Some(0.5), Some(1e-9), Some(1e-12)]);
    assert_eq!(get_surface_intersection(&list, pattern(0.0175)), Some(2));
}

#[test]
fn last_of_equal_residuals_wins() {
    let list = residuals(&[Some(1e-9), Some(1e-9), Some(1e-3)]);
    assert_eq!(get_surface_intersection(&list, pattern(0.0175)), Some(1));
    let list = residuals(&[Some(0.0), None, Some(-0.0)]);
    assert_eq!(get_surface_intersection(&list, pattern(0.0175)), Some(2));
}

#[test]
fn residual_that_is_no_number_is_refused() {
    let list = residuals(&[Some(f64::NAN), Some(0.01), Some(f64::NAN)]);
    assert_eq!(get_surface_intersection(&list, pattern(0.0175)), Some(1));
    let list = residuals(&[Some(f64::NAN), None, Some(f64::INFINITY)]);
    assert_eq!(get_surface_intersection(&list, pattern(0.0175)), None);
}

#[test]
fn tolerance_that_is_no_number_refuses_all() {
    let list = residuals(&[Some(0.0), Some(0.01), None]);
    assert_eq!(get_surface_intersection(&list, pattern(f64::NAN)), None);
}

#[test]
fn zero_tolerance_accepts_only_exact_points() {
    let list = residuals(&[Some(1e-300), Some(0.0), Some(5e-324)]);
    assert_eq!(get_surface_intersection(&list, pattern(0.0)), Some(1));
    let list = residuals(&[Some(1e-300), None, Some(5e-324)]);
    assert_eq!(get_surface_intersection(&list, pattern(0.0)), None);
}

#[test]
fn get_surface_intersection_agrees_with_a_float_fold() {
    let pool = [
        Some(0.0),
        Some(-0.0),
        Some(1e-12),
        Some(0.0175),
        Some(0.0176),
        Some(0.5),
        Some(f64::INFINITY),
        Some(f64::NAN),
        Some(-1.0),
        None,
    ];
    let tolerances = [0.0175, 0.0, -0.0, 1.0, f64::NAN, f64::INFINITY, -1.0];
    for a in pool {
        for b in pool {
            for c in pool {
                for tolerance in tolerances {
                    let list = [a, b, c];
                    let mut expected: Option<usize> = None;
                    let mut epsilon = tolerance;
                    for (i, d) in list.iter().enumerate() {
                        if let Some(d) = d {
                            if *d <= epsilon {
                                epsilon = *d;
                                expected = Some(i);
                            }
                        }
                    }
                    assert_eq!(
                        get_surface_intersection(&residuals(&list), pattern(tolerance)),
                        expected,
                        "{:?} {:?}",
                        list,
                        tolerance
                    );
                }
            }
        }
    }
}
