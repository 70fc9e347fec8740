use sdf_demo::ring::{normalize, outer_inner_sdf, shift_origin};
use sdf_demo::sqrt::isqrt;
use sdf_demo::surface::SDFDemo;
use sdf_demo::vector::{Point3, Vec3, SCALE};

fn p(x: i32, y: i32, z: i32) -> Point3 {
    Point3::new(x, y, z)
}

#[test]
fn shift_origin_on_x_axis() {
    assert_eq!(shift_origin(10000, 0, 20000), (-20000, 0));
    assert_eq!(shift_origin(-10000, 0, 20000), (20000, 0));
}

#[test]
fn shift_origin_on_other_axis() {
    assert_eq!(shift_origin(0, 10000, 20000), (0, -20000));
    assert_eq!(shift_origin(0, -10000, 20000), (0, 20000));
}

#[test]
fn shift_origin_zero_direction_goes_to_negative_x() {
    assert_eq!(shift_origin(0, 0, 30000), (-30000, 0));
}

#[test]
fn shift_origin_general_direction() {
    assert_eq!(shift_origin(6000, 8000, 30000), (-18000, -24000));
    assert_eq!(shift_origin(-6000, -8000, 30000), (18000, 24000));
    assert_eq!(shift_origin(1, 9999, 30000), (-3, -29997));
}

#[test]
fn isqrt_rounds_down() {
    assert_eq!(isqrt(0), 0);
    assert_eq!(isqrt(15), 3);
    assert_eq!(isqrt(16), 4);
    assert_eq!(isqrt(u128::MAX), u64::MAX);
}

#[test]
fn normalize_is_a_fixed_point_fraction() {
    assert_eq!(normalize(-3, 5), -6000);
    assert_eq!(normalize(3, 5), 6000);
    assert_eq!(normalize(0, 0), 0);
}

#[test]
fn outer_inner_on_outer_surface() {
    let (outer, inner, o, i) = outer_inner_sdf(p(28200, 0, 0));
    assert_eq!(outer, 0);
    assert_eq!(inner, 5000);
    assert_eq!(o, Vec3::new(58200, 0, 0));
    assert_eq!(i, Vec3::new(48200, 0, 0));
}

#[test]
fn outer_inner_general_direction() {
    let (outer, inner, o, i) = outer_inner_sdf(p(3000, 10000, -4000));
    assert_eq!(o, Vec3::new(21000, 10000, -28000));
    assert_eq!(i, Vec3::new(15000, 10000, -20000));
    assert_eq!(outer, 36400 - 58200);
    assert_eq!(inner, 26925 - 43200);
}

#[test]
fn outer_inner_on_vertical_axis_is_defined() {
    let (outer, inner, o, i) = outer_inner_sdf(p(0, 0, 0));
    assert_eq!(o, Vec3::new(30000, 0, 0));
    assert_eq!(i, Vec3::new(20000, 0, 0));
    assert_eq!(outer, -28200);
    assert_eq!(inner, -23200);
}

#[test]
fn sample_on_outer_ring_surface_is_zero() {
    let s = SDFDemo.sample(p(28200, 0, 0), false);
    assert!(s.distance.abs() <= 1);
}

#[test]
fn sample_far_points_are_outside() {
    assert_eq!(SDFDemo.sample(p(100000, 0, 0), true).distance, 71800);
    assert!(SDFDemo.sample(p(0, 90000, 0), true).distance > 0);
    assert!(SDFDemo.sample(p(-70000, 30000, -70000), true).distance > 0);
    assert!(SDFDemo.sample(p(i32::MIN, i32::MAX, i32::MIN), true).distance > 0);
}

#[test]
fn sample_green_band() {
    let s = SDFDemo.sample(p(0, 40500, -100), false);
    assert!(s.distance < 0);
    assert_eq!(s.color, p(0, SCALE, 0));
}

#[test]
fn sample_red_band() {
    let s = SDFDemo.sample(p(0, 20500, -21000), false);
    assert!(s.distance < 0);
    assert_eq!(s.color, p(SCALE, 0, 0));
}

#[test]
fn sample_between_bands_has_no_hint() {
    let s = SDFDemo.sample(p(0, 30000, -15000), false);
    assert!(s.distance < 0);
    assert_eq!(s.color, p(0, 0, 0));
}

#[test]
fn sample_band_edges_are_excluded() {
    assert_eq!(SDFDemo.sample(p(0, 40000, -100), false).color, p(0, 0, 0));
    assert_eq!(SDFDemo.sample(p(0, 41000, -100), false).color, p(0, 0, 0));
    assert_eq!(SDFDemo.sample(p(0, 21000, -100), false).color, p(0, 0, 0));
    assert_eq!(SDFDemo.sample(p(0, 20001, -100), false).color, p(SCALE, 0, 0));
}

#[test]
fn sample_outer_dominates_inside_shell() {
    let s = SDFDemo.sample(p(0, 30000, -15000), true);
    let (outer, inner, _, _) = outer_inner_sdf(p(0, 30000, -15000));
    assert!(outer < 0);
    assert!(inner > 0);
    assert_eq!(s.distance, (-inner).max(outer));
    assert_eq!(s.distance, -2897);
}

#[test]
fn sample_below_plane_is_clipped() {
    let s = SDFDemo.sample(p(-25000, -50, -100), true);
    assert_eq!(s.distance, 50);
    let deep = SDFDemo.sample(p(0, -5000, -100), true);
    assert!(deep.distance >= 5000);
}

#[test]
fn sample_positive_depth_is_clipped() {
    let s = SDFDemo.sample(p(0, 40500, 700), true);
    assert_eq!(s.distance, 700);
}

#[test]
fn sample_on_vertical_axis_is_finite() {
    assert_eq!(SDFDemo.sample(p(0, 0, 0), true).distance, 23200);
}

#[test]
fn bounding_box_is_fixed() {
    let b = SDFDemo.bounding_box();
    assert_eq!(b, [p(-30000, -1000, -30000), p(30000, 50000, 30000)]);
    SDFDemo.sample(p(1, 2, 3), false);
    assert_eq!(SDFDemo.bounding_box(), b);
}

#[test]
fn changed_is_always_none() {
    assert_eq!(SDFDemo.changed(), None);
    SDFDemo.sample(p(0, 40500, -100), false);
    assert_eq!(SDFDemo.changed(), None);
}

#[test]
fn normal_on_outer_surface_points_out() {
    assert_eq!(SDFDemo.normal(p(28200, 0, 0)), Vec3::new(SCALE as i64, 0, 0));
}

#[test]
fn normal_inside_shell_uses_inner_face() {
    let n = SDFDemo.normal(p(3000, 10000, -4000));
    assert_eq!(n, Vec3::new(5571, 3714, -7428));
}

#[test]
fn solid_lies_within_bounding_box() {
    let [lo, hi] = SDFDemo.bounding_box();
    let mut inside = 0;
    for i in -40..=40 {
        for j in -5..=60 {
            for k in -40..=5 {
                let q = p(i * 1000, j * 1000, k * 1000);
                if SDFDemo.sample(q, true).distance < 0 {
                    inside += 1;
                    assert!(lo.x <= q.x && q.x <= hi.x);
                    assert!(lo.y <= q.y && q.y <= hi.y);
                    assert!(lo.z <= q.z && q.z <= hi.z);
                }
            }
        }
    }
    assert!(inside > 0);
}
