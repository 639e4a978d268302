use comfy_breakout::math::closest_points_on_segment;
use comfy_breakout::math::try_get_lines_intersection_point;
use comfy_breakout::math::Point2;

fn pt(x: i64, y: i64) -> Point2 {
    Point2 { x, y }
}

#[test]
fn crossing_segments_intersect_at_known_point() {
    // segment (0,-10)..(0,10) crosses (-10,0)..(10,0) at the origin
    let r = try_get_lines_intersection_point(pt(0, -10), pt(0, 10), pt(-10, 0), pt(10, 0));
    let p = r.expect("segments cross");
    assert_eq!(p.xn, 0);
    assert_eq!(p.yn, 0);
    assert!(p.den >= 1);
}

#[test]
fn parallel_segments_do_not_intersect() {
    let r = try_get_lines_intersection_point(pt(0, 0), pt(10, 0), pt(0, 5), pt(10, 5));
    assert!(r.is_none());
}

#[test]
fn segments_sharing_an_endpoint_intersect_there() {
    let r = try_get_lines_intersection_point(pt(0, 0), pt(10, 0), pt(0, 0), pt(0, 10));
    let p = r.expect("shared endpoint");
    // the point is (0, 0): numerators are zero whatever the denominator
    assert_eq!(p.xn, 0);
    assert_eq!(p.yn, 0);
}

#[test]
fn closest_point_is_projection_clamped_to_segment() {
    // project (5, 7) onto the horizontal segment (0,0)..(10,0): lands at (5, 0)
    let p = closest_points_on_segment(pt(5, 7), pt(0, 0), pt(10, 0));
    assert_eq!(p.xn, 5 * p.den);
    assert_eq!(p.yn, 0);
    // project (-3, 4) onto the same segment: clamps to the endpoint (0, 0)
    let q = closest_points_on_segment(pt(-3, 4), pt(0, 0), pt(10, 0));
    assert_eq!(q.xn, 0);
    assert_eq!(q.yn, 0);
}

#[test]
fn asset_manifest_lists_ball_texture_and_hit_sound() {
    let (textures, sounds) = comfy_breakout::assets::load_assets();
    assert_eq!(textures, vec![("ball1", "img/ball1.png")]);
    assert_eq!(sounds, vec![("ball-hit", "sfx/ball-hit.oga")]);
    let (prefix, rel) = comfy_breakout::assets::base_path("img/ball1.png");
    assert_eq!(prefix, "assets/");
    assert_eq!(rel, "img/ball1.png");
}
