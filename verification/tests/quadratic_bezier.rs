use quad_bezier::geom::{point, rect, Point, Rect, Transform};
use quad_bezier::quadratic_bezier::QuadraticBezierSegment;
use quad_bezier::rat::Frac;

fn f(n: i64) -> Frac {
    Frac::from_int(n)
}

fn fp(x: i64, y: i64) -> Point {
    point(f(x), f(y))
}

fn seg(from: Point, ctrl: Point, to: Point) -> QuadraticBezierSegment {
    QuadraticBezierSegment { from, ctrl, to }
}

fn rect_eq(a: &Rect, b: &Rect) -> bool {
    a.equals(b)
}

#[test]
fn bounding_rect_for_monotonic_quadratic_bezier_segment() {
    let a = seg(fp(0, 0), fp(0, 0), fp(2, 0));

    let expected_bounding_rect = rect(f(0), f(0), f(2), f(0));

    let actual_bounding_rect = a.bounding_rect();

    assert!(rect_eq(&expected_bounding_rect, &actual_bounding_rect))
}

#[test]
fn fast_bounding_rect_for_quadratic_bezier_segment() {
    let a = seg(fp(0, 0), fp(1, 1), fp(2, 0));

    let expected_bounding_rect = rect(f(0), f(0), f(2), f(1));

    let actual_bounding_rect = a.fast_bounding_rect();

    assert!(rect_eq(&expected_bounding_rect, &actual_bounding_rect))
}

#[test]
fn minimum_bounding_rect_for_quadratic_bezier_segment() {
    let a = seg(fp(0, 0), fp(1, 1), fp(2, 0));

    let expected_bounding_rect = rect(f(0), f(0), f(2), Frac::new(1, 2));

    let actual_bounding_rect = a.bounding_rect();

    assert!(rect_eq(&expected_bounding_rect, &actual_bounding_rect))
}

#[test]
fn find_y_maximum_for_simple_segment() {
    let a = seg(fp(0, 0), fp(1, 1), fp(2, 0));

    let expected_y_maximum = Frac::new(1, 2);

    let actual_y_maximum = a.find_y_maximum();

    assert!(expected_y_maximum.equals(&actual_y_maximum))
}

#[test]
fn find_local_y_extremum_for_simple_segment() {
    let a = seg(fp(0, 0), fp(1, 1), fp(2, 0));

    let expected_y_inflection = Frac::new(1, 2);

    match a.find_local_y_extremum() {
        Some(actual_y_inflection) => assert!(expected_y_inflection.equals(&actual_y_inflection)),
        None => panic!(),
    }
}

#[test]
fn find_y_minimum_for_simple_segment() {
    let a = seg(fp(0, 0), fp(1, -1), fp(2, 0));

    let expected_y_minimum = Frac::new(1, 2);

    let actual_y_minimum = a.find_y_minimum();

    assert!(expected_y_minimum.equals(&actual_y_minimum))
}

#[test]
fn find_x_maximum_for_simple_segment() {
    let a = seg(fp(0, 0), fp(1, 1), fp(0, 2));

    let expected_x_maximum = Frac::new(1, 2);

    let actual_x_maximum = a.find_x_maximum();

    assert!(expected_x_maximum.equals(&actual_x_maximum))
}

#[test]
fn find_local_x_extremum_for_simple_segment() {
    let a = seg(fp(0, 0), fp(1, 1), fp(0, 2));

    let expected_x_inflection = Frac::new(1, 2);

    match a.find_local_x_extremum() {
        Some(actual_x_inflection) => assert!(expected_x_inflection.equals(&actual_x_inflection)),
        None => panic!(),
    }
}

#[test]
fn find_x_minimum_for_simple_segment() {
    let a = seg(fp(2, 0), fp(1, 1), fp(2, 2));

    let expected_x_minimum = Frac::new(1, 2);

    let actual_x_minimum = a.find_x_minimum();

    assert!(expected_x_minimum.equals(&actual_x_minimum))
}

#[test]
fn length_straight_line() {
    // Sanity check: aligned points, so the curve is a straight line
    // from (0, 0) to (2, 0).
    let len = seg(fp(0, 0), fp(1, 0), fp(2, 0)).approximate_length(&Frac::new(1, 100));
    assert!(len.equals(&f(2)));
}

#[test]
fn derivatives() {
    let c1 = seg(fp(1, 1), fp(2, 1), fp(2, 2));

    let half = Frac::new(1, 2);
    assert!(c1.dy(&f(0)).equals(&f(0)));
    assert!(c1.dx(&f(1)).equals(&f(0)));
    assert!(c1.dy(&half).equals(&c1.dx(&half)));
}

#[test]
fn monotonic_solve_t_for_x() {
    let curve = seg(fp(1, 1), fp(5, 5), fp(10, 2));

    let tolerance = Frac::new(1, 10000);

    for i in 0..10i64 {
        let t = Frac::new(i, 10);
        let p = curve.sample(&t);
        let t2 = curve.assume_monotonic().solve_t_for_x(&p.x);
        // t should be close to t2, but the only guarantee tested is that
        // x(t) - x(t2) stays within the tolerance threshold.
        let x_diff = curve.x(&t).sub(&curve.x(&t2));
        assert!(x_diff.le(&tolerance) && tolerance.neg().le(&x_diff));
    }
}

#[test]
fn is_linear() {
    // Collinear integer points along many different slopes, with the
    // control point anywhere between the distinct endpoints.
    let tolerance = Frac::new(1, 1_000_000_000);
    for (dx, dy) in [(1i64, 0i64), (0, 1), (1, 1), (2, 1), (1, -3), (-2, 5), (4, -1)] {
        for j in 0..5i64 {
            let curve = seg(
                fp(-3 * dx, -3 * dy),
                fp((j - 3) * dx, (j - 3) * dy),
                fp(3 * dx, 3 * dy),
            );
            assert!(curve.is_linear(&tolerance));
        }
    }
    // The all-equal degenerate case reports not linear.
    let degenerate = seg(fp(1, 1), fp(1, 1), fp(1, 1));
    assert!(!degenerate.is_linear(&Frac::new(1, 10)));
}

#[test]
fn sample_hits_endpoints_exactly() {
    let curve = seg(fp(-3, 7), fp(11, -2), fp(5, 4));
    let p0 = curve.sample(&f(0));
    let p1 = curve.sample(&f(1));
    assert!(p0.equals(&curve.from()));
    assert!(p1.equals(&curve.to()));
}

#[test]
fn split_halves_meet_at_split_point() {
    let curve = seg(fp(0, 0), fp(1, 1), fp(2, 0));
    let t = Frac::new(1, 3);
    let (a, b) = curve.split(&t);
    let meet = curve.sample(&t);
    assert!(a.sample(&f(1)).equals(&meet));
    assert!(b.sample(&f(0)).equals(&meet));
    let before = curve.before_split(&t);
    let after = curve.after_split(&t);
    assert!(before.sample(&f(1)).equals(&meet));
    assert!(after.sample(&f(0)).equals(&meet));
}

#[test]
fn split_range_matches_whole_curve() {
    let curve = seg(fp(0, 0), fp(1, 1), fp(2, 0));
    let t1 = Frac::new(1, 4);
    let t2 = Frac::new(3, 4);
    let sub = curve.split_range(&t1, &t2);
    assert!(sub.from().equals(&curve.sample(&t1)));
    assert!(sub.to().equals(&curve.sample(&t2)));
    // The midpoint of the sub-range corresponds to the midpoint parameter
    // of the whole curve.
    let mid = sub.sample(&Frac::new(1, 2));
    assert!(mid.equals(&curve.sample(&Frac::new(1, 2))));
}

#[test]
fn to_cubic_samples_agree() {
    let curve = seg(fp(0, 0), fp(1, 1), fp(2, 0));
    let cubic = curve.to_cubic();
    for (n, d) in [(0i64, 1i64), (1, 4), (1, 2), (3, 4), (1, 1)] {
        let t = Frac::new(n, d);
        let u = f(1).sub(&t);
        // Cubic Bernstein evaluation from the elevated control points.
        let b0 = u.mul(&u).mul(&u);
        let b1 = f(3).mul(&u).mul(&u).mul(&t);
        let b2 = f(3).mul(&u).mul(&t).mul(&t);
        let b3 = t.mul(&t).mul(&t);
        let cx = cubic.from.x.mul(&b0).add(&cubic.ctrl1.x.mul(&b1))
            .add(&cubic.ctrl2.x.mul(&b2)).add(&cubic.to.x.mul(&b3));
        let cy = cubic.from.y.mul(&b0).add(&cubic.ctrl1.y.mul(&b1))
            .add(&cubic.ctrl2.y.mul(&b2)).add(&cubic.to.y.mul(&b3));
        let p = curve.sample(&t);
        assert!(cx.equals(&p.x));
        assert!(cy.equals(&p.y));
    }
}

#[test]
fn bounding_rects_contain_samples() {
    let curve = seg(fp(0, 0), fp(1, 3), fp(4, -2));
    let tight = curve.bounding_rect();
    let fast = curve.fast_bounding_rect();
    let tight_max_x = tight.x.add(&tight.width);
    let tight_max_y = tight.y.add(&tight.height);
    let fast_max_x = fast.x.add(&fast.width);
    let fast_max_y = fast.y.add(&fast.height);
    // The tight rectangle is contained in the conservative one.
    assert!(fast.x.le(&tight.x) && fast.y.le(&tight.y));
    assert!(tight_max_x.le(&fast_max_x) && tight_max_y.le(&fast_max_y));
    for (n, d) in [(0i64, 1i64), (1, 5), (2, 5), (1, 2), (3, 5), (4, 5), (1, 1)] {
        let p = curve.sample(&Frac::new(n, d));
        assert!(tight.x.le(&p.x) && p.x.le(&tight_max_x));
        assert!(tight.y.le(&p.y) && p.y.le(&tight_max_y));
    }
}

#[test]
fn flattening_degenerate_curve_takes_one_step() {
    let curve = seg(fp(0, 0), fp(1, 0), fp(2, 0));
    let step = curve.flattening_step(&Frac::new(1, 100));
    assert!(step.equals(&f(1)));
}

#[test]
fn flattened_ends_at_the_end_point() {
    let curve = seg(fp(0, 0), fp(1, 1), fp(2, 0));
    let mut it = curve.flattened(&Frac::new(1, 10));
    let mut last = None;
    while let Some(p) = it.next() {
        last = Some(p);
    }
    let last = last.expect("the polyline has at least one vertex");
    assert!(last.equals(&curve.to()));
    let all = curve.flattened_for_each(&Frac::new(1, 10));
    assert!(!all.is_empty());
    assert!(all.last().unwrap().equals(&curve.to()));
}

#[test]
fn fat_line_coefficients() {
    let c1 = seg(fp(1, 2), fp(1, 3), fp(11, 12));
    let (l1, l2) = c1.fat_line();
    // Both lines are parallel to the baseline through (1, 2) and
    // (11, 12): a = -10, b = 10.
    assert!(l1.a.equals(&f(-10)) && l1.b.equals(&f(10)));
    assert!(l2.a.equals(&f(-10)) && l2.b.equals(&f(10)));
    // The control point (1, 3) evaluates to 10 under the baseline
    // equation `-10*x + 10*y - 10`, so the baseline comes first and the
    // offset by half that distance second.
    assert!(l1.c.equals(&f(-10)));
    assert!(l2.c.equals(&Frac::new(-30, 2)));
}

#[test]
fn transform_moves_control_points() {
    let curve = seg(fp(1, 2), fp(3, 4), fp(5, 6));
    // Scale x by 2 and translate by (1, -1).
    let m = Transform {
        m11: f(2),
        m12: f(0),
        m21: f(0),
        m22: f(1),
        m31: f(1),
        m32: f(-1),
    };
    let moved = curve.transform(&m);
    assert!(moved.from().equals(&fp(3, 1)));
    assert!(moved.to().equals(&fp(11, 5)));
    // Affine maps commute with sampling.
    let t = Frac::new(1, 2);
    let p = curve.sample(&t);
    let q = moved.sample(&t);
    assert!(q.x.equals(&p.x.mul(&f(2)).add(&f(1))));
    assert!(q.y.equals(&p.y.add(&f(-1))));
}

#[test]
fn flip_swaps_endpoints() {
    let curve = seg(fp(0, 0), fp(1, 1), fp(2, 0));
    let flipped = curve.flip();
    assert!(flipped.from().equals(&curve.to()));
    assert!(flipped.to().equals(&curve.from()));
    // Sampling the flip at 1 - t matches sampling the original at t.
    let a = flipped.sample(&Frac::new(1, 4));
    let b = curve.sample(&Frac::new(3, 4));
    assert!(a.equals(&b));
}

#[test]
fn baseline_and_bounding_triangle() {
    let curve = seg(fp(0, 0), fp(1, 1), fp(2, 0));
    let base = curve.baseline();
    assert!(base.from.equals(&curve.from()) && base.to.equals(&curve.to()));
    let tri = curve.bounding_triangle();
    assert!(tri.a.equals(&curve.from()));
    assert!(tri.b.equals(&fp(1, 1)));
    assert!(tri.c.equals(&curve.to()));
}
