use raytracer::intersection::consuming_hit;
use raytracer::intersection::hit;
use raytracer::intersection::sort_by_t;
use raytracer::intersection::Intersection;

/// Order key of a float ray parameter: strictly increasing, and
/// non-negative exactly for non-negative parameters.  This is the same
/// encoding the scalar side of the renderer uses.
fn t_key(t: f64) -> i64 {
    let t = if t == 0.0 { 0.0 } else { t };
    let bits = t.to_bits() as i64;
    bits ^ ((bits >> 63) & 0x7FFF_FFFF_FFFF_FFFF)
}

#[test]
fn intersection() {
    let so: usize = 0;
    let i = Intersection::new(t_key(3.5), so);
    assert_eq!(i.t, t_key(3.5));
    assert_eq!(i.object, so);
}

#[test]
fn intersections() {
    let so: usize = 0;
    let i1 = Intersection::new(t_key(1.), so);
    let i2 = Intersection::new(t_key(2.), so);
    let xs = vec![i1, i2];
    assert_eq!(xs.len(), 2);
    assert_eq!(xs[0].t, t_key(1.));
    assert_eq!(xs[1].t, t_key(2.));
}

#[test]
fn t_key_orders_like_the_floats() {
    let samples = [-7.25, -1.0, -0.5, -0.0, 0.0, 0.25, 1.0, 2.0, 3.5, 1e9];
    for &a in samples.iter() {
        for &b in samples.iter() {
            assert_eq!(t_key(a) < t_key(b), a < b, "ordering of {a} and {b}");
        }
        assert_eq!(t_key(a) >= 0, a >= 0.0, "sign of {a}");
    }
}

#[test]
fn refraction_intersections() {
    // Three overlapping glass spheres, their scene indices standing for
    // refractive indices 1.5, 2.0 and 2.5; vacuum (refractive index 1.0)
    // is the absent container.
    let a: usize = 0;
    let b: usize = 1;
    let c: usize = 2;
    let refractive_index = |o: Option<usize>| -> f64 {
        match o {
            None => 1.0,
            Some(0) => 1.5,
            Some(1) => 2.0,
            Some(2) => 2.5,
            Some(_) => unreachable!(),
        }
    };

    let intersections = vec![
        Intersection::new(t_key(2.0), a),
        Intersection::new(t_key(2.75), b),
        Intersection::new(t_key(3.25), c),
        Intersection::new(t_key(4.75), b),
        Intersection::new(t_key(5.25), c),
        Intersection::new(t_key(6.0), a),
    ];

    let expected = [
        (1.0, 1.5),
        (1.5, 2.0),
        (2.0, 2.5),
        (2.5, 2.5),
        (2.5, 1.5),
        (1.5, 1.0),
    ];
    for (index, &(n1, n2)) in expected.iter().enumerate() {
        let (o1, o2) = intersections[index].compute_n1_n2(&intersections);
        assert_eq!(refractive_index(o1), n1, "n1 at index {index}");
        assert_eq!(refractive_index(o2), n2, "n2 at index {index}");
    }
}

#[test]
fn intersection_positive_t() {
    let so: usize = 0;
    let i1 = Intersection::new(t_key(1.), so);
    let i2 = Intersection::new(t_key(2.), so);
    let mut xs = vec![i1, i2];
    let i = consuming_hit(&mut xs).unwrap();
    assert_eq!(i, i1);
    assert!(xs.is_empty());
}

#[test]
fn intersection_some_negative_t() {
    let so: usize = 0;
    let i1 = Intersection::new(t_key(-1.), so);
    let i2 = Intersection::new(t_key(1.), so);
    let mut xs = vec![i1, i2];
    let i = consuming_hit(&mut xs).unwrap();
    assert_eq!(i, i2);
}

#[test]
fn intersection_negative_t() {
    let so: usize = 0;
    let i1 = Intersection::new(t_key(-2.), so);
    let i2 = Intersection::new(t_key(-1.), so);
    let mut xs = vec![i1, i2];
    let i = consuming_hit(&mut xs);
    assert!(i.is_none());
}

#[test]
fn intersection_lowest_nonnegative() {
    let so: usize = 0;
    let i1 = Intersection::new(t_key(5.), so);
    let i2 = Intersection::new(t_key(7.), so);
    let i3 = Intersection::new(t_key(-3.), so);
    let i4 = Intersection::new(t_key(2.), so);
    let mut xs = vec![i1, i2, i3, i4];
    let i = consuming_hit(&mut xs).unwrap();
    assert_eq!(i, i4);
}

#[test]
fn non_consuming_positive_t() {
    let so: usize = 0;
    let i1 = Intersection::new(t_key(1.), so);
    let i2 = Intersection::new(t_key(2.), so);
    let xs = vec![i1, i2];
    let i = hit(&xs).unwrap();
    assert_eq!(i, i1);
    assert_eq!(xs.len(), 2);
}

#[test]
fn non_consuming_some_negative_t() {
    let so: usize = 0;
    let i1 = Intersection::new(t_key(-1.), so);
    let i2 = Intersection::new(t_key(1.), so);
    let xs = vec![i1, i2];
    let i = hit(&xs).unwrap();
    assert_eq!(i, i2);
}

#[test]
fn non_consuming_negative_t() {
    let so: usize = 0;
    let i1 = Intersection::new(t_key(-2.), so);
    let i2 = Intersection::new(t_key(-1.), so);
    let xs = vec![i1, i2];
    let i = hit(&xs);
    assert!(i.is_none());
}

#[test]
fn non_consuming_lowest_nonnegative() {
    let so: usize = 0;
    let i1 = Intersection::new(t_key(5.), so);
    let i2 = Intersection::new(t_key(7.), so);
    let i3 = Intersection::new(t_key(-3.), so);
    let i4 = Intersection::new(t_key(2.), so);
    let xs = vec![i1, i2, i3, i4];
    let i = hit(&xs).unwrap();
    assert_eq!(i, i4);
}

#[test]
fn hit_on_empty_list() {
    let xs: Vec<Intersection> = Vec::new();
    assert!(hit(&xs).is_none());
    let mut xs: Vec<Intersection> = Vec::new();
    assert!(consuming_hit(&mut xs).is_none());
}

#[test]
fn hit_tie_breaking() {
    // On an exact tie the non-consuming hit keeps the earliest listed
    // intersection, the consuming one the latest.
    let first = Intersection::new(t_key(2.), 0);
    let second = Intersection::new(t_key(2.), 1);
    let xs = vec![first, second];
    assert_eq!(hit(&xs).unwrap(), first);
    let mut xs = vec![first, second];
    assert_eq!(consuming_hit(&mut xs).unwrap(), second);
}

#[test]
fn sorting_leaves_the_hit_distance_unchanged() {
    let mut xs = vec![
        Intersection::new(t_key(5.), 0),
        Intersection::new(t_key(-3.), 1),
        Intersection::new(t_key(2.), 2),
        Intersection::new(t_key(7.), 3),
    ];
    let before = hit(&xs).unwrap();
    sort_by_t(&mut xs);
    let after = hit(&xs).unwrap();
    assert_eq!(before.t, after.t);
    assert_eq!(before.t, t_key(2.));
}

#[test]
fn sort_orders_by_t() {
    let mut xs = vec![
        Intersection::new(t_key(5.), 0),
        Intersection::new(t_key(-3.), 1),
        Intersection::new(t_key(2.), 2),
        Intersection::new(t_key(2.), 3),
        Intersection::new(t_key(7.), 4),
    ];
    sort_by_t(&mut xs);
    let ts: Vec<i64> = xs.iter().map(|i| i.t).collect();
    assert_eq!(
        ts,
        vec![t_key(-3.), t_key(2.), t_key(2.), t_key(5.), t_key(7.)]
    );
    let mut objects: Vec<usize> = xs.iter().map(|i| i.object).collect();
    objects.sort();
    assert_eq!(objects, vec![0, 1, 2, 3, 4]);
}
