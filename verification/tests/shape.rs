use rayt::float3::Float3;
use rayt::ray::Ray;
use rayt::scalar::Scalar;
use rayt::shape::{Crossing, HitInfo, ShapeList, Sphere};

fn s(x: f64) -> Scalar {
    Scalar::from_bits(x.to_bits())
}

fn f(x: Scalar) -> f64 {
    f64::from_bits(x.to_bits())
}

fn f3(a: [f64; 3]) -> Float3 {
    Float3::new(s(a[0]), s(a[1]), s(a[2]))
}

fn parts(v: Float3) -> [f64; 3] {
    v.to_array().map(f)
}

fn dot(a: [f64; 3], b: [f64; 3]) -> f64 {
    a.iter().zip(b.iter()).fold(0.0, |acc, (l, r)| acc + l * r)
}

fn sub(a: [f64; 3], b: [f64; 3]) -> [f64; 3] {
    [a[0] - b[0], a[1] - b[1], a[2] - b[2]]
}

fn ray(origin: [f64; 3], direction: [f64; 3]) -> Ray {
    Ray::new(f3(origin), f3(direction))
}

fn sphere(center: [f64; 3], radius: f64, material: usize) -> Sphere {
    Sphere::new(f3(center), s(radius), material)
}

/// The hit as the machine's own arithmetic gives it: the parameter, the
/// point and the normal.
fn machine_hit(o: [f64; 3], d: [f64; 3], c: [f64; 3], r: f64, t0: f64, t1: f64) -> Option<[[f64; 3]; 3]> {
    let oc = sub(o, c);
    let a = dot(d, d);
    let b = 2.0 * dot(d, oc);
    let cc = dot(oc, oc) - r * r;
    let disc = b * b - 4.0 * a * cc;
    if disc > 0.0 {
        let root = disc.sqrt();
        for temp in [(-b - root) / (2.0 * a), (-b + root) / (2.0 * a)] {
            if t0 < temp && temp < t1 {
                let p = [o[0] + d[0] * temp, o[1] + d[1] * temp, o[2] + d[2] * temp];
                let n = sub(p, c).map(|x| x / r);
                return Some([[temp, 0.0, 0.0], p, n]);
            }
        }
    }
    None
}

fn library_hit(h: Option<HitInfo>) -> Option<[[f64; 3]; 3]> {
    h.map(|h| {
        assert_eq!(h.u.to_bits(), 0);
        assert_eq!(h.v.to_bits(), 0);
        [[f(h.t), 0.0, 0.0], parts(h.p), parts(h.n)]
    })
}

fn some(scale: f64) -> [f64; 3] {
    [
        (rand::random::<f64>() - 0.5) * scale,
        (rand::random::<f64>() - 0.5) * scale,
        (rand::random::<f64>() - 0.5) * scale,
    ]
}

#[test]
fn new_puts_the_smaller_root_first() {
    let c = Crossing::new(s(4.0), s(1.0), s(3.0));
    assert_eq!((f(c.discriminant()), f(c.near()), f(c.far())), (4.0, 1.0, 3.0));
    let c = Crossing::new(s(4.0), s(3.0), s(1.0));
    assert_eq!((f(c.near()), f(c.far())), (1.0, 3.0));
    let c = Crossing::new(s(4.0), s(f64::NAN), s(1.0));
    assert!(f(c.near()).is_nan());
    assert_eq!(f(c.far()), 1.0);
}

#[test]
fn hit_prefers_the_smaller_root() {
    let c = Crossing::new(s(1.0), s(2.0), s(5.0));
    assert_eq!(c.hit(s(0.0), s(10.0)).map(f), Some(2.0));
    assert_eq!(c.hit(s(2.0), s(10.0)).map(f), Some(5.0));
    assert_eq!(c.hit(s(3.0), s(10.0)).map(f), Some(5.0));
    assert_eq!(c.hit(s(0.0), s(2.0)).map(f), None);
    assert_eq!(c.hit(s(5.0), s(10.0)).map(f), None);
    assert_eq!(c.hit(s(2.5), s(4.5)).map(f), None);
    assert_eq!(c.hit(s(10.0), s(0.0)).map(f), None);
    assert_eq!(c.hit(s(f64::NAN), s(10.0)).map(f), None);
    assert_eq!(c.hit(s(0.0), s(f64::NAN)).map(f), None);
}

#[test]
fn hit_needs_a_positive_discriminant() {
    assert_eq!(Crossing::new(s(0.0), s(2.0), s(2.0)).hit(s(0.0), s(10.0)).map(f), None);
    assert_eq!(Crossing::new(s(-1.0), s(2.0), s(5.0)).hit(s(0.0), s(10.0)).map(f), None);
    assert_eq!(Crossing::new(s(f64::NAN), s(2.0), s(5.0)).hit(s(0.0), s(10.0)).map(f), None);
    assert_eq!(Crossing::new(s(f64::from_bits(1)), s(2.0), s(5.0)).hit(s(0.0), s(10.0)).map(f), Some(2.0));
}

#[test]
fn the_quadratic_of_a_ray_and_a_sphere() {
    let c = sphere([0.0, 0.0, 0.0], 1.0, 0).crossing(&ray([0.0, 0.0, 5.0], [0.0, 0.0, -1.0]));
    assert_eq!((f(c.discriminant()), f(c.near()), f(c.far())), (4.0, 4.0, 6.0));
    let c = sphere([0.0, 0.0, 0.0], 2.0, 0).crossing(&ray([0.0, 0.0, 0.0], [0.0, 0.0, 1.0]));
    assert_eq!((f(c.discriminant()), f(c.near()), f(c.far())), (16.0, -2.0, 2.0));
    let c = sphere([3.0, 0.0, 0.0], 1.0, 0).crossing(&ray([0.0, 0.0, 5.0], [0.0, 0.0, -1.0]));
    assert!(f(c.discriminant()) < 0.0);
}

#[test]
fn a_sphere_is_hit_as_the_machine_computes_it() {
    let (mut hits, mut misses) = (0, 0);
    for _ in 0..3000 {
        let (o, c) = (some(10.0), some(10.0));
        let d = if rand::random::<bool>() { sub(c, o) } else { some(2.0) };
        let r = rand::random::<f64>() * 4.0 + 0.1;
        let (t0, t1) = if rand::random::<bool>() { (0.001, f64::MAX) } else { (rand::random::<f64>(), 3.0) };
        let want = machine_hit(o, d, c, r, t0, t1);
        let got = library_hit(sphere(c, r, 7).hit(&ray(o, d), s(t0), s(t1)));
        assert_eq!(got.map(|h| h.map(|v| v.map(f64::to_bits))), want.map(|h| h.map(|v| v.map(f64::to_bits))));
        if want.is_some() {
            hits += 1;
        } else {
            misses += 1;
        }
    }
    assert!(hits > 300 && misses > 300);
    let h = sphere([0.0, 0.0, 0.0], 1.0, 7).hit(&ray([0.0, 0.0, 5.0], [0.0, 0.0, -1.0]), s(0.001), s(f64::MAX)).unwrap();
    assert_eq!((f(h.t), parts(h.p), parts(h.n), h.m), (4.0, [0.0, 0.0, 1.0], [0.0, 0.0, 1.0], 7));
}

#[test]
fn a_ray_from_inside_hits_the_far_side() {
    let h = sphere([0.0, 0.0, 0.0], 2.0, 0).hit(&ray([0.0, 0.0, 0.0], [0.0, 0.0, 1.0]), s(0.001), s(f64::MAX)).unwrap();
    assert_eq!((f(h.t), parts(h.p), parts(h.n)), (2.0, [0.0, 0.0, 2.0], [0.0, 0.0, 1.0]));
}

#[test]
fn a_ray_aimed_at_the_centre_hits_at_the_distance_less_the_radius() {
    let cases: [([f64; 3], [f64; 3], f64); 4] = [
        ([0.0, 0.0, 5.0], [0.0, 0.0, 0.0], 1.0),
        ([3.0, 4.0, 0.0], [0.0, 0.0, 0.0], 2.5),
        ([1.0, 2.0, 3.0], [-4.0, 6.0, -1.0], 0.5),
        ([13.0, 2.0, 3.0], [0.0, -1000.0, 0.0], 1000.0),
    ];
    for (origin, center, radius) in cases {
        let to_center = sub(center, origin);
        let distance = dot(to_center, to_center).sqrt();
        let direction = to_center.map(|x| x / distance);
        let h = sphere(center, radius, 0).hit(&ray(origin, direction), s(0.001), s(f64::MAX)).unwrap();
        assert!((f(h.t) - (distance - radius)).abs() < 1e-9 * distance);
        assert!((f(h.n.length()) - 1.0).abs() < 1e-9);
        let away = direction.map(|x| -x);
        assert!(sphere(center, radius, 0).hit(&ray(origin, away), s(0.001), s(f64::MAX)).is_none());
    }
    let h = sphere([0.0, 0.0, 0.0], 1.0, 0).hit(&ray([0.0, 0.0, 5.0], [0.0, 0.0, -2.0]), s(0.001), s(f64::MAX));
    assert_eq!(h.map(|h| f(h.t)), Some(2.0));
}

#[test]
fn a_ray_without_a_direction_hits_nothing() {
    let ball = sphere([0.0, 0.0, 0.0], 1.0, 0);
    assert!(ball.hit(&ray([0.0, 0.0, 5.0], [0.0, 0.0, 0.0]), s(0.001), s(f64::MAX)).is_none());
    assert!(ball.hit(&ray([0.0, 0.0, 0.0], [0.0, 0.0, 0.0]), s(0.001), s(f64::MAX)).is_none());
    assert!(ball.hit(&ray([0.0, 0.0, 5.0], [f64::NAN, 0.0, -1.0]), s(0.001), s(f64::MAX)).is_none());
    assert!(ball.hit(&ray([0.0, 0.0, 5.0], [0.0, 0.0, f64::NEG_INFINITY]), s(0.001), s(f64::MAX)).is_none());
}

#[test]
fn an_empty_list_is_missed() {
    let list = ShapeList::new();
    assert_eq!(list.objects.len(), 0);
    assert!(list.hit(&ray([0.0, 0.0, 5.0], [0.0, 0.0, -1.0]), s(0.001), s(f64::MAX)).is_none());
}

#[test]
fn push_appends() {
    let mut list = ShapeList::new();
    list.push(sphere([0.0, 0.0, 0.0], 1.0, 3));
    list.push(sphere([0.0, 0.0, 4.0], 1.5, 4));
    assert_eq!(list.objects.len(), 2);
    assert_eq!(list.objects[0].material, 3);
    assert_eq!(f(list.objects[1].radius), 1.5);
    assert_eq!(parts(list.objects[1].center), [0.0, 0.0, 4.0]);
}

#[test]
fn the_list_returns_the_hit_of_the_nearest_sphere() {
    let r = ray([0.0, 0.0, 10.0], [0.0, 0.0, -1.0]);
    let spheres = [
        sphere([0.0, 0.0, -6.0], 1.0, 0),
        sphere([0.0, 0.0, 0.0], 1.0, 1),
        sphere([5.0, 0.0, 3.0], 1.0, 2),
        sphere([0.0, 0.0, 4.0], 1.5, 3),
        sphere([0.0, 0.0, 20.0], 2.0, 4),
    ];
    let mut list = ShapeList::new();
    let mut alone = Vec::new();
    for sp in spheres {
        alone.push(sp.hit(&r, s(0.001), s(f64::MAX)).map(|h| f(h.t)));
        list.push(sp);
    }
    assert_eq!(alone, vec![Some(15.0), Some(9.0), None, Some(4.5), None]);
    let hit = list.hit(&r, s(0.001), s(f64::MAX)).unwrap();
    assert_eq!((hit.m, f(hit.t), parts(hit.p), parts(hit.n)), (3, 4.5, [0.0, 0.0, 5.5], [0.0, 0.0, 1.0]));
    for t in alone.iter().flatten() {
        assert!(f(hit.t) <= *t);
    }
    let at = |t0: f64, t1: f64| list.hit(&r, s(t0), s(t1)).map(|h| (h.m, f(h.t)));
    assert_eq!(at(5.0, f64::MAX), Some((3, 7.5)));
    assert_eq!(at(8.0, f64::MAX), Some((1, 9.0)));
    assert_eq!(at(11.0, 16.0), Some((0, 15.0)));
    assert_eq!(at(17.0, f64::MAX), None);
    assert_eq!(at(0.001, 4.5), None);
}

#[test]
fn the_list_agrees_with_the_least_of_its_members() {
    for _ in 0..300 {
        let mut list = ShapeList::new();
        let n = rand::random::<usize>() % 12;
        for m in 0..n {
            list.push(sphere(some(20.0), rand::random::<f64>() * 3.0 + 0.1, m));
        }
        let r = ray(some(20.0), some(2.0));
        let mut least: Option<HitInfo> = None;
        for sp in &list.objects {
            if let Some(h) = sp.hit(&r, s(0.001), s(f64::MAX)) {
                if least.map_or(true, |l| f(h.t) < f(l.t)) {
                    least = Some(h);
                }
            }
        }
        let got = list.hit(&r, s(0.001), s(f64::MAX));
        assert_eq!(got.map(|h| (h.m, h.t.to_bits())), least.map(|h| (h.m, h.t.to_bits())));
        assert_eq!(library_hit(got), library_hit(least));
    }
}

#[test]
fn the_order_of_the_members_does_not_change_the_hit() {
    let r = ray([0.0, 0.0, 10.0], [0.0, 0.0, -1.0]);
    let spheres = [
        sphere([0.0, 0.0, -6.0], 1.0, 0),
        sphere([0.0, 0.0, 0.0], 1.0, 1),
        sphere([5.0, 0.0, 3.0], 1.0, 2),
        sphere([0.0, 0.0, 4.0], 1.5, 3),
        sphere([0.0, 0.0, 20.0], 2.0, 4),
    ];
    for order in [[0, 1, 2, 3, 4], [4, 3, 2, 1, 0], [1, 0, 3, 2, 4], [3, 4, 0, 1, 2]] {
        let mut list = ShapeList::new();
        for i in order {
            list.push(spheres[i]);
        }
        let hit = list.hit(&r, s(0.001), s(f64::MAX)).unwrap();
        assert_eq!((hit.m, f(hit.t)), (3, 4.5));
    }
}

#[test]
fn the_earliest_member_wins_where_two_are_level() {
    let r = ray([0.0, 0.0, 10.0], [0.0, 0.0, -1.0]);
    let mut list = ShapeList::new();
    list.push(sphere([0.0, 0.0, -3.0], 1.0, 0));
    list.push(sphere([0.0, 0.0, 2.0], 1.0, 1));
    list.push(sphere([0.0, 0.0, 2.0], 1.0, 2));
    list.push(sphere([0.0, 0.0, 1.0], 2.0, 3));
    let hit = list.hit(&r, s(0.001), s(f64::MAX)).unwrap();
    assert_eq!((hit.m, f(hit.t)), (1, 7.0));
}

#[test]
fn hit_info_keeps_what_it_is_given() {
    let p = f3([1.0, 2.0, 3.0]);
    let n = f3([0.0, 1.0, 0.0]);
    let hit = HitInfo::new(s(4.5), p, n, 7, s(0.25), s(0.75));
    assert_eq!((f(hit.t), parts(hit.p), parts(hit.n), hit.m, f(hit.u), f(hit.v)), (4.5, [1.0, 2.0, 3.0], [0.0, 1.0, 0.0], 7, 0.25, 0.75));
}
