use rayt::color::{byte, channel, hex_byte, hex_digit};
use rayt::float3::Float3;
use rayt::random::unit_interval;
use rayt::ray::Ray;
use rayt::scalar::Scalar;

fn s(x: f64) -> Scalar {
    Scalar::from_bits(x.to_bits())
}

fn f(x: Scalar) -> f64 {
    f64::from_bits(x.to_bits())
}

fn f3(x: f64, y: f64, z: f64) -> Float3 {
    Float3::new(s(x), s(y), s(z))
}

fn parts(v: Float3) -> [f64; 3] {
    v.to_array().map(f)
}

fn bits(v: Float3) -> [u64; 3] {
    v.to_array().map(|c| c.to_bits())
}

fn some_vector() -> [f64; 3] {
    let pick = |k: u32| match k % 8 {
        0 => rand::random::<f64>(),
        1 => rand::random::<f64>() * 200.0 - 100.0,
        2 => -rand::random::<f64>(),
        3 => (rand::random::<f64>() - 0.5) * 1e-3,
        4 => (rand::random::<f64>() - 0.5) * 1e9,
        5 => 0.0,
        6 => (rand::random::<u32>() % 7) as f64 - 3.0,
        _ => rand::random::<f64>() * 2.0 - 1.0,
    };
    [pick(rand::random()), pick(rand::random()), pick(rand::random())]
}

fn dot(a: [f64; 3], b: [f64; 3]) -> f64 {
    a.iter().zip(b.iter()).fold(0.0, |acc, (l, r)| acc + l * r)
}

#[test]
fn test_random() {
    for _ in 0..10 {
        println!("{:?}", Float3::random());
    }
}

#[test]
fn test_vector() {
    assert_eq!(f3(0.0, 0.0, 0.0), Float3::zero());
    assert_eq!(f3(1.0, 1.0, 1.0), Float3::one());
    assert_eq!(f3(5.0, 5.0, 5.0), Float3::full(s(5.0)));
    assert_eq!(f3(0.0, 1.0, 0.42), f3(-1.2, 3.4, 0.42).saturate());
    for _ in 0..100 {
        let rnd = Float3::random_full();
        assert_eq!(rnd.x(), rnd.y());
        assert_eq!(rnd.x(), rnd.z());
        let [x1, y1, z1] = parts(Float3::random());
        let [x2, y2, z2] = parts(Float3::random());
        let v1 = f3(x1, y1, z1);
        let v2 = f3(x2, y2, z2);
        assert_eq!(f3(-x1, -y1, -z1), -v1);
        assert_eq!(x1 * x1 + y1 * y1 + z1 * z1, f(v1.length_squared()));
        assert_eq!(x1 * x2 + y1 * y2 + z1 * z2, f(v1.dot(v2)));
        assert_eq!(x1 * x2 + y1 * y2 + z1 * z2, f(v2.dot(v1)));
        assert_eq!(f3(x1.sqrt(), y1.sqrt(), z1.sqrt()), v1.sqrt());
        assert_eq!(f3(x1 + x2, y1 + y2, z1 + z2), v1 + v2);
        assert_eq!(f3(x1 - x2, y1 - y2, z1 - z2), v1 - v2);
        assert_eq!(f3(x1 * x2, y1 * y2, z1 * z2), v1 * v2);
        assert_eq!(f3(x1 * x2, y1 * x2, z1 * x2), v1 * s(x2));
        assert_eq!(f3(x1 * x2, y1 * x2, z1 * x2), s(x2) * v1);
        assert_eq!(f3(x1 / x2, y1 / x2, z1 / x2), v1 / s(x2));
    }
}

#[test]
fn test_color() {
    assert_eq!(f3(1.0, 1.0, 0.0), Float3::from_hex(b"ffff00"));
    assert_eq!(f3(0.0, 128.0 / 255.0, 1.0), Float3::from_hex(b"0080ff"));
    assert_eq!(f3(0.0, 1.0, 1.0), Float3::from_rgb(0, 255, 255));
    assert_eq!(f3(12.0 / 255.0, 96.0 / 255.0, 183.0 / 255.0), Float3::from_rgb(12, 96, 183));
}

#[test]
fn constructors_and_getters() {
    let v = f3(1.5, -2.5, 3.25);
    assert_eq!(v.x().to_bits(), 1.5f64.to_bits());
    assert_eq!(v.y().to_bits(), (-2.5f64).to_bits());
    assert_eq!(v.z().to_bits(), 3.25f64.to_bits());
    assert_eq!(parts(v), [1.5, -2.5, 3.25]);
    assert_eq!(Float3::xaxis(), f3(1.0, 0.0, 0.0));
    assert_eq!(Float3::yaxis(), f3(0.0, 1.0, 0.0));
    assert_eq!(Float3::zaxis(), f3(0.0, 0.0, 1.0));
    assert_eq!(Float3::zero().x().to_bits(), 0);
}

#[test]
fn equality_is_by_value() {
    assert_eq!(f3(0.0, -0.0, 1.0), f3(-0.0, 0.0, 1.0));
    assert_ne!(f3(0.0, 0.0, 1.0), f3(0.0, 0.0, 2.0));
    assert_ne!(f3(f64::NAN, 0.0, 0.0), f3(f64::NAN, 0.0, 0.0));
}

#[test]
fn negation_is_by_component() {
    assert_eq!(bits(-f3(1.0, -2.0, 0.0)), [(-1.0f64).to_bits(), 2.0f64.to_bits(), (-0.0f64).to_bits()]);
}

#[test]
fn near_zero_tests_every_component() {
    let eps = s(1e-6);
    assert!(f3(0.0, 0.0, 0.0).near_zero(eps));
    assert!(f3(1e-7, -1e-7, 9.9e-7).near_zero(eps));
    assert!(!f3(1e-6, 0.0, 0.0).near_zero(eps));
    assert!(!f3(0.0, -1e-5, 0.0).near_zero(eps));
    assert!(!f3(0.0, 0.0, 0.1).near_zero(eps));
    assert!(!f3(f64::NAN, 0.0, 0.0).near_zero(eps));
}

#[test]
fn saturate_is_by_component() {
    assert_eq!(bits(f3(f64::NAN, -0.5, 0.999).saturate()), [1.0f64.to_bits(), 0, 0.999f64.to_bits()]);
}

#[test]
fn algebra_agrees_with_the_machine() {
    for _ in 0..2000 {
        let (a, b) = (some_vector(), some_vector());
        let (va, vb) = (f3(a[0], a[1], a[2]), f3(b[0], b[1], b[2]));
        let k = some_vector()[0];
        assert_eq!(f(va.dot(vb)).to_bits(), dot(a, b).to_bits());
        assert_eq!(f(va.length_squared()).to_bits(), dot(a, a).to_bits());
        assert_eq!(f(va.length()).to_bits(), dot(a, a).sqrt().to_bits());
        let cross = [a[1] * b[2] - a[2] * b[1], a[2] * b[0] - a[0] * b[2], a[0] * b[1] - a[1] * b[0]];
        assert_eq!(bits(va.cross(vb)), cross.map(f64::to_bits));
        let len = dot(a, a).sqrt();
        let unit = a.map(|x| x / len);
        if len > 0.0 {
            assert_eq!(bits(va.normalize()), unit.map(f64::to_bits));
        } else {
            assert!(parts(va.normalize()).iter().all(|x| x.is_nan()));
        }
        let d2 = 2.0 * dot(a, b);
        let reflected = [a[0] - b[0] * d2, a[1] - b[1] * d2, a[2] - b[2] * d2];
        assert_eq!(bits(va.reflect(vb)), reflected.map(f64::to_bits));
        let lerp = [a[0] + (b[0] - a[0]) * k, a[1] + (b[1] - a[1]) * k, a[2] + (b[2] - a[2]) * k];
        assert_eq!(bits(va.lerp(vb, s(k))), lerp.map(f64::to_bits));
        let ray = Ray::new(va, vb);
        let at = [a[0] + b[0] * k, a[1] + b[1] * k, a[2] + b[2] * k];
        assert_eq!(bits(ray.at(s(k))), at.map(f64::to_bits));
        let mut w = va;
        w.add_assign(vb);
        assert_eq!(bits(w), bits(va + vb));
        w.sub_assign(vb);
        assert_eq!(bits(w), bits(va + vb - vb));
        w.mul_assign(s(k));
        assert_eq!(bits(w), bits((va + vb - vb) * s(k)));
        w.div_assign(s(k));
        assert_eq!(bits(w), bits((va + vb - vb) * s(k) / s(k)));
    }
}

#[test]
fn the_dot_product_is_symmetric() {
    for _ in 0..2000 {
        let (a, b) = (some_vector(), some_vector());
        let (va, vb) = (f3(a[0], a[1], a[2]), f3(b[0], b[1], b[2]));
        assert_eq!(va.dot(vb).to_bits(), vb.dot(va).to_bits());
        assert_eq!(va.length_squared().to_bits(), va.dot(va).to_bits());
    }
    assert_eq!(f(f3(1.0, 2.0, 3.0).dot(f3(4.0, -5.0, 6.0))), 12.0);
    assert_eq!(f(f3(3.0, 4.0, 12.0).length()), 13.0);
    assert_eq!(parts(f3(1.0, 0.0, 0.0).cross(f3(0.0, 1.0, 0.0))), [0.0, 0.0, 1.0]);
    assert_eq!(parts(f3(3.0, 0.0, 4.0).normalize()), [0.6, 0.0, 0.8]);
    assert_eq!(parts(f3(1.0, -1.0, 0.0).reflect(f3(0.0, 1.0, 0.0))), [1.0, 1.0, 0.0]);
    assert_eq!(parts(f3(1.0, 2.0, 3.0).lerp(f3(3.0, 2.0, 1.0), s(0.5))), [2.0, 2.0, 2.0]);
}

#[test]
fn a_sum_less_a_term_is_near_the_other_term() {
    for _ in 0..2000 {
        let (a, b) = (some_vector(), some_vector());
        let back = parts(f3(a[0], a[1], a[2]) + f3(b[0], b[1], b[2]) - f3(b[0], b[1], b[2]));
        for i in 0..3 {
            assert!((back[i] - a[i]).abs() <= f64::EPSILON * (a[i].abs() + b[i].abs()), "{:?} {:?}", a, b);
        }
    }
}

#[test]
fn a_normalized_vector_has_length_one() {
    for _ in 0..2000 {
        let a = some_vector();
        let v = f3(a[0], a[1], a[2]);
        if f(v.length()) > 0.0 {
            assert!((f(v.normalize().length()) - 1.0).abs() < 4.0 * f64::EPSILON, "{:?}", a);
        }
    }
}

#[test]
fn reflecting_twice_keeps_the_normal_component() {
    for _ in 0..2000 {
        let a = some_vector();
        let v = f3(a[0], a[1], a[2]);
        let n = f3(rand::random::<f64>() - 0.5, rand::random::<f64>() - 0.5, rand::random::<f64>() - 0.5);
        if !(f(n.length()) > 0.0) {
            continue;
        }
        let n = n.normalize();
        let twice = f(v.reflect(n).reflect(n).dot(n));
        let once = f(v.dot(n));
        assert!((twice - once).abs() <= 64.0 * f64::EPSILON * f(v.length()), "{:?}", a);
    }
    let v = f3(1.0, -2.0, 3.0);
    let n = f3(0.0, 1.0, 0.0);
    assert_eq!(f(v.reflect(n).dot(n)), 2.0);
    assert_eq!(f(v.reflect(n).reflect(n).dot(n)), -2.0);
    assert_eq!(parts(v.reflect(n).reflect(n)), [1.0, -2.0, 3.0]);
}

#[test]
fn refraction_agrees_with_the_machine() {
    for _ in 0..2000 {
        let a = some_vector();
        let n = some_vector();
        let ni = rand::random::<f64>() * 2.0 + 0.25;
        let len = dot(a, a).sqrt();
        let uv = a.map(|x| x / len);
        let dt = dot(uv, n);
        let d = 1.0 - ni * ni * (1.0 - dt * dt);
        let got = f3(a[0], a[1], a[2]).refract(f3(n[0], n[1], n[2]), s(ni));
        if d > 0.0 {
            let root = d.sqrt();
            let want = [
                (uv[0] - n[0] * dt) * -ni - n[0] * root,
                (uv[1] - n[1] * dt) * -ni - n[1] * root,
                (uv[2] - n[2] * dt) * -ni - n[2] * root,
            ];
            assert_eq!(got.map(bits), Some(want.map(f64::to_bits)));
        } else {
            assert!(got.is_none());
        }
    }
    let straight = f3(0.0, -1.0, 0.0).refract(f3(0.0, 1.0, 0.0), s(1.0)).unwrap();
    assert_eq!(parts(straight), [0.0, -1.0, 0.0]);
    assert!(f3(1.0, -0.1, 0.0).refract(f3(0.0, 1.0, 0.0), s(1.5)).is_none());
    assert!(f3(0.0, 0.0, 0.0).refract(f3(0.0, 1.0, 0.0), s(1.5)).is_none());
}

#[test]
fn every_channel_byte_is_its_quotient_by_255() {
    for c in 0..=255u8 {
        assert_eq!(channel(c).to_bits(), (c as f64 / 255.0).to_bits(), "{}", c);
        assert_eq!(Scalar::from_u8(c).to_bits(), (c as f64).to_bits(), "{}", c);
    }
    assert_eq!(channel(0).to_bits(), 0);
    assert_eq!(channel(255).to_bits(), 1.0f64.to_bits());
    assert_eq!(channel(128).to_bits(), 0x3fe0_1010_1010_1010);
    assert_eq!(channel(1).to_bits(), 0x3f70_1010_1010_1010);
    assert_eq!(channel(254).to_bits(), 0x3fef_dfdf_dfdf_dfe0);
}

#[test]
fn a_cast_to_a_byte_cuts_off_and_saturates() {
    let mut v = vec![
        0.0, -0.0, 0.5, 0.999, 1.0, 1.5, 2.0, 127.5, 254.0, 254.999, 255.0, 255.5, 255.999, 256.0, 1e10, -1.0, -0.5,
        -1e10, f64::INFINITY, f64::NEG_INFINITY, f64::NAN, f64::MIN_POSITIVE, f64::from_bits(1), f64::MAX,
    ];
    for i in 0..=255 {
        v.push(i as f64);
        v.push(i as f64 + 0.999999);
        v.push(f64::from_bits((i as f64).to_bits().wrapping_sub(1)));
    }
    for _ in 0..5000 {
        v.push(rand::random::<f64>() * 300.0 - 20.0);
        v.push(f64::from_bits(rand::random::<u64>()));
    }
    for x in v {
        assert_eq!(s(x).to_u8(), x as u8, "{:e}", x);
    }
}

#[test]
fn a_colour_gives_its_bytes() {
    assert_eq!(f3(0.0, 0.5, 1.0).to_rgb(), [0, 127, 255]);
    assert_eq!(f3(-1.0, 2.0, f64::NAN).to_rgb(), [0, 255, 255]);
    assert_eq!(f3(0.25, 0.75, 0.999).to_rgb(), [63, 191, 255]);
    let c = f3(0.1, 0.2, 0.3);
    assert_eq!([c.r(), c.g(), c.b()], c.to_rgb());
    for _ in 0..5000 {
        let x = rand::random::<f64>() * 1.5 - 0.25;
        assert_eq!(byte(s(x)), (255.999 * x.min(1.0).max(0.0)) as u8, "{:e}", x);
    }
    for c in 0..=255u8 {
        assert_eq!(byte(channel(c)), c);
    }
}

#[test]
fn hex_digits_of_either_case() {
    assert_eq!(hex_digit(b'0'), Some(0));
    assert_eq!(hex_digit(b'9'), Some(9));
    assert_eq!(hex_digit(b'a'), Some(10));
    assert_eq!(hex_digit(b'f'), Some(15));
    assert_eq!(hex_digit(b'A'), Some(10));
    assert_eq!(hex_digit(b'F'), Some(15));
    for c in [b'g', b'G', b'/', b':', b'@', b'`', b' ', b'+', 0xff] {
        assert_eq!(hex_digit(c), None);
    }
}

#[test]
fn hex_bytes_agree_with_the_standard_parser() {
    for high in 0..=255u8 {
        for low in 0..=255u8 {
            let pair = [high, low];
            let want = match std::str::from_utf8(&pair) {
                Ok(text) => u8::from_str_radix(text, 16).ok(),
                Err(_) => None,
            };
            assert_eq!(hex_byte(high, low), want, "{:?}", pair);
        }
    }
    assert_eq!(hex_byte(b'8', b'0'), Some(128));
    assert_eq!(hex_byte(b'f', b'F'), Some(255));
    assert_eq!(hex_byte(b'+', b'f'), Some(15));
    assert_eq!(hex_byte(b'-', b'f'), None);
    assert_eq!(hex_byte(b'f', b'+'), None);
}

#[test]
fn parse_hex_refuses_what_is_no_colour() {
    assert_eq!(Float3::parse_hex(b"ffff00"), Some(f3(1.0, 1.0, 0.0)));
    assert_eq!(Float3::parse_hex(b"0080FF"), Some(f3(0.0, 128.0 / 255.0, 1.0)));
    assert_eq!(Float3::parse_hex(b"+1+2+3"), Some(f3(1.0 / 255.0, 2.0 / 255.0, 3.0 / 255.0)));
    for bad in [b"gg0000", b"00gg00", b"0000gg", b"#ffff0", b"ff ff0"] {
        assert_eq!(Float3::parse_hex(bad), None);
    }
    assert_eq!(Float3::parse_hex(&[0xc3, 0xa9, b'0', b'0', b'0', b'0']), None);
}

#[test]
fn a_word_stands_for_its_upper_53_bits() {
    let scale = 1.0 / (1u64 << 53) as f64;
    let mut words = vec![0u64, 1, 2047, 2048, 4096, 1 << 63, u64::MAX, u64::MAX - 2047, u64::MAX - 2048];
    for i in 0..64 {
        words.push(1u64 << i);
        words.push((1u64 << i).wrapping_sub(1));
        words.push(u64::MAX >> i);
    }
    for _ in 0..2000 {
        words.push(rand::random::<u64>());
    }
    for w in words {
        let want = scale * ((w >> 11) as f64);
        assert_eq!(unit_interval(w).to_bits(), want.to_bits(), "{:#x}", w);
        assert!(0.0 <= want && want < 1.0);
    }
    assert_eq!(unit_interval(0).to_bits(), 0);
    assert_eq!(unit_interval(1 << 63).to_bits(), 0.5f64.to_bits());
    assert_eq!(unit_interval(u64::MAX).to_bits(), (1.0 - f64::EPSILON / 2.0).to_bits());
    assert_eq!(unit_interval(1 << 11).to_bits(), (f64::EPSILON / 2.0).to_bits());
}

#[test]
fn draws_lie_in_the_unit_interval_and_differ() {
    let mut distinct = std::collections::HashSet::new();
    for _ in 0..1000 {
        for c in Float3::random().to_array() {
            let x = f(c);
            assert!(0.0 <= x && x < 1.0, "{:?}", x);
            distinct.insert(c.to_bits());
        }
    }
    assert!(distinct.len() > 2900);
}

#[test]
fn a_draw_is_stretched_to_its_interval() {
    let draw = f3(0.0, 0.25, 0.75);
    assert_eq!(parts(draw.limit(s(-1.0), s(1.0))), [-1.0, -0.5, 0.5]);
    assert_eq!(parts(draw.limit(s(0.5), s(1.0))), [0.5, 0.625, 0.875]);
    for _ in 0..1000 {
        for x in parts(Float3::random_limit(s(0.5), s(1.0))) {
            assert!(0.5 <= x && x < 1.0);
        }
        for x in parts(Float3::random_limit(s(-1.0), s(1.0))) {
            assert!(-1.0 <= x && x < 1.0);
        }
    }
}

#[test]
fn rejection_keeps_what_lies_inside() {
    assert_eq!(f3(0.5, -0.5, 0.5).in_unit_sphere().map(parts), Some([0.5, -0.5, 0.5]));
    assert_eq!(f3(0.0, 0.0, 0.0).in_unit_sphere().map(parts), Some([0.0, 0.0, 0.0]));
    assert_eq!(f3(1.0, 0.0, 0.0).in_unit_sphere().map(parts), None);
    assert_eq!(f3(0.6, 0.6, 0.6).in_unit_sphere().map(parts), None);
    assert_eq!(f3(f64::NAN, 0.0, 0.0).in_unit_sphere().map(parts), None);
    assert_eq!(f3(0.5, -0.5, 0.9).in_unit_disk().map(bits), Some([0.5f64.to_bits(), (-0.5f64).to_bits(), 0]));
    assert_eq!(f3(0.8, 0.8, 0.0).in_unit_disk().map(parts), None);
    let mut seen = std::collections::HashSet::new();
    for _ in 0..2000 {
        let p = Float3::random_in_unit_sphere();
        assert!(f(p.length_squared()) < 1.0);
        seen.insert(bits(p));
        let p = Float3::random_in_unit_disk();
        assert_eq!(p.z().to_bits(), 0);
        assert!(f(p.length_squared()) < 1.0);
        let len = f(Float3::random_unit_vector().length());
        assert!((len - 1.0).abs() < 4.0 * f64::EPSILON);
        assert!(f(Float3::random_in_hemisphere(f3(0.0, 1.0, 0.0)).y()) >= 0.0);
        assert!(f(Float3::random_in_hemisphere(f3(0.0, -1.0, 0.0)).y()) <= 0.0);
    }
    assert!(seen.len() > 1990);
}

#[test]
fn the_hemisphere_turns_a_point_towards_the_normal() {
    let n = f3(0.0, 1.0, 0.0);
    assert_eq!(parts(f3(0.1, 0.2, 0.3).in_hemisphere(n)), [0.1, 0.2, 0.3]);
    assert_eq!(parts(f3(0.1, -0.2, 0.3).in_hemisphere(n)), [-0.1, 0.2, -0.3]);
    assert_eq!(bits(f3(0.1, 0.0, 0.3).in_hemisphere(n)), [(-0.1f64).to_bits(), (-0.0f64).to_bits(), (-0.3f64).to_bits()]);
}

#[test]
fn a_direction_weighted_by_the_cosine() {
    for _ in 0..1000 {
        let draw = Float3::random();
        let [r1, r2, _] = parts(draw);
        let phase = std::f64::consts::PI * 2.0 * r1;
        assert_eq!(f(draw.cosine_phase()).to_bits(), phase.to_bits());
        let (x, y) = phase.sin_cos();
        let want = [x * r2.sqrt(), y * r2.sqrt(), (1.0 - r2).sqrt()];
        let got = draw.cosine_direction(s(x), s(y));
        assert_eq!(bits(got), want.map(f64::to_bits));
        assert!((f(got.length()) - 1.0).abs() < 1e-12);
        assert!(f(got.z()) >= 0.0);
    }
    assert_eq!(parts(f3(0.25, 0.0, 0.0).cosine_direction(s(1.0), s(0.0))), [0.0, 0.0, 1.0]);
    assert_eq!(parts(f3(0.0, 1.0, 0.0).cosine_direction(s(0.0), s(1.0))), [0.0, 1.0, 0.0]);
}

fn powf(x: Scalar, e: Scalar) -> Scalar {
    s(f(x).powf(f(e)))
}

#[test]
fn gamma_raises_every_channel() {
    let c = f3(0.25, 0.5, 1.0);
    assert_eq!(parts(c.degamma(s(2.0), &powf)), [0.0625, 0.25, 1.0]);
    assert_eq!(parts(c.gamma(s(2.0), &powf)), [0.5, 0.5f64.powf(0.5), 1.0]);
    assert_eq!(parts(c.gamma(s(0.5), &powf)), [0.0625, 0.25, 1.0]);
    for _ in 0..1000 {
        let a = [rand::random::<f64>(), rand::random::<f64>(), rand::random::<f64>()];
        let want = a.map(|x| x.powf(1.0 / 2.2));
        assert_eq!(bits(f3(a[0], a[1], a[2]).gamma(s(2.2), &powf)), want.map(f64::to_bits));
        let want = a.map(|x| x.powf(2.2));
        assert_eq!(bits(f3(a[0], a[1], a[2]).degamma(s(2.2), &powf)), want.map(f64::to_bits));
    }
}

#[test]
fn cosine_directions_lie_on_the_upper_hemisphere() {
    let sin = |x: Scalar| s(f(x).sin());
    let cos = |x: Scalar| s(f(x).cos());
    let mut sum = 0.0;
    for _ in 0..2000 {
        let v = Float3::random_cosine_direction(&sin, &cos);
        assert!((f(v.length()) - 1.0).abs() < 1e-12);
        assert!(f(v.z()) >= 0.0);
        sum += f(v.z());
    }
    assert!((sum / 2000.0 - 2.0 / 3.0).abs() < 0.05);
}
