use raytracer::fixed::{self, LIMIT, ONE};
use raytracer::object::{Mesh, Object, Plane, Sphere};
use raytracer::color::Color;
use raytracer::material::{Coloring, Material, SurfaceKind};
use raytracer::render::Ray;
use raytracer::vector::{Vector2, Vector3};

fn ray(o: (i64, i64, i64), d: (i64, i64, i64)) -> Ray {
    Ray { origin: Vector3::new(o.0, o.1, o.2), direction: Vector3::new(d.0, d.1, d.2) }
}

#[test]
fn sphere_ahead_is_hit_at_its_near_side() {
    let s = Sphere { center: Vector3::new(0, 0, -5 * ONE), radius: ONE };
    assert_eq!(s.intersect_distance(&ray((0, 0, 0), (0, 0, -ONE))), Some(4 * ONE));
}

#[test]
fn ray_aimed_away_misses_sphere() {
    let s = Sphere { center: Vector3::new(0, 0, -5 * ONE), radius: ONE };
    assert_eq!(s.intersect_distance(&ray((0, 0, 0), (0, 0, ONE))), None);
    assert_eq!(s.intersect_distance(&ray((0, 0, 0), (ONE, 0, 0))), None);
}

#[test]
fn distant_sphere_off_the_ray_is_missed() {
    let s = Sphere { center: Vector3::new(100 * ONE, 0, -5000 * ONE), radius: ONE };
    assert_eq!(s.intersect_distance(&ray((0, 0, 0), (0, 0, -ONE))), None);
    let on_axis = Sphere { center: Vector3::new(0, 0, -5000 * ONE), radius: ONE };
    assert_eq!(on_axis.intersect_distance(&ray((0, 0, 0), (0, 0, -ONE))), Some(4999 * ONE));
}

#[test]
fn plane_hit_ignores_normal_sign() {
    let n = Vector3::new(0, 39322, 52429);
    let p = Plane { normal: n, origin: Vector3::new(0, 0, -12 * ONE) };
    let q = Plane { normal: n.neg(), origin: Vector3::new(0, 0, -12 * ONE) };
    let r = ray((0, 0, 0), (0, 18350, -62915));
    assert!(p.intersect_distance(&r).is_some());
    assert_eq!(p.intersect_distance(&r), q.intersect_distance(&r));
    let facing = Plane { normal: Vector3::new(0, 0, ONE), origin: Vector3::new(0, 0, -12 * ONE) };
    assert_eq!(facing.intersect_distance(&ray((0, 0, 0), (0, 0, -ONE))), Some(12 * ONE));
}

#[test]
fn ray_from_inside_sphere_hits_far_side() {
    let s = Sphere { center: Vector3::zero(), radius: ONE };
    assert_eq!(s.intersect_distance(&ray((0, 0, 0), (0, 0, -ONE))), Some(ONE));
}

#[test]
fn plane_parallel_ray_misses() {
    let p = Plane { normal: Vector3::new(0, -ONE, 0), origin: Vector3::new(0, -3 * ONE, 0) };
    for o in [(0, 0, 0), (0, -3 * ONE, 0), (5 * ONE, -7 * ONE, 2 * ONE)] {
        assert_eq!(p.intersect_distance(&ray(o, (ONE, 0, 0))), None);
        assert_eq!(p.intersect_distance(&ray(o, (0, 0, -ONE))), None);
    }
}

#[test]
fn plane_below_is_hit() {
    let p = Plane { normal: Vector3::new(0, -ONE, 0), origin: Vector3::new(0, -3 * ONE, 0) };
    assert_eq!(p.intersect_distance(&ray((0, 0, 0), (0, -ONE, 0))), Some(3 * ONE));
    // Facing the other way, and behind the ray.
    assert_eq!(p.intersect_distance(&ray((0, 0, 0), (0, ONE, 0))), None);
    let q = Plane { normal: Vector3::new(0, ONE, 0), origin: Vector3::new(0, -3 * ONE, 0) };
    assert_eq!(q.intersect_distance(&ray((0, 0, 0), (0, -ONE, 0))), Some(3 * ONE));
}

#[test]
fn plane_normal_and_texture_coords() {
    let p = Plane { normal: Vector3::new(0, -ONE, 0), origin: Vector3::new(0, -3 * ONE, 0) };
    let hit = Vector3::new(2 * ONE, -3 * ONE, 5 * ONE);
    assert_eq!(p.surface_normal(hit), Vector3::new(0, ONE, 0));
    assert_eq!(p.texture_coords(hit), Vector2::new(5 * ONE, -2 * ONE));
}

#[test]
fn sphere_normal_and_texture_coords() {
    let s = Sphere { center: Vector3::new(0, 0, -5 * ONE), radius: 2 * ONE };
    let hit = Vector3::new(2 * ONE, 0, -5 * ONE);
    assert_eq!(s.surface_normal(hit), Vector3::new(ONE, 0, 0));
    assert_eq!(s.texture_coords(hit), Vector2::new(ONE / 2, ONE / 2));
    let top = Vector3::new(0, 2 * ONE, -5 * ONE);
    assert_eq!(s.texture_coords(top).y, 0);
    let bottom = Vector3::new(0, -2 * ONE, -5 * ONE);
    assert_eq!(s.texture_coords(bottom).y, ONE);
    let back = Vector3::new(-2 * ONE, 0, -5 * ONE);
    assert_eq!(s.texture_coords(back).x, ONE);
}

#[test]
fn mesh_and_object_dispatch() {
    let m = Mesh::Sphere(Sphere { center: Vector3::new(0, 0, -5 * ONE), radius: ONE });
    let r = ray((0, 0, 0), (0, 0, -ONE));
    assert_eq!(m.intersect_distance(&r), Some(4 * ONE));
    assert_eq!(m.surface_normal(Vector3::new(0, 0, -4 * ONE)), Vector3::new(0, 0, ONE));
    let o = Object::new(
        Material::new(Coloring::Color(Color::new(1, 2, 3)), ONE, SurfaceKind::Diffuse),
        m,
    );
    let i = o.intersect(&r).unwrap();
    assert_eq!(i.distance, 4 * ONE);
    assert_eq!(i.object.mesh, m);
    assert!(o.intersect(&ray((0, 0, 0), (0, ONE, 0))).is_none());
}

#[test]
fn fixed_point_operations() {
    assert_eq!(fixed::mul(3 * ONE, ONE / 2), 3 * ONE / 2);
    assert_eq!(fixed::mul(-ONE, 1), -1);
    assert_eq!(fixed::mul(-1, 1), -1);
    assert_eq!(fixed::div(ONE, 4 * ONE), ONE / 4);
    assert_eq!(fixed::div(-ONE, 3 * ONE), -21846);
    assert_eq!(fixed::div(5, 0), LIMIT);
    assert_eq!(fixed::div(-5, 0), -LIMIT);
    assert_eq!(fixed::mul(LIMIT, LIMIT), LIMIT);
    assert_eq!(fixed::sqrt(4 * ONE), 2 * ONE);
    assert_eq!(fixed::sqrt(2 * ONE), 92681);
    assert_eq!(fixed::div_floor(-7, 2), -4);
    assert_eq!(fixed::div_floor(7, -2), -4);
    assert_eq!(fixed::div_floor(-8, 2), -4);
    assert_eq!(fixed::div_floor(7, 2), 3);
    assert_eq!(fixed::sqrt_wide(15), 3);
    assert_eq!(fixed::sqrt_wide(16), 4);
    assert_eq!(fixed::sqrt_wide(1u128 << 120), 1u128 << 60);
    assert_eq!(fixed::div_round(5, 2), 3);
    assert_eq!(fixed::div_round(-5, 2), -3);
    assert_eq!(fixed::div_round(4, 3), 1);
    assert_eq!(fixed::div_ratio(-7, -2), 4);
    assert_eq!(fixed::div_ratio(7, -2), -4);
    assert_eq!(fixed::clip_wide(1i128 << 100), LIMIT);
}

#[test]
fn vector_operations() {
    let a = Vector3::new(ONE, 2 * ONE, 3 * ONE);
    let b = Vector3::new(-ONE, ONE, 0);
    assert_eq!(a.add(&b), Vector3::new(0, 3 * ONE, 3 * ONE));
    assert_eq!(a.sub(&b), Vector3::new(2 * ONE, ONE, 3 * ONE));
    assert_eq!(a.neg(), Vector3::new(-ONE, -2 * ONE, -3 * ONE));
    assert_eq!(a.dot(&b), ONE);
    let x = Vector3::new(ONE, 0, 0);
    let y = Vector3::new(0, ONE, 0);
    assert_eq!(x.cross(&y), Vector3::new(0, 0, ONE));
    assert_eq!(a.scale(2 * ONE), Vector3::new(2 * ONE, 4 * ONE, 6 * ONE));
    let v = Vector3::new(3 * ONE, 4 * ONE, 0);
    assert_eq!(v.length(), 5 * ONE);
    assert_eq!(v.normalize(), Vector3::new(39322, 52429, 0));
    // Long and short vectors normalize alike.
    let long = Vector3::new(3000 * ONE, 4000 * ONE, 0);
    assert_eq!(long.length(), 5000 * ONE);
    assert_eq!(long.normalize(), Vector3::new(39322, 52429, 0));
    let short = Vector3::new(3, 4, 0);
    assert_eq!(short.length(), 5);
    assert_eq!(short.normalize(), Vector3::new(39322, 52429, 0));
    assert_eq!(Vector3::new(-ONE, 0, -ONE).normalize(), Vector3::new(-46341, 0, -46341));
    assert_eq!(Vector3::zero().normalize(), Vector3::zero());
}
