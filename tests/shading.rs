use image::{DynamicImage, GenericImage, Rgba};
use raytracer::color::Color;
use raytracer::fixed::{LIMIT, ONE};
use raytracer::light::{DirectionalLight, Light, PointLight};
use raytracer::material::{Coloring, Material, SurfaceKind, Texture};
use raytracer::object::{Mesh, Object, Sphere};
use raytracer::render::{Ray, Scene};
use raytracer::vector::{Vector2, Vector3};

#[test]
fn color_addition_saturates() {
    let a = Color::new(200, 10, 0);
    let b = Color::new(100, 20, 0);
    assert_eq!(a.add(&b), Color::new(255, 30, 0));
}

#[test]
fn color_product_is_normalized() {
    let a = Color::new(255, 128, 100);
    let b = Color::new(128, 255, 100);
    assert_eq!(a.mul_color(&b), Color::new(128, 128, 39));
}

#[test]
fn color_scale_truncates_and_saturates() {
    let c = Color::new(100, 200, 3);
    assert_eq!(c.scale(ONE / 2), Color::new(50, 100, 1));
    assert_eq!(c.scale(2 * ONE), Color::new(200, 255, 6));
    assert_eq!(c.scale(-ONE), Color::new(0, 0, 0));
}

#[test]
fn color_clamp_and_conversions() {
    let c = Color::new(255, 128, 0);
    assert_eq!(c.clamp(), c);
    assert_eq!(c.to_perc(), Vector3::new(ONE, 32896, 0));
    assert_eq!(c.to_rgba(), Rgba([255, 128, 0, 255]));
}

#[test]
fn light_order_does_not_matter() {
    let lights = vec![
        Light::Point(PointLight { position: Vector3::new(0, 0, 0), color: Color::new(255, 10, 10), intensity: 200 * ONE }),
        Light::Directional(DirectionalLight { direction: Vector3::new(0, 0, -ONE), color: Color::new(10, 255, 10), intensity: -ONE }),
        Light::Directional(DirectionalLight { direction: Vector3::new(ONE, 0, -ONE), color: Color::new(10, 10, 255), intensity: 3 * ONE }),
    ];
    let mut reversed = lights.clone();
    reversed.reverse();
    let object = || Object::new(
        Material::new(Coloring::Color(Color::new(200, 150, 100)), ONE, SurfaceKind::Diffuse),
        Mesh::Sphere(Sphere { center: Vector3::new(0, 0, -5 * ONE), radius: ONE }),
    );
    let a = Scene { width: 1, height: 1, fov_scale: ONE, max_recursion_depth: 0, lights, objects: vec![object()] };
    let b = Scene { width: 1, height: 1, fov_scale: ONE, max_recursion_depth: 0, lights: reversed, objects: vec![object()] };
    let ray = Ray { origin: Vector3::zero(), direction: Vector3::new(0, 0, -ONE) };
    assert_eq!(a.trace(&ray, 0), b.trace(&ray, 0));
}

/// `10^7 / (4 pi 3000^2)` in fixed point.
const EXPECTED_AT_3000: i64 = 5794;

#[test]
fn point_light_inverse_square() {
    let l = Light::Point(PointLight {
        position: Vector3::zero(),
        color: Color::new(250, 200, 250),
        intensity: 100 * ONE,
    });
    let near = l.intensity(Vector3::new(0, 0, -ONE));
    let far = l.intensity(Vector3::new(0, 0, -2 * ONE));
    assert_eq!(near, 521519);
    assert_eq!(far, 130379);
    assert_eq!(far, near / 4);
    assert_eq!(l.intensity(Vector3::zero()), LIMIT);
    // Far away, the squared distance is exact.
    let strong = Light::Point(PointLight {
        position: Vector3::zero(),
        color: Color::new(255, 255, 255),
        intensity: 10_000_000 * ONE,
    });
    let at_3000 = strong.intensity(Vector3::new(0, 0, -3000 * ONE));
    let at_6000 = strong.intensity(Vector3::new(0, 0, -6000 * ONE));
    assert_eq!(at_3000, EXPECTED_AT_3000);
    assert_eq!(at_6000, at_3000 / 4);
    assert_eq!(l.distance(Vector3::new(0, 0, -6000 * ONE)), 6000 * ONE);
    assert_eq!(
        l.direction(Vector3::new(0, 0, -6000 * ONE)),
        Vector3::new(0, 0, ONE)
    );
    assert_eq!(l.direction(Vector3::new(0, 1, 0)), Vector3::new(0, -ONE, 0));
    assert_eq!(l.distance(Vector3::new(3 * ONE, 4 * ONE, 0)), 5 * ONE);
    assert_eq!(l.direction(Vector3::new(0, 0, -2 * ONE)), Vector3::new(0, 0, ONE));
    assert_eq!(l.color(), Color::new(250, 200, 250));
}

#[test]
fn directional_light_is_the_same_everywhere() {
    let l = Light::Directional(DirectionalLight {
        direction: Vector3::new(0, 0, -ONE),
        color: Color::new(255, 255, 255),
        intensity: 2 * ONE,
    });
    let p = Vector3::new(5 * ONE, -3 * ONE, 7 * ONE);
    let q = Vector3::new(-ONE, 100 * ONE, 0);
    assert_eq!(l.intensity(p), 2 * ONE);
    assert_eq!(l.intensity(p), l.intensity(q));
    assert_eq!(l.direction(p), Vector3::new(0, 0, ONE));
    assert_eq!(l.direction(p), l.direction(q));
    assert_eq!(l.distance(p), LIMIT);
}

fn checker(w: u32, h: u32) -> DynamicImage {
    let mut img = DynamicImage::new_rgba8(w, h);
    for y in 0..h {
        for x in 0..w {
            img.put_pixel(x, y, Rgba([(x * 10) as u8, (y * 10) as u8, 7, 255]));
        }
    }
    img
}

#[test]
fn texture_tiles_in_both_directions() {
    for (w, h) in [(4u32, 4u32), (3, 5), (1, 1), (8, 2)] {
        let t = Texture::new(checker(w, h)).unwrap();
        let a = t.color_at(Vector2::new(ONE + ONE / 4, -ONE / 4));
        let b = t.color_at(Vector2::new(ONE / 4, 3 * ONE / 4));
        assert_eq!(a, b);
    }
    let t = Texture::new(checker(4, 4)).unwrap();
    assert_eq!(t.color_at(Vector2::new(ONE / 4, 3 * ONE / 4)), Color::new(10, 30, 7));
    assert_eq!(t.color_at(Vector2::new(-ONE / 8, 0)), Color::new(30, 0, 7));
}

#[test]
fn empty_texture_is_refused() {
    assert!(Texture::new(DynamicImage::new_rgba8(0, 4)).is_none());
    assert!(Texture::new(DynamicImage::new_rgba8(4, 0)).is_none());
}

#[test]
fn texture_needs_rgba8_samples() {
    assert!(Texture::new(DynamicImage::new_rgb8(4, 4)).is_none());
    assert!(Texture::new(DynamicImage::new_rgba32f(4, 4)).is_none());
    let converted = DynamicImage::ImageRgba8(DynamicImage::new_rgb8(4, 4).to_rgba8());
    assert!(Texture::new(converted).is_some());
}

#[test]
fn material_colors() {
    let flat = Material::new(Coloring::Color(Color::new(1, 2, 3)), ONE, SurfaceKind::Diffuse);
    assert_eq!(flat.color(Vector2::new(123, -456)), Color::new(1, 2, 3));
    let textured = Material::new(
        Coloring::Texture(Texture::new(checker(4, 4)).unwrap()),
        ONE,
        SurfaceKind::Reflective { reflectivity: ONE / 2 },
    );
    assert_eq!(textured.color(Vector2::new(ONE / 2, ONE / 4)), Color::new(20, 10, 7));
}
