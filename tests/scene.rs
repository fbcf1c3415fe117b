use image::{DynamicImage, GenericImageView};
use raytracer::color::Color;
use raytracer::fixed::{ONE, PI};
use raytracer::light::{DirectionalLight, Light};
use raytracer::material::{Coloring, Material, SurfaceKind};
use raytracer::object::{Mesh, Object, Plane, Sphere};
use raytracer::render::{Ray, Scene, BACKGROUND_LEVEL};
use raytracer::vector::Vector3;

fn background() -> Color {
    Color::new(BACKGROUND_LEVEL, BACKGROUND_LEVEL, BACKGROUND_LEVEL)
}

fn to_image(r: &raytracer::render::Raster) -> DynamicImage {
    let mut img = image::RgbImage::new(r.width, r.height);
    for y in 0..r.height {
        for x in 0..r.width {
            let c = r.pixel(x, y);
            img.put_pixel(x, y, image::Rgb([c.red, c.green, c.blue]));
        }
    }
    DynamicImage::ImageRgb8(img)
}

#[test]
fn test_can_render_scene() {
    let scene = Scene {
        width: 800,
        height: 600,
        fov_scale: ONE,
        max_recursion_depth: 2,
        lights: vec![Light::Directional(DirectionalLight {
            direction: Vector3::new(0, 0, -ONE),
            color: Color::new(255, 255, 255),
            intensity: ONE,
        })],
        objects: vec![Object {
            material: Material::new(
                Coloring::Color(Color::new(60, 60, 60)),
                (0.38 * ONE as f64) as i64,
                SurfaceKind::Diffuse,
            ),
            mesh: Mesh::Sphere(Sphere {
                center: Vector3::zero(),
                radius: ONE,
            }),
        }],
    };

    let img: DynamicImage = to_image(&scene.render());
    assert_eq!(scene.width, img.width());
    assert_eq!(scene.height, img.height());
}

#[test]
fn render_dimensions_match_scene() {
    for (w, h) in [(1u32, 1u32), (3, 7), (7, 3), (16, 9)] {
        let scene = Scene {
            width: w,
            height: h,
            fov_scale: ONE,
            max_recursion_depth: 0,
            lights: vec![],
            objects: vec![],
        };
        let r = scene.render();
        assert_eq!(r.width, w);
        assert_eq!(r.height, h);
        assert_eq!(r.pixels.len(), (w * h) as usize);
        assert!(r.pixels.iter().all(|c| *c == background()));
    }
}

fn sphere_scene() -> Scene {
    Scene {
        width: 800,
        height: 600,
        fov_scale: ONE,
        max_recursion_depth: 2,
        lights: vec![Light::Directional(DirectionalLight {
            direction: Vector3::new(0, 0, -ONE),
            color: Color::new(255, 255, 255),
            intensity: ONE,
        })],
        objects: vec![Object::new(
            Material::new(Coloring::Color(Color::new(200, 20, 50)), ONE, SurfaceKind::Diffuse),
            Mesh::Sphere(Sphere { center: Vector3::zero(), radius: ONE }),
        )],
    }
}

#[test]
fn render_is_deterministic() {
    let mut scene = sphere_scene();
    scene.width = 40;
    scene.height = 30;
    let a = scene.render();
    let b = scene.render();
    assert_eq!(a.pixels, b.pixels);
}

#[test]
fn end_to_end_center_pixel_is_not_background() {
    let scene = sphere_scene();
    let r = scene.render();
    assert_eq!(r.pixels.len(), 800 * 600);
    assert_ne!(r.pixel(400, 300), background());
}

/// A mirror plane facing the camera at `z = -5` and a red sphere behind the
/// camera, lit so that only its side facing the mirror receives light.
fn mirror_scene(depth: u32) -> Scene {
    Scene {
        width: 1,
        height: 1,
        fov_scale: ONE,
        max_recursion_depth: depth,
        lights: vec![Light::Directional(DirectionalLight {
            direction: Vector3::new(0, 0, ONE),
            color: Color::new(255, 255, 255),
            intensity: ONE,
        })],
        objects: vec![
            Object::new(
                Material::new(
                    Coloring::Color(Color::new(90, 160, 220)),
                    PI,
                    SurfaceKind::Reflective { reflectivity: ONE },
                ),
                Mesh::Plane(Plane {
                    normal: Vector3::new(0, 0, -ONE),
                    origin: Vector3::new(0, 0, -5 * ONE),
                }),
            ),
            Object::new(
                Material::new(Coloring::Color(Color::new(200, 0, 0)), PI, SurfaceKind::Diffuse),
                Mesh::Sphere(Sphere { center: Vector3::new(0, 0, 5 * ONE), radius: ONE }),
            ),
        ],
    }
}

#[test]
fn mirror_at_depth_zero_shows_only_direct_light() {
    let r = mirror_scene(0).render();
    assert_eq!(r.pixel(0, 0), Color::new(0, 0, 0));
}

#[test]
fn mirror_with_depth_shows_reflection() {
    let r0 = mirror_scene(0).render();
    let r1 = mirror_scene(1).render();
    assert_eq!(r1.pixel(0, 0), Color::new(200, 0, 0));
    assert_ne!(r0.pixel(0, 0), r1.pixel(0, 0));
}

#[test]
fn prime_ray_of_single_pixel_looks_down_z() {
    let scene = mirror_scene(0);
    let ray = scene.spawn_prime_ray(0, 0);
    assert_eq!(ray, Ray { origin: Vector3::zero(), direction: Vector3::new(0, 0, -ONE) });
}

#[test]
fn prime_rays_flip_y_and_respect_aspect() {
    let mut scene = sphere_scene();
    scene.width = 4;
    scene.height = 2;
    let top_left = scene.spawn_prime_ray(0, 0);
    assert!(top_left.direction.x < 0);
    assert!(top_left.direction.y > 0);
    let bottom_right = scene.spawn_prime_ray(3, 1);
    assert!(bottom_right.direction.x > 0);
    assert!(bottom_right.direction.y < 0);
    // Square pixels: a pixel half a frame height off center on both axes
    // lies on a diagonal; mirrored pixels get mirrored rays.
    let a = scene.spawn_prime_ray(1, 0).direction;
    let b = scene.spawn_prime_ray(2, 1).direction;
    assert_eq!(a.x, -26755);
    assert_eq!(a.y, 26755);
    assert_eq!(a.x, -b.x);
    assert_eq!(a.y, -b.y);
    assert_eq!(a.z, b.z);
}

#[test]
fn prime_rays_of_wide_frames_are_unit() {
    let mut scene = sphere_scene();
    scene.width = 2;
    scene.height = 1;
    assert_eq!(scene.spawn_prime_ray(0, 0).direction, Vector3::new(-46341, 0, -46341));
    scene.width = 10000;
    let d = scene.spawn_prime_ray(0, 0).direction;
    assert_eq!(d, Vector3::new(-ONE, 0, -7));
    scene.width = 3;
    let l = scene.spawn_prime_ray(0, 0).direction;
    let r = scene.spawn_prime_ray(2, 0).direction;
    assert_eq!(l.x, -r.x);
    assert_eq!(l.z, r.z);
}

#[test]
fn nearest_picks_the_closer_object() {
    let mut scene = sphere_scene();
    scene.objects = vec![
        Object::new(
            Material::new(Coloring::Color(Color::new(1, 2, 3)), ONE, SurfaceKind::Diffuse),
            Mesh::Sphere(Sphere { center: Vector3::new(0, 0, -10 * ONE), radius: ONE }),
        ),
        Object::new(
            Material::new(Coloring::Color(Color::new(4, 5, 6)), ONE, SurfaceKind::Diffuse),
            Mesh::Sphere(Sphere { center: Vector3::new(0, 0, -5 * ONE), radius: ONE }),
        ),
    ];
    let ray = Ray { origin: Vector3::zero(), direction: Vector3::new(0, 0, -ONE) };
    assert_eq!(scene.nearest(&ray), Some((1, 4 * ONE)));
    let away = Ray { origin: Vector3::zero(), direction: Vector3::new(0, 0, ONE) };
    assert_eq!(scene.nearest(&away), None);
    assert_eq!(scene.trace(&away, 0), background());
}

#[test]
fn diffuse_hit_is_lit_by_facing_light() {
    let scene = Scene {
        width: 1,
        height: 1,
        fov_scale: ONE,
        max_recursion_depth: 0,
        lights: vec![Light::Directional(DirectionalLight {
            direction: Vector3::new(0, 0, -ONE),
            color: Color::new(255, 255, 255),
            intensity: ONE,
        })],
        objects: vec![Object::new(
            Material::new(Coloring::Color(Color::new(200, 20, 50)), PI, SurfaceKind::Diffuse),
            Mesh::Sphere(Sphere { center: Vector3::new(0, 0, -5 * ONE), radius: ONE }),
        )],
    };
    assert_eq!(scene.render().pixel(0, 0), Color::new(200, 20, 50));
}
