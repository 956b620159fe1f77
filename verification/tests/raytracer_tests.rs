use raytracer::bmp::BmpCanvas;
use raytracer::canvas::{to_pixel, Canvas, Pixel};
use raytracer::fixed::Fixed;
use raytracer::hittable::{HitInfo, Hittable};
use raytracer::material::{Material, MaterialType};
use raytracer::ray::{Interval, Ray};
use raytracer::raytracer::{
    bounce, ray_color, sky_color, trace_path, Bounce, RayTracer, Sample,
};
use raytracer::sphere::Sphere;
use raytracer::triangle_mesh::{Scene, TriangleMesh};
use raytracer::vec3::Vec3;

fn fx(x: f64) -> Fixed {
    Fixed::from_raw((x * 1e6).round() as i64)
}

fn v(x: f64, y: f64, z: f64) -> Vec3 {
    Vec3::new(fx(x), fx(y), fx(z))
}

fn r3(r: i64, g: i64, b: i64) -> Vec3 {
    Vec3::new(Fixed::from_raw(r), Fixed::from_raw(g), Fixed::from_raw(b))
}

fn material(kind: MaterialType, r: f64, g: f64, b: f64) -> Material {
    Material { material_type: kind, albedo: v(r, g, b) }
}

/// A horizontal rectangle at height `y` between `x0` and `x1`, ten deep on
/// either side of the x axis.
fn slab(y: f64, x0: f64, x1: f64, m: Material) -> TriangleMesh {
    let mut mesh = TriangleMesh::new(m);
    mesh.add_vertex(v(x0, y, -10.0));
    mesh.add_vertex(v(x1, y, -10.0));
    mesh.add_vertex(v(x1, y, 10.0));
    mesh.add_vertex(v(x0, y, 10.0));
    mesh.add_triangle(0, 1, 2);
    mesh.add_triangle(0, 2, 3);
    mesh
}

/// A floor at height -1 and, at height 1, a ceiling whose part right of
/// `x = 2` is a light.
fn room(floor: Material, ceiling: Material, light: Material) -> Scene {
    let mut scene = Scene::default();
    scene.add_mesh(slab(-1.0, -10.0, 10.0, floor));
    scene.add_mesh(slab(1.0, -10.0, 2.0, ceiling));
    scene.add_mesh(slab(1.0, 2.0, 10.0, light));
    scene
}

fn black() -> Vec3 {
    v(0.0, 0.0, 0.0)
}

#[test]
fn sky_blends_white_into_blue_by_height() {
    assert_eq!(sky_color(v(0.0, 0.0, -1.0)), v(0.75, 0.85, 1.0));
    assert_eq!(sky_color(v(0.0, 1.0, 0.0)), v(0.5, 0.7, 1.0));
    assert_eq!(sky_color(v(0.0, -1.0, 0.0)), v(1.0, 1.0, 1.0));
    assert_eq!(sky_color(v(3.0, 4.0, 0.0)), v(0.55, 0.73, 1.0));
    assert_eq!(sky_color(v(0.0, 0.0, -250.0)), v(0.75, 0.85, 1.0));
}

#[test]
fn sky_of_no_direction_is_the_horizon() {
    assert_eq!(sky_color(v(0.0, 0.0, 0.0)), v(0.75, 0.85, 1.0));
}

#[test]
fn a_ray_that_hits_nothing_brings_back_the_sky() {
    let scene = Scene::default();
    let ray = Ray::new(v(0.0, 0.0, 0.0), v(3.0, 4.0, 0.0));
    assert_eq!(trace_path(ray, &scene, 1, &Vec::new()), v(0.55, 0.73, 1.0));
    assert_eq!(trace_path(ray, &scene, 20, &Vec::new()), v(0.55, 0.73, 1.0));
    assert_eq!(ray_color(ray, &scene, 5), v(0.55, 0.73, 1.0));
}

#[test]
fn without_bounces_every_ray_is_black() {
    let scene = room(
        material(MaterialType::Lambertian, 0.5, 0.6, 0.7),
        material(MaterialType::Lambertian, 0.3, 0.4, 0.5),
        material(MaterialType::Emissive, 4.0, 1.0, 1.0),
    );
    let up = Ray::new(v(3.0, 0.0, 0.0), v(0.0, 1.0, 0.0));
    let away = Ray::new(v(0.0, 0.0, 0.0), v(0.0, 0.0, -1.0));
    for depth in [0, -1, i16::MIN] {
        for ray in [up, away] {
            assert_eq!(trace_path(ray, &scene, depth, &Vec::new()), black());
            assert_eq!(ray_color(ray, &scene, depth), black());
        }
    }
}

#[test]
fn a_light_seen_directly_brings_back_its_emission() {
    let scene = room(
        material(MaterialType::Lambertian, 0.5, 0.6, 0.7),
        material(MaterialType::Lambertian, 0.3, 0.4, 0.5),
        material(MaterialType::Emissive, 4.0, 1.0, 1.0),
    );
    let ray = Ray::new(v(3.0, 0.0, 0.0), v(0.0, 1.0, 0.0));
    assert_eq!(trace_path(ray, &scene, 1, &Vec::new()), v(4.0, 1.0, 1.0));
    assert_eq!(ray_color(ray, &scene, 1), v(4.0, 1.0, 1.0));
    assert_eq!(ray_color(ray, &scene, 30), v(4.0, 1.0, 1.0));
}

#[test]
fn a_light_reached_over_a_mirror_is_attenuated_once() {
    let scene = room(
        material(MaterialType::Metal, 0.9, 0.8, 0.85),
        material(MaterialType::Lambertian, 0.3, 0.4, 0.5),
        material(MaterialType::Emissive, 4.0, 1.0, 1.0),
    );
    let ray = Ray::new(v(0.5, 0.0, 2.0), v(1.0, -1.0, 0.0));
    assert_eq!(trace_path(ray, &scene, 2, &Vec::new()), v(3.6, 0.8, 0.85));
    assert_eq!(ray_color(ray, &scene, 2), v(3.6, 0.8, 0.85));
    assert_eq!(ray_color(ray, &scene, 9), v(3.6, 0.8, 0.85));
    assert_eq!(trace_path(ray, &scene, 1, &Vec::new()), black());
}

#[test]
fn a_light_reached_after_three_diffuse_bounces_is_attenuated_three_times() {
    let scene = room(
        material(MaterialType::Lambertian, 0.5, 0.6, 0.7),
        material(MaterialType::Lambertian, 0.3, 0.4, 0.5),
        material(MaterialType::Emissive, 4.0, 1.0, 1.0),
    );
    let ray = Ray::new(v(0.5, 0.0, 2.0), v(0.0, -1.0, 0.0));
    let units = vec![v(0.5, 0.0, 0.0), v(0.5, 0.0, 0.0), v(0.5, 0.0, 0.0)];
    // (0.5, 0.6, 0.7) * (0.3, 0.4, 0.5) * (0.5, 0.6, 0.7) = (0.075, 0.144, 0.245)
    assert_eq!(trace_path(ray, &scene, 4, &units), v(0.3, 0.144, 0.245));
    assert_eq!(trace_path(ray, &scene, 12, &units), v(0.3, 0.144, 0.245));
}

#[test]
fn a_path_that_runs_out_of_bounces_is_black() {
    let scene = room(
        material(MaterialType::Lambertian, 0.5, 0.6, 0.7),
        material(MaterialType::Lambertian, 0.3, 0.4, 0.5),
        material(MaterialType::Emissive, 4.0, 1.0, 1.0),
    );
    let ray = Ray::new(v(0.5, 0.0, 2.0), v(0.0, -1.0, 0.0));
    let units = vec![v(0.5, 0.0, 0.0), v(0.5, 0.0, 0.0), v(0.5, 0.0, 0.0)];
    for depth in 1..=3 {
        assert_eq!(trace_path(ray, &scene, depth, &units), black());
    }
}

#[test]
fn missing_units_count_as_zero() {
    let scene = room(
        material(MaterialType::Lambertian, 0.5, 0.6, 0.7),
        material(MaterialType::Lambertian, 0.3, 0.4, 0.5),
        material(MaterialType::Emissive, 4.0, 1.0, 1.0),
    );
    // Straight down, then straight up along the normal into the light.
    let ray = Ray::new(v(3.0, 0.0, 2.0), v(0.0, -1.0, 0.0));
    assert_eq!(trace_path(ray, &scene, 2, &Vec::new()), v(2.0, 0.6, 0.7));
    assert_eq!(trace_path(ray, &scene, 2, &vec![v(0.0, 0.0, 0.0)]), v(2.0, 0.6, 0.7));
}

#[test]
fn a_path_that_leaves_the_room_brings_back_attenuated_sky() {
    let mut scene = Scene::default();
    scene.add_mesh(slab(-1.0, -10.0, 10.0, material(MaterialType::Metal, 0.5, 0.5, 0.5)));
    let ray = Ray::new(v(0.0, 0.0, 0.0), v(0.0, -1.0, 0.0));
    // Reflected straight up: the sky overhead, halved.
    assert_eq!(trace_path(ray, &scene, 2, &Vec::new()), v(0.25, 0.35, 0.5));
    assert_eq!(ray_color(ray, &scene, 2), v(0.25, 0.35, 0.5));
}

#[test]
fn bounce_reports_each_kind_of_outcome() {
    let scene = room(
        material(MaterialType::Metal, 0.9, 0.8, 0.85),
        material(MaterialType::Lambertian, 0.3, 0.4, 0.5),
        material(MaterialType::Emissive, 4.0, 1.0, 1.0),
    );
    let so_far = v(0.5, 0.5, 0.5);
    match bounce(&scene, Ray::new(v(0.5, 0.0, 2.0), v(1.0, -1.0, 0.0)), so_far, black()) {
        Bounce::Running { ray, attenuation } => {
            assert_eq!(ray.origin(), v(1.5, -1.0, 2.0));
            assert_eq!(ray.dir(), v(1.0, 1.0, 0.0));
            assert_eq!(attenuation, v(0.45, 0.4, 0.425));
        }
        Bounce::Done(_) => panic!("the mirror scatters"),
    }
    match bounce(&scene, Ray::new(v(0.0, 0.0, 0.0), v(0.0, 1.0, 0.0)), so_far, v(0.6, 0.0, 0.8)) {
        Bounce::Running { ray, attenuation } => {
            assert_eq!(ray.origin(), v(0.0, 1.0, 0.0));
            assert_eq!(ray.dir(), v(0.6, -1.0, 0.8));
            assert_eq!(attenuation, v(0.15, 0.2, 0.25));
        }
        Bounce::Done(_) => panic!("the ceiling scatters"),
    }
    match bounce(&scene, Ray::new(v(3.0, 0.0, 0.0), v(0.0, 1.0, 0.0)), so_far, black()) {
        Bounce::Done(color) => assert_eq!(color, v(2.0, 0.5, 0.5)),
        Bounce::Running { .. } => panic!("the light ends the path"),
    }
    match bounce(&scene, Ray::new(v(0.0, 0.0, 0.0), v(0.0, 0.0, -1.0)), so_far, black()) {
        Bounce::Done(color) => assert_eq!(color, v(0.375, 0.425, 0.5)),
        Bounce::Running { .. } => panic!("the sky ends the path"),
    }
}

#[test]
fn a_surface_at_the_rays_origin_is_not_hit_again() {
    let mut scene = Scene::default();
    scene.add_mesh(slab(-1.0, -10.0, 10.0, material(MaterialType::Emissive, 4.0, 1.0, 1.0)));
    let on_the_floor = Ray::new(v(0.5, -1.0, 0.5), v(0.0, 1.0, 0.0));
    assert_eq!(trace_path(on_the_floor, &scene, 3, &Vec::new()), v(0.5, 0.7, 1.0));
    let just_above = Ray::new(v(0.5, -0.9995, 0.5), v(0.0, -1.0, 0.0));
    assert_eq!(trace_path(just_above, &scene, 3, &Vec::new()), v(1.0, 1.0, 1.0));
    let well_above = Ray::new(v(0.5, -0.999, 0.5), v(0.0, -1.0, 0.0));
    assert_eq!(trace_path(well_above, &scene, 3, &Vec::new()), v(4.0, 1.0, 1.0));
}

#[test]
fn nothing_comes_out_of_a_scene_that_only_absorbs() {
    let soot = material(MaterialType::Emissive, 0.0, 0.0, 0.0);
    let scene = room(soot, soot, soot);
    let origins = [(0.0, 0.0, 0.0), (3.0, 0.5, -2.0), (-4.0, -0.5, 7.0)];
    let dirs = [(0.0, 1.0, 0.0), (0.0, -1.0, 0.0), (1.0, 1.0, 0.0), (-0.2, -0.7, 0.3), (0.1, 2.0, -0.4)];
    for o in origins {
        for d in dirs {
            let ray = Ray::new(v(o.0, o.1, o.2), v(d.0, d.1, d.2));
            for depth in [1, 2, 7, i16::MAX] {
                assert_eq!(ray_color(ray, &scene, depth), black());
                assert_eq!(trace_path(ray, &scene, depth, &vec![v(0.5, 0.5, 0.5)]), black());
            }
            assert_eq!(to_pixel(ray_color(ray, &scene, 3)), Pixel { r: 0, g: 0, b: 0 });
        }
    }
}

#[test]
fn diffuse_paths_stay_within_the_attenuated_light() {
    let scene = room(
        material(MaterialType::Lambertian, 0.5, 0.6, 0.7),
        material(MaterialType::Lambertian, 0.3, 0.4, 0.5),
        material(MaterialType::Emissive, 4.0, 1.0, 1.0),
    );
    let ray = Ray::new(v(3.0, 0.0, 0.0), v(0.0, -1.0, 0.0));
    let mut differed = false;
    let first = ray_color(ray, &scene, 6);
    for _ in 0..200 {
        let c = ray_color(ray, &scene, 6);
        assert!(c.x >= fx(0.0) && c.x <= fx(2.0));
        assert!(c.y >= fx(0.0) && c.y <= fx(0.6));
        assert!(c.z >= fx(0.0) && c.z <= fx(0.7));
        if c != first {
            differed = true;
        }
    }
    assert!(differed);
}

#[test]
fn the_viewport_is_as_wide_as_the_canvas_asks() {
    let canvas = BmpCanvas::new(2, 2);
    let tracer = RayTracer::new(&canvas, fx(2.0), fx(1.0));
    let r = tracer.camera_ray(2, 2, 0, 0, fx(0.0), fx(0.0));
    assert_eq!(r.origin(), v(0.0, 0.0, 0.0));
    assert_eq!(r.dir(), v(-0.5, 0.5, -1.0));
    assert_eq!(tracer.camera_ray(2, 2, 1, 1, fx(0.0), fx(0.0)).dir(), v(0.5, -0.5, -1.0));
    assert_eq!(tracer.camera_ray(2, 2, 1, 0, fx(0.25), fx(-0.5)).dir(), v(0.75, 1.0, -1.0));
}

#[test]
fn camera_rays_of_a_wide_canvas() {
    let canvas = BmpCanvas::new(200, 100);
    let tracer = RayTracer::new(&canvas, fx(2.0), fx(1.0));
    assert_eq!(tracer.camera_ray(200, 100, 0, 0, fx(0.0), fx(0.0)).dir(), v(-1.99, 0.99, -1.0));
    assert_eq!(tracer.camera_ray(200, 100, 199, 99, fx(0.0), fx(0.0)).dir(), v(1.99, -0.99, -1.0));
    assert_eq!(tracer.camera_ray(200, 100, 100, 50, fx(-0.5), fx(-0.5)).dir(), v(0.0, 0.0, -1.0));
}

#[test]
fn camera_rays_round_toward_zero() {
    let canvas = BmpCanvas::new(3, 7);
    let tracer = RayTracer::new(&canvas, fx(2.0), fx(1.5));
    let r = tracer.camera_ray(3, 7, 2, 6, fx(0.3), fx(-0.2));
    assert_eq!(r.dir(), r3(371_428, -799_999, -1_500_000));
}

#[test]
fn a_canvas_without_rows_gives_an_unbounded_viewport() {
    let canvas = BmpCanvas::new(4, 0);
    let mut canvas2 = BmpCanvas::new(4, 0);
    let tracer = RayTracer::new(&canvas, fx(2.0), fx(1.0));
    tracer.draw(&mut canvas2, &Scene::default(), 1, 1);
    assert_eq!(canvas2.pixel_data().len(), 0);
}

#[test]
fn draw_without_samples_or_bounces_leaves_black() {
    let scene = Scene::default();
    for (samples, bounces) in [(0, 5), (-3, 5), (4, 0), (4, -1)] {
        let mut canvas = BmpCanvas::new(5, 3);
        for y in 0..3 {
            for x in 0..5 {
                canvas.set_pixel(x, y, Pixel { r: 9, g: 9, b: 9 });
            }
        }
        let tracer = RayTracer::new(&canvas, fx(2.0), fx(1.0));
        tracer.draw(&mut canvas, &scene, samples, bounces);
        for y in 0..3 {
            for x in 0..5 {
                assert_eq!(canvas.get_pixel(x, y), Pixel { r: 0, g: 0, b: 0 });
            }
        }
    }
}

#[test]
fn draw_paints_the_sky_gradient_on_an_empty_scene() {
    let mut canvas = BmpCanvas::new(8, 6);
    let tracer = RayTracer::new(&canvas, fx(2.0), fx(1.0));
    tracer.draw(&mut canvas, &Scene::default(), 3, 2);
    assert_eq!(canvas.width(), 8);
    assert_eq!(canvas.height(), 6);
    for y in 0..6 {
        for x in 0..8 {
            let p = canvas.get_pixel(x, y);
            assert_eq!(p.b, 255);
            assert!(p.r >= 181 && p.g >= 214 && p.r < p.g);
        }
    }
    for x in 0..8 {
        assert!(canvas.get_pixel(x, 0).r < canvas.get_pixel(x, 5).r);
        assert!(canvas.get_pixel(x, 0).g < canvas.get_pixel(x, 5).g);
    }
}

#[test]
fn draw_shows_a_light_that_fills_the_view() {
    let mut scene = Scene::default();
    let mut wall = TriangleMesh::new(material(MaterialType::Emissive, 0.25, 0.0625, 1.0));
    wall.add_vertex(v(-50.0, -50.0, -3.0));
    wall.add_vertex(v(50.0, -50.0, -3.0));
    wall.add_vertex(v(50.0, 50.0, -3.0));
    wall.add_vertex(v(-50.0, 50.0, -3.0));
    wall.add_triangle(0, 1, 2);
    wall.add_triangle(0, 2, 3);
    scene.add_mesh(wall);
    let mut canvas = BmpCanvas::new(6, 4);
    let tracer = RayTracer::new(&canvas, fx(2.0), fx(1.0));
    tracer.draw(&mut canvas, &scene, 4, 3);
    for y in 0..4 {
        for x in 0..6 {
            assert_eq!(canvas.get_pixel(x, y), Pixel { r: 128, g: 64, b: 255 });
        }
    }
    assert_eq!(tracer.render_pixel(&scene, 6, 4, 2, 1, 4, 3), Pixel { r: 128, g: 64, b: 255 });
}

#[test]
fn a_sphere_shows_as_a_disk_before_the_sky() {
    let width: u32 = 32;
    let height: u32 = 18;
    let canvas = BmpCanvas::new(width, height);
    let tracer = RayTracer::new(&canvas, fx(2.0), fx(1.0));
    let sphere = Sphere::new(v(0.0, 0.0, -1.0), fx(0.5));
    let empty = Scene::default();
    let search = Interval::new(fx(0.001), Fixed::infinity());
    let mut inside = 0;
    let mut outside = 0;
    for y in 0..height {
        for x in 0..width {
            let ray = tracer.camera_ray(width, height, x, y, fx(0.0), fx(0.0));
            let d = ray.dir();
            let (dx, dy, dz) = (d.x.raw() as f64 / 1e6, d.y.raw() as f64 / 1e6, d.z.raw() as f64 / 1e6);
            let len = (dx * dx + dy * dy + dz * dz).sqrt();
            // Distance from the sphere's centre to the ray's line.
            let along = -dz / len;
            let miss = (1.0 - along * along).max(0.0).sqrt();
            let mut h = HitInfo::default();
            h.t = Fixed::infinity();
            let hit = sphere.hit(ray, search, &mut h);
            if miss < 0.49 {
                assert!(hit, "pixel {} {} lies on the disk", x, y);
                let t = h.t.raw() as f64 / 1e6;
                let expected = (along - (0.25 - miss * miss).sqrt()) / len;
                assert!((t - expected).abs() < 1e-4);
                inside += 1;
            } else if miss > 0.51 {
                assert!(!hit, "pixel {} {} lies off the disk", x, y);
                let sky = trace_path(ray, &empty, 1, &Vec::new());
                let a = 0.5 * (dy / len + 1.0);
                let expected = [1.0 - a + 0.5 * a, 1.0 - a + 0.7 * a, 1.0];
                let got = [sky.x, sky.y, sky.z];
                for i in 0..3 {
                    assert!((got[i].raw() as f64 / 1e6 - expected[i]).abs() < 1e-4);
                }
                outside += 1;
            }
        }
    }
    assert!(inside >= 40, "{} pixels on the disk", inside);
    assert!(outside >= 400, "{} pixels off the disk", outside);
    let mut h = HitInfo::default();
    h.t = Fixed::infinity();
    assert!(sphere.hit(tracer.camera_ray(width, height, 16, 9, fx(-0.5), fx(-0.5)), search, &mut h));
    assert_eq!(h.t, fx(0.5));
    assert!(!sphere.hit(tracer.camera_ray(width, height, 0, 0, fx(0.0), fx(0.0)), search, &mut h));
}

fn shot(x_offset: f64, y_offset: f64) -> Sample {
    Sample { x_offset: fx(x_offset), y_offset: fx(y_offset), units: Vec::new() }
}

#[test]
fn a_pixel_is_the_tone_mapped_mean_of_its_shots() {
    let canvas = BmpCanvas::new(2, 2);
    let tracer = RayTracer::new(&canvas, fx(2.0), fx(1.0));
    let scene = Scene::default();
    // The two shots see the sky at (0.647938, 0.788762, 1) and
    // (0.575922, 0.745553, 1); their mean is (0.611930, 0.767157, 1).
    let two = vec![shot(0.0, 0.0), shot(0.25, -0.5)];
    let one = vec![shot(0.0, 0.0)];
    assert_eq!(
        trace_path(tracer.camera_ray(2, 2, 0, 0, fx(0.0), fx(0.0)), &scene, 1, &Vec::new()),
        r3(647_938, 788_762, 1_000_000)
    );
    assert_eq!(
        trace_path(tracer.camera_ray(2, 2, 0, 0, fx(0.25), fx(-0.5)), &scene, 1, &Vec::new()),
        r3(575_922, 745_553, 1_000_000)
    );
    assert_eq!(tracer.render_pixel_with(&scene, 2, 2, 0, 0, &one, 1, 1), Pixel { r: 206, g: 227, b: 255 });
    assert_eq!(tracer.render_pixel_with(&scene, 2, 2, 0, 0, &two, 2, 1), Pixel { r: 200, g: 224, b: 255 });
    let three = vec![shot(0.0, 0.0), shot(0.25, -0.5), shot(-0.5, 0.499999)];
    assert_eq!(tracer.render_pixel_with(&scene, 2, 2, 0, 0, &three, 3, 5), Pixel { r: 207, g: 228, b: 255 });
}

#[test]
fn the_sum_of_the_shots_is_divided_by_the_samples_asked_for() {
    let canvas = BmpCanvas::new(2, 2);
    let tracer = RayTracer::new(&canvas, fx(2.0), fx(1.0));
    let scene = Scene::default();
    let two = vec![shot(0.0, 0.0), shot(0.25, -0.5)];
    assert_eq!(tracer.render_pixel_with(&scene, 2, 2, 0, 0, &two, 4, 1), Pixel { r: 141, g: 158, b: 181 });
    // A sum brighter than one is scaled by its brightest channel.
    assert_eq!(tracer.render_pixel_with(&scene, 2, 2, 0, 0, &two, 1, 1), Pixel { r: 200, g: 224, b: 255 });
    assert_eq!(tracer.render_pixel_with(&scene, 2, 2, 0, 0, &two, -2, 1), Pixel { r: 0, g: 0, b: 0 });
    assert_eq!(tracer.render_pixel_with(&scene, 2, 2, 0, 0, &Vec::new(), 0, 1), Pixel { r: 0, g: 0, b: 0 });
    assert_eq!(tracer.render_pixel_with(&scene, 2, 2, 0, 0, &two, 2, 0), Pixel { r: 0, g: 0, b: 0 });
}

#[test]
fn shots_hand_their_units_to_the_bounces() {
    let scene = room(
        material(MaterialType::Lambertian, 0.5, 0.6, 0.7),
        material(MaterialType::Lambertian, 0.3, 0.4, 0.5),
        material(MaterialType::Emissive, 4.0, 1.0, 1.0),
    );
    let canvas = BmpCanvas::new(3, 3);
    let tracer = RayTracer::new(&canvas, fx(2.0), fx(1.0));
    // The last pixel of the bottom row looks down at the floor on the right,
    // from where the unit leads up into the light.
    let ray = tracer.camera_ray(3, 3, 2, 2, fx(0.0), fx(0.0));
    let units = vec![v(0.9, 0.0, 0.3)];
    let expected = trace_path(ray, &scene, 2, &units);
    assert_eq!(expected, v(2.0, 0.6, 0.7));
    let taken = vec![Sample { x_offset: fx(0.0), y_offset: fx(0.0), units }];
    assert_eq!(
        tracer.render_pixel_with(&scene, 3, 3, 2, 2, &taken, 1, 2),
        Pixel { r: 255, g: 140, b: 151 }
    );
    let other = vec![Sample { x_offset: fx(0.0), y_offset: fx(0.0), units: vec![v(-0.9, 0.0, 0.3)] }];
    assert_eq!(
        tracer.render_pixel_with(&scene, 3, 3, 2, 2, &other, 1, 2),
        Pixel { r: 0, g: 0, b: 0 }
    );
}
