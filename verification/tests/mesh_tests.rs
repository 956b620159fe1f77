use raytracer::fixed::Fixed;
use raytracer::hittable::{HitInfo, Hittable};
use raytracer::material::{Material, MaterialType};
use raytracer::ray::{Interval, Ray};
use raytracer::triangle_mesh::{triangle_hit, Scene, TriangleMesh};
use raytracer::vec3::Vec3;
use raytracer::wide::{exact_cross_of, unit_of_wide};

fn fx(x: f64) -> Fixed {
    Fixed::from_raw((x * 1e6).round() as i64)
}

fn v(x: f64, y: f64, z: f64) -> Vec3 {
    Vec3::new(fx(x), fx(y), fx(z))
}

fn fresh() -> HitInfo {
    let mut h = HitInfo::default();
    h.t = Fixed::infinity();
    h
}

fn forward() -> Interval {
    Interval::new(fx(0.001), Fixed::infinity())
}

fn material(kind: MaterialType, r: f64, g: f64, b: f64) -> Material {
    Material { material_type: kind, albedo: v(r, g, b) }
}

/// A square of side 2 around the z axis at depth `z`, facing the camera.
fn wall(z: f64, m: Material) -> TriangleMesh {
    let mut mesh = TriangleMesh::new(m);
    mesh.add_vertex(v(-1.0, -1.0, z));
    mesh.add_vertex(v(1.0, -1.0, z));
    mesh.add_vertex(v(1.0, 1.0, z));
    mesh.add_vertex(v(-1.0, 1.0, z));
    mesh.add_triangle(0, 1, 2);
    mesh.add_triangle(0, 2, 3);
    mesh
}

fn normal_of(a: Vec3, b: Vec3, c: Vec3) -> Vec3 {
    let n = b.minus(a).cross(c.minus(a));
    n.shrunk(n.magnitude())
}

#[test]
fn ray_at_the_centroid_along_the_normal_hits() {
    let a = v(0.0, 0.0, 0.0);
    let b = v(3.0, 0.0, 0.0);
    let c = v(0.0, 3.0, 0.0);
    let n = normal_of(a, b, c);
    assert_eq!(n, v(0.0, 0.0, 1.0));
    let ray = Ray::new(v(1.0, 1.0, 5.0), v(0.0, 0.0, -1.0));
    let mut h = fresh();
    assert!(triangle_hit(a, b, c, n, ray, forward(), &mut h));
    assert_eq!(h.t, fx(5.0));
    assert_eq!(h.point, v(1.0, 1.0, 0.0));
    assert_eq!(h.normal, v(0.0, 0.0, 1.0));
    assert!(h.normal.dot(ray.dir()) <= fx(0.0));
}

#[test]
fn ray_from_behind_gets_the_normal_turned_round() {
    let a = v(0.0, 0.0, 0.0);
    let b = v(3.0, 0.0, 0.0);
    let c = v(0.0, 3.0, 0.0);
    let n = normal_of(a, b, c);
    let ray = Ray::new(v(1.0, 1.0, -5.0), v(0.0, 0.0, 2.0));
    let mut h = fresh();
    assert!(triangle_hit(a, b, c, n, ray, forward(), &mut h));
    assert_eq!(h.t, fx(2.5));
    assert_eq!(h.normal, v(0.0, 0.0, -1.0));
    assert!(h.normal.dot(ray.dir()) <= fx(0.0));
}

#[test]
fn centroid_rays_hit_slanted_triangles() {
    let triangles = [
        ((0.1, -0.5, -0.6), (0.5, -0.5, -0.6), (0.4, 0.3, -1.0)),
        ((-1.5, -0.5, -1.5), (-1.0, -0.5, -1.0), (-0.5, 1.0, -1.5)),
        ((2.0, 1.0, 0.0), (0.0, 3.0, 1.0), (-1.0, -1.0, 4.0)),
        ((-555.0, -0.51, 5.0), (555.0, -0.51, -155.0), (-555.0, -0.51, -155.0)),
    ];
    for (pa, pb, pc) in triangles {
        let a = v(pa.0, pa.1, pa.2);
        let b = v(pb.0, pb.1, pb.2);
        let c = v(pc.0, pc.1, pc.2);
        let n = normal_of(a, b, c);
        let third = fx(3.0);
        let g = a.plus(b).plus(c).shrunk(third);
        for side in [2.0, -2.0] {
            let origin = g.plus(n.scaled(fx(side)));
            let dir = n.scaled(fx(-side));
            let ray = Ray::new(origin, dir);
            let mut h = fresh();
            assert!(triangle_hit(a, b, c, n, ray, forward(), &mut h));
            assert!(h.normal.dot(ray.dir()) <= fx(0.0));
            let off = h.point.minus(g).magnitude().raw();
            assert!(off <= 20, "hit {} off the centroid", off);
        }
    }
}

#[test]
fn the_model_triangle_is_hit_where_the_arithmetic_says() {
    let a = v(0.1, -0.5, -0.6);
    let b = v(0.5, -0.5, -0.6);
    let c = v(0.4, 0.3, -1.0);
    let n = normal_of(a, b, c);
    assert_eq!(n, Vec3::new(Fixed::from_raw(0), Fixed::from_raw(447_214), Fixed::from_raw(894_429)));
    let g = Vec3::new(Fixed::from_raw(333_333), Fixed::from_raw(-233_333), Fixed::from_raw(-733_333));
    let ray = Ray::new(g.plus(n.scaled(fx(2.0))), n.negated());
    let mut h = fresh();
    assert!(triangle_hit(a, b, c, n, ray, forward(), &mut h));
    assert_eq!(h.t, fx(2.0));
    assert_eq!(h.point, g);
}

#[test]
fn ray_parallel_to_the_plane_misses() {
    let a = v(0.0, 0.0, 0.0);
    let b = v(3.0, 0.0, 0.0);
    let c = v(0.0, 3.0, 0.0);
    let n = v(0.0, 0.0, 1.0);
    let mut h = fresh();
    assert!(!triangle_hit(a, b, c, n, Ray::new(v(1.0, 1.0, 5.0), v(1.0, 0.0, 0.0)), forward(), &mut h));
    assert!(!triangle_hit(a, b, c, n, Ray::new(v(1.0, 1.0, 0.0), v(1.0, 1.0, 0.0)), Interval::any(), &mut h));
    assert_eq!(h.t, Fixed::infinity());
}

#[test]
fn ray_beside_the_triangle_misses() {
    let a = v(0.0, 0.0, 0.0);
    let b = v(3.0, 0.0, 0.0);
    let c = v(0.0, 3.0, 0.0);
    let n = v(0.0, 0.0, 1.0);
    let down = v(0.0, 0.0, -1.0);
    let mut h = fresh();
    assert!(!triangle_hit(a, b, c, n, Ray::new(v(2.0, 2.0, 5.0), down), forward(), &mut h));
    assert!(!triangle_hit(a, b, c, n, Ray::new(v(-0.000001, 1.0, 5.0), down), forward(), &mut h));
    assert!(!triangle_hit(a, b, c, n, Ray::new(v(1.0, -0.000001, 5.0), down), forward(), &mut h));
    assert!(triangle_hit(a, b, c, n, Ray::new(v(1.5, 1.5, 5.0), down), forward(), &mut h));
}

#[test]
fn ray_on_an_edge_or_a_corner_hits() {
    let a = v(0.0, 0.0, 0.0);
    let b = v(3.0, 0.0, 0.0);
    let c = v(0.0, 3.0, 0.0);
    let n = v(0.0, 0.0, 1.0);
    let down = v(0.0, 0.0, -1.0);
    for o in [(0.0, 0.0), (3.0, 0.0), (0.0, 3.0), (1.0, 0.0), (0.0, 2.0)] {
        let mut h = fresh();
        assert!(triangle_hit(a, b, c, n, Ray::new(v(o.0, o.1, 1.0), down), forward(), &mut h));
    }
}

#[test]
fn triangle_hit_is_gated_by_the_interval() {
    let a = v(0.0, 0.0, 0.0);
    let b = v(3.0, 0.0, 0.0);
    let c = v(0.0, 3.0, 0.0);
    let n = v(0.0, 0.0, 1.0);
    let ray = Ray::new(v(1.0, 1.0, 5.0), v(0.0, 0.0, -1.0));
    let mut h = fresh();
    assert!(!triangle_hit(a, b, c, n, ray, Interval::new(fx(0.0), fx(4.999999)), &mut h));
    assert!(!triangle_hit(a, b, c, n, ray, Interval::new(fx(5.000001), fx(9.0)), &mut h));
    assert!(!triangle_hit(a, b, c, n, ray, Interval::empty(), &mut h));
    assert_eq!(h.t, Fixed::infinity());
    assert!(triangle_hit(a, b, c, n, ray, Interval::new(fx(5.0), fx(5.0)), &mut h));
    let behind = Ray::new(v(1.0, 1.0, 5.0), v(0.0, 0.0, 1.0));
    let mut h = fresh();
    assert!(!triangle_hit(a, b, c, n, behind, forward(), &mut h));
    assert!(triangle_hit(a, b, c, n, behind, Interval::any(), &mut h));
    assert_eq!(h.t, fx(-5.0));
}

#[test]
fn triangle_hit_takes_only_strictly_closer_hits() {
    let a = v(0.0, 0.0, 0.0);
    let b = v(3.0, 0.0, 0.0);
    let c = v(0.0, 3.0, 0.0);
    let n = v(0.0, 0.0, 1.0);
    let ray = Ray::new(v(1.0, 1.0, 5.0), v(0.0, 0.0, -1.0));
    let mut h = fresh();
    h.t = fx(5.0);
    h.point = v(9.0, 9.0, 9.0);
    assert!(!triangle_hit(a, b, c, n, ray, forward(), &mut h));
    assert_eq!(h.point, v(9.0, 9.0, 9.0));
    h.t = fx(4.0);
    assert!(!triangle_hit(a, b, c, n, ray, forward(), &mut h));
    assert_eq!(h.t, fx(4.0));
    h.t = fx(5.000001);
    assert!(triangle_hit(a, b, c, n, ray, forward(), &mut h));
    assert_eq!(h.t, fx(5.0));
    assert_eq!(h.point, v(1.0, 1.0, 0.0));
}

#[test]
fn triangle_hit_leaves_the_material_alone() {
    let a = v(0.0, 0.0, 0.0);
    let b = v(3.0, 0.0, 0.0);
    let c = v(0.0, 3.0, 0.0);
    let n = v(0.0, 0.0, 1.0);
    let mut h = fresh();
    h.material = material(MaterialType::Emissive, 4.0, 1.0, 1.0);
    assert!(triangle_hit(a, b, c, n, Ray::new(v(1.0, 1.0, 5.0), v(0.0, 0.0, -1.0)), forward(), &mut h));
    assert_eq!(h.material.material_type, MaterialType::Emissive);
    assert_eq!(h.material.albedo, v(4.0, 1.0, 1.0));
}

#[test]
fn new_mesh_is_empty() {
    let mesh = TriangleMesh::new(Material::default());
    assert_eq!(mesh.vertex_count(), 0);
    assert_eq!(mesh.triangle_count(), 0);
    let mut h = fresh();
    assert!(!mesh.hit(Ray::new(v(0.0, 0.0, 0.0), v(0.0, 0.0, -1.0)), forward(), &mut h));
}

#[test]
fn mesh_counts_what_was_added() {
    let mesh = wall(-1.0, Material::default());
    assert_eq!(mesh.vertex_count(), 4);
    assert_eq!(mesh.triangle_count(), 2);
}

#[test]
fn mesh_hit_writes_its_material() {
    let mesh = wall(-2.0, material(MaterialType::Lambertian, 0.3, 0.4, 0.5));
    let ray = Ray::new(v(0.5, -0.25, 0.0), v(0.0, 0.0, -1.0));
    let mut h = fresh();
    assert!(mesh.hit(ray, forward(), &mut h));
    assert_eq!(h.t, fx(2.0));
    assert_eq!(h.point, v(0.5, -0.25, -2.0));
    assert_eq!(h.normal, v(0.0, 0.0, 1.0));
    assert_eq!(h.material.material_type, MaterialType::Lambertian);
    assert_eq!(h.material.albedo, v(0.3, 0.4, 0.5));
}

#[test]
fn mesh_miss_leaves_the_record_alone() {
    let mesh = wall(-2.0, material(MaterialType::Lambertian, 0.3, 0.4, 0.5));
    let mut h = fresh();
    h.material = material(MaterialType::Emissive, 1.0, 1.0, 1.0);
    h.point = v(7.0, 7.0, 7.0);
    assert!(!mesh.hit(Ray::new(v(5.0, 0.0, 0.0), v(0.0, 0.0, -1.0)), forward(), &mut h));
    assert_eq!(h.t, Fixed::infinity());
    assert_eq!(h.point, v(7.0, 7.0, 7.0));
    assert_eq!(h.material.material_type, MaterialType::Emissive);
}

#[test]
fn mesh_keeps_a_closer_hit_from_before() {
    let mesh = wall(-2.0, material(MaterialType::Lambertian, 0.3, 0.4, 0.5));
    let mut h = fresh();
    h.t = fx(1.0);
    h.material = material(MaterialType::Emissive, 1.0, 1.0, 1.0);
    assert!(!mesh.hit(Ray::new(v(0.0, 0.5, 0.0), v(0.0, 0.0, -1.0)), forward(), &mut h));
    assert_eq!(h.t, fx(1.0));
    assert_eq!(h.material.material_type, MaterialType::Emissive);
}

#[test]
fn mesh_reports_its_closest_triangle() {
    let mut mesh = TriangleMesh::new(material(MaterialType::Metal, 0.9, 0.8, 0.85));
    for z in [-5.0, -2.0, -3.0] {
        let base = mesh.vertex_count() as u32;
        mesh.add_vertex(v(-1.0, -1.0, z));
        mesh.add_vertex(v(3.0, -1.0, z));
        mesh.add_vertex(v(-1.0, 3.0, z));
        mesh.add_triangle(base, base + 1, base + 2);
    }
    let mut h = fresh();
    assert!(mesh.hit(Ray::new(v(0.0, 0.0, 0.0), v(0.0, 0.0, -1.0)), forward(), &mut h));
    assert_eq!(h.t, fx(2.0));
    assert_eq!(h.point, v(0.0, 0.0, -2.0));
}

#[test]
fn degenerate_triangle_is_never_hit() {
    let mut mesh = TriangleMesh::new(Material::default());
    mesh.add_vertex(v(0.0, 0.0, -1.0));
    mesh.add_vertex(v(1.0, 0.0, -1.0));
    mesh.add_vertex(v(2.0, 0.0, -1.0));
    mesh.add_triangle(0, 1, 2);
    mesh.add_triangle(0, 0, 0);
    assert_eq!(mesh.triangle_count(), 2);
    let mut h = fresh();
    assert!(!mesh.hit(Ray::new(v(1.0, 0.0, 0.0), v(0.0, 0.0, -1.0)), Interval::any(), &mut h));
    assert!(!mesh.hit(Ray::new(v(1.0, 1.0, 0.0), v(0.0, -1.0, -1.0)), Interval::any(), &mut h));
}

#[test]
fn a_small_triangle_has_a_unit_normal_and_is_hit() {
    let mut mesh = TriangleMesh::new(Material::default());
    mesh.add_vertex(Vec3::new(Fixed::from_raw(0), Fixed::from_raw(0), Fixed::from_raw(0)));
    mesh.add_vertex(Vec3::new(Fixed::from_raw(900), Fixed::from_raw(0), Fixed::from_raw(0)));
    mesh.add_vertex(Vec3::new(Fixed::from_raw(0), Fixed::from_raw(900), Fixed::from_raw(0)));
    mesh.add_triangle(0, 1, 2);
    let mut h = fresh();
    let ray = Ray::new(Vec3::new(Fixed::from_raw(300), Fixed::from_raw(300), fx(1.0)), v(0.0, 0.0, -1.0));
    assert!(mesh.hit(ray, forward(), &mut h));
    assert_eq!(h.t, fx(1.0));
    assert_eq!(h.normal, v(0.0, 0.0, 1.0));
    assert_eq!(h.point, Vec3::new(Fixed::from_raw(300), Fixed::from_raw(300), Fixed::from_raw(0)));
    let beside = Ray::new(Vec3::new(Fixed::from_raw(700), Fixed::from_raw(700), fx(1.0)), v(0.0, 0.0, -1.0));
    let mut h = fresh();
    assert!(!mesh.hit(beside, forward(), &mut h));
}

#[test]
fn empty_scene_hits_nothing_and_resets_the_parameter() {
    let scene = Scene::default();
    assert_eq!(scene.mesh_count(), 0);
    let mut h = HitInfo::default();
    h.t = fx(3.0);
    assert!(!scene.hit(Ray::new(v(0.0, 0.0, 0.0), v(0.0, 0.0, -1.0)), forward(), &mut h));
    assert_eq!(h.t, Fixed::infinity());
}

#[test]
fn scene_starts_every_search_afresh() {
    let mut scene = Scene::default();
    scene.add_mesh(wall(-2.0, material(MaterialType::Lambertian, 0.3, 0.4, 0.5)));
    assert_eq!(scene.mesh_count(), 1);
    let mut h = HitInfo::default();
    h.t = fx(0.5);
    assert!(scene.hit(Ray::new(v(0.0, 0.5, 0.0), v(0.0, 0.0, -1.0)), forward(), &mut h));
    assert_eq!(h.t, fx(2.0));
    assert_eq!(h.material.material_type, MaterialType::Lambertian);
}

#[test]
fn scene_reports_the_closer_of_two_meshes_in_either_order() {
    let near = || wall(-1.0, material(MaterialType::Lambertian, 0.3, 0.4, 0.5));
    let far = || wall(-2.0, material(MaterialType::Emissive, 4.0, 1.0, 1.0));
    let ray = Ray::new(v(0.25, 0.5, 0.0), v(0.0, 0.0, -1.0));

    let mut forth = Scene::default();
    forth.add_mesh(near());
    forth.add_mesh(far());
    let mut back = Scene::default();
    back.add_mesh(far());
    back.add_mesh(near());

    for scene in [&forth, &back] {
        let mut h = HitInfo::default();
        assert!(scene.hit(ray, forward(), &mut h));
        assert_eq!(h.t, fx(1.0));
        assert_eq!(h.point, v(0.25, 0.5, -1.0));
        assert_eq!(h.normal, v(0.0, 0.0, 1.0));
        assert_eq!(h.material.material_type, MaterialType::Lambertian);
        assert_eq!(h.material.albedo, v(0.3, 0.4, 0.5));
    }
}

#[test]
fn scene_reports_the_closest_of_many_meshes_in_any_order() {
    let depths = [-4.0, -1.5, -9.0, -2.5, -1.25, -7.0];
    let orders: [[usize; 6]; 4] =
        [[0, 1, 2, 3, 4, 5], [5, 4, 3, 2, 1, 0], [4, 0, 5, 1, 3, 2], [2, 3, 1, 5, 0, 4]];
    let ray = Ray::new(v(-0.5, 0.25, 0.0), v(0.1, 0.0, -1.0));
    for order in orders {
        let mut scene = Scene::default();
        for i in order {
            scene.add_mesh(wall(depths[i], material(MaterialType::Metal, -depths[i] / 10.0, 0.0, 0.0)));
        }
        let mut h = HitInfo::default();
        assert!(scene.hit(ray, forward(), &mut h));
        assert_eq!(h.t, fx(1.25));
        assert_eq!(h.material.albedo, v(0.125, 0.0, 0.0));
    }
}

#[test]
fn at_equal_distance_the_mesh_added_first_wins() {
    let one = || wall(-1.0, material(MaterialType::Lambertian, 0.1, 0.1, 0.1));
    let two = || wall(-1.0, material(MaterialType::Metal, 0.2, 0.2, 0.2));
    let ray = Ray::new(v(0.25, 0.5, 0.0), v(0.0, 0.0, -1.0));
    let mut scene = Scene::default();
    scene.add_mesh(one());
    scene.add_mesh(two());
    let mut h = HitInfo::default();
    assert!(scene.hit(ray, forward(), &mut h));
    assert_eq!(h.material.material_type, MaterialType::Lambertian);
    let mut scene = Scene::default();
    scene.add_mesh(two());
    scene.add_mesh(one());
    let mut h = HitInfo::default();
    assert!(scene.hit(ray, forward(), &mut h));
    assert_eq!(h.material.material_type, MaterialType::Metal);
}

#[test]
fn scene_misses_what_lies_behind_or_beside() {
    let mut scene = Scene::default();
    scene.add_mesh(wall(-2.0, material(MaterialType::Lambertian, 0.3, 0.4, 0.5)));
    let mut h = HitInfo::default();
    assert!(!scene.hit(Ray::new(v(0.0, 0.0, 0.0), v(0.0, 0.0, 1.0)), forward(), &mut h));
    assert_eq!(h.t, Fixed::infinity());
    assert!(!scene.hit(Ray::new(v(3.0, 0.0, 0.0), v(0.0, 0.0, -1.0)), forward(), &mut h));
    assert!(!scene.hit(Ray::new(v(0.0, 0.0, 0.0), v(1.0, 0.0, 0.0)), forward(), &mut h));
}

#[test]
fn a_flat_mesh_is_found_through_its_padded_box() {
    let mut scene = Scene::default();
    scene.add_mesh(wall(-2.0, material(MaterialType::Lambertian, 0.3, 0.4, 0.5)));
    let mut h = HitInfo::default();
    assert!(scene.hit(Ray::new(v(1.0, 1.0, 0.0), v(0.0, 0.0, -1.0)), forward(), &mut h));
    assert_eq!(h.t, fx(2.0));
    assert!(scene.hit(Ray::new(v(-3.0, 0.0, 0.0), v(1.5, 0.0, -1.0)), forward(), &mut h));
    assert_eq!(h.t, fx(2.0));
    assert_eq!(h.point, v(0.0, 0.0, -2.0));
}

#[test]
fn a_mesh_without_vertices_can_be_added() {
    let mut scene = Scene::default();
    scene.add_mesh(TriangleMesh::new(Material::default()));
    scene.add_mesh(wall(-2.0, material(MaterialType::Lambertian, 0.3, 0.4, 0.5)));
    assert_eq!(scene.mesh_count(), 2);
    let mut h = HitInfo::default();
    assert!(scene.hit(Ray::new(v(0.0, 0.5, 0.0), v(0.0, 0.0, -1.0)), forward(), &mut h));
    assert_eq!(h.t, fx(2.0));
}

#[test]
fn a_tiny_slanted_triangle_is_hit_at_its_centroid() {
    let raw = |x: i64, y: i64, z: i64| Vec3::new(Fixed::from_raw(x), Fixed::from_raw(y), Fixed::from_raw(z));
    let mut mesh = TriangleMesh::new(Material::default());
    mesh.add_vertex(raw(842, -155, -762));
    mesh.add_vertex(raw(928, 743, 850));
    mesh.add_vertex(raw(-698, 187, -204));
    mesh.add_triangle(0, 1, 2);
    // From two units above the centroid, down along the normal.
    let ray = Ray::new(raw(-34_297, -1_745_880, 974_536), raw(17_327, 873_069, -487_287));
    let mut h = fresh();
    assert!(mesh.hit(ray, forward(), &mut h));
    assert_eq!(h.t, Fixed::from_raw(2_000_001));
    assert_eq!(h.point, raw(357, 258, -38));
    assert_eq!(h.normal, raw(-17_327, -873_069, 487_287));
    assert!((h.normal.dot(h.normal).raw() - 1_000_000).abs() <= 1_000);
}

#[test]
fn stored_normals_have_unit_length() {
    let corners = [
        [(0.0, 0.0, 0.0), (3.0, 0.0, 0.0), (0.0, 3.0, 0.0)],
        [(0.1, -0.5, -0.6), (0.5, -0.5, -0.6), (0.4, 0.3, -1.0)],
        [(0.0, 0.0, 0.0), (0.000001, 0.0, 0.0), (0.0, 0.000001, 0.000001)],
        [(-555.0, -0.51, 5.0), (555.0, -0.51, -155.0), (-555.0, -0.51, -155.0)],
        [(-900000.0, 1.0, 2.0), (900000.0, 3.0, -4.0), (5.0, 900000.0, 6.0)],
    ];
    for [a, b, c] in corners {
        let mut mesh = TriangleMesh::new(Material::default());
        mesh.add_vertex(v(a.0, a.1, a.2));
        mesh.add_vertex(v(b.0, b.1, b.2));
        mesh.add_vertex(v(c.0, c.1, c.2));
        mesh.add_triangle(0, 1, 2);
        // Aim at the first corner from a side on which the normal is seen.
        let n = unit_of_wide(exact_cross_of(v(b.0, b.1, b.2).minus(v(a.0, a.1, a.2)), v(c.0, c.1, c.2).minus(v(a.0, a.1, a.2))));
        assert!((n.dot(n).raw() - 1_000_000).abs() <= 1_000, "normal {:?}", n);
    }
    assert_eq!(
        unit_of_wide(exact_cross_of(v(3.0, 0.0, 0.0), v(0.0, 3.0, 0.0))),
        v(0.0, 0.0, 1.0)
    );
    assert_eq!(
        unit_of_wide(exact_cross_of(v(0.4, 0.0, 0.0), v(0.3, 0.8, -0.4))),
        Vec3::new(Fixed::from_raw(0), Fixed::from_raw(447_213), Fixed::from_raw(894_427))
    );
    assert_eq!(unit_of_wide(exact_cross_of(v(1.0, 2.0, 3.0), v(-2.0, -4.0, -6.0))), v(0.0, 0.0, 0.0));
}

#[test]
fn a_steep_ray_that_passes_beside_the_triangle_misses_mesh_and_scene() {
    let build = || {
        let mut mesh = TriangleMesh::new(Material::default());
        mesh.add_vertex(v(-1.0, -1.0, -1.0));
        mesh.add_vertex(v(1.0, -1.0, -1.0));
        mesh.add_vertex(v(0.0, 1.0, -1.0));
        mesh.add_triangle(0, 1, 2);
        mesh
    };
    let mut scene = Scene::default();
    scene.add_mesh(build());
    let mesh = build();
    // Meets the plane at x = 1.25, outside the triangle.
    let beside = Ray::new(v(-9998.75, 0.0, 9.0), v(3000000.0, 0.0, -3000.0));
    let mut h = fresh();
    assert!(!mesh.hit(beside, forward(), &mut h));
    let mut h = HitInfo::default();
    assert!(!scene.hit(beside, forward(), &mut h));
    // Meets the plane at x = 0.25, inside the triangle.
    let through = Ray::new(v(-9999.75, 0.0, 9.0), v(3000000.0, 0.0, -3000.0));
    let mut h = fresh();
    assert!(mesh.hit(through, forward(), &mut h));
    assert_eq!(h.t, Fixed::from_raw(3_333));
    assert_eq!(h.point, v(0.25, 0.0, -1.0));
    let mut h = HitInfo::default();
    assert!(scene.hit(through, forward(), &mut h));
    assert_eq!(h.t, Fixed::from_raw(3_333));
    assert_eq!(h.point, v(0.25, 0.0, -1.0));
}

#[test]
fn a_fast_ray_hits_where_a_slow_one_does() {
    let mesh = wall(-1.0, Material::default());
    for speed in [0.000003, 0.03, 3.0, 3000.0, 3000000.0] {
        let ray = Ray::new(v(0.25, -0.5, 9.0), v(0.0, 0.0, -speed));
        let mut h = fresh();
        assert!(mesh.hit(ray, Interval::new(Fixed::from_raw(1), Fixed::infinity()), &mut h), "speed {}", speed);
        assert_eq!(h.point, v(0.25, -0.5, -1.0));
    }
}

#[test]
fn the_boxes_hide_no_hit() {
    let mut scene = Scene::default();
    let mut meshes = Vec::new();
    let build = |k: usize| {
        let z = -1.0 - k as f64;
        let mut mesh = TriangleMesh::new(material(MaterialType::Metal, 0.1 * (k as f64 + 1.0), 0.0, 0.0));
        mesh.add_vertex(v(-1.0 + k as f64, -1.0, z));
        mesh.add_vertex(v(1.5, -1.0 + 0.3 * k as f64, z - 0.5));
        mesh.add_vertex(v(0.0, 1.0, z + 0.25));
        mesh.add_triangle(0, 1, 2);
        mesh
    };
    for k in 0..3 {
        scene.add_mesh(build(k));
        meshes.push(build(k));
    }
    let mut hits = 0;
    let mut i = 0;
    while i < 41 {
        let mut j = 0;
        while j < 41 {
            let x = -2.0 + 0.1 * i as f64;
            let y = -2.0 + 0.1 * j as f64;
            for d in [(0.0, 0.0, -1.0), (0.1, -0.05, -1.0), (-300.0, 200.0, -1000.0), (0.0002, 0.0, -0.001)] {
                let ray = Ray::new(v(x, y, 1.0), v(d.0, d.1, d.2));
                let mut gated = HitInfo::default();
                let found = scene.hit(ray, forward(), &mut gated);
                let mut plain = fresh();
                let mut any = false;
                for m in meshes.iter() {
                    any = m.hit(ray, forward(), &mut plain) || any;
                }
                assert_eq!(found, any);
                assert_eq!(gated.t, plain.t);
                if found {
                    assert_eq!(gated.point, plain.point);
                    assert_eq!(gated.normal, plain.normal);
                    assert_eq!(gated.material.albedo, plain.material.albedo);
                    hits += 1;
                }
            }
            j += 1;
        }
        i += 1;
    }
    assert!(hits > 200, "{} hits", hits);
}
