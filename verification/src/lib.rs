//! A path tracer with verified geometry, materials and integrator.
//!
//! The scene is a list of triangle meshes, each behind an axis-aligned
//! bounding box. A ray is tested against the boxes by the slab method and
//! against the triangles by a plane intersection and three edge tests; the
//! closest hit wins. A material turns a hit into an attenuation and a new
//! ray, or ends the path. The integrator follows each camera ray through a
//! bounded number of bounces and writes the tone-mapped mean of its samples
//! to a canvas.
//!
//! Numbers are fixed-point ([`fixed::Fixed`]): every operation has an exact
//! result that its contract states, and the same inputs give the same image
//! on every machine. Where rounding to millionths would lose what matters,
//! the arithmetic is exact instead: the box test and the point of a hit work
//! on fractions, and the normals and edge tests of triangles on wide cross
//! products ([`wide`]). The only thing left open is which random numbers are
//! drawn; what a function makes of the numbers it draws is stated by a twin
//! that takes them as arguments.
//!
//! Contracts are written over views: a number is viewed as its count of
//! millionths, a vector as three such counts ([`vec3::V3`]), and so on up to
//! the scene. Besides the contracts the modules state and prove what the
//! pieces add up to: that the box test answers whether the ray passes
//! through the box, that normals face the viewer, that the closest hit wins
//! whatever the order of the meshes, and how light is attenuated along a
//! path.

pub mod bbox;
pub mod bmp;
pub mod canvas;
pub mod fixed;
pub mod hittable;
pub mod material;
pub mod ray;
pub mod raytracer;
pub mod sphere;
pub mod triangle_mesh;
pub mod vec3;
pub mod wide;
