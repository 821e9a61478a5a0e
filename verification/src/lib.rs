//! The verified core of a path tracer.
//!
//! The crate holds what a path tracer decides without doing arithmetic on
//! real numbers: the test of a ray against a box, the hierarchy of boxes
//! that finds the primitives a ray may hit, the choice of the nearest hit,
//! and the recursion that follows a ray from hit to hit. Numbers enter as
//! ranks (see `scalar`), rays, primitives and surfaces as traits that say
//! what they answer, and colours as any type that can be added and
//! multiplied.
//!
//! Every function has a contract over a mathematical model, and the laws
//! that relate the functions are proved beside them: the box test is an
//! intersection of intervals, surrounding is commutative and associative,
//! the hierarchy is as shallow as can be, and it finds the nearest hit that
//! a search of all the primitives finds.

pub mod aabb;
pub mod bvh;
pub mod hittable;
pub mod hittable_list;
pub mod material;
pub mod onb;
pub mod perlin;
pub mod ppm;
pub mod progress;
pub mod ray;
pub mod scalar;
pub mod scene;
pub mod transformations;
pub mod util;
pub mod vec3;
