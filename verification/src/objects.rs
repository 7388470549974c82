pub mod aabb;
pub mod bvh;
pub mod mesh;
pub mod plane;
pub mod sphere;
pub mod surface;
pub mod triangle;
