pub mod basic;
pub mod color;
pub mod fixed;
pub mod img_output;
pub mod lin_alg;
pub mod material;
pub mod objects;
pub mod physics;
pub mod raytrace;
