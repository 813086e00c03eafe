use vstd::prelude::*;

pub mod fixed;
pub mod v3color;
pub mod rng;
pub mod texture;
pub mod perlin;
pub mod material;
pub mod shapes;
pub mod bvh;
pub mod camera;
pub mod render;

verus! {

} // verus!
