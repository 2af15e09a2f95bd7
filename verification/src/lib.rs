//! An offline, CPU-only 3D scene renderer: geometric primitives in object
//! space become a color-per-pixel raster image with depth-resolved
//! visibility and Phong illumination, under an affine transform pipeline.
//!
//! All arithmetic is integer or fixed point: coordinates are plain
//! integers, fractions (transform coefficients, reflectances, unit
//! normals) are scaled by `fixed::FP_ONE`, and every contract states the
//! exact value computed. The layers, leaf first: the grid engine
//! (`grid`), integer vectors (`vector3d`), the geometry containers
//! (`edge_matrix`, `polygon_matrix`), the transform pipeline
//! (`transform`), the illumination model (`lighter`), and the rasterizer
//! with its framebuffer (`image`). `laws` states and proves the
//! properties that span several of them.
pub mod color;
pub mod color_constants;
pub mod edge_matrix;
pub mod fixed;
pub mod grid;
pub mod image;
pub mod laws;
pub mod lighter;
pub mod polygon_matrix;
pub mod transform;
pub mod vector3d;

pub use color::Color;
pub use edge_matrix::EdgeMatrix;
pub use grid::Const2D;
pub use grid::Dynamic2D;
pub use grid::ParallelGrid;
pub use image::Image;
pub use lighter::Lighter;
pub use lighter::LightingConfig;
pub use polygon_matrix::PolygonMatrix;
pub use transform::Axis;
pub use transform::TStack;
pub use transform::Transformer;
pub use vector3d::Vector3D;
