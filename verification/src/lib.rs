pub mod color;
pub mod perlin;
pub mod rtw_image;
pub mod material;
pub mod matrix;
pub mod model;
pub mod prelude;
pub mod texture;
pub mod bvh;
pub mod draw;
