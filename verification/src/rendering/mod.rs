pub mod image;
pub mod ppm;
pub mod renderer;

pub use image::{Image, Pixel};
pub use renderer::Renderer;
