pub mod atlas;
pub mod font;
pub mod fps_counter;
pub mod geometry;
pub mod gpu_device;
pub mod rects;
pub mod text;
pub mod terminal;
