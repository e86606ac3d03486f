//! Porter-Duff "over" compositing of RGBA8888 pixel buffers in linear light.
//!
//! Buffers are row-major, four bytes per pixel (R, G, B, A), with no row
//! padding. The blend math is exact: linear channels are kept as ratios, and
//! the only rounding is the final clamp-and-round back to eight bits.
pub mod blend;
pub mod buffer;
pub mod clip;
pub mod pixel;

pub use blend::{blend_at, blend_rect, blend_rect_inplace, blend_surface, BlendError};
pub use buffer::Blit;
pub use clip::clip;
pub use pixel::{blend_pixel, blend_rgba, LinearPixel, Ratio, Rgba8};
