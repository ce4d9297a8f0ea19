//! A pixel-buffer compositing and filter engine working on premultiplied
//! 32-bit packed pixels: colour matrices, blend modes, Porter-Duff
//! compositing, arithmetic compositing and a box-blur approximation of a
//! Gaussian blur.

pub mod apply;
pub mod blend;
pub mod blur;
pub mod color;
pub mod composite;
pub mod error;
pub mod filters;
pub mod lemmas;
pub mod pixel;
pub mod surface;

pub use blend::{
    BlendMode, blend_color_burn_op, blend_color_dodge_op, blend_darken_op, blend_difference_op,
    blend_exclusion_op, blend_hard_light_op, blend_lighten_op, blend_multiply_op, blend_normal_op,
    blend_overlay_op, blend_screen_op, blend_soft_light_op,
};
pub use color::FIXED_ONE;
pub use composite::CompositeOperator;
pub use error::SurfaceError;
pub use pixel::{ColorChannel, Pixel, Rgba};
pub use surface::Surface;
