//! The ST7735S display: geometry, framebuffers and what is drawn into them.

pub mod basic;
pub mod frame;
pub mod line;
pub mod mode;
pub mod panel;
pub mod raster;
pub mod render_loop;
pub mod scene;
pub mod shader;
pub mod wireframe;
pub mod wrap;
