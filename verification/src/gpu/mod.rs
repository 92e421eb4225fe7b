//! What the renderer is told to do, and what it reports back.
pub mod instance;
pub mod memory;
pub mod image_atlas;
pub mod blur;
pub mod timing;
pub mod upload;
pub mod context;
pub mod capture;
pub mod surface;
