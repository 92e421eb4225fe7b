//! How the window is opened and where captures go.
use vstd::prelude::*;

verus! {

/// Settings of an application.
#[derive(Clone, Debug)]
pub struct AppConfig {
    pub title: String,
    /// Initial size in physical pixels.
    pub width: u32,
    pub height: u32,
    pub decorations: bool,
    pub transparent: bool,
    pub blur: bool,
    /// Directory that screenshots are written to.
    pub capture_dir: String,
}

impl AppConfig {
    /// A frameless, transparent, blurred window.
    pub fn new(title: String, width: u32, height: u32) -> (r: Self)
        ensures
            r.title == title,
            r.width == width,
            r.height == height,
            !r.decorations,
            r.transparent,
            r.blur,
            r.capture_dir@ == "debug_captures"@,
    {
        AppConfig {
            title,
            width,
            height,
            decorations: false,
            transparent: true,
            blur: true,
            capture_dir: "debug_captures".to_owned(),
        }
    }
}

} // verus!
