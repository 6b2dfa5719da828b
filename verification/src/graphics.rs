//! Settings at the boundary to the rendering collaborator. Rendering
//! itself is outside this crate.

use vstd::prelude::*;

verus! {

/// Graphics system configuration.
#[derive(Debug, Clone)]
pub struct GraphicsConfig {
    /// Window title.
    pub window_title: String,
    /// Initial window width.
    pub width: u32,
    /// Initial window height.
    pub height: u32,
    /// Target FPS for rendering.
    pub target_fps: u32,
    /// Enable vsync.
    pub vsync: bool,
    /// Enable fullscreen on startup.
    pub fullscreen: bool,
}

impl Default for GraphicsConfig {
    /// A windowed 1280x720 surface at 60 FPS with vsync.
    fn default() -> (c: GraphicsConfig)
        ensures
            c.window_title@ == "RustDrop Visualizer"@,
            c.width == 1280,
            c.height == 720,
            c.target_fps == 60,
            c.vsync == true,
            c.fullscreen == false,
    {
        GraphicsConfig {
            window_title: "RustDrop Visualizer".to_owned(),
            width: 1280,
            height: 720,
            target_fps: 60,
            vsync: true,
            fullscreen: false,
        }
    }
}

} // verus!
