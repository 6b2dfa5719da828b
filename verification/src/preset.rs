//! The data carried for a visualization preset. The preset file format,
//! its expression interpreter and its rendering are external
//! collaborators; these are the values exchanged with them.

use vstd::prelude::*;

verus! {

use std::collections::HashMap;

/// Descriptive metadata of a preset.
#[derive(Debug, Clone)]
pub struct PresetMetadata {
    /// Preset name.
    pub name: String,
    /// Preset author.
    pub author: Option<String>,
    /// Preset rating (1-5).
    pub rating: Option<u8>,
    /// Preset description.
    pub description: Option<String>,
    /// Preset tags.
    pub tags: Vec<String>,
}

/// The equation sources of a preset.
#[derive(Debug, Clone)]
pub struct PresetEquations {
    /// Per-frame equations (executed once per frame).
    pub per_frame: Vec<String>,
    /// Per-vertex equations (executed for each vertex).
    pub per_vertex: Vec<String>,
    /// Per-pixel equations (shader code).
    pub per_pixel: Option<String>,
    /// Warp shader code.
    pub warp_shader: Option<String>,
    /// Composite shader code.
    pub comp_shader: Option<String>,
}

/// How a composite pass blends onto the frame.
#[derive(Debug, Clone, PartialEq, Eq, Structural)]
pub enum BlendMode {
    Normal,
    Add,
    Subtract,
    Multiply,
    Screen,
    Overlay,
}

/// Converts presets to shader sources, caching what it has produced.
pub struct PresetRenderer {
    /// Shader cache, keyed by preset name.
    pub shader_cache: HashMap<String, String>,
}

impl PresetRenderer {
    /// A renderer with an empty cache.
    pub fn new() -> (r: PresetRenderer)
        ensures
            r.shader_cache@.len() == 0,
    {
        PresetRenderer { shader_cache: HashMap::new() }
    }
}

} // verus!
