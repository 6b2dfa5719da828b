//! Session configuration and its validation.
//!
//! A configuration is checked once, before an analysis session starts;
//! a violation is a construction-time error, never an in-loop one.

use vstd::prelude::*;

verus! {

use crate::is_pow2;

/// Where audio is captured from.
#[derive(Debug, Clone, PartialEq, Eq, Structural)]
pub enum AudioCaptureMode {
    /// Capture from microphone/line input.
    Input,
    /// Capture system audio output (loopback).
    Loopback,
    /// Capture both input and system audio.
    Both,
}

/// Texture filtering mode for rendering.
#[derive(Debug, Clone, PartialEq, Eq, Structural)]
pub enum TextureFiltering {
    Nearest,
    Linear,
    Anisotropic,
}

/// Audio capture and analysis settings.
#[derive(Debug, Clone)]
pub struct AudioConfig {
    /// Audio device name (`None` for the default device).
    pub device_name: Option<String>,
    /// Sample rate in Hz.
    pub sample_rate: u32,
    /// Number of mono samples kept in the sliding history buffer.
    pub buffer_size: usize,
    /// Transform size for frequency analysis.
    pub fft_size: usize,
    /// Audio capture mode.
    pub capture_mode: AudioCaptureMode,
    /// Enable system audio loopback.
    pub enable_loopback: bool,
    /// Audio latency target in milliseconds.
    pub target_latency_ms: u32,
}

/// Rendering settings.
#[derive(Debug, Clone)]
pub struct GraphicsConfig {
    /// Target framerate.
    pub target_fps: u32,
    /// Enable VSync.
    pub vsync: bool,
    /// Window width in windowed mode.
    pub window_width: u32,
    /// Window height in windowed mode.
    pub window_height: u32,
    /// Start in fullscreen mode.
    pub start_fullscreen: bool,
    /// Enable multi-monitor support.
    pub multi_monitor: bool,
    /// Texture filtering mode.
    pub texture_filtering: TextureFiltering,
}

/// Overlay settings.
#[derive(Debug, Clone)]
pub struct UiConfig {
    /// Show the FPS counter.
    pub show_fps: bool,
    /// Show audio levels.
    pub show_audio_levels: bool,
    /// Show the preset name.
    pub show_preset_name: bool,
    /// UI scale factor in thousandths (`1000` is natural size).
    pub scale_factor: u32,
    /// Hide the UI after this many seconds of inactivity.
    pub auto_hide_ui_seconds: u32,
}

/// The complete session configuration.
#[derive(Debug, Clone)]
pub struct Config {
    pub audio: AudioConfig,
    pub graphics: GraphicsConfig,
    pub ui: UiConfig,
}

/// The reason a configuration was rejected.
#[derive(Debug, Clone, PartialEq, Eq, Structural)]
pub enum ConfigError {
    /// The sample rate is zero.
    InvalidSampleRate,
    /// The buffer size is zero or not a power of two.
    InvalidBufferSize,
    /// The transform size is zero, not a power of two, or too large to
    /// analyze without overflow.
    InvalidFftSize,
    /// The target framerate is zero.
    InvalidTargetFps,
    /// A window dimension is zero.
    InvalidWindowSize,
    /// The UI scale factor is zero.
    InvalidScaleFactor,
}

/// Largest transform size the integer pipeline accepts: large enough for
/// any audio use, small enough that spectral sums stay within `i64`.
pub const MAX_FFT_SIZE: usize = 65536;

/// What the analyzer itself needs of its audio settings.
pub open spec fn audio_config_valid(c: AudioConfig) -> bool {
    &&& c.sample_rate > 0
    &&& is_pow2(c.buffer_size as nat)
    &&& is_pow2(c.fft_size as nat)
    &&& c.fft_size <= MAX_FFT_SIZE
}

/// What `Config::validate` accepts.
pub open spec fn config_valid(c: Config) -> bool {
    &&& audio_config_valid(c.audio)
    &&& c.graphics.target_fps > 0
    &&& c.graphics.window_width > 0
    &&& c.graphics.window_height > 0
    &&& c.ui.scale_factor > 0
}

/// The built-in default configuration.
pub open spec fn spec_default_config() -> Config {
    Config {
        audio: AudioConfig {
            device_name: None,
            sample_rate: 44100,
            buffer_size: 1024,
            fft_size: 2048,
            capture_mode: AudioCaptureMode::Loopback,
            enable_loopback: true,
            target_latency_ms: 50,
        },
        graphics: GraphicsConfig {
            target_fps: 60,
            vsync: true,
            window_width: 1280,
            window_height: 720,
            start_fullscreen: false,
            multi_monitor: false,
            texture_filtering: TextureFiltering::Linear,
        },
        ui: UiConfig {
            show_fps: true,
            show_audio_levels: true,
            show_preset_name: true,
            scale_factor: 1000,
            auto_hide_ui_seconds: 5,
        },
    }
}

impl Default for Config {
    /// The default configuration: 44.1 kHz, a 1024-sample buffer and a
    /// 2048-point transform, windowed 1280x720 rendering.
    fn default() -> (c: Config)
        ensures
            c == spec_default_config(),
    {
        Config {
            audio: AudioConfig {
                device_name: None,
                sample_rate: 44100,
                buffer_size: 1024,
                fft_size: 2048,
                capture_mode: AudioCaptureMode::Loopback,
                enable_loopback: true,
                target_latency_ms: 50,
            },
            graphics: GraphicsConfig {
                target_fps: 60,
                vsync: true,
                window_width: 1280,
                window_height: 720,
                start_fullscreen: false,
                multi_monitor: false,
                texture_filtering: TextureFiltering::Linear,
            },
            ui: UiConfig {
                show_fps: true,
                show_audio_levels: true,
                show_preset_name: true,
                scale_factor: 1000,
                auto_hide_ui_seconds: 5,
            },
        }
    }
}

/// True exactly when `n` is a power of two.
pub fn check_pow2(n: usize) -> (b: bool)
    ensures
        b == is_pow2(n as nat),
{
    if n == 0 {
        return false;
    }
    let mut m: usize = n;
    while m > 1
        invariant
            m >= 1,
            is_pow2(n as nat) == is_pow2(m as nat),
        decreases m,
    {
        if m % 2 == 1 {
            return false;
        }
        m = m / 2;
    }
    true
}

impl Config {
    /// Checks every field the pipeline depends on; reports the first
    /// violation in field order.
    pub fn validate(&self) -> (r: Result<(), ConfigError>)
        ensures
            r is Ok <==> config_valid(*self),
            r == Err::<(), ConfigError>(ConfigError::InvalidSampleRate) <==> self.audio.sample_rate == 0,
            r == Err::<(), ConfigError>(ConfigError::InvalidBufferSize) <==> (self.audio.sample_rate > 0
                && !is_pow2(self.audio.buffer_size as nat)),
            r == Err::<(), ConfigError>(ConfigError::InvalidFftSize) <==> (self.audio.sample_rate > 0
                && is_pow2(self.audio.buffer_size as nat)
                && !(is_pow2(self.audio.fft_size as nat) && self.audio.fft_size <= MAX_FFT_SIZE)),
    {
        if self.audio.sample_rate == 0 {
            return Err(ConfigError::InvalidSampleRate);
        }
        if !check_pow2(self.audio.buffer_size) {
            return Err(ConfigError::InvalidBufferSize);
        }
        if !(check_pow2(self.audio.fft_size) && self.audio.fft_size <= MAX_FFT_SIZE) {
            return Err(ConfigError::InvalidFftSize);
        }
        if self.graphics.target_fps == 0 {
            return Err(ConfigError::InvalidTargetFps);
        }
        if self.graphics.window_width == 0 || self.graphics.window_height == 0 {
            return Err(ConfigError::InvalidWindowSize);
        }
        if self.ui.scale_factor == 0 {
            return Err(ConfigError::InvalidScaleFactor);
        }
        Ok(())
    }
}

} // verus!
