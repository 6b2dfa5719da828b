use wcr_viz::config::{AudioCaptureMode, Config, ConfigError, TextureFiltering};
use wcr_viz::graphics::GraphicsConfig;
use wcr_viz::iced_integration::{IcedIntegration, Message};
use wcr_viz::preset::{BlendMode, PresetRenderer};
use wcr_viz::ui::SimpleUIRenderer;

#[test]
fn test_simple_renderer() {
    let mut renderer = SimpleUIRenderer::new(800, 600);
    renderer.draw_text(10, 10, "Hello World");
    renderer.draw_rect(50, 50, 100, 50);
    let output = renderer.get_output();
    assert_eq!(output.len(), 2);
    assert_eq!(output[0], "Text at (10, 10): Hello World");
    assert!(output[0].contains("Hello World"));
    assert!(output[1].contains("Rect"));
    assert_eq!(output[1], "Rect at (50, 50) size 100x50");
}

#[test]
fn simple_renderer_clear_and_dimensions() {
    let mut renderer = SimpleUIRenderer::new(640, 480);
    assert_eq!(renderer.get_window_dimensions(), (640, 480));
    renderer.draw_line(0, 0, 10, 10);
    assert_eq!(renderer.get_output().len(), 1);
    assert_eq!(renderer.get_output()[0], "Line from (0, 0) to (10, 10)");
    renderer.clear();
    assert_eq!(renderer.get_output().len(), 0);
}

#[test]
fn default_config_is_valid() {
    let config = Config::default();
    assert!(config.validate().is_ok());
    assert_eq!(config.audio.sample_rate, 44100);
    assert_eq!(config.audio.buffer_size, 1024);
    assert_eq!(config.audio.fft_size, 2048);
    assert!(matches!(config.audio.capture_mode, AudioCaptureMode::Loopback));
    assert!(matches!(config.graphics.texture_filtering, TextureFiltering::Linear));
}

#[test]
fn config_validation_reports_first_violation() {
    let mut config = Config::default();
    config.audio.sample_rate = 0;
    assert_eq!(config.validate(), Err(ConfigError::InvalidSampleRate));

    let mut config = Config::default();
    config.audio.buffer_size = 1000;
    assert_eq!(config.validate(), Err(ConfigError::InvalidBufferSize));

    let mut config = Config::default();
    config.audio.fft_size = 0;
    assert_eq!(config.validate(), Err(ConfigError::InvalidFftSize));

    let mut config = Config::default();
    config.audio.fft_size = 1 << 20;
    assert_eq!(config.validate(), Err(ConfigError::InvalidFftSize));

    let mut config = Config::default();
    config.graphics.target_fps = 0;
    assert_eq!(config.validate(), Err(ConfigError::InvalidTargetFps));

    let mut config = Config::default();
    config.graphics.window_height = 0;
    assert_eq!(config.validate(), Err(ConfigError::InvalidWindowSize));

    let mut config = Config::default();
    config.ui.scale_factor = 0;
    assert_eq!(config.validate(), Err(ConfigError::InvalidScaleFactor));
}

#[test]
fn graphics_config_default_values() {
    let g = GraphicsConfig::default();
    assert_eq!(g.window_title, "RustDrop Visualizer");
    assert_eq!(g.width, 1280);
    assert_eq!(g.height, 720);
    assert!(g.vsync);
    assert!(!g.fullscreen);
}

#[test]
fn overlay_starts_hidden_and_toggles() {
    let mut overlay = IcedIntegration::new();
    assert!(!overlay.is_overlay_visible());
    overlay.toggle_overlay();
    assert!(overlay.is_overlay_visible());
    overlay.toggle_overlay();
    assert!(!overlay.is_overlay_visible());
    overlay.show_overlay();
    assert!(overlay.is_overlay_visible());
    overlay.hide_overlay();
    assert!(!overlay.is_overlay_visible());
}

#[test]
fn overlay_text_lines() {
    let mut overlay = IcedIntegration::new();
    assert!(overlay.get_overlay_text().is_empty());
    overlay.show_overlay();
    let lines = overlay.get_overlay_text();
    assert_eq!(lines.len(), 4);
    assert_eq!(lines[0], "OVERLAY ON");
    assert_eq!(lines[1], "TAB = TOGGLE");
    assert_eq!(lines[2], "ESC = HIDE");
    assert_eq!(lines[3], "PRESET 1/0");
}

#[test]
fn overlay_update_cycles_presets() {
    let mut overlay = IcedIntegration::new();
    overlay.preset_count = 3;
    overlay.update(Message::NextPreset);
    assert_eq!(overlay.current_preset_index, 1);
    overlay.update(Message::NextPreset);
    overlay.update(Message::NextPreset);
    assert_eq!(overlay.current_preset_index, 0);
    overlay.update(Message::PreviousPreset);
    assert_eq!(overlay.current_preset_index, 2);
    overlay.update(Message::ToggleOverlay);
    assert!(overlay.is_overlay_visible());
    overlay.update(Message::HideOverlay);
    assert!(!overlay.is_overlay_visible());
}

#[test]
fn overlay_update_is_inert_without_presets() {
    let mut overlay = IcedIntegration::new();
    overlay.update(Message::NextPreset);
    assert_eq!(overlay.current_preset_index, 0);
    overlay.update(Message::PreviousPreset);
    assert_eq!(overlay.current_preset_index, 0);
}

#[test]
fn preset_renderer_starts_with_empty_cache() {
    let renderer = PresetRenderer::new();
    assert!(renderer.shader_cache.is_empty());
}

#[test]
fn blend_modes_compare_structurally() {
    assert_eq!(BlendMode::Add, BlendMode::Add);
    assert_ne!(BlendMode::Add, BlendMode::Screen);
}
