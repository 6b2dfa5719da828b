//! The overlay's state machine: visibility and the selected preset.
//! Drawing is left to the rendering collaborator; this module decides
//! what the overlay shows.

use vstd::prelude::*;

verus! {

/// An input event the overlay reacts to.
#[derive(Debug, Clone)]
pub enum Message {
    ToggleOverlay,
    HideOverlay,
    NextPreset,
    PreviousPreset,
}

/// Overlay state: visibility and the position in the preset list.
pub struct IcedIntegration {
    pub is_overlay_visible: bool,
    pub current_preset_index: usize,
    pub preset_count: usize,
}

/// What the preset-position line renders to: it depends on the two
/// positions alone.
pub uninterp spec fn preset_line_of(current: int, count: int) -> Seq<char>;

/// Relies on the `format` macro of std: renders the one-based preset
/// position, e.g. `PRESET 3/10`.
#[verifier::external_body]
fn fmt_preset_line(current: usize, count: usize) -> (r: String)
    requires
        current < usize::MAX,
    ensures
        r@ == preset_line_of(current as int, count as int),
{
    format!("PRESET {}/{}", current + 1, count)
}

impl IcedIntegration {
    /// A hidden overlay with no presets known yet.
    pub fn new() -> (r: IcedIntegration)
        ensures
            r.is_overlay_visible == false,
            r.current_preset_index == 0,
            r.preset_count == 0,
    {
        IcedIntegration { is_overlay_visible: false, current_preset_index: 0, preset_count: 0 }
    }

    pub fn is_overlay_visible(&self) -> (v: bool)
        ensures
            v == self.is_overlay_visible,
    {
        self.is_overlay_visible
    }

    pub fn toggle_overlay(&mut self)
        ensures
            final(self).is_overlay_visible == !old(self).is_overlay_visible,
            final(self).current_preset_index == old(self).current_preset_index,
            final(self).preset_count == old(self).preset_count,
    {
        self.is_overlay_visible = !self.is_overlay_visible;
    }

    pub fn hide_overlay(&mut self)
        ensures
            final(self).is_overlay_visible == false,
            final(self).current_preset_index == old(self).current_preset_index,
            final(self).preset_count == old(self).preset_count,
    {
        self.is_overlay_visible = false;
    }

    pub fn show_overlay(&mut self)
        ensures
            final(self).is_overlay_visible == true,
            final(self).current_preset_index == old(self).current_preset_index,
            final(self).preset_count == old(self).preset_count,
    {
        self.is_overlay_visible = true;
    }

    /// The lines the overlay shows: nothing while hidden; the banner, the
    /// two key hints and the preset position while visible.
    pub fn get_overlay_text(&self) -> (lines: Vec<String>)
        requires
            self.current_preset_index < usize::MAX,
        ensures
            !self.is_overlay_visible ==> lines@.len() == 0,
            self.is_overlay_visible ==> lines@.len() == 4 && lines@[0]@ == "OVERLAY ON"@
                && lines@[1]@ == "TAB = TOGGLE"@ && lines@[2]@ == "ESC = HIDE"@ && lines@[3]@
                == preset_line_of(self.current_preset_index as int, self.preset_count as int),
    {
        let mut lines: Vec<String> = Vec::new();
        if !self.is_overlay_visible {
            return lines;
        }
        lines.push("OVERLAY ON".to_owned());
        lines.push("TAB = TOGGLE".to_owned());
        lines.push("ESC = HIDE".to_owned());
        lines.push(fmt_preset_line(self.current_preset_index, self.preset_count));
        lines
    }

    /// Applies one message: visibility changes directly, preset selection
    /// steps through the list cyclically and is inert while it is empty.
    pub fn update(&mut self, message: Message)
        requires
            old(self).current_preset_index < usize::MAX,
        ensures
            final(self).preset_count == old(self).preset_count,
            message is ToggleOverlay ==> final(self).is_overlay_visible == !old(self).is_overlay_visible
                && final(self).current_preset_index == old(self).current_preset_index,
            message is HideOverlay ==> final(self).is_overlay_visible == false
                && final(self).current_preset_index == old(self).current_preset_index,
            message is NextPreset ==> final(self).is_overlay_visible == old(self).is_overlay_visible
                && final(self).current_preset_index == (if old(self).preset_count > 0 {
                    (old(self).current_preset_index + 1) as int % old(self).preset_count as int
                } else {
                    old(self).current_preset_index as int
                }),
            message is PreviousPreset ==> final(self).is_overlay_visible == old(self).is_overlay_visible
                && final(self).current_preset_index == (if old(self).preset_count > 0 {
                    if old(self).current_preset_index == 0 {
                        old(self).preset_count as int - 1
                    } else {
                        old(self).current_preset_index as int - 1
                    }
                } else {
                    old(self).current_preset_index as int
                }),
    {
        match message {
            Message::ToggleOverlay => {
                self.toggle_overlay();
            },
            Message::HideOverlay => {
                self.hide_overlay();
            },
            Message::NextPreset => {
                if self.preset_count > 0 {
                    self.current_preset_index = (self.current_preset_index + 1) % self.preset_count;
                }
            },
            Message::PreviousPreset => {
                if self.preset_count > 0 {
                    if self.current_preset_index == 0 {
                        self.current_preset_index = self.preset_count - 1;
                    } else {
                        self.current_preset_index = self.current_preset_index - 1;
                    }
                }
            },
        }
    }
}

} // verus!
