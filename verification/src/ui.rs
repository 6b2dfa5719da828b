//! Text-based UI rendering for tests, menu navigation values, and preset
//! statistics.

use vstd::prelude::*;

verus! {

use std::collections::HashMap;

/// A text-based UI renderer: records each drawing call as one line.
pub struct SimpleUIRenderer {
    pub output_buffer: Vec<String>,
    pub width: u32,
    pub height: u32,
}

/// What a text draw renders to: a function of the position and the text.
pub uninterp spec fn text_line_of(x: int, y: int, text: Seq<char>) -> Seq<char>;

/// What a rectangle draw renders to: a function of position and size.
pub uninterp spec fn rect_line_of(x: int, y: int, width: int, height: int) -> Seq<char>;

/// What a line draw renders to: a function of its two endpoints.
pub uninterp spec fn line_line_of(x1: int, y1: int, x2: int, y2: int) -> Seq<char>;

/// Relies on the `format` macro of std: one line describing a text draw.
#[verifier::external_body]
fn fmt_text_line(x: i64, y: i64, text: &str) -> (r: String)
    ensures
        r@ == text_line_of(x as int, y as int, text@),
{
    format!("Text at ({}, {}): {}", x, y, text)
}

/// Relies on the `format` macro of std: one line describing a rectangle.
#[verifier::external_body]
fn fmt_rect_line(x: i64, y: i64, width: i64, height: i64) -> (r: String)
    ensures
        r@ == rect_line_of(x as int, y as int, width as int, height as int),
{
    format!("Rect at ({}, {}) size {}x{}", x, y, width, height)
}

/// Relies on the `format` macro of std: one line describing a line draw.
#[verifier::external_body]
fn fmt_line_line(x1: i64, y1: i64, x2: i64, y2: i64) -> (r: String)
    ensures
        r@ == line_line_of(x1 as int, y1 as int, x2 as int, y2 as int),
{
    format!("Line from ({}, {}) to ({}, {})", x1, y1, x2, y2)
}

impl SimpleUIRenderer {
    /// Create a new simple UI renderer.
    pub fn new(width: u32, height: u32) -> (r: SimpleUIRenderer)
        ensures
            r.output_buffer@.len() == 0,
            r.width == width,
            r.height == height,
    {
        SimpleUIRenderer { output_buffer: Vec::new(), width, height }
    }

    /// Records a text draw as one output line.
    pub fn draw_text(&mut self, x: i64, y: i64, text: &str)
        ensures
            final(self).output_buffer@.len() == old(self).output_buffer@.len() + 1,
            forall|j: int|
                0 <= j < old(self).output_buffer@.len() ==> #[trigger] final(self).output_buffer@[j]
                    == old(self).output_buffer@[j],
            final(self).output_buffer@.last()@ == text_line_of(x as int, y as int, text@),
            final(self).width == old(self).width,
            final(self).height == old(self).height,
    {
        let line = fmt_text_line(x, y, text);
        self.output_buffer.push(line);
    }

    /// Records a rectangle draw as one output line.
    pub fn draw_rect(&mut self, x: i64, y: i64, width: i64, height: i64)
        ensures
            final(self).output_buffer@.len() == old(self).output_buffer@.len() + 1,
            forall|j: int|
                0 <= j < old(self).output_buffer@.len() ==> #[trigger] final(self).output_buffer@[j]
                    == old(self).output_buffer@[j],
            final(self).output_buffer@.last()@ == rect_line_of(
                x as int,
                y as int,
                width as int,
                height as int,
            ),
            final(self).width == old(self).width,
            final(self).height == old(self).height,
    {
        let line = fmt_rect_line(x, y, width, height);
        self.output_buffer.push(line);
    }

    /// Records a line draw as one output line.
    pub fn draw_line(&mut self, x1: i64, y1: i64, x2: i64, y2: i64)
        ensures
            final(self).output_buffer@.len() == old(self).output_buffer@.len() + 1,
            forall|j: int|
                0 <= j < old(self).output_buffer@.len() ==> #[trigger] final(self).output_buffer@[j]
                    == old(self).output_buffer@[j],
            final(self).output_buffer@.last()@ == line_line_of(
                x1 as int,
                y1 as int,
                x2 as int,
                y2 as int,
            ),
            final(self).width == old(self).width,
            final(self).height == old(self).height,
    {
        let line = fmt_line_line(x1, y1, x2, y2);
        self.output_buffer.push(line);
    }

    /// The window dimensions this renderer was created with.
    pub fn get_window_dimensions(&self) -> (d: (u32, u32))
        ensures
            d.0 == self.width,
            d.1 == self.height,
    {
        (self.width, self.height)
    }

    /// Get the rendered output.
    pub fn get_output(&self) -> (out: &Vec<String>)
        ensures
            out@ == self.output_buffer@,
    {
        &self.output_buffer
    }

    /// Clear the output buffer.
    pub fn clear(&mut self)
        ensures
            final(self).output_buffer@.len() == 0,
            final(self).width == old(self).width,
            final(self).height == old(self).height,
    {
        self.output_buffer.clear();
    }
}

/// Menu navigation direction.
#[derive(Debug, Clone, PartialEq, Eq, Structural)]
pub enum MenuDirection {
    Up,
    Down,
    Left,
    Right,
}

/// Statistics about loaded presets.
#[derive(Debug, Clone)]
pub struct PresetStatistics {
    pub total_presets: usize,
    pub total_categories: usize,
    pub category_counts: HashMap<String, usize>,
}

} // verus!
