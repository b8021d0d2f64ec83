//! State of the status panel: what is shown, the model's statistics, and
//! the frame counter behind the FPS readout.
use vstd::prelude::*;

verus! {

/// What the status panel shows and the switches it offers.
pub struct UiState {
    pub show_panel: bool,
    pub show_grid: bool,
    pub pixelated: bool,
    pub model_path: String,
    pub use_texture: bool,
    pub vertex_count: u32,
    pub triangle_count: u32,
    /// Frames drawn since the FPS readout was last updated.
    pub frame_count: u32,
}

/// `s` with the panel's visibility switched.
pub open spec fn panel_toggled(s: UiState) -> UiState {
    UiState { show_panel: !s.show_panel, ..s }
}

impl UiState {
    /// The state at start-up: panel, grid and texture on, smooth texture
    /// filtering, no model statistics yet, no frames counted.
    pub fn new(model_path: String, _texture_path: String) -> (r: UiState)
        ensures
            r == (UiState {
                show_panel: true,
                show_grid: true,
                pixelated: false,
                model_path,
                use_texture: true,
                vertex_count: 0,
                triangle_count: 0,
                frame_count: 0,
            }),
    {
        UiState {
            show_panel: true,
            show_grid: true,
            pixelated: false,
            model_path,
            use_texture: true,
            vertex_count: 0,
            triangle_count: 0,
            frame_count: 0,
        }
    }

    /// Shows the panel if it is hidden, hides it if it is shown.
    pub fn toggle_panel(&mut self)
        ensures
            *final(self) == panel_toggled(*old(self)),
    {
        self.show_panel = !self.show_panel;
    }

    /// Records the statistics of the displayed model: its vertex count and,
    /// from its index count, the number of triangles (three indices each).
    pub fn set_model_stats(&mut self, vertex_count: u32, index_count: u32)
        ensures
            *final(self) == (UiState { vertex_count, triangle_count: index_count / 3, ..*old(self) }),
    {
        self.vertex_count = vertex_count;
        self.triangle_count = index_count / 3;
    }

    /// Counts one drawn frame. When the measuring window has run out
    /// (`window_elapsed`), returns the frames counted in it, this one
    /// included, and starts a new window; otherwise returns `None`. The
    /// counter wraps around at `u32::MAX`.
    pub fn record_frame(&mut self, window_elapsed: bool) -> (r: Option<u32>)
        ensures
            window_elapsed ==> r == Some(old(self).frame_count.wrapping_add(1))
                && *final(self) == (UiState { frame_count: 0, ..*old(self) }),
            !window_elapsed ==> r is None
                && *final(self) == (UiState { frame_count: old(self).frame_count.wrapping_add(1), ..*old(self) }),
    {
        self.frame_count = self.frame_count.wrapping_add(1);
        if window_elapsed {
            let n = self.frame_count;
            self.frame_count = 0;
            Some(n)
        } else {
            None
        }
    }
}

/// Switching the panel twice leaves the state as it was.
pub proof fn lemma_toggle_panel_twice(s: UiState)
    ensures
        panel_toggled(panel_toggled(s)) == s,
{
}

} // verus!
