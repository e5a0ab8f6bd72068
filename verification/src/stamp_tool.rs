//! The capture and placement state of the stamp tool, and what switching
//! between its Single and Scatter modes does to it: a pattern captured for
//! one mode is dropped and the tool waits for a new capture.

use vstd::prelude::*;
use crate::stamp_command::StampCommand;
use crate::stamp_transform::StampPattern;

verus! {

/// Stamp one pattern per click, or scatter its objects with a brush.
#[derive(Debug, Clone, Copy, PartialEq, Eq, Structural)]
pub enum StampMode {
    Single,
    Scatter,
}

/// The stamp tool's capture and placement state (its numeric options live
/// with the panel).
#[derive(Debug)]
pub struct StampState {
    /// Captured pattern, `None` until a capture rectangle is dragged.
    pub pattern: Option<StampPattern>,
    /// Waiting for a capture drag.
    pub capture_mode: bool,
    /// Start tile of the capture drag in progress.
    pub capture_start: Option<(u32, u32)>,
    /// Hover origin of the placement preview.
    pub preview_pos: Option<(u32, u32)>,
    pub mode: StampMode,
    /// Scatter commands of the drag stroke in progress.
    pub scatter_stroke: Vec<StampCommand>,
    /// Tile of the last scatter burst.
    pub scatter_last_tile: Option<(u32, u32)>,
}

impl StampState {
    /// A tool in Single mode, waiting for a capture.
    pub fn new() -> (r: Self)
        ensures
            r.pattern is None,
            r.capture_mode,
            r.capture_start is None,
            r.preview_pos is None,
            r.mode == StampMode::Single,
            r.scatter_stroke@.len() == 0,
            r.scatter_last_tile is None,
    {
        StampState {
            pattern: None,
            capture_mode: true,
            capture_start: None,
            preview_pos: None,
            mode: StampMode::Single,
            scatter_stroke: Vec::new(),
            scatter_last_tile: None,
        }
    }

    /// Choose the mode. Switching to the other mode drops the captured
    /// pattern, the capture drag, the preview and any scatter stroke, and
    /// waits for a new capture; choosing the current mode changes nothing.
    /// Returns whether the mode changed.
    pub fn select_mode(&mut self, mode: StampMode) -> (changed: bool)
        ensures
            changed == (mode != old(self).mode),
            final(self).mode == mode,
            !changed ==> *final(self) == *old(self),
            changed ==> {
                &&& final(self).pattern is None
                &&& final(self).capture_mode
                &&& final(self).capture_start is None
                &&& final(self).preview_pos is None
                &&& final(self).scatter_stroke@.len() == 0
                &&& final(self).scatter_last_tile is None
            },
    {
        if mode == self.mode {
            return false;
        }
        self.mode = mode;
        self.pattern = None;
        self.capture_mode = true;
        self.preview_pos = None;
        self.capture_start = None;
        self.scatter_stroke.clear();
        self.scatter_last_tile = None;
        true
    }

    /// Leave capture mode for stamping, offered while a pattern is held;
    /// returns whether it switched.
    pub fn switch_to_stamp_mode(&mut self) -> (switched: bool)
        ensures
            switched == (old(self).capture_mode && old(self).pattern is Some),
            switched ==> *final(self) == (StampState { capture_mode: false, ..*old(self) }),
            !switched ==> *final(self) == *old(self),
    {
        if self.capture_mode && self.pattern.is_some() {
            self.capture_mode = false;
            true
        } else {
            false
        }
    }

    /// Drop the pattern being stamped and wait for a new capture, offered
    /// in stamp mode; returns whether it did.
    pub fn recapture(&mut self) -> (done: bool)
        ensures
            done == (!old(self).capture_mode && old(self).pattern is Some),
            done ==> *final(self) == (StampState { capture_mode: true, pattern: None, ..*old(self) }),
            !done ==> *final(self) == *old(self),
    {
        if !self.capture_mode && self.pattern.is_some() {
            self.capture_mode = true;
            self.pattern = None;
            true
        } else {
            false
        }
    }

    /// Start waiting for a capture when neither capturing nor holding a
    /// pattern; returns whether it did.
    pub fn begin_capture(&mut self) -> (done: bool)
        ensures
            done == (!old(self).capture_mode && old(self).pattern is None),
            done ==> *final(self) == (StampState { capture_mode: true, ..*old(self) }),
            !done ==> *final(self) == *old(self),
    {
        if !self.capture_mode && self.pattern.is_none() {
            self.capture_mode = true;
            true
        } else {
            false
        }
    }

    /// Right click: abandon the capture drag in progress, or else leave
    /// stamp mode, dropping the pattern and its preview. Returns whether
    /// anything was cancelled.
    pub fn on_secondary_click(&mut self) -> (handled: bool)
        ensures
            old(self).capture_start is Some ==> handled && *final(self) == (StampState {
                capture_start: None,
                ..*old(self)
            }),
            old(self).capture_start is None && !old(self).capture_mode && old(self).pattern is Some ==> handled
                && *final(self) == (StampState {
                capture_mode: true,
                pattern: None,
                preview_pos: None,
                ..*old(self)
            }),
            old(self).capture_start is None && !(!old(self).capture_mode && old(self).pattern is Some) ==> !handled
                && *final(self) == *old(self),
    {
        if self.capture_start.is_some() {
            self.capture_start = None;
            return true;
        }
        if !self.capture_mode && self.pattern.is_some() {
            self.capture_mode = true;
            self.pattern = None;
            self.preview_pos = None;
            return true;
        }
        false
    }
}

} // verus!
