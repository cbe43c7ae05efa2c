use vstd::prelude::*;

verus! {

/// What the application asks of its event loop.
#[derive(Debug, Copy, Clone, PartialEq, Eq, Structural)]
pub enum AppResult {
    Idle,
    Exit,
}

/// What to do about a change of the window's size.
#[derive(Debug, Copy, Clone, PartialEq, Eq, Structural)]
pub enum ResizeAction {
    /// The first size report after the window opens; nothing to do.
    Ignore,
    /// A dimension is zero: stop rendering until the window has a size again.
    Suspend,
    /// Rebuild the swapchain at the new size; when rendering was running, the scene's aspect
    /// ratio is updated first.
    Resize { width: u32, height: u32, update_aspect: bool },
}

/// The window-level state of the application: whether it should exit, whether rendering runs,
/// and whether the first size report is still to come.
pub struct WindowState {
    app_finished: bool,
    rendering_active: bool,
    first_resize: bool,
}

impl WindowState {
    /// Exit was requested.
    pub closed spec fn finished(&self) -> bool {
        self.app_finished
    }

    /// Rendering runs.
    pub closed spec fn active(&self) -> bool {
        self.rendering_active
    }

    /// The first size report is still to come.
    pub closed spec fn awaiting_first_resize(&self) -> bool {
        self.first_resize
    }

    /// The first window of the process: rendering runs, no exit requested, and the first size
    /// report is still to come.
    pub fn new() -> (s: Self)
        ensures
            !s.finished(),
            s.active(),
            s.awaiting_first_resize(),
    {
        WindowState { app_finished: false, rendering_active: true, first_resize: true }
    }

    /// The state for a window opened again (after the application resumes): rendering runs and
    /// no exit is requested, but the first size report is ignored only once per process, so
    /// whether it is still to come carries over from this state.
    pub fn reopened(&self) -> (s: Self)
        ensures
            !s.finished(),
            s.active(),
            s.awaiting_first_resize() == self.awaiting_first_resize(),
    {
        WindowState { app_finished: false, rendering_active: true, first_resize: self.first_resize }
    }

    /// Exit was requested.
    pub fn is_finished(&self) -> (b: bool)
        ensures
            b == self.finished(),
    {
        self.app_finished
    }

    /// Records a request to close the window (or to go back).
    pub fn request_close(&mut self)
        ensures
            final(self).finished(),
            final(self).active() == old(self).active(),
            final(self).awaiting_first_resize() == old(self).awaiting_first_resize(),
    {
        self.app_finished = true;
    }

    /// A redraw produces a frame only while no exit is requested and rendering runs.
    pub fn renders(&self) -> (b: bool)
        ensures
            b == (!self.finished() && self.active()),
    {
        !self.app_finished && self.rendering_active
    }

    /// Handles a new window size.
    pub fn on_resized(&mut self, width: u32, height: u32) -> (a: ResizeAction)
        ensures
            final(self).finished() == old(self).finished(),
            !final(self).awaiting_first_resize(),
            old(self).awaiting_first_resize() ==> a == ResizeAction::Ignore && final(self).active()
                == old(self).active(),
            !old(self).awaiting_first_resize() && (width == 0 || height == 0) ==> a
                == ResizeAction::Suspend && !final(self).active(),
            !old(self).awaiting_first_resize() && width != 0 && height != 0 ==> a
                == (ResizeAction::Resize { width, height, update_aspect: old(self).active() })
                && final(self).active(),
    {
        if self.first_resize {
            self.first_resize = false;
            return ResizeAction::Ignore;
        }
        if width == 0 || height == 0 {
            self.rendering_active = false;
            ResizeAction::Suspend
        } else {
            let update_aspect = self.rendering_active;
            self.rendering_active = true;
            ResizeAction::Resize { width, height, update_aspect }
        }
    }
}

/// The preference for a fullscreen video mode: width first, refresh rate (in millihertz)
/// second.
pub open spec fn video_mode_score(mode: (u32, u32)) -> int {
    mode.0 * 5000 + mode.1
}

/// Mode `k` is a best fullscreen mode: none is preferred to it, and none after it is preferred
/// as much.
pub open spec fn is_best_video_mode(modes: Seq<(u32, u32)>, k: int) -> bool {
    &&& 0 <= k < modes.len()
    &&& forall|j: int| 0 <= j < modes.len() ==> video_mode_score(modes[j]) <= video_mode_score(modes[k])
    &&& forall|j: int| k < j < modes.len() ==> video_mode_score(modes[j]) < video_mode_score(modes[k])
}

/// The fullscreen video mode to use: the one with the highest preference, the last of them on
/// a tie; `None` when there is no mode.
pub fn pick_fullscreen_mode(modes: &[(u32, u32)]) -> (m: Option<usize>)
    requires
        forall|i: int| 0 <= i < modes@.len() ==> video_mode_score(#[trigger] modes@[i]) <= u32::MAX,
    ensures
        modes@.len() == 0 <==> m is None,
        m matches Some(k) ==> is_best_video_mode(modes@, k as int),
        m matches Some(k) ==> k < modes@.len() && (forall|j: int|
            0 <= j < modes@.len() ==> video_mode_score(modes@[j]) <= video_mode_score(
                modes@[k as int],
            )) && (forall|j: int|
            k < j < modes@.len() ==> video_mode_score(modes@[j]) < video_mode_score(
                modes@[k as int],
            )),
{
    if modes.len() == 0 {
        return None;
    }
    assert(video_mode_score(modes@[0]) <= u32::MAX);
    let mut best: usize = 0;
    let mut best_score: u32 = modes[0].0 * 5000 + modes[0].1;
    let mut i: usize = 1;
    while i < modes.len()
        invariant
            forall|j: int| 0 <= j < modes@.len() ==> video_mode_score(#[trigger] modes@[j]) <= u32::MAX,
            1 <= i <= modes@.len(),
            best < i,
            best_score == video_mode_score(modes@[best as int]),
            forall|j: int| 0 <= j < i ==> video_mode_score(modes@[j]) <= best_score,
            forall|j: int| best < j < i ==> video_mode_score(modes@[j]) < best_score,
        decreases modes@.len() - i,
    {
        assert(video_mode_score(modes@[i as int]) <= u32::MAX);
        let s: u32 = modes[i].0 * 5000 + modes[i].1;
        if s >= best_score {
            best = i;
            best_score = s;
        }
        i = i + 1;
    }
    Some(best)
}

/// Trail circles older than two seconds before `trail_id` (a time in milliseconds) are
/// dropped; the threshold stops at zero.
pub fn trail_removal_threshold(trail_id: u64) -> (t: u64)
    ensures
        t == if trail_id >= 2000 {
            (trail_id - 2000) as u64
        } else {
            0
        },
{
    trail_id.saturating_sub(2000)
}

} // verus!
