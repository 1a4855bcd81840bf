//! The decisions of the game loop around each frame and window event: what
//! a frame draws, which frame slot comes next, what a presentation result
//! calls for, what a window event does, and which errors end the game.
use vstd::prelude::*;
use crate::text::chars_of;

verus! {

/// Seconds the loading screen shows before the engine starts.
pub const LOADING_SECONDS: u64 = 3;

/// What a frame draws: the loading screen, starting the engine when the
/// loading time is up, or the menu.
#[derive(Debug, Clone, Copy, PartialEq, Eq, Structural)]
pub enum FrameStage {
    Loading { start_engine: bool },
    Menu,
}

/// The stage of a frame: the loading screen until the engine runs, asking
/// for the engine once `elapsed_secs` reaches the loading time; then the
/// menu.
pub fn frame_stage(engine_ready: bool, elapsed_secs: u64) -> (r: FrameStage)
    ensures
        !engine_ready ==> r == (FrameStage::Loading { start_engine: elapsed_secs >= LOADING_SECONDS }),
        engine_ready ==> r == FrameStage::Menu,
{
    if !engine_ready {
        FrameStage::Loading { start_engine: elapsed_secs >= LOADING_SECONDS }
    } else {
        FrameStage::Menu
    }
}

/// The frame slot after `current`, cycling through `frames_in_flight`.
pub fn next_frame(current: usize, frames_in_flight: usize) -> (r: usize)
    requires
        frames_in_flight > 0,
        current < usize::MAX,
    ensures
        r == (current + 1) % (frames_in_flight as int),
        r < frames_in_flight,
{
    (current + 1) % frames_in_flight
}

/// The frame slot `steps` steps after slot `k`, cycling through `n` slots.
pub open spec fn slot_after(k: int, n: int, steps: nat) -> int
    decreases steps,
{
    if steps == 0 {
        k
    } else {
        (slot_after(k, n, (steps - 1) as nat) + 1) % n
    }
}

/// Cycling through `n` frame slots from slot `k`: after `steps` steps the
/// slot is `k + steps` modulo `n`, so it stays below `n`, and after `n`
/// steps it is back at `k`.
pub proof fn lemma_frames_cycle(k: int, n: int, steps: nat)
    requires
        0 <= k < n,
    ensures
        slot_after(k, n, steps) == (k + steps) % n,
        0 <= slot_after(k, n, steps) < n,
        slot_after(k, n, n as nat) == k,
{
    lemma_slot_mod(k, n, steps);
    vstd::arithmetic::div_mod::lemma_mod_pos_bound(k + steps, n);
    lemma_slot_after_n(k, n);
}

proof fn lemma_slot_after_n(k: int, n: int)
    requires
        0 <= k < n,
    ensures
        slot_after(k, n, n as nat) == k,
{
    lemma_slot_mod(k, n, n as nat);
    vstd::arithmetic::div_mod::lemma_mod_add_multiples_vanish(k, n);
    vstd::arithmetic::div_mod::lemma_small_mod(k as nat, n as nat);
}

proof fn lemma_slot_mod(k: int, n: int, steps: nat)
    requires
        0 <= k < n,
    ensures
        slot_after(k, n, steps) == (k + steps) % n,
    decreases steps,
{
    if steps > 0 {
        lemma_slot_mod(k, n, (steps - 1) as nat);
        vstd::arithmetic::div_mod::lemma_add_mod_noop(k + steps - 1, 1, n);
        if n > 1 {
            vstd::arithmetic::div_mod::lemma_small_mod(1, n as nat);
        } else {
            assert(((k + steps - 1) % n + 1) % n == 0);
            assert((k + steps) % n == 0);
        }
    } else {
        vstd::arithmetic::div_mod::lemma_small_mod(k as nat, n as nat);
    }
}

/// What presenting an image reported.
#[derive(Debug, Clone, Copy, PartialEq, Eq, Structural)]
pub enum PresentOutcome {
    Success,
    Suboptimal,
    OutOfDate,
    Failed,
}

/// What follows a presentation.
#[derive(Debug, Clone, Copy, PartialEq, Eq, Structural)]
pub enum PresentAction {
    Continue,
    RecreateSwapchain,
    Fail,
}

/// A suboptimal or out-of-date swapchain is rebuilt; another failure ends
/// the frame with an error.
pub fn after_present(outcome: PresentOutcome) -> (r: PresentAction)
    ensures
        r == match outcome {
            PresentOutcome::Success => PresentAction::Continue,
            PresentOutcome::Suboptimal => PresentAction::RecreateSwapchain,
            PresentOutcome::OutOfDate => PresentAction::RecreateSwapchain,
            PresentOutcome::Failed => PresentAction::Fail,
        },
{
    match outcome {
        PresentOutcome::Success => PresentAction::Continue,
        PresentOutcome::Suboptimal => PresentAction::RecreateSwapchain,
        PresentOutcome::OutOfDate => PresentAction::RecreateSwapchain,
        PresentOutcome::Failed => PresentAction::Fail,
    }
}

/// A window event, as the loop sees it: taken by the user interface, a
/// request to close, a new size, or anything else.
#[derive(Debug, Clone, Copy, PartialEq, Eq, Structural)]
pub enum WindowInput {
    Consumed,
    CloseRequested,
    Resized { width: u32, height: u32 },
    Other,
}

/// What a window event does: whether the loop ends, and whether the
/// swapchain is rebuilt for the new size.
#[derive(Debug, Clone, Copy, PartialEq, Eq, Structural)]
pub struct WindowResponse {
    pub exit: bool,
    pub recreate_swapchain: bool,
}

/// Handles a window event: an event the user interface took, or a close
/// request, ends the loop; a resize to a size with no zero side records the
/// size and rebuilds the swapchain; anything else does nothing.
pub fn handle_window_event(window_size: &mut (u32, u32), input: WindowInput) -> (r: WindowResponse)
    ensures
        match input {
            WindowInput::Consumed | WindowInput::CloseRequested => {
                &&& r == (WindowResponse { exit: true, recreate_swapchain: false })
                &&& *final(window_size) == *old(window_size)
            },
            WindowInput::Resized { width, height } => {
                &&& !r.exit
                &&& r.recreate_swapchain == (width > 0 && height > 0)
                &&& *final(window_size) == if width > 0 && height > 0 {
                    (width, height)
                } else {
                    *old(window_size)
                }
            },
            WindowInput::Other => {
                &&& r == (WindowResponse { exit: false, recreate_swapchain: false })
                &&& *final(window_size) == *old(window_size)
            },
        },
{
    match input {
        WindowInput::Consumed => WindowResponse { exit: true, recreate_swapchain: false },
        WindowInput::CloseRequested => WindowResponse { exit: true, recreate_swapchain: false },
        WindowInput::Resized { width, height } => {
            if width > 0 && height > 0 {
                *window_size = (width, height);
                WindowResponse { exit: false, recreate_swapchain: true }
            } else {
                WindowResponse { exit: false, recreate_swapchain: false }
            }
        },
        WindowInput::Other => WindowResponse { exit: false, recreate_swapchain: false },
    }
}

/// Whether `pattern` occurs in `text` starting at position `i`.
pub open spec fn occurs_at(text: Seq<char>, pattern: Seq<char>, i: int) -> bool {
    0 <= i && i + pattern.len() <= text.len() && text.subrange(i, i + pattern.len()) == pattern
}

/// Whether `pattern` occurs in `text`.
pub open spec fn occurs_in(text: Seq<char>, pattern: Seq<char>) -> bool {
    exists|i: int| occurs_at(text, pattern, i)
}

fn occurs_at_exec(text: &Vec<char>, pattern: &Vec<char>, i: usize) -> (r: bool)
    requires
        i + pattern@.len() <= text@.len(),
    ensures
        r == occurs_at(text@, pattern@, i as int),
{
    let mut j: usize = 0;
    while j < pattern.len()
        invariant
            i + pattern@.len() <= text@.len(),
            text@.len() == text.len(),
            j <= pattern@.len(),
            forall|k: int| 0 <= k < j ==> text@[i + k] == pattern@[k],
        decreases pattern@.len() - j,
    {
        if text[i + j] != pattern[j] {
            assert(text@.subrange(i as int, i + pattern@.len())[j as int] != pattern@[j as int]);
            return false;
        }
        j = j + 1;
    }
    assert(text@.subrange(i as int, i + pattern@.len()) =~= pattern@);
    true
}

/// Whether `pattern` occurs in `text`.
pub fn contains_text(text: &str, pattern: &str) -> (r: bool)
    ensures
        r == occurs_in(text@, pattern@),
{
    let t = chars_of(text);
    let p = chars_of(pattern);
    if p.len() > t.len() {
        assert forall|i: int| !occurs_at(t@, p@, i) by {}
        return false;
    }
    if p.len() == 0 {
        assert(t@.subrange(0, 0) =~= p@);
        assert(occurs_at(t@, p@, 0));
        return true;
    }
    let last = t.len() - p.len();
    let mut i: usize = 0;
    while i <= last
        invariant
            t@ == text@,
            p@ == pattern@,
            p@.len() <= t@.len(),
            last == t@.len() - p@.len(),
            p@.len() > 0,
            t@.len() == t.len(),
            i <= last + 1,
            forall|k: int| 0 <= k < i ==> !occurs_at(t@, p@, k),
        decreases last + 1 - i,
    {
        if occurs_at_exec(&t, &p, i) {
            return true;
        }
        i = i + 1;
    }
    assert forall|k: int| !occurs_at(t@, p@, k) by {
        if 0 <= k && k + p@.len() <= t@.len() {
            assert(k < i);
        }
    }
    false
}

/// Whether an error of the frame ends the game: its message tells of
/// buffers that failed to swap or of a lost context.
pub fn is_critical_error(message: &str) -> (r: bool)
    ensures
        r == (occurs_in(message@, "failed to swap buffers"@) || occurs_in(message@, "context lost"@)),
{
    contains_text(message, "failed to swap buffers") || contains_text(message, "context lost")
}

/// The state the game loop carries from frame to frame: the frame slot in
/// use and whether the engine runs.
#[derive(Debug, Clone, Copy, PartialEq, Eq, Structural)]
pub struct FrameState {
    pub current_frame: usize,
    pub engine_ready: bool,
}

/// Why a frame failed.
#[derive(Debug, Clone, Copy, PartialEq, Eq, Structural)]
pub enum FrameError {
    PresentFailed,
    SwapchainRecreateFailed,
}

/// One frame of the game loop, given what the outside work reported: the
/// seconds since loading began, whether starting the engine succeeded
/// (asked only while it is not running and the loading time is up), what
/// presenting reported, and whether rebuilding the swapchain succeeded
/// (asked only for a suboptimal or out-of-date swapchain). The engine runs
/// from the frame it starts in; a failed presentation or rebuild is an
/// error that keeps the frame slot; otherwise the loop moves to the next
/// slot.
pub fn frame_update(
    state: &mut FrameState,
    frames_in_flight: usize,
    elapsed_secs: u64,
    engine_started: bool,
    present: PresentOutcome,
    swapchain_rebuilt: bool,
) -> (r: Result<(), FrameError>)
    requires
        frames_in_flight > 0,
        old(state).current_frame < frames_in_flight,
    ensures
        final(state).engine_ready == (old(state).engine_ready || (elapsed_secs >= LOADING_SECONDS && engine_started)),
        present == PresentOutcome::Failed ==> r == Err::<(), FrameError>(FrameError::PresentFailed)
            && final(state).current_frame == old(state).current_frame,
        (present == PresentOutcome::Suboptimal || present == PresentOutcome::OutOfDate) && !swapchain_rebuilt ==> r
            == Err::<(), FrameError>(FrameError::SwapchainRecreateFailed) && final(state).current_frame == old(
            state,
        ).current_frame,
        (present == PresentOutcome::Success || ((present == PresentOutcome::Suboptimal || present
            == PresentOutcome::OutOfDate) && swapchain_rebuilt)) ==> r == Ok::<(), FrameError>(())
            && final(state).current_frame == (old(state).current_frame + 1) % (frames_in_flight as int),
        final(state).current_frame < frames_in_flight,
{
    match frame_stage(state.engine_ready, elapsed_secs) {
        FrameStage::Loading { start_engine } => {
            if start_engine && engine_started {
                state.engine_ready = true;
            }
        },
        FrameStage::Menu => {},
    }
    match after_present(present) {
        PresentAction::Fail => Err(FrameError::PresentFailed),
        PresentAction::RecreateSwapchain => {
            if !swapchain_rebuilt {
                return Err(FrameError::SwapchainRecreateFailed);
            }
            state.current_frame = next_frame(state.current_frame, frames_in_flight);
            Ok(())
        },
        PresentAction::Continue => {
            state.current_frame = next_frame(state.current_frame, frames_in_flight);
            Ok(())
        },
    }
}

} // verus!
