use bloksel::frame::{
    after_present, contains_text, frame_stage, frame_update, handle_window_event, is_critical_error, next_frame,
    FrameError, FrameStage, FrameState, PresentAction, PresentOutcome, WindowInput, WindowResponse,
};

#[test]
fn loading_then_menu() {
    assert_eq!(frame_stage(false, 1), FrameStage::Loading { start_engine: false });
    assert_eq!(frame_stage(false, 3), FrameStage::Loading { start_engine: true });
    assert_eq!(frame_stage(true, 0), FrameStage::Menu);
}

#[test]
fn frames_cycle() {
    assert_eq!(next_frame(0, 2), 1);
    assert_eq!(next_frame(1, 2), 0);
    assert_eq!(next_frame(4, 3), 2);
}

#[test]
fn presentation_results() {
    assert_eq!(after_present(PresentOutcome::Success), PresentAction::Continue);
    assert_eq!(after_present(PresentOutcome::Suboptimal), PresentAction::RecreateSwapchain);
    assert_eq!(after_present(PresentOutcome::OutOfDate), PresentAction::RecreateSwapchain);
    assert_eq!(after_present(PresentOutcome::Failed), PresentAction::Fail);
}

#[test]
fn window_events() {
    let mut size = (800, 600);
    assert_eq!(
        handle_window_event(&mut size, WindowInput::Resized { width: 1024, height: 768 }),
        WindowResponse { exit: false, recreate_swapchain: true }
    );
    assert_eq!(size, (1024, 768));
    assert_eq!(
        handle_window_event(&mut size, WindowInput::Resized { width: 0, height: 768 }),
        WindowResponse { exit: false, recreate_swapchain: false }
    );
    assert_eq!(size, (1024, 768));
    assert!(handle_window_event(&mut size, WindowInput::CloseRequested).exit);
    assert!(handle_window_event(&mut size, WindowInput::Consumed).exit);
    assert!(!handle_window_event(&mut size, WindowInput::Other).exit);
}

#[test]
fn critical_errors() {
    assert!(is_critical_error("renderer: failed to swap buffers (code 3)"));
    assert!(is_critical_error("context lost"));
    assert!(!is_critical_error("Failed to present swapchain image"));
    assert!(contains_text("abc", ""));
    assert!(!contains_text("ab", "abc"));
    assert!(contains_text("xxabc", "abc"));
}

#[test]
fn frame_slots_return_after_a_full_cycle() {
    for n in 1usize..6 {
        for k in 0..n {
            let mut slot = k;
            for _ in 0..n {
                slot = next_frame(slot, n);
                assert!(slot < n);
            }
            assert_eq!(slot, k);
        }
    }
}

#[test]
fn frame_update_moves_on_after_presenting() {
    let mut state = FrameState { current_frame: 1, engine_ready: false };
    assert_eq!(frame_update(&mut state, 2, 1, true, PresentOutcome::Success, true), Ok(()));
    assert_eq!(state, FrameState { current_frame: 0, engine_ready: false });
    assert_eq!(frame_update(&mut state, 2, 3, true, PresentOutcome::Success, true), Ok(()));
    assert_eq!(state, FrameState { current_frame: 1, engine_ready: true });
    assert_eq!(frame_update(&mut state, 2, 0, false, PresentOutcome::Suboptimal, true), Ok(()));
    assert_eq!(state, FrameState { current_frame: 0, engine_ready: true });
}

#[test]
fn frame_update_keeps_the_slot_on_errors() {
    let mut state = FrameState { current_frame: 1, engine_ready: false };
    assert_eq!(
        frame_update(&mut state, 3, 5, false, PresentOutcome::Failed, true),
        Err(FrameError::PresentFailed)
    );
    assert_eq!(state, FrameState { current_frame: 1, engine_ready: false });
    assert_eq!(
        frame_update(&mut state, 3, 5, true, PresentOutcome::OutOfDate, false),
        Err(FrameError::SwapchainRecreateFailed)
    );
    assert_eq!(state, FrameState { current_frame: 1, engine_ready: true });
}
