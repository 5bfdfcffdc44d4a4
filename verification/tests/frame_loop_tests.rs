use fluid_sim::frame_loop::{window_event_action, FrameAction, FrameEvent};

#[test]
fn nothing_happens_before_the_renderer_exists() {
    let mut frames = 3;
    assert_eq!(
        window_event_action(false, &mut frames, FrameEvent::RedrawRequested),
        FrameAction::Nothing
    );
    assert_eq!(
        window_event_action(false, &mut frames, FrameEvent::CloseRequested),
        FrameAction::Nothing
    );
    assert_eq!(frames, 3);
}

#[test]
fn redraw_counts_a_frame_and_steps() {
    let mut frames = 0;
    assert_eq!(
        window_event_action(true, &mut frames, FrameEvent::RedrawRequested),
        FrameAction::StepAndRender
    );
    assert_eq!(
        window_event_action(true, &mut frames, FrameEvent::RedrawRequested),
        FrameAction::StepAndRender
    );
    assert_eq!(frames, 2);
}

#[test]
fn close_resize_and_other_events() {
    let mut frames = 7;
    assert_eq!(
        window_event_action(true, &mut frames, FrameEvent::CloseRequested),
        FrameAction::Exit
    );
    assert_eq!(
        window_event_action(true, &mut frames, FrameEvent::Resized { width: 640, height: 480 }),
        FrameAction::Resize { width: 640, height: 480 }
    );
    assert_eq!(window_event_action(true, &mut frames, FrameEvent::Other), FrameAction::Nothing);
    assert_eq!(frames, 7);
}
