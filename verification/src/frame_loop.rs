use vstd::prelude::*;

verus! {

/// The window events the application reacts to.
#[derive(Clone, Copy, Debug, PartialEq, Eq, Structural)]
pub enum FrameEvent {
    CloseRequested,
    Resized { width: u32, height: u32 },
    RedrawRequested,
    Other,
}

/// What the event loop has to do in answer to an event.
#[derive(Clone, Copy, Debug, PartialEq, Eq, Structural)]
pub enum FrameAction {
    /// Leave the event loop.
    Exit,
    /// Resize the renderer's surface.
    Resize { width: u32, height: u32 },
    /// Advance the simulation by the time since the last frame and render it.
    StepAndRender,
    /// Nothing to do.
    Nothing,
}

/// The action for `event`, and the frame count after it: nothing happens before
/// the renderer exists; a redraw counts one frame and steps the simulation.
pub open spec fn frame_step(renderer_ready: bool, total_frames: u32, event: FrameEvent) -> (
    FrameAction,
    int,
) {
    if !renderer_ready {
        (FrameAction::Nothing, total_frames as int)
    } else {
        match event {
            FrameEvent::CloseRequested => (FrameAction::Exit, total_frames as int),
            FrameEvent::Resized { width, height } => (
                FrameAction::Resize { width, height },
                total_frames as int,
            ),
            FrameEvent::RedrawRequested => (FrameAction::StepAndRender, total_frames + 1),
            FrameEvent::Other => (FrameAction::Nothing, total_frames as int),
        }
    }
}

/// Decides how the application answers a window event and counts the frames drawn.
pub fn window_event_action(renderer_ready: bool, total_frames: &mut u32, event: FrameEvent) -> (r:
    FrameAction)
    requires
        renderer_ready && event == FrameEvent::RedrawRequested ==> *old(total_frames) < u32::MAX,
    ensures
        r == frame_step(renderer_ready, *old(total_frames), event).0,
        renderer_ready ==> match event {
            FrameEvent::CloseRequested => r == FrameAction::Exit,
            FrameEvent::Resized { width, height } => r == (FrameAction::Resize { width, height }),
            FrameEvent::RedrawRequested => r == FrameAction::StepAndRender,
            FrameEvent::Other => r == FrameAction::Nothing,
        },
        !renderer_ready ==> r == FrameAction::Nothing,
        *final(total_frames) == frame_step(renderer_ready, *old(total_frames), event).1,
{
    if !renderer_ready {
        return FrameAction::Nothing;
    }
    match event {
        FrameEvent::CloseRequested => FrameAction::Exit,
        FrameEvent::Resized { width, height } => FrameAction::Resize { width, height },
        FrameEvent::RedrawRequested => {
            *total_frames = *total_frames + 1;
            FrameAction::StepAndRender
        },
        FrameEvent::Other => FrameAction::Nothing,
    }
}

/// Once the renderer exists, a resize is answered with the very width and height it
/// reported, a close with leaving the loop; before, nothing is done.
pub proof fn lemma_resize_keeps_dimensions(
    renderer_ready: bool,
    total_frames: u32,
    width: u32,
    height: u32,
)
    ensures
        renderer_ready ==> frame_step(
            renderer_ready,
            total_frames,
            FrameEvent::Resized { width, height },
        ).0 == (FrameAction::Resize { width, height }),
        renderer_ready ==> frame_step(renderer_ready, total_frames, FrameEvent::CloseRequested).0
            == FrameAction::Exit,
        renderer_ready ==> frame_step(renderer_ready, total_frames, FrameEvent::Other).0
            == FrameAction::Nothing,
        !renderer_ready ==> frame_step(
            renderer_ready,
            total_frames,
            FrameEvent::Resized { width, height },
        ).0 == FrameAction::Nothing,
{
}

/// Only a redraw, once the renderer exists, counts a frame; the count never goes down.
pub proof fn lemma_frames_count_redraws(renderer_ready: bool, total_frames: u32, event: FrameEvent)
    ensures
        frame_step(renderer_ready, total_frames, event).1 == total_frames + if renderer_ready
            && event == FrameEvent::RedrawRequested {
            1int
        } else {
            0int
        },
        frame_step(renderer_ready, total_frames, event).0 == FrameAction::StepAndRender
            <==> renderer_ready && event == FrameEvent::RedrawRequested,
{
}

} // verus!
