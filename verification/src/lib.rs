//! Interactive pipeline composer: event aggregation, process pipeline
//! planning, an ordered multi-pane registry keyed by mediant fractions,
//! a bounded scrollback buffer, and a render compositor model.

pub mod operator;
pub mod pipeline;
pub mod prompt;
pub mod queue;
pub mod render;

use vstd::prelude::*;

use crate::operator::Buffer;
use crate::operator::EventStream;
use crate::operator::OtherEvent;

verus! {

/// Startup configuration: the output queue's capacity and the two pacing
/// intervals, in milliseconds.
#[derive(Clone, Copy, Debug, PartialEq, Eq, Structural)]
pub struct Args {
    /// How many output lines the scrollback retains.
    pub output_queue_size: usize,
    /// The batch boundary for aggregating raw input events.
    pub event_operate_interval: u64,
    /// How often the output pane is redrawn at most.
    pub output_render_interval: u64,
}

impl Default for Args {
    /// The defaults: a 1000-line scrollback, events batched every 32 ms,
    /// output redrawn at most every 10 ms.
    fn default() -> (r: Self)
        ensures
            r.output_queue_size == 1000,
            r.event_operate_interval == 32,
            r.output_render_interval == 10,
    {
        Args { output_queue_size: 1000, event_operate_interval: 32, output_render_interval: 10 }
    }
}

/// Where the top-level dispatcher sends one aggregated operation.
#[derive(Clone, Copy, Debug, PartialEq, Eq, Structural)]
pub enum RouteAction {
    /// Interrupt: tear everything down and exit.
    Quit,
    /// Flip whether pointer events are captured.
    ToggleMouse,
    /// Consume the operation without effect.
    Stay,
    /// Submit the pipeline: abort the live one and spawn from the current
    /// stage texts.
    Submit,
    /// Hand the operation to the editing session and output loop.
    Forward,
}

/// The routing of one aggregated operation: the interrupt key quits, the
/// toggle key flips mouse capture on an odd repeat count (and is consumed
/// on an even one), the submit key spawns the pipeline, and everything
/// else is forwarded.
pub open spec fn route_of(e: EventStream) -> RouteAction {
    match e {
        EventStream::Buffer(Buffer::Other(OtherEvent::CtrlC, _)) => RouteAction::Quit,
        EventStream::Buffer(Buffer::Other(OtherEvent::Esc, times)) => if times % 2 == 1 {
            RouteAction::ToggleMouse
        } else {
            RouteAction::Stay
        },
        EventStream::Buffer(Buffer::Other(OtherEvent::Enter, _)) => RouteAction::Submit,
        _ => RouteAction::Forward,
    }
}

/// Routes one aggregated operation for the top-level dispatcher; see
/// `route_of`.
pub fn route_event(event: &EventStream) -> (r: RouteAction)
    ensures
        r == route_of(*event),
{
    match event {
        EventStream::Buffer(Buffer::Other(OtherEvent::CtrlC, _)) => RouteAction::Quit,
        EventStream::Buffer(Buffer::Other(OtherEvent::Esc, times)) => if *times % 2 == 1 {
            RouteAction::ToggleMouse
        } else {
            RouteAction::Stay
        },
        EventStream::Buffer(Buffer::Other(OtherEvent::Enter, _)) => RouteAction::Submit,
        _ => RouteAction::Forward,
    }
}

} // verus!
