//! The agents that watch the frame stream: one reads race banners, one reads
//! the post-race scoreboard. Both react to their events the same way.
pub mod post_race_score;
pub mod race_tracker;

use vstd::prelude::*;

verus! {

/// What an agent's event loop woke up on.
#[derive(Clone, Copy, Debug, PartialEq, Eq, Structural)]
pub enum AgentEvent {
    /// The shutdown token was cancelled.
    Cancelled,
    /// The frame channel was closed by its sender.
    ChannelClosed,
    /// A new value arrived on the frame channel; it may hold no frame yet.
    FrameChanged { has_frame: bool },
}

/// What the agent does next.
#[derive(Clone, Copy, Debug, PartialEq, Eq, Structural)]
pub enum AgentAction {
    /// Leave the event loop.
    Stop,
    /// Wait for the next event.
    Wait,
    /// Process the frame that arrived, then wait for the next event.
    Process,
}

/// An agent stops on shutdown or when the channel closes, processes every
/// frame that arrives, and otherwise waits.
pub open spec fn agent_reaction(event: AgentEvent) -> AgentAction {
    match event {
        AgentEvent::Cancelled => AgentAction::Stop,
        AgentEvent::ChannelClosed => AgentAction::Stop,
        AgentEvent::FrameChanged { has_frame } => if has_frame {
            AgentAction::Process
        } else {
            AgentAction::Wait
        },
    }
}

/// The decision an agent's event loop takes on an event.
pub fn agent_step(event: AgentEvent) -> (action: AgentAction)
    ensures
        action == agent_reaction(event),
{
    match event {
        AgentEvent::Cancelled => AgentAction::Stop,
        AgentEvent::ChannelClosed => AgentAction::Stop,
        AgentEvent::FrameChanged { has_frame } => if has_frame {
            AgentAction::Process
        } else {
            AgentAction::Wait
        },
    }
}

/// An agent leaves its loop on shutdown and when the frame channel closes,
/// and processes exactly the events that carry a frame.
pub proof fn lemma_agent_stops_and_processes(event: AgentEvent)
    ensures
        (agent_reaction(event) == AgentAction::Stop) <==> (event is Cancelled || event is ChannelClosed),
        (agent_reaction(event) == AgentAction::Process) <==> (event == AgentEvent::FrameChanged { has_frame: true }),
{
}

} // verus!
