//! The decisions of the per-node monitor loop. The loop itself, which probes, sleeps and
//! waits for signals, runs outside the library and feeds each event to `step`.

use vstd::prelude::*;

use crate::error::Error;
use crate::server::{reply_view, unknown_view, Address, HeartbeatReply, ServerDescription, ServerView};

verus! {

/// Where a monitor stands.
#[derive(PartialEq, Eq, Structural, Clone, Copy, Debug)]
pub enum MonitorState {
    Idle,
    Probing,
    Sleeping,
    Stopped,
}

/// What happened to a monitor.
#[derive(PartialEq, Eq, Structural, Clone, Copy, Debug)]
pub enum MonitorEvent {
    /// The monitor was started.
    Started,
    /// The heartbeat came back, with a reply or a failure.
    ProbeFinished,
    /// The heartbeat interval has passed.
    IntervalElapsed,
    /// The operation layer asked for an immediate check after a network error.
    CheckRequested,
    /// The topology is shutting the monitor down.
    ShutdownRequested,
}

/// What the loop must do next.
#[derive(PartialEq, Eq, Structural, Clone, Copy, Debug)]
pub enum MonitorAction {
    /// Send a heartbeat now.
    Probe,
    /// Submit the new description to the topology, then sleep for the interval.
    SubmitAndSleep,
    /// Release the heartbeat connection and end the loop.
    Release,
    /// Nothing.
    Wait,
}

/// The next state of a monitor and the action it takes.
pub fn step(state: MonitorState, event: MonitorEvent) -> (r: (MonitorState, MonitorAction))
    ensures
        state == MonitorState::Stopped ==> r == (MonitorState::Stopped, MonitorAction::Wait),
        state != MonitorState::Stopped && event == MonitorEvent::ShutdownRequested ==> r == (
            MonitorState::Stopped,
            MonitorAction::Release,
        ),
        state == MonitorState::Idle && event == MonitorEvent::Started ==> r == (
            MonitorState::Probing,
            MonitorAction::Probe,
        ),
        state == MonitorState::Probing && event == MonitorEvent::ProbeFinished ==> r == (
            MonitorState::Sleeping,
            MonitorAction::SubmitAndSleep,
        ),
        state == MonitorState::Sleeping && (event == MonitorEvent::IntervalElapsed || event
            == MonitorEvent::CheckRequested) ==> r == (MonitorState::Probing, MonitorAction::Probe),
        !(state == MonitorState::Stopped || event == MonitorEvent::ShutdownRequested || (state
            == MonitorState::Idle && event == MonitorEvent::Started) || (state
            == MonitorState::Probing && event == MonitorEvent::ProbeFinished) || (state
            == MonitorState::Sleeping && (event == MonitorEvent::IntervalElapsed || event
            == MonitorEvent::CheckRequested))) ==> r == (state, MonitorAction::Wait),
{
    match (state, event) {
        (MonitorState::Stopped, _) => (MonitorState::Stopped, MonitorAction::Wait),
        (_, MonitorEvent::ShutdownRequested) => (MonitorState::Stopped, MonitorAction::Release),
        (MonitorState::Idle, MonitorEvent::Started) => (MonitorState::Probing, MonitorAction::Probe),
        (MonitorState::Probing, MonitorEvent::ProbeFinished) => (
            MonitorState::Sleeping,
            MonitorAction::SubmitAndSleep,
        ),
        (MonitorState::Sleeping, MonitorEvent::IntervalElapsed) => (
            MonitorState::Probing,
            MonitorAction::Probe,
        ),
        (MonitorState::Sleeping, MonitorEvent::CheckRequested) => (
            MonitorState::Probing,
            MonitorAction::Probe,
        ),
        _ => (state, MonitorAction::Wait),
    }
}

/// What a heartbeat gave: a reply with its round-trip time in milliseconds, or a failure.
#[derive(Clone, Debug, PartialEq, Eq)]
pub enum ProbeOutcome {
    Reply(HeartbeatReply, u64),
    Failed(Error),
}

/// The description that a heartbeat's outcome gives the node at `address`.
pub fn describe(address: Address, outcome: ProbeOutcome, now: u64) -> (r: ServerDescription)
    ensures
        r@.wf(),
        match outcome {
            ProbeOutcome::Reply(reply, rtt) => r@ == reply_view(address@, reply, rtt, now),
            ProbeOutcome::Failed(e) => r@ == unknown_view(address@, now, Some(e)),
        },
{
    match outcome {
        ProbeOutcome::Reply(reply, rtt) => ServerDescription::from_reply(address, reply, rtt, now),
        ProbeOutcome::Failed(e) => ServerDescription::from_failure(address, e, now),
    }
}

} // verus!
