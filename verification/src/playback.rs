use vstd::prelude::*;

verus! {

/// The fatal failure kinds of the pipeline. Every one of them aborts the
/// run: there is no retry, because a partially transmitted display state
/// has no well-defined recovery.
#[derive(Clone, Copy, Debug, PartialEq, Eq, Structural)]
pub enum PipelineError {
    /// No HID device matched the selector before any frame was processed.
    DeviceNotFound,
    /// The source animation was malformed or unreadable.
    DecodeError,
    /// A transport write failed mid-transmission.
    TransportError,
}

/// Where the playback driver stands.
#[derive(Clone, Copy, Debug, PartialEq, Eq, Structural)]
pub enum PlaybackState {
    /// Frames are still being requested and shown.
    Running,
    /// The run is over; no further work is requested.
    Terminated,
}

/// What the outside collaborators report back to the loop.
#[derive(Clone, Copy, Debug, PartialEq, Eq, Structural)]
pub enum PlaybackEvent {
    /// The decoder produced the next frame, to be shown for `delay_ms`
    /// milliseconds before the following frame is requested.
    FrameReady { delay_ms: u64 },
    /// The frame sequence is exhausted.
    SourceExhausted,
    /// Decoding, resampling or the transport failed.
    Failed { error: PipelineError },
}

/// What the caller must do next. Only `EmitThenWait` and `Rewind` ask for
/// another decode afterwards; `Stop` asks for nothing.
#[derive(Clone, Copy, Debug, PartialEq, Eq, Structural)]
pub enum PlaybackAction {
    /// Resample, pack and transmit the decoded frame, wait `delay_ms`
    /// milliseconds, then request the next frame.
    EmitThenWait { delay_ms: u64 },
    /// Rewind the source to its first frame and request a decode again.
    Rewind,
    /// Do nothing further.
    Stop,
}

/// The playback driver: sequences decode, resample, pack, transmit and wait
/// for each frame, and either rewinds or terminates when the source runs
/// out. The outside work (decoding, sleeping, writing) is performed by the
/// caller, which feeds the outcome back in as the next event.
pub struct PlaybackLoop {
    /// Whether the animation restarts from the first frame on exhaustion.
    pub looping: bool,
    pub state: PlaybackState,
}

impl PlaybackLoop {
    /// One decision step: from the current state and an event, the next
    /// state and the action the caller must take.
    pub open spec fn transition(self, event: PlaybackEvent) -> (PlaybackLoop, PlaybackAction) {
        match self.state {
            PlaybackState::Terminated => (self, PlaybackAction::Stop),
            PlaybackState::Running => match event {
                PlaybackEvent::FrameReady { delay_ms } => (
                    self,
                    PlaybackAction::EmitThenWait { delay_ms },
                ),
                PlaybackEvent::SourceExhausted => if self.looping {
                    (self, PlaybackAction::Rewind)
                } else {
                    (
                        PlaybackLoop { looping: self.looping, state: PlaybackState::Terminated },
                        PlaybackAction::Stop,
                    )
                },
                PlaybackEvent::Failed { error: _ } => (
                    PlaybackLoop { looping: self.looping, state: PlaybackState::Terminated },
                    PlaybackAction::Stop,
                ),
            },
        }
    }

    pub fn new(looping: bool) -> (lp: PlaybackLoop)
        ensures
            lp.looping == looping,
            lp.state is Running,
    {
        PlaybackLoop { looping, state: PlaybackState::Running }
    }

    /// Advances the loop by one event and returns the action to take.
    pub fn step(&mut self, event: PlaybackEvent) -> (a: PlaybackAction)
        ensures
            *final(self) == old(self).transition(event).0,
            a == old(self).transition(event).1,
    {
        match self.state {
            PlaybackState::Terminated => PlaybackAction::Stop,
            PlaybackState::Running => match event {
                PlaybackEvent::FrameReady { delay_ms } => PlaybackAction::EmitThenWait { delay_ms },
                PlaybackEvent::SourceExhausted => {
                    if self.looping {
                        PlaybackAction::Rewind
                    } else {
                        self.state = PlaybackState::Terminated;
                        PlaybackAction::Stop
                    }
                },
                PlaybackEvent::Failed { error: _ } => {
                    self.state = PlaybackState::Terminated;
                    PlaybackAction::Stop
                },
            },
        }
    }
}

/// The loop's state after a whole sequence of events, first event first.
pub open spec fn state_after(lp: PlaybackLoop, events: Seq<PlaybackEvent>) -> PlaybackLoop
    decreases events.len(),
{
    if events.len() == 0 {
        lp
    } else {
        state_after(lp.transition(events[0]).0, events.drop_first())
    }
}

/// Termination is final: once the loop has terminated, any sequence of
/// further events leaves it terminated, and every further action is `Stop`
/// — in particular, no decode is ever requested again.
pub proof fn lemma_terminated_is_final(
    lp: PlaybackLoop,
    events: Seq<PlaybackEvent>,
    event: PlaybackEvent,
)
    requires
        lp.state is Terminated,
    ensures
        state_after(lp, events).state is Terminated,
        state_after(lp, events).transition(event).1 is Stop,
    decreases events.len(),
{
    if events.len() > 0 {
        lemma_terminated_is_final(lp.transition(events[0]).0, events.drop_first(), event);
    }
}

/// With looping disabled, the step on which the source reports exhaustion
/// answers `Stop`, and whatever events arrive afterwards, every later
/// action is `Stop` too: the loop never asks for another decode.
pub proof fn lemma_exhaustion_stops(
    lp: PlaybackLoop,
    events: Seq<PlaybackEvent>,
    event: PlaybackEvent,
)
    requires
        !lp.looping,
    ensures
        lp.transition(PlaybackEvent::SourceExhausted).1 is Stop,
        state_after(lp.transition(PlaybackEvent::SourceExhausted).0, events).transition(
            event,
        ).1 is Stop,
{
    lemma_terminated_is_final(lp.transition(PlaybackEvent::SourceExhausted).0, events, event);
}

/// With looping enabled, exhaustion rewinds the source and leaves the loop
/// exactly as it was: the animation repeats indefinitely until an error or
/// outside interruption arrives.
pub proof fn lemma_looping_rewinds(lp: PlaybackLoop)
    requires
        lp.looping,
        lp.state is Running,
    ensures
        lp.transition(PlaybackEvent::SourceExhausted).0 == lp,
        lp.transition(PlaybackEvent::SourceExhausted).1 is Rewind,
{
}

} // verus!
