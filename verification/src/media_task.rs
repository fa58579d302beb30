//! The decisions of the background task that streams media: which commands change what, and when the task
//! fills its output and when it ends.  The task itself (taking commands off a channel, decoding, writing a ring)
//! runs elsewhere and asks this state what to do.
use crate::loop_spec::LoopSpec;
use vstd::prelude::*;

verus! {

/// A command sent to the task by the media's controller.
#[derive(Clone, Copy, Debug, PartialEq, Eq, Structural)]
pub enum MediaCommand {
    /// Move the media to a frame.
    Seek(u64),
    /// Stop producing output.
    Pause,
    /// Start producing output.
    Play,
    /// Change how the media loops.
    SetLooping(LoopSpec),
}

/// What the task must do to its media for a command.
#[derive(Clone, Copy, Debug, PartialEq, Eq, Structural)]
pub enum MediaAction {
    /// Nothing.
    Nothing,
    /// Seek the media to a frame.
    Seek(u64),
    /// Reconfigure the media's looping.
    SetLooping(LoopSpec),
}

/// Whether the task is playing and whether it is still running.
#[derive(Clone, Copy, Debug, PartialEq, Eq, Structural)]
pub struct MediaTaskState {
    /// Whether the task fills its output.
    pub playing: bool,
    /// Whether the task still runs; once it stops it never runs again.
    pub running: bool,
}

impl MediaTaskState {
    /// A running task which starts paused.
    pub fn new() -> (r: Self)
        ensures
            !r.playing,
            r.running,
    {
        MediaTaskState { playing: false, running: true }
    }

    /// Take in one command: pausing and playing change the state, seeking and looping are handed to the media.
    pub fn on_command(&mut self, command: MediaCommand) -> (action: MediaAction)
        ensures
            final(self).running == old(self).running,
            match command {
                MediaCommand::Seek(p) => action == MediaAction::Seek(p) && final(self).playing == old(self).playing,
                MediaCommand::SetLooping(s) => action == MediaAction::SetLooping(s) && final(self).playing == old(
                    self,
                ).playing,
                MediaCommand::Pause => action == MediaAction::Nothing && !final(self).playing,
                MediaCommand::Play => action == MediaAction::Nothing && final(self).playing,
            },
    {
        match command {
            MediaCommand::Seek(p) => MediaAction::Seek(p),
            MediaCommand::SetLooping(s) => MediaAction::SetLooping(s),
            MediaCommand::Pause => {
                self.playing = false;
                MediaAction::Nothing
            },
            MediaCommand::Play => {
                self.playing = true;
                MediaAction::Nothing
            },
        }
    }

    /// The controller is gone, or the media failed: the task stops for good.
    pub fn stop(&mut self)
        ensures
            !final(self).running,
            final(self).playing == old(self).playing,
    {
        self.running = false;
    }

    /// Whether the task should fill its output now: it is running and playing.
    pub fn should_fill(&self) -> (r: bool)
        ensures
            r == (self.running && self.playing),
    {
        self.running && self.playing
    }
}

} // verus!
