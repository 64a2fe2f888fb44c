//! The decisions of the FM app's dataflow worker: which bridge input each
//! command goes to, how a stop is asked for, when the dataflow's status is
//! checked (not during the startup grace period, at most every two seconds),
//! and what a status reply changes. The worker loop itself, the bridge calls
//! and the clock stay with the caller, which hands in milliseconds read from
//! a monotonic clock.
use vstd::prelude::*;

verus! {

/// The milliseconds after a start during which the status is not checked.
pub const STARTUP_GRACE_MS: u64 = 10000;

/// The least number of milliseconds between two status checks.
pub const STATUS_CHECK_INTERVAL_MS: u64 = 2000;

/// A request to the microphone (echo-cancelling) bridge.
#[derive(PartialEq, Eq, Structural, Clone, Copy, Debug)]
pub enum MicAction {
    StartRecording,
    StopRecording,
    SetAecEnabled(bool),
}

/// A command from the UI to the worker. The dataflow's path and
/// environment and the buffer's fill level stay with the caller.
#[derive(Debug)]
pub enum WorkerCommand {
    StartDataflow,
    /// Stop with the default grace period.
    StopDataflow,
    StopDataflowWithGrace { grace_seconds: u64 },
    /// Stop at once.
    ForceStopDataflow,
    SendPrompt { message: String },
    SendControl { command: String },
    UpdateBufferStatus,
    Mic(MicAction),
}

/// How a stop is asked of the dispatcher.
#[derive(PartialEq, Eq, Structural, Clone, Copy, Debug)]
pub enum StopMode {
    /// The dispatcher's default grace period.
    Graceful,
    /// A grace period of the given seconds.
    Grace(u64),
    /// No grace period.
    Immediate,
}

/// What goes to a bridge input.
#[derive(Debug)]
pub enum BridgePayload {
    /// A prompt for the language model.
    Text(String),
    /// A control command.
    Control(String),
    /// The audio buffer's fill level (the number is the caller's).
    BufferStatus,
    /// A request to the microphone bridge.
    Mic(MicAction),
}

/// A message for one input of one bridge node.
#[derive(Debug)]
pub struct BridgeSend {
    pub bridge: String,
    pub input: String,
    pub payload: BridgePayload,
}

/// What the worker does for a command.
#[derive(Debug)]
pub enum WorkerAction {
    /// Start the dataflow (and the dora processes if they are down).
    Start,
    /// Stop the dispatcher, if there is one, and report the dataflow stopped.
    Stop(StopMode),
    /// Send to a bridge of the running dispatcher.
    Send(BridgeSend),
    /// Nothing: no dispatcher runs.
    Ignore,
}

/// The worker's own state.
pub struct WorkerState {
    /// The dataflow is taken to be running.
    pub running: bool,
    /// A dispatcher is held.
    pub dispatching: bool,
    /// When the running dataflow was started, while it counts as running.
    pub started_at_ms: Option<u64>,
    /// When the status was last checked (or the worker began).
    pub last_check_ms: u64,
}

/// The bridge node and input a command goes to, if it goes to one.
pub open spec fn command_route(cmd: WorkerCommand) -> Option<(Seq<char>, Seq<char>)> {
    match cmd {
        WorkerCommand::SendPrompt { .. } => Some(("mofa-prompt-input"@, "prompt"@)),
        WorkerCommand::SendControl { .. } => Some(("mofa-prompt-input"@, "control"@)),
        WorkerCommand::UpdateBufferStatus => Some(("mofa-audio-player"@, "buffer_status"@)),
        WorkerCommand::Mic(_) => Some(("mofa-mic-input"@, "control"@)),
        _ => None,
    }
}

/// The payload a bridge command carries.
pub open spec fn payload_of(cmd: WorkerCommand, p: BridgePayload) -> bool {
    match cmd {
        WorkerCommand::SendPrompt { message } => p matches BridgePayload::Text(m) && m == message,
        WorkerCommand::SendControl { command } => p matches BridgePayload::Control(c) && c == command,
        WorkerCommand::UpdateBufferStatus => p is BufferStatus,
        WorkerCommand::Mic(a) => p == BridgePayload::Mic(a),
        _ => false,
    }
}

/// The stop a command asks for, if it asks for one.
pub open spec fn command_stop(cmd: WorkerCommand) -> Option<StopMode> {
    match cmd {
        WorkerCommand::StopDataflow => Some(StopMode::Graceful),
        WorkerCommand::StopDataflowWithGrace { grace_seconds } => Some(StopMode::Grace(grace_seconds)),
        WorkerCommand::ForceStopDataflow => Some(StopMode::Immediate),
        _ => None,
    }
}

/// The dataflow was started less than the grace period before `now`.
pub open spec fn in_startup_grace(started_at_ms: Option<u64>, now_ms: u64) -> bool {
    match started_at_ms {
        Some(t) => now_ms - t < STARTUP_GRACE_MS,
        None => false,
    }
}

/// A status check is due: not in the grace period, and the interval has
/// passed since the last check.
pub open spec fn check_due(s: WorkerState, now_ms: u64) -> bool {
    !in_startup_grace(s.started_at_ms, now_ms) && now_ms - s.last_check_ms >= STATUS_CHECK_INTERVAL_MS
}

/// The name of a microphone request, as the bridge reads it.
pub open spec fn mic_action_text(a: MicAction) -> Seq<char> {
    match a {
        MicAction::StartRecording => "start_recording"@,
        MicAction::StopRecording => "stop_recording"@,
        MicAction::SetAecEnabled(_) => "set_aec_enabled"@,
    }
}

/// The name of a microphone request (`start_recording`, `stop_recording`
/// or `set_aec_enabled`).
pub fn mic_action_name(a: MicAction) -> (r: String)
    ensures
        r@ == mic_action_text(a),
{
    match a {
        MicAction::StartRecording => "start_recording".to_owned(),
        MicAction::StopRecording => "stop_recording".to_owned(),
        MicAction::SetAecEnabled(_) => "set_aec_enabled".to_owned(),
    }
}

fn route(bridge: &str, input: &str, payload: BridgePayload) -> (r: WorkerAction)
    ensures
        r matches WorkerAction::Send(s) && s.bridge@ == bridge@ && s.input@ == input@ && s.payload
            == payload,
{
    WorkerAction::Send(BridgeSend { bridge: bridge.to_owned(), input: input.to_owned(), payload })
}

impl WorkerState {
    /// A worker that has just begun at `now_ms`: nothing runs yet.
    pub fn new(now_ms: u64) -> (r: Self)
        ensures
            !r.running,
            !r.dispatching,
            r.started_at_ms is None,
            r.last_check_ms == now_ms,
    {
        WorkerState { running: false, dispatching: false, started_at_ms: None, last_check_ms: now_ms }
    }

    /// What the worker does for `cmd`. A stop clears the running state and
    /// drops the dispatcher, whether or not one was held; a bridge command
    /// is sent only while a dispatcher is held; a start is left to the
    /// caller, who reports success with [`WorkerState::on_started`].
    pub fn on_command(&mut self, cmd: WorkerCommand) -> (r: WorkerAction)
        ensures
            (cmd is StartDataflow) ==> (r is Start && *final(self) == *old(self)),
            command_stop(cmd) matches Some(mode) ==> {
                &&& r == WorkerAction::Stop(mode)
                &&& !final(self).running
                &&& !final(self).dispatching
                &&& final(self).started_at_ms is None
                &&& final(self).last_check_ms == old(self).last_check_ms
            },
            command_route(cmd) matches Some(target) ==> {
                &&& *final(self) == *old(self)
                &&& old(self).dispatching ==> (r matches WorkerAction::Send(s) && s.bridge@ == target.0
                    && s.input@ == target.1 && payload_of(cmd, s.payload))
                &&& !old(self).dispatching ==> r is Ignore
            },
    {
        match cmd {
            WorkerCommand::StartDataflow => WorkerAction::Start,
            WorkerCommand::StopDataflow => {
                self.stop();
                WorkerAction::Stop(StopMode::Graceful)
            },
            WorkerCommand::StopDataflowWithGrace { grace_seconds } => {
                self.stop();
                WorkerAction::Stop(StopMode::Grace(grace_seconds))
            },
            WorkerCommand::ForceStopDataflow => {
                self.stop();
                WorkerAction::Stop(StopMode::Immediate)
            },
            WorkerCommand::SendPrompt { message } => {
                if !self.dispatching {
                    return WorkerAction::Ignore;
                }
                route("mofa-prompt-input", "prompt", BridgePayload::Text(message))
            },
            WorkerCommand::SendControl { command } => {
                if !self.dispatching {
                    return WorkerAction::Ignore;
                }
                route("mofa-prompt-input", "control", BridgePayload::Control(command))
            },
            WorkerCommand::UpdateBufferStatus => {
                if !self.dispatching {
                    return WorkerAction::Ignore;
                }
                route("mofa-audio-player", "buffer_status", BridgePayload::BufferStatus)
            },
            WorkerCommand::Mic(a) => {
                if !self.dispatching {
                    return WorkerAction::Ignore;
                }
                route("mofa-mic-input", "control", BridgePayload::Mic(a))
            },
        }
    }

    fn stop(&mut self)
        ensures
            !final(self).running,
            !final(self).dispatching,
            final(self).started_at_ms is None,
            final(self).last_check_ms == old(self).last_check_ms,
    {
        self.running = false;
        self.dispatching = false;
        self.started_at_ms = None;
    }

    /// The dataflow started at `now_ms`: it runs, a dispatcher is held, and
    /// the startup grace period begins.
    pub fn on_started(&mut self, now_ms: u64)
        ensures
            final(self).running,
            final(self).dispatching,
            final(self).started_at_ms == Some(now_ms),
            final(self).last_check_ms == old(self).last_check_ms,
    {
        self.running = true;
        self.dispatching = true;
        self.started_at_ms = Some(now_ms);
    }

    /// Whether a status check is due at `now_ms`: not within the grace
    /// period after a start, and at least the interval after the last
    /// check.
    pub fn status_check_due(&self, now_ms: u64) -> (r: bool)
        ensures
            r == check_due(*self, now_ms),
    {
        let in_grace = match self.started_at_ms {
            Some(t) => now_ms < t || now_ms - t < STARTUP_GRACE_MS,
            None => false,
        };
        !in_grace && now_ms >= self.last_check_ms && now_ms - self.last_check_ms >= STATUS_CHECK_INTERVAL_MS
    }

    /// The periodic check at `now_ms`: when it is due, the check time is
    /// renewed, and the result says whether to ask the dispatcher for the
    /// dataflow's status (only while one is held).
    pub fn begin_status_check(&mut self, now_ms: u64) -> (r: bool)
        ensures
            check_due(*old(self), now_ms) ==> final(self).last_check_ms == now_ms,
            !check_due(*old(self), now_ms) ==> *final(self) == *old(self),
            final(self).running == old(self).running,
            final(self).dispatching == old(self).dispatching,
            final(self).started_at_ms == old(self).started_at_ms,
            r == (check_due(*old(self), now_ms) && old(self).dispatching),
    {
        if self.status_check_due(now_ms) {
            self.last_check_ms = now_ms;
            self.dispatching
        } else {
            false
        }
    }

    /// The dispatcher reported whether the dataflow runs. When it was taken
    /// to be running and no longer is, it stopped unexpectedly: it is no
    /// longer taken to be running, and the result is `true` (report it
    /// stopped). The dispatcher is kept.
    pub fn on_status(&mut self, is_running: bool) -> (r: bool)
        ensures
            r == (old(self).running && !is_running),
            r ==> !final(self).running && final(self).started_at_ms is None,
            !r ==> *final(self) == *old(self),
            final(self).dispatching == old(self).dispatching,
            final(self).last_check_ms == old(self).last_check_ms,
    {
        if self.running && !is_running {
            self.running = false;
            self.started_at_ms = None;
            true
        } else {
            false
        }
    }
}

/// Status checks are spaced: right after a check at `now_ms`, none is due
/// again before the interval has passed.
pub proof fn lemma_checks_spaced(s: WorkerState, now_ms: u64, later_ms: u64)
    requires
        s.last_check_ms == now_ms,
        now_ms <= later_ms < now_ms + STATUS_CHECK_INTERVAL_MS,
    ensures
        !check_due(s, later_ms),
{
}

/// No status check is due within the grace period after a start.
pub proof fn lemma_no_check_in_grace(s: WorkerState, started_ms: u64, now_ms: u64)
    requires
        s.started_at_ms == Some(started_ms),
        started_ms <= now_ms < started_ms + STARTUP_GRACE_MS,
    ensures
        !check_due(s, now_ms),
{
}

} // verus!
