//! The per-sandbox lifecycle.
//!
//! Each sandbox owns one dedicated worker thread for its whole life; every
//! call into the sandbox's exports happens on that thread, driven by control
//! messages.  The state machine below is what that thread walks through:
//! `Stopped` is terminal, and a trap during `initialize` is fatal to this
//! sandbox alone.

use vstd::prelude::*;

verus! {

/// Control sent to a sandbox's dedicated worker thread.
pub enum ControlMessage {
    Initialize,
    Stop,
}

/// Where one sandbox instance stands in its life.
#[derive(Clone, Copy, Debug, PartialEq, Eq, Structural)]
pub enum SandboxState {
    /// The bytecode is compiled; nothing runs yet.
    Loaded,
    /// The instance exists and its worker thread is up.
    Initializing,
    /// The guest's `initialize` export returned without trapping.
    Running,
    /// A stop was requested; teardown is under way.
    Stopping,
    /// Terminal: no further control is accepted.
    Stopped,
}

/// What a sandbox's worker thread observes.
#[derive(Clone, Copy, Debug, PartialEq, Eq, Structural)]
pub enum SandboxEvent {
    /// Instantiation succeeded and the worker thread was spawned.
    InstanceReady,
    /// The guest's `initialize` export returned.
    InitializeOk,
    /// The guest trapped inside `initialize`; only this sandbox dies.
    InitializeTrap,
    /// A `Stop` control arrived.
    StopRequested,
    /// The guest's `stop` export, or the language-server teardown fallback,
    /// completed.
    StopCompleted,
}

/// The lifecycle transition relation.
pub open spec fn sandbox_step_spec(s: SandboxState, e: SandboxEvent) -> SandboxState {
    match (s, e) {
        (SandboxState::Loaded, SandboxEvent::InstanceReady) => SandboxState::Initializing,
        (SandboxState::Initializing, SandboxEvent::InitializeOk) => SandboxState::Running,
        (SandboxState::Initializing, SandboxEvent::InitializeTrap) => SandboxState::Stopped,
        (SandboxState::Running, SandboxEvent::StopRequested) => SandboxState::Stopping,
        (SandboxState::Stopping, SandboxEvent::StopCompleted) => SandboxState::Stopped,
        (_, _) => s,
    }
}

/// Advances one sandbox's state by one observed event; an event that has no
/// transition from the current state leaves the state as it is.
pub fn sandbox_step(s: SandboxState, e: SandboxEvent) -> (r: SandboxState)
    ensures
        r == sandbox_step_spec(s, e),
{
    match (s, e) {
        (SandboxState::Loaded, SandboxEvent::InstanceReady) => SandboxState::Initializing,
        (SandboxState::Initializing, SandboxEvent::InitializeOk) => SandboxState::Running,
        (SandboxState::Initializing, SandboxEvent::InitializeTrap) => SandboxState::Stopped,
        (SandboxState::Running, SandboxEvent::StopRequested) => SandboxState::Stopping,
        (SandboxState::Stopping, SandboxEvent::StopCompleted) => SandboxState::Stopped,
        (_, _) => s,
    }
}

/// `Stopped` is terminal: no event leads anywhere else.
pub proof fn lemma_stopped_is_terminal(e: SandboxEvent)
    ensures
        sandbox_step_spec(SandboxState::Stopped, e) == SandboxState::Stopped,
{
}

/// What the worker does on a `Stop` control: call the guest's `stop` export
/// when the guest has one; otherwise, when the descriptor's configuration
/// names a language id, tear down that language's server; otherwise nothing
/// is left to do.
pub enum StopAction {
    CallStopExport,
    StopLanguageServer { language_id: String },
    Nothing,
}

/// Decides the teardown path for a `Stop` control, from whether the guest has
/// a `stop` export and the language id its configuration names.
pub fn stop_fallback_action(has_stop_export: bool, language_id: Option<String>) -> (r: StopAction)
    ensures
        has_stop_export ==> r is CallStopExport,
        !has_stop_export ==> match language_id {
            Some(l) => r matches StopAction::StopLanguageServer { language_id: rl } && rl == l,
            None => r is Nothing,
        },
{
    if has_stop_export {
        StopAction::CallStopExport
    } else {
        match language_id {
            Some(l) => StopAction::StopLanguageServer { language_id: l },
            None => StopAction::Nothing,
        }
    }
}

} // verus!
