use vstd::prelude::*;

verus! {

/// What the restart loop is waiting on.
pub enum ServeEvent {
    RestartRequested,
    ServerFinishedOk,
    ServerFinishedErr { message: String },
}

/// What the restart loop does next.
pub enum ServeAction {
    StopReloadRestart,
    ReturnOk,
    ReturnErr { message: String },
}

/// One step of the serve loop: a restart request stops the server, reloads
/// the configuration and starts over; a finished server ends the loop with
/// its result. Repeated restart requests during one cycle collapse, since
/// each is answered by exactly one stop-and-restart.
pub fn serve_step(event: ServeEvent) -> (r: ServeAction)
    ensures
        match event {
            ServeEvent::RestartRequested => r is StopReloadRestart,
            ServeEvent::ServerFinishedOk => r is ReturnOk,
            ServeEvent::ServerFinishedErr { message } => r matches ServeAction::ReturnErr {
                message: m,
            } && m@ == message@,
        },
{
    match event {
        ServeEvent::RestartRequested => ServeAction::StopReloadRestart,
        ServeEvent::ServerFinishedOk => ServeAction::ReturnOk,
        ServeEvent::ServerFinishedErr { message } => ServeAction::ReturnErr { message },
    }
}

/// The file events a configuration watcher sees, reduced to what the reload
/// decision needs.
pub enum WatchEvent {
    CloseAfterWrite,
    OtherChange,
}

/// Whether a watcher event triggers a configuration reload: only a
/// close-after-write does, the reliable sign that an editor finished saving.
pub fn should_reload(event: &WatchEvent) -> (r: bool)
    ensures
        r == (event is CloseAfterWrite),
{
    match event {
        WatchEvent::CloseAfterWrite => true,
        WatchEvent::OtherChange => false,
    }
}

} // verus!
