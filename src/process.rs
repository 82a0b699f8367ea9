use vstd::prelude::*;

use crate::text::{decimal_text, push_decimal};

verus! {

/// Why no live forwarder process came out of a launch.
#[derive(Debug, Clone, PartialEq, Eq)]
pub enum SpawnError {
    /// The operating system refused the launch; its message.
    Launch(String),
    /// The launch gave no usable process id.
    NoHandle,
    /// The process was gone when liveness was checked after the grace period.
    ExitedImmediately,
}

/// The address a forwarder for `port` listens on: every interface, that port.
pub open spec fn bind_address(port: nat) -> Seq<char> {
    "0.0.0.0:"@ + decimal_text(port)
}

/// The forwarder's two positional arguments: its bind address and its target.
pub fn forwarder_args(local_port: u16, target: &str) -> (r: Vec<String>)
    ensures
        r@.len() == 2,
        r@[0]@ == bind_address(local_port as nat),
        r@[1]@ == target@,
{
    let mut bind = String::from_str("0.0.0.0:");
    push_decimal(&mut bind, local_port as u32);
    let mut args: Vec<String> = Vec::new();
    args.push(bind);
    args.push(target.to_owned());
    args
}

/// The outcome of a launch once the grace period has passed: `handle` is the id
/// the operating system reported, `alive` whether the process still existed.
pub fn spawn_outcome(handle: Option<u32>, alive: bool) -> (r: Result<i32, SpawnError>)
    ensures
        r == (match handle {
            None => Err(SpawnError::NoHandle),
            Some(h) => if h == 0 || h > i32::MAX {
                Err(SpawnError::NoHandle)
            } else if !alive {
                Err(SpawnError::ExitedImmediately)
            } else {
                Ok(h as i32)
            },
        }),
{
    match handle {
        None => Err(SpawnError::NoHandle),
        Some(h) => {
            if h == 0 || h > 2147483647 {
                Err(SpawnError::NoHandle)
            } else if !alive {
                Err(SpawnError::ExitedImmediately)
            } else {
                Ok(h as i32)
            }
        },
    }
}

/// Whether `pid` may be signalled: zero and negative ids address process groups.
pub fn signallable(pid: i32) -> (r: bool)
    ensures
        r == (pid > 0),
{
    pid > 0
}

/// The two termination signals, in the order they are tried.
#[derive(Debug, Clone, Copy, PartialEq, Eq, Structural)]
pub enum Signal {
    Graceful,
    Forceful,
}

/// What sending a signal achieved.
#[derive(Debug, Clone, Copy, PartialEq, Eq, Structural)]
pub enum SignalOutcome {
    Delivered,
    /// The process no longer exists.
    NoSuchProcess,
    /// The signal could not be delivered for another reason, such as permissions;
    /// the operating system's error number.
    Refused(i32),
}

/// No termination signal could be delivered to a live process: its id, and the
/// error number with which the forceful signal was refused.
#[derive(Debug, Clone, Copy, PartialEq, Eq, Structural)]
pub struct TerminateError {
    pub pid: i32,
    pub errno: i32,
}

/// The next step of a termination.
#[derive(Debug, Clone, Copy, PartialEq, Eq)]
pub enum TerminateAction {
    Send(Signal),
    Finish(Result<(), TerminateError>),
}

pub open spec fn terminate_next(pid: i32, last: Option<(Signal, SignalOutcome)>) -> TerminateAction {
    match last {
        None => TerminateAction::Send(Signal::Graceful),
        Some((Signal::Graceful, SignalOutcome::Delivered)) => TerminateAction::Finish(Ok(())),
        Some((Signal::Graceful, _)) => TerminateAction::Send(Signal::Forceful),
        Some((Signal::Forceful, SignalOutcome::Refused(errno))) => TerminateAction::Finish(
            Err(TerminateError { pid, errno }),
        ),
        Some((Signal::Forceful, _)) => TerminateAction::Finish(Ok(())),
    }
}

/// Decides a termination from the last signal sent and what it achieved: first the
/// graceful signal; if it was not delivered, the forceful one, exactly once. A process
/// that no longer exists counts as terminated.
pub fn terminate_step(pid: i32, last: Option<(Signal, SignalOutcome)>) -> (r: TerminateAction)
    ensures
        r == terminate_next(pid, last),
{
    match last {
        None => TerminateAction::Send(Signal::Graceful),
        Some((Signal::Graceful, SignalOutcome::Delivered)) => TerminateAction::Finish(Ok(())),
        Some((Signal::Graceful, _)) => TerminateAction::Send(Signal::Forceful),
        Some((Signal::Forceful, SignalOutcome::Refused(errno))) => TerminateAction::Finish(
            Err(TerminateError { pid, errno }),
        ),
        Some((Signal::Forceful, _)) => TerminateAction::Finish(Ok(())),
    }
}

/// A termination takes at most two signals, and only a forceful signal that was
/// refused ends it in an error, which carries that refusal's error number.
pub proof fn lemma_terminate_escalates_once(pid: i32, o1: SignalOutcome, o2: SignalOutcome)
    ensures
        terminate_next(pid, None) == TerminateAction::Send(Signal::Graceful),
        o1 != SignalOutcome::Delivered ==> terminate_next(pid, Some((Signal::Graceful, o1)))
            == TerminateAction::Send(Signal::Forceful),
        terminate_next(pid, Some((Signal::Forceful, o2))) is Finish,
        o2 == SignalOutcome::NoSuchProcess ==> terminate_next(pid, Some((Signal::Forceful, o2)))
            == TerminateAction::Finish(Ok(())),
        o2 matches SignalOutcome::Refused(e) ==> terminate_next(
            pid,
            Some((Signal::Forceful, o2)),
        ) == TerminateAction::Finish(Err(TerminateError { pid, errno: e })),
{
}

} // verus!
