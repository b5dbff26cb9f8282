//! What the server knows of a shutdown that was asked for.

use vstd::prelude::*;

verus! {

/// The state of a shutdown.
pub struct ShutdownState {
    /// How many signals have come.
    pub signal_count: usize,
    /// The last signal.
    pub signal_number: i32,
    /// A shutdown waits for the replicas.
    pub pending: bool,
    /// The save before the last shutdown failed.
    pub save_failed: bool,
    /// A termination signal ends the server whatever the save does.
    pub on_sigterm_force: bool,
    /// The periodic work stands still.
    pub pause_cron: bool,
}

impl ShutdownState {
    /// The state at the start.
    pub fn new() -> (r: ShutdownState)
        ensures
            r == (ShutdownState {
                signal_count: 0,
                signal_number: 0,
                pending: false,
                save_failed: false,
                on_sigterm_force: false,
                pause_cron: false,
            }),
    {
        ShutdownState {
            signal_count: 0,
            signal_number: 0,
            pending: false,
            save_failed: false,
            on_sigterm_force: false,
            pause_cron: false,
        }
    }
}

/// Notes a signal. The count wraps round.
pub fn note_shutdown_signal(s: &mut ShutdownState, signal: i32)
    ensures
        *final(s) == (ShutdownState {
            signal_number: signal,
            signal_count: if old(s).signal_count == usize::MAX {
                0
            } else {
                (old(s).signal_count + 1) as usize
            },
            ..*old(s)
        }),
{
    s.signal_number = signal;
    s.signal_count = s.signal_count.wrapping_add(1);
}

/// How many signals have come.
pub fn shutdown_signal_count(s: &ShutdownState) -> (r: usize)
    ensures
        r == s.signal_count,
{
    s.signal_count
}

/// The last signal.
pub fn shutdown_signal_number(s: &ShutdownState) -> (r: i32)
    ensures
        r == s.signal_number,
{
    s.signal_number
}

/// Whether a shutdown waits.
pub fn shutdown_pending(s: &ShutdownState) -> (r: bool)
    ensures
        r == s.pending,
{
    s.pending
}

/// Sets whether a shutdown waits.
pub fn set_shutdown_pending(s: &mut ShutdownState, value: bool)
    ensures
        *final(s) == (ShutdownState { pending: value, ..*old(s) }),
{
    s.pending = value;
}

/// Gives a waiting shutdown up. Tells whether there was one.
pub fn abort_shutdown_pending(s: &mut ShutdownState) -> (r: bool)
    ensures
        r == old(s).pending,
        *final(s) == (ShutdownState { pending: false, ..*old(s) }),
{
    let was: bool = s.pending;
    s.pending = false;
    was
}

/// Notes that the save before a shutdown failed.
pub fn mark_shutdown_save_failed(s: &mut ShutdownState)
    ensures
        *final(s) == (ShutdownState { save_failed: true, ..*old(s) }),
{
    s.save_failed = true;
}

/// Whether the save before a shutdown failed.
pub fn shutdown_save_failed(s: &ShutdownState) -> (r: bool)
    ensures
        r == s.save_failed,
{
    s.save_failed
}

/// Whether a termination signal ends the server whatever the save does.
pub fn shutdown_on_sigterm_force(s: &ShutdownState) -> (r: bool)
    ensures
        r == s.on_sigterm_force,
{
    s.on_sigterm_force
}

/// Sets whether the periodic work stands still.
pub fn set_debug_pause_cron(s: &mut ShutdownState, value: bool)
    ensures
        *final(s) == (ShutdownState { pause_cron: value, ..*old(s) }),
{
    s.pause_cron = value;
}

/// Whether the periodic work stands still.
pub fn debug_pause_cron(s: &ShutdownState) -> (r: bool)
    ensures
        r == s.pause_cron,
{
    s.pause_cron
}

} // verus!
