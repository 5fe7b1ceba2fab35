//! When received input goes through the privileged helper of a Windows machine.

use crate::platform::Platform;
use crate::recency::{age, elapsed};
use crate::shared_input::InputCommand;
use vstd::prelude::*;

verus! {

/// Whether a command goes to the helper: on the secure desktop everything does,
/// and the secure attention sequence always.
pub open spec fn needs_helper(command: InputCommand, desktop_is_default: bool) -> bool {
    command is SecureAttention || !desktop_is_default
}

pub fn should_route_to_windows_helper(command: InputCommand, desktop_is_default: bool) -> (r: bool)
    ensures
        r == needs_helper(command, desktop_is_default),
{
    match command {
        InputCommand::SecureAttention => true,
        _ => !desktop_is_default,
    }
}

/// Who carries out a received command.
#[derive(Debug, Clone, Copy, PartialEq, Eq, Structural)]
pub enum Route {
    /// The privileged helper, or this process where the helper cannot be
    /// reached.
    Helper,
    /// This process.
    Local,
}

/// Only Windows machines have a helper. On the usual desktop it must not be
/// used: what it types there is refused.
pub fn dispatch_input_command(platform: Platform, command: InputCommand, desktop_is_default: bool) -> (r:
    Route)
    ensures
        r == (if platform == Platform::Windows && needs_helper(command, desktop_is_default) {
            Route::Helper
        } else {
            Route::Local
        }),
{
    if platform == Platform::Windows && should_route_to_windows_helper(
        command,
        desktop_is_default,
    ) {
        Route::Helper
    } else {
        Route::Local
    }
}

/// How long after a failure the pipe to the helper is not opened again, in
/// nanoseconds.
pub const HELPER_RETRY_DELAY: u64 = 1_000_000_000;

/// How far apart two log entries on a missing helper are at least.
pub const HELPER_LOG_INTERVAL: u64 = 10_000_000_000;

/// The pipe to the helper.
#[derive(Debug, Clone, Copy, PartialEq, Eq, Structural)]
pub struct HelperPipe {
    pub open: bool,
    pub retry_after: u64,
}

/// What a send to the helper starts with.
#[derive(Debug, Clone, Copy, PartialEq, Eq, Structural)]
pub enum PipeStep {
    Write,
    /// The pipe has to be opened first.
    Open,
    /// The last attempt to open it failed a moment ago.
    CoolingDown,
}

impl HelperPipe {
    pub fn new(now: u64) -> (r: HelperPipe)
        ensures
            r == (HelperPipe { open: false, retry_after: now }),
    {
        HelperPipe { open: false, retry_after: now }
    }

    pub open spec fn first_step(self, now: u64) -> PipeStep {
        if self.open {
            PipeStep::Write
        } else if now < self.retry_after {
            PipeStep::CoolingDown
        } else {
            PipeStep::Open
        }
    }

    pub fn begin(&self, now: u64) -> (r: PipeStep)
        ensures
            r == self.first_step(now),
    {
        if self.open {
            PipeStep::Write
        } else if now < self.retry_after {
            PipeStep::CoolingDown
        } else {
            PipeStep::Open
        }
    }

    /// The pipe was opened, or could not be.
    pub fn opened(&mut self, succeeded: bool, now: u64)
        ensures
            *final(self) == if succeeded {
                HelperPipe { open: true, ..*old(self) }
            } else {
                HelperPipe {
                    retry_after: if now <= u64::MAX - HELPER_RETRY_DELAY {
                        (now + HELPER_RETRY_DELAY) as u64
                    } else {
                        u64::MAX
                    },
                    ..*old(self)
                }
            },
    {
        if succeeded {
            self.open = true;
        } else {
            self.retry_after = if now <= u64::MAX - HELPER_RETRY_DELAY {
                now + HELPER_RETRY_DELAY
            } else {
                u64::MAX
            };
        }
    }

    /// A command was written, or could not be. A pipe that fails is given up.
    pub fn written(&mut self, succeeded: bool)
        ensures
            *final(self) == (HelperPipe { open: old(self).open && succeeded, ..*old(self) }),
    {
        if !succeeded {
            self.open = false;
        }
    }
}

/// Why a send did not start.
pub open spec fn cooling_down_reason() -> Seq<char> {
    "input helper pipe retry is cooling down"@
}

pub fn cooling_down_error() -> (r: String)
    ensures
        r@ == cooling_down_reason(),
{
    String::from_str("input helper pipe retry is cooling down")
}

/// Whether a missing helper is logged, given when it last was.
pub fn helper_log_due(last: &mut Option<u64>, now: u64) -> (r: bool)
    ensures
        r == !(*old(last) matches Some(at) && age(now, at) < HELPER_LOG_INTERVAL),
        *final(last) == if r {
            Some(now)
        } else {
            *old(last)
        },
{
    let recent: bool = match *last {
        Some(at) => elapsed(now, at) < HELPER_LOG_INTERVAL,
        None => false,
    };
    if recent {
        return false;
    }
    *last = Some(now);
    true
}

/// Whether the helper can be reached, given whether its pipe opens; only Windows
/// has one.
pub fn windows_input_pipe_available(platform: Platform, opens: bool) -> (r: bool)
    ensures
        r == (platform == Platform::Windows && opens),
{
    match platform {
        Platform::Windows => opens,
        _ => false,
    }
}

/// Why the secure attention sequence cannot be asked for elsewhere.
pub open spec fn no_secure_attention() -> Seq<char> {
    "Secure Attention Sequence is only available through the Windows input service."@
}

/// The outcome of asking for the secure attention sequence, given what the
/// helper answered.
pub fn send_secure_attention_to_helper(platform: Platform, answer: Result<(), String>) -> (r: Result<
    (),
    String,
>)
    ensures
        platform == Platform::Windows ==> r == answer,
        platform != Platform::Windows ==> (r matches Err(error) && error@ == no_secure_attention()),
{
    match platform {
        Platform::Windows => answer,
        _ => Err(
            String::from_str(
                "Secure Attention Sequence is only available through the Windows input service.",
            ),
        ),
    }
}

/// After a failed attempt to open it the pipe is not tried again for a while.
pub proof fn law_a_failed_pipe_cools_down(pipe: HelperPipe, now: u64, later: u64)
    requires
        !pipe.open,
        now <= u64::MAX - HELPER_RETRY_DELAY,
        later < now + HELPER_RETRY_DELAY,
    ensures
        (HelperPipe { retry_after: (now + HELPER_RETRY_DELAY) as u64, ..pipe }).first_step(later)
            == PipeStep::CoolingDown,
{
}

} // verus!
