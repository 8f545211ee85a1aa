use vstd::prelude::*;

verus! {

/// Whether a wait status reports that the process exited: its low seven bits
/// are zero.
pub open spec fn wait_exited(status: i32) -> bool {
    (status & 0x7f) == 0
}

/// The exit code that a wait status carries: bits 8 to 15.
pub open spec fn wait_exit_code(status: i32) -> i32 {
    (status >> 8) & 0xff
}

/// Whether a wait status reports that a signal stopped the process: its low
/// byte is `0x7f`.
pub open spec fn wait_stopped(status: i32) -> bool {
    (status & 0xff) == 0x7f
}

/// The signal that a wait status carries: bits 8 to 15.
pub open spec fn wait_stop_signal(status: i32) -> i32 {
    (status >> 8) & 0xff
}

/// Number of the signal that a trap instruction or a single step raises.
pub open spec fn trap_signal() -> i32 {
    5
}

/// What a wait status tells of the traced process.
#[derive(Clone, Copy, Debug, PartialEq, Eq, Structural)]
pub enum StopEvent {
    /// The process exited with `code`.
    Exited { code: i32 },
    /// The signal `signal` stopped the process.
    Stopped { signal: i32 },
    /// The status reports neither an exit nor a stop; `signal` is what its
    /// signal field holds.
    Other { signal: i32 },
}

/// What a wait status tells: an exit is looked for first, then a stop.
pub open spec fn classified(status: i32) -> StopEvent {
    if wait_exited(status) {
        StopEvent::Exited { code: wait_exit_code(status) }
    } else if wait_stopped(status) {
        StopEvent::Stopped { signal: wait_stop_signal(status) }
    } else {
        StopEvent::Other { signal: wait_stop_signal(status) }
    }
}

/// `libc::WIFEXITED`: true exactly when the low seven bits of the status are
/// zero, as the function computes it.
#[verifier::external_body]
fn if_exited(status: i32) -> (exited: bool)
    ensures
        exited == wait_exited(status),
{
    libc::WIFEXITED(status)
}

/// `libc::WEXITSTATUS`: bits 8 to 15 of the status, as the function computes
/// them.
#[verifier::external_body]
fn exit_status(status: i32) -> (code: i32)
    ensures
        code == wait_exit_code(status),
{
    libc::WEXITSTATUS(status)
}

/// `libc::WIFSTOPPED`: true exactly when the low byte of the status is
/// `0x7f`, as the function computes it.
#[verifier::external_body]
fn if_stopped(status: i32) -> (stopped: bool)
    ensures
        stopped == wait_stopped(status),
{
    libc::WIFSTOPPED(status)
}

/// `libc::WSTOPSIG`: bits 8 to 15 of the status, as the function computes
/// them.
#[verifier::external_body]
fn stop_signal(status: i32) -> (signal: i32)
    ensures
        signal == wait_stop_signal(status),
{
    libc::WSTOPSIG(status)
}

/// `libc::SIGTRAP`: the constant 5 on Linux.
#[verifier::external_body]
fn sigtrap() -> (signal: i32)
    ensures
        signal == trap_signal(),
{
    libc::SIGTRAP
}

/// What the monitor of a traced process does with the outcome of one wait:
/// it hands the status on, unless the wait returned -1, which says that the
/// process is gone, and the monitor ends.
pub fn notify(waited: i32, status: i32) -> (forward: Option<i32>)
    ensures
        forward == if waited == -1 {
            None
        } else {
            Some(status)
        },
{
    if waited == -1 {
        None
    } else {
        Some(status)
    }
}

/// What the wait status `status` tells of the traced process.
pub fn classify(status: i32) -> (event: StopEvent)
    ensures
        event == classified(status),
{
    if if_exited(status) {
        StopEvent::Exited { code: exit_status(status) }
    } else {
        let signal = stop_signal(status);
        if if_stopped(status) {
            StopEvent::Stopped { signal }
        } else {
            StopEvent::Other { signal }
        }
    }
}

impl StopEvent {
    /// Whether the event is a stop by the signal of a trap.
    pub open spec fn spec_is_trap(self) -> bool {
        self matches StopEvent::Stopped { signal } && signal == trap_signal()
    }

    /// Whether the event is a stop by the signal of a trap.
    #[verifier::when_used_as_spec(spec_is_trap)]
    pub fn is_trap(self) -> (trap: bool)
        ensures
            trap == self.spec_is_trap(),
    {
        match self {
            StopEvent::Stopped { signal } => signal == sigtrap(),
            _ => false,
        }
    }

    /// Whether the event leaves the process stopped or gone, so that it runs
    /// no longer.
    pub open spec fn spec_halts(self) -> bool {
        self is Exited || self is Stopped
    }

    /// Whether the event leaves the process stopped or gone, so that it runs
    /// no longer.
    #[verifier::when_used_as_spec(spec_halts)]
    pub fn halts(self) -> (halts: bool)
        ensures
            halts == self.spec_halts(),
    {
        match self {
            StopEvent::Exited { .. } => true,
            StopEvent::Stopped { .. } => true,
            StopEvent::Other { .. } => false,
        }
    }
}

/// A status made of an exit code tells that exit, and one made of a stop
/// signal tells that stop.
pub proof fn lemma_status_round_trip(value: i32)
    requires
        0 <= value < 256,
    ensures
        classified(value << 8) == (StopEvent::Exited { code: value }),
        classified((value << 8) | 0x7f) == (StopEvent::Stopped { signal: value }),
{
    assert((value << 8) & 0x7f == 0 && ((value << 8) >> 8) & 0xff == value && (((value << 8) | 0x7f)
        & 0x7f) != 0 && (((value << 8) | 0x7f) & 0xff) == 0x7f && ((((value << 8) | 0x7f) >> 8)
        & 0xff) == value) by (bit_vector)
        requires
            0 <= value < 256,
    ;
}

} // verus!
