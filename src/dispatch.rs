//! The dispatcher's polling decisions: what to do with each read of the
//! command characteristic while a call waits for its reply.
use vstd::prelude::*;
use crate::framer::{
    assembly_start, assembly_step, assembly_wf, packet_is_end, packet_payload, packet_seq,
    AssemblyState, PacketAssembler,
};

verus! {

/// Time budget of one call, in milliseconds.
pub const CALL_BUDGET_MS: u64 = 30_000;

/// Wait after an empty read (no data yet), in milliseconds.
pub const EMPTY_READ_WAIT_MS: u64 = 100;

/// Wait after a read of the single byte 0xFF (nothing to give), in milliseconds.
pub const BUSY_READ_WAIT_MS: u64 = 500;

/// Wait after a packet that did not complete a message, in milliseconds.
pub const PARTIAL_WAIT_MS: u64 = 50;

/// What the caller does after a read.
#[derive(Debug, Clone, PartialEq, Eq)]
pub enum PollStep {
    /// Sleep this many milliseconds, then read again.
    Wait(u64),
    /// A whole message came in.
    Complete(Vec<u8>),
    /// The call's deadline passed.
    TimedOut,
}

/// The value of a poll step.
pub enum PollOutcome {
    Wait(u64),
    Complete(Seq<u8>),
    TimedOut,
}

impl View for PollStep {
    type V = PollOutcome;

    open spec fn view(&self) -> PollOutcome {
        match self {
            PollStep::Wait(ms) => PollOutcome::Wait(*ms),
            PollStep::Complete(m) => PollOutcome::Complete(m@),
            PollStep::TimedOut => PollOutcome::TimedOut,
        }
    }
}

/// The wait that a sentinel read asks for: 100 ms after an empty read, 500 ms
/// after a lone 0xFF; `None` for a read that goes to the assembler.
pub open spec fn read_wait(read: Seq<u8>) -> Option<u64> {
    if read.len() == 0 {
        Some(EMPTY_READ_WAIT_MS)
    } else if read.len() == 1 && read[0] == 0xFF {
        Some(BUSY_READ_WAIT_MS)
    } else {
        None
    }
}

/// What follows a read that started `elapsed_ms` into the call, from
/// assembler state `s`: the new state and the step.
pub open spec fn poll_outcome(s: AssemblyState, read: Seq<u8>, elapsed_ms: u64) -> (
    AssemblyState,
    PollOutcome,
) {
    if elapsed_ms > CALL_BUDGET_MS {
        (s, PollOutcome::TimedOut)
    } else {
        match read_wait(read) {
            Some(ms) => (s, PollOutcome::Wait(ms)),
            None => {
                let (t, out) = assembly_step(s, read);
                match out {
                    Some(m) => (t, PollOutcome::Complete(m)),
                    None => (t, PollOutcome::Wait(PARTIAL_WAIT_MS)),
                }
            },
        }
    }
}

/// Whether a call that started `elapsed_ms` ago may still read.
pub fn within_budget(elapsed_ms: u64) -> (r: bool)
    ensures
        r == (elapsed_ms <= CALL_BUDGET_MS),
{
    elapsed_ms <= CALL_BUDGET_MS
}

/// Decides what follows a read that started `elapsed_ms` after the call's
/// first read attempt.
///
/// Past the budget the call times out and the read is dropped. An empty
/// read waits 100 ms and a lone 0xFF waits 500 ms, both without touching
/// the assembler. Anything else goes to the assembler: a completed message
/// is handed out, otherwise the caller waits 50 ms.
pub fn poll_step(assembler: &mut PacketAssembler, read: &[u8], elapsed_ms: u64) -> (r: PollStep)
    ensures
        (final(assembler).state(), r@) == poll_outcome(old(assembler).state(), read@, elapsed_ms),
{
    if elapsed_ms > CALL_BUDGET_MS {
        return PollStep::TimedOut;
    }
    if read.len() == 0 {
        return PollStep::Wait(EMPTY_READ_WAIT_MS);
    }
    if read.len() == 1 && read[0] == 0xFF {
        return PollStep::Wait(BUSY_READ_WAIT_MS);
    }
    match assembler.handle_notification(read) {
        Some(m) => PollStep::Complete(m),
        None => PollStep::Wait(PARTIAL_WAIT_MS),
    }
}

/// Busy replies back off without disturbing reassembly.
///
/// From any state that the assembler can be in, each lone 0xFF read within
/// the budget asks for a 500 ms wait and leaves the assembler as it was, so
/// any number of them can come first; a single-packet message (end flag set,
/// sequence number 0) read within the budget is then delivered whole and the
/// assembler returns to its start.
pub proof fn lemma_busy_back_off(s: AssemblyState, busy_elapsed: u64, packet: Seq<u8>, elapsed: u64)
    requires
        assembly_wf(s),
        busy_elapsed <= CALL_BUDGET_MS,
        elapsed <= CALL_BUDGET_MS,
        packet.len() >= 2,
        packet_seq(packet) == 0,
        packet_is_end(packet),
    ensures
        poll_outcome(s, seq![0xFFu8], busy_elapsed) == (s, PollOutcome::Wait(BUSY_READ_WAIT_MS)),
        poll_outcome(s, packet, elapsed) == (
            assembly_start(),
            PollOutcome::Complete(packet_payload(packet)),
        ),
{
    if s.next == 0 {
        assert(s.buffer + packet_payload(packet) =~= packet_payload(packet));
    }
}

} // verus!
