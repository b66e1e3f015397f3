use vstd::prelude::*;

verus! {

/// `trace` request: read one byte of user memory.
pub const TRACE_REQUEST_READ: usize = 0;

/// `trace` request: write one byte of user memory.
pub const TRACE_REQUEST_WRITE: usize = 1;

/// `trace` request: how often the current task has made a system call.
pub const TRACE_REQUEST_SYSCALL: usize = 2;

/// The flags of the page-table entry that maps the traced address.
#[derive(Clone, Copy, Debug, PartialEq, Eq, Structural)]
pub struct PteFlags {
    pub valid: bool,
    pub user: bool,
    pub readable: bool,
    pub writable: bool,
}

/// What a `trace` call does.
#[derive(Clone, Copy, Debug, PartialEq, Eq, Structural)]
pub enum TraceAction {
    /// Read the byte at the traced address and reply with it.
    ReadByte,
    /// Write this byte at the traced address and reply 0.
    WriteByte(u8),
    /// Reply with the count of the traced system call.
    CountSyscall,
    /// Reply -1.
    Fail,
}

/// Whether `request` touches user memory, so that its address must be translated.
pub fn is_memory_trace(request: usize) -> (b: bool)
    ensures
        b == (request == TRACE_REQUEST_READ || request == TRACE_REQUEST_WRITE),
{
    request == TRACE_REQUEST_READ || request == TRACE_REQUEST_WRITE
}

/// What `trace(request, _, data)` does, given the entry that maps the traced
/// address (`None` when it is not mapped; not read for a syscall count). A
/// read needs a valid, user, readable entry and a write a valid, user,
/// writable one; the byte written is `data` cut to its low 8 bits. Unknown
/// requests fail.
pub fn sys_trace(request: usize, data: usize, pte: Option<PteFlags>) -> (act: TraceAction)
    ensures
        act == (if request == TRACE_REQUEST_READ {
            match pte {
                Some(f) if f.valid && f.user && f.readable => TraceAction::ReadByte,
                _ => TraceAction::Fail,
            }
        } else if request == TRACE_REQUEST_WRITE {
            match pte {
                Some(f) if f.valid && f.user && f.writable => TraceAction::WriteByte(
                    (data % 256) as u8,
                ),
                _ => TraceAction::Fail,
            }
        } else if request == TRACE_REQUEST_SYSCALL {
            TraceAction::CountSyscall
        } else {
            TraceAction::Fail
        }),
{
    if request == TRACE_REQUEST_WRITE || request == TRACE_REQUEST_READ {
        let f = match pte {
            None => return TraceAction::Fail,
            Some(f) => f,
        };
        if !f.valid {
            return TraceAction::Fail;
        }
        if request == TRACE_REQUEST_READ {
            if f.user && f.readable {
                TraceAction::ReadByte
            } else {
                TraceAction::Fail
            }
        } else {
            if f.user && f.writable {
                let byte = (data % 256) as u8;
                TraceAction::WriteByte(byte)
            } else {
                TraceAction::Fail
            }
        }
    } else if request == TRACE_REQUEST_SYSCALL {
        TraceAction::CountSyscall
    } else {
        TraceAction::Fail
    }
}

/// The reply to a syscall-count trace: the count, or -1 when the traced system
/// call is unknown.
pub fn syscall_count_reply(times: Option<usize>) -> (r: isize)
    ensures
        r == (match times {
            Some(t) => t as isize,
            None => -1isize,
        }),
{
    match times {
        Some(t) => t as isize,
        None => -1,
    }
}

} // verus!
