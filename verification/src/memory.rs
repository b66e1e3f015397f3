use vstd::prelude::*;

verus! {

/// Size of a page in bytes.
pub const PAGE_SIZE: usize = 4096;

/// Access rights of a user mapping.
#[derive(Clone, Copy, Debug, PartialEq, Eq, Structural)]
pub struct MapPermission {
    pub readable: bool,
    pub writable: bool,
    pub executable: bool,
    pub user: bool,
}

/// What a memory system call asks of the current address space, or the reply
/// it gives without asking.
#[derive(Clone, Copy, Debug, PartialEq, Eq, Structural)]
pub enum MemoryRequest {
    /// Answer user space with this value; the address space is not touched.
    Reply(isize),
    /// Map `[start, end)` with `perm`.
    MapArea { start: usize, end: usize, perm: MapPermission },
    /// Unmap `[start, end)`.
    UnmapArea { start: usize, end: usize },
}

/// `port` asks for some of read (bit 0), write (bit 1) and execute (bit 2), and nothing else.
pub open spec fn port_valid(port: usize) -> bool {
    1 <= port <= 7
}

/// The permission `port` asks for: user access, plus read, write and execute
/// as bits 0, 1 and 2 say.
pub open spec fn port_permission(port: usize) -> MapPermission {
    MapPermission {
        readable: port & 1 != 0,
        writable: port & 2 != 0,
        executable: port & 4 != 0,
        user: true,
    }
}

/// Maps `len` bytes at `start` with the rights in `port`. An unaligned start or
/// an invalid `port` is refused with -1, a zero length is accepted at once with
/// 0 (after those checks); otherwise the address space is asked to map
/// `[start, start + len)` for user access.
pub fn sys_mmap(start: usize, len: usize, port: usize) -> (req: MemoryRequest)
    requires
        start % PAGE_SIZE == 0 && port_valid(port) && len != 0 ==> start + len <= usize::MAX,
    ensures
        req == (if start % PAGE_SIZE != 0 || !port_valid(port) {
            MemoryRequest::Reply(-1isize)
        } else if len == 0 {
            MemoryRequest::Reply(0isize)
        } else {
            MemoryRequest::MapArea {
                start,
                end: (start + len) as usize,
                perm: port_permission(port),
            }
        }),
        start % PAGE_SIZE == 0 && len != 0 && 1 <= port <= 7 ==> (req matches MemoryRequest::MapArea {
            start: s,
            end: e,
            perm,
        } && s == start && e == start + len && perm.user && perm.readable == (port % 2 == 1)
            && perm.writable == ((port / 2) % 2 == 1) && perm.executable == (port >= 4)),
        start % PAGE_SIZE == 0 && (port == 0 || port > 7) ==> req == MemoryRequest::Reply(-1isize),
        start % PAGE_SIZE != 0 ==> req == MemoryRequest::Reply(-1isize),
        start % PAGE_SIZE == 0 && 1 <= port <= 7 && len == 0 ==> req == MemoryRequest::Reply(0isize),
{
    proof {
        lemma_port_bits(port);
    }
    proof {
        assert((port & !0x7usize != 0 || port == 0) == !(1 <= port <= 7)) by (bit_vector);
    }
    if start % PAGE_SIZE != 0 || (port & !0x7 != 0) || port == 0 {
        return MemoryRequest::Reply(-1);
    }
    if len == 0 {
        return MemoryRequest::Reply(0);
    }
    let perm = MapPermission {
        readable: port & 1 != 0,
        writable: port & 2 != 0,
        executable: port & 4 != 0,
        user: true,
    };
    MemoryRequest::MapArea { start, end: start + len, perm }
}

/// Unmaps `len` bytes at `start`. An unaligned start is refused with -1, a zero
/// length is accepted at once with 0; otherwise the address space is asked to
/// unmap `[start, start + len)`.
pub fn sys_munmap(start: usize, len: usize) -> (req: MemoryRequest)
    requires
        start % PAGE_SIZE == 0 && len != 0 ==> start + len <= usize::MAX,
    ensures
        req == (if start % PAGE_SIZE != 0 {
            MemoryRequest::Reply(-1isize)
        } else if len == 0 {
            MemoryRequest::Reply(0isize)
        } else {
            MemoryRequest::UnmapArea { start, end: (start + len) as usize }
        }),
{
    if start % PAGE_SIZE != 0 {
        return MemoryRequest::Reply(-1);
    }
    if len == 0 {
        return MemoryRequest::Reply(0);
    }
    MemoryRequest::UnmapArea { start, end: start + len }
}

/// The reply to a map or unmap request once the address space has carried it
/// out (`done`) or refused it.
pub fn memory_reply(done: bool) -> (r: isize)
    ensures
        r == (if done { 0isize } else { -1isize }),
{
    if done {
        0
    } else {
        -1
    }
}

/// The reply to `sbrk` given what moving the program break gave back: the old
/// break, or `None` when the break could not move (then -1).
pub fn sys_sbrk(old_brk: Option<usize>) -> (r: isize)
    ensures
        r == (match old_brk {
            Some(b) => b as isize,
            None => -1isize,
        }),
{
    if let Some(b) = old_brk {
        b as isize
    } else {
        -1
    }
}

/// A mapping that `sys_mmap` asks for is always for user access and always
/// grants at least one of read, write and execute.
pub proof fn lemma_mapped_permission_nonempty(port: usize)
    requires
        port_valid(port),
    ensures
        port_permission(port).user,
        port_permission(port).readable || port_permission(port).writable || port_permission(
            port,
        ).executable,
{
    assert(1 <= port <= 7 ==> (port & 1 != 0 || port & 2 != 0 || port & 4 != 0)) by (bit_vector);
}

/// The ports `sys_mmap` accepts are exactly 1 to 7, and for each the
/// permission asked for has read exactly when bit 0 (value 1) is set, write
/// exactly when bit 1 (value 2) is set, execute exactly when bit 2 (value 4)
/// is set, and always user access.
pub proof fn lemma_port_bits(port: usize)
    ensures
        port_valid(port) <==> (1 <= port && port <= 7),
        1 <= port <= 7 ==> port_permission(port).readable == (port % 2 == 1),
        1 <= port <= 7 ==> port_permission(port).writable == ((port / 2) % 2 == 1),
        1 <= port <= 7 ==> port_permission(port).executable == (port >= 4),
        port_permission(port).user,
{
    assert(1 <= port <= 7 ==> ((port & 1 != 0) == (port % 2 == 1))) by (bit_vector);
    assert(1 <= port <= 7 ==> ((port & 2 != 0) == ((port / 2) % 2 == 1))) by (bit_vector);
    assert(1 <= port <= 7 ==> ((port & 4 != 0) == (port >= 4))) by (bit_vector);
}

} // verus!
