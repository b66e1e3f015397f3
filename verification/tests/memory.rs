use lib::memory::{memory_reply, sys_mmap, sys_munmap, sys_sbrk, MapPermission, MemoryRequest, PAGE_SIZE};

#[test]
fn mmap_rejects_unaligned_start() {
    assert_eq!(sys_mmap(PAGE_SIZE + 1, PAGE_SIZE, 3), MemoryRequest::Reply(-1));
    // checked before the zero length
    assert_eq!(sys_mmap(1, 0, 3), MemoryRequest::Reply(-1));
}

#[test]
fn mmap_rejects_bad_port() {
    assert_eq!(sys_mmap(0, PAGE_SIZE, 0), MemoryRequest::Reply(-1));
    assert_eq!(sys_mmap(0, PAGE_SIZE, 8), MemoryRequest::Reply(-1));
    assert_eq!(sys_mmap(0, PAGE_SIZE, 9), MemoryRequest::Reply(-1));
    assert_eq!(sys_mmap(0, 0, 0x10), MemoryRequest::Reply(-1));
}

#[test]
fn mmap_zero_length_is_accepted() {
    assert_eq!(sys_mmap(0x10000000, 0, 1), MemoryRequest::Reply(0));
}

#[test]
fn mmap_asks_for_mapping() {
    assert_eq!(
        sys_mmap(0x10000000, 4096, 3),
        MemoryRequest::MapArea {
            start: 0x10000000,
            end: 0x10001000,
            perm: MapPermission { readable: true, writable: true, executable: false, user: true },
        }
    );
    assert_eq!(
        sys_mmap(0x2000, 10, 4),
        MemoryRequest::MapArea {
            start: 0x2000,
            end: 0x200a,
            perm: MapPermission { readable: false, writable: false, executable: true, user: true },
        }
    );
    assert_eq!(
        sys_mmap(0, 1, 7),
        MemoryRequest::MapArea {
            start: 0,
            end: 1,
            perm: MapPermission { readable: true, writable: true, executable: true, user: true },
        }
    );
}

#[test]
fn munmap_requests() {
    assert_eq!(sys_munmap(3, 4096), MemoryRequest::Reply(-1));
    assert_eq!(sys_munmap(4096, 0), MemoryRequest::Reply(0));
    assert_eq!(sys_munmap(4096, 8192), MemoryRequest::UnmapArea { start: 4096, end: 12288 });
}

#[test]
fn memory_replies() {
    assert_eq!(memory_reply(true), 0);
    assert_eq!(memory_reply(false), -1);
}

#[test]
fn sbrk_replies() {
    assert_eq!(sys_sbrk(Some(0x8000)), 0x8000);
    assert_eq!(sys_sbrk(None), -1);
    assert_eq!(sys_sbrk(Some(usize::MAX)), -1isize);
}
