use vstd::prelude::*;
use crate::banker::totals_fit;
use crate::table::{ResourceTable, TableView};

verus! {

/// What a lock or semaphore request answers when granting it could deadlock.
pub const DEADLOCK_REJECTED: isize = -0xDEAD;

/// The synchronisation state of one process, as values.
pub struct SyncView<M, S, C> {
    pub mutexes: Seq<Option<M>>,
    pub semaphores: Seq<Option<S>>,
    pub condvars: Seq<Option<C>>,
    pub deadlock_detect: bool,
    pub mutex: TableView,
    pub semaphore: TableView,
}

/// `id` is the first free slot of `slots`, or `slots.len()` when none is free.
pub open spec fn is_first_free<T>(slots: Seq<Option<T>>, id: int) -> bool {
    &&& 0 <= id <= slots.len()
    &&& forall|i: int| 0 <= i < id ==> #[trigger] slots[i] is Some
    &&& id < slots.len() ==> slots[id] is None
}

/// `slots` with `item` stored at `id`, appended when `id` is past the end.
pub open spec fn placed<T>(slots: Seq<Option<T>>, id: int, item: T) -> Seq<Option<T>> {
    if id < slots.len() {
        slots.update(id, Some(item))
    } else {
        slots.push(Some(item))
    }
}

/// Stores `item` in the first free slot, or appends it, and returns its index.
fn place<T>(slots: &mut Vec<Option<T>>, item: T) -> (id: usize)
    requires
        old(slots)@.len() < usize::MAX,
    ensures
        is_first_free(old(slots)@, id as int),
        final(slots)@ == placed(old(slots)@, id as int, item),
{
    let mut i: usize = 0;
    while i < slots.len()
        invariant
            i <= slots@.len(),
            slots@ == old(slots)@,
            slots@.len() < usize::MAX,
            forall|k: int| 0 <= k < i ==> #[trigger] slots@[k] is Some,
        decreases slots@.len() - i,
    {
        if slots[i].is_none() {
            slots.set(i, Some(item));
            return i;
        }
        i = i + 1;
    }
    slots.push(Some(item));
    slots.len() - 1
}

/// The synchronisation state of one process: its mutexes, semaphores and
/// condition variables (held as the kernel's objects, of types `M`, `S`, `C`),
/// whether deadlock detection is on, and the banker's bookkeeping for mutexes
/// and for semaphores.
pub struct ProcessSync<M, S, C> {
    mutex_list: Vec<Option<M>>,
    semaphore_list: Vec<Option<S>>,
    condvar_list: Vec<Option<C>>,
    dead_lock_enabled: bool,
    mutex_table: ResourceTable,
    sem_table: ResourceTable,
}

impl<M, S, C> View for ProcessSync<M, S, C> {
    type V = SyncView<M, S, C>;

    closed spec fn view(&self) -> SyncView<M, S, C> {
        SyncView {
            mutexes: self.mutex_list@,
            semaphores: self.semaphore_list@,
            condvars: self.condvar_list@,
            deadlock_detect: self.dead_lock_enabled,
            mutex: self.mutex_table@,
            semaphore: self.sem_table@,
        }
    }
}

impl<M, S, C> SyncView<M, S, C> {
    /// Each bookkeeping table has one column per slot of its kind.
    pub open spec fn wf(self) -> bool {
        &&& self.mutex.shaped(self.mutexes.len())
        &&& self.semaphore.shaped(self.semaphores.len())
    }
}

impl<M, S, C> ProcessSync<M, S, C> {
    /// A process with no synchronisation objects and deadlock detection off.
    pub fn new() -> (p: Self)
        ensures
            p@.wf(),
            p@.mutexes == Seq::<Option<M>>::empty(),
            p@.semaphores == Seq::<Option<S>>::empty(),
            p@.condvars == Seq::<Option<C>>::empty(),
            !p@.deadlock_detect,
            p@.mutex.available.len() == 0,
            p@.mutex.allocation.len() == 0,
            p@.mutex.need.len() == 0,
            p@.semaphore.available.len() == 0,
            p@.semaphore.allocation.len() == 0,
            p@.semaphore.need.len() == 0,
    {
        ProcessSync {
            mutex_list: Vec::new(),
            semaphore_list: Vec::new(),
            condvar_list: Vec::new(),
            dead_lock_enabled: false,
            mutex_table: ResourceTable::new(),
            sem_table: ResourceTable::new(),
        }
    }

    /// Creates a mutex: stores `mutex` in the first free mutex slot (or a new
    /// one), marks that mutex free in the bookkeeping, sizes the bookkeeping
    /// to `thread_count` threads and all mutex slots, and returns the slot's index.
    pub fn sys_mutex_create(&mut self, mutex: M, thread_count: usize) -> (id: isize)
        requires
            old(self)@.wf(),
            old(self)@.mutexes.len() < isize::MAX,
        ensures
            final(self)@.wf(),
            is_first_free(old(self)@.mutexes, id as int),
            forall|i: int, j: int|
                0 <= i < old(self)@.mutex.allocation.len() && 0 <= j < old(self)@.mutex.allocation[i].len()
                    ==> #[trigger] final(self)@.mutex.allocation[i][j] == old(self)@.mutex.allocation[i][j],
            forall|i: int, j: int|
                0 <= i < old(self)@.mutex.need.len() && 0 <= j < old(self)@.mutex.need[i].len()
                    ==> #[trigger] final(self)@.mutex.need[i][j] == old(self)@.mutex.need[i][j],
            final(self)@.mutex.allocation.len() >= thread_count,
            final(self)@.mutex.available[id as int] == 1,
            final(self)@ == (SyncView {
                mutexes: placed(old(self)@.mutexes, id as int, mutex),
                mutex: old(self)@.mutex.opened(
                    id as int,
                    1,
                    thread_count as nat,
                    final(self)@.mutexes.len(),
                ),
                ..old(self)@
            }),
    {
        let id = place(&mut self.mutex_list, mutex);
        let count = self.mutex_list.len();
        self.mutex_table.open_resource(id, 1, thread_count, count);
        id as isize
    }

    /// Creates a semaphore with `res_count` resources: stores `sem` in the first
    /// free semaphore slot (or a new one), records `res_count` free in the
    /// bookkeeping, sizes the bookkeeping to `thread_count` threads and all
    /// semaphore slots, and returns the slot's index.
    pub fn sys_semaphore_create(&mut self, sem: S, res_count: usize, thread_count: usize) -> (id: isize)
        requires
            old(self)@.wf(),
            old(self)@.semaphores.len() < isize::MAX,
        ensures
            final(self)@.wf(),
            is_first_free(old(self)@.semaphores, id as int),
            forall|i: int, j: int|
                0 <= i < old(self)@.semaphore.allocation.len() && 0 <= j < old(self)@.semaphore.allocation[i].len()
                    ==> #[trigger] final(self)@.semaphore.allocation[i][j] == old(self)@.semaphore.allocation[i][j],
            forall|i: int, j: int|
                0 <= i < old(self)@.semaphore.need.len() && 0 <= j < old(self)@.semaphore.need[i].len()
                    ==> #[trigger] final(self)@.semaphore.need[i][j] == old(self)@.semaphore.need[i][j],
            final(self)@.semaphore.allocation.len() >= thread_count,
            final(self)@.semaphore.available[id as int] == res_count,
            final(self)@ == (SyncView {
                semaphores: placed(old(self)@.semaphores, id as int, sem),
                semaphore: old(self)@.semaphore.opened(
                    id as int,
                    res_count,
                    thread_count as nat,
                    final(self)@.semaphores.len(),
                ),
                ..old(self)@
            }),
    {
        let id = place(&mut self.semaphore_list, sem);
        let count = self.semaphore_list.len();
        self.sem_table.open_resource(id, res_count, thread_count, count);
        id as isize
    }

    /// Creates a condition variable in the first free slot (or a new one) and
    /// returns the slot's index.
    pub fn sys_condvar_create(&mut self, condvar: C) -> (id: isize)
        requires
            old(self)@.condvars.len() < isize::MAX,
        ensures
            is_first_free(old(self)@.condvars, id as int),
            final(self)@ == (SyncView { condvars: placed(old(self)@.condvars, id as int, condvar), ..old(self)@ }),
    {
        let id = place(&mut self.condvar_list, condvar);
        id as isize
    }
}

impl<M, S, C> ProcessSync<M, S, C> {
    /// First half of a mutex lock by thread `tid` (threads exist as flagged in
    /// `active`): sizes the mutex bookkeeping to all threads and mutexes, and,
    /// with deadlock detection on, records that `tid` waits for the mutex and
    /// runs the banker's safety check. When the state with that request is
    /// unsafe the request is withdrawn and `DEADLOCK_REJECTED` returned;
    /// otherwise 0, and the caller goes on to acquire the mutex and then calls
    /// `mutex_lock_granted`.
    pub fn sys_mutex_lock(&mut self, tid: usize, mutex_id: usize, active: &Vec<bool>) -> (r: isize)
        requires
            old(self)@.wf(),
            mutex_id < old(self)@.mutexes.len(),
            old(self)@.mutexes[mutex_id as int] is Some,
            tid < active@.len(),
            old(self)@.deadlock_detect ==> totals_fit(
                old(self)@.mutex.available,
                old(self)@.mutex.grown(active@.len(), old(self)@.mutexes.len()).allocation,
                active@,
            ),
        ensures
            final(self)@.wf(),
            r == 0 || r == DEADLOCK_REJECTED,
            r == DEADLOCK_REJECTED ==> old(self)@.deadlock_detect,
            old(self)@.deadlock_detect && r == 0 ==> final(self)@.mutex.safe_for(active@),
            forall|i: int, j: int|
                0 <= i < old(self)@.mutex.allocation.len() && 0 <= j < old(self)@.mutex.allocation[i].len()
                    ==> #[trigger] final(self)@.mutex.allocation[i][j] == old(self)@.mutex.allocation[i][j],
            final(self)@.mutex.available == old(self)@.mutex.available,
            final(self)@.mutex.allocation.len() >= active@.len(),
            ({
                let grown = old(self)@.mutex.grown(active@.len(), old(self)@.mutexes.len());
                let asked = grown.with_need(tid as int, mutex_id as int, 1);
                if !old(self)@.deadlock_detect {
                    r == 0 && final(self)@ == (SyncView { mutex: grown, ..old(self)@ })
                } else if asked.safe_for(active@) {
                    r == 0 && final(self)@ == (SyncView { mutex: asked, ..old(self)@ })
                } else {
                    r == DEADLOCK_REJECTED && final(self)@ == (SyncView {
                        mutex: grown.with_need(tid as int, mutex_id as int, 0),
                        ..old(self)@
                    })
                }
            }),
    {
        let thread_count = active.len();
        let mutex_count = self.mutex_list.len();
        self.mutex_table.ensure_shape(thread_count, mutex_count);
        if self.dead_lock_enabled {
            self.mutex_table.set_need(tid, mutex_id, 1);
            if !self.mutex_table.check_safe(active) {
                self.mutex_table.set_need(tid, mutex_id, 0);
                proof {
                    let g = old(self)@.mutex.grown(active@.len(), old(self)@.mutexes.len());
                    let want = g.with_need(tid as int, mutex_id as int, 0);
                    assert(self@.mutex.need[tid as int] =~= want.need[tid as int]);
                    assert(self@.mutex.need =~= want.need);
                    assert(self@.mutex == want);
                }
                return DEADLOCK_REJECTED;
            }
        }
        0
    }

    /// Second half of a mutex lock, once thread `tid` holds the mutex: with
    /// deadlock detection on, `tid` no longer waits for it, holds it, and the
    /// mutex is no longer free.
    pub fn mutex_lock_granted(&mut self, tid: usize, mutex_id: usize)
        requires
            old(self)@.wf(),
            mutex_id < old(self)@.mutexes.len(),
            old(self)@.deadlock_detect ==> tid < old(self)@.mutex.allocation.len(),
        ensures
            final(self)@.wf(),
            final(self)@ == (if old(self)@.deadlock_detect {
                SyncView {
                    mutex: old(self)@.mutex.with_need(tid as int, mutex_id as int, 0).with_allocation(
                        tid as int,
                        mutex_id as int,
                        1,
                    ).with_available(mutex_id as int, 0),
                    ..old(self)@
                }
            } else {
                old(self)@
            }),
    {
        if self.dead_lock_enabled {
            self.mutex_table.set_need(tid, mutex_id, 0);
            self.mutex_table.set_allocation(tid, mutex_id, 1);
            self.mutex_table.set_available(mutex_id, 0);
        }
    }

    /// Bookkeeping of a mutex unlock by thread `tid`, after the mutex itself was
    /// released: with deadlock detection on, `tid` no longer holds it and it is
    /// free. Returns 0.
    pub fn sys_mutex_unlock(&mut self, tid: usize, mutex_id: usize) -> (r: isize)
        requires
            old(self)@.wf(),
            mutex_id < old(self)@.mutexes.len(),
            old(self)@.mutexes[mutex_id as int] is Some,
            old(self)@.deadlock_detect ==> tid < old(self)@.mutex.allocation.len(),
        ensures
            r == 0,
            final(self)@.wf(),
            final(self)@ == (if old(self)@.deadlock_detect {
                SyncView {
                    mutex: old(self)@.mutex.with_allocation(tid as int, mutex_id as int, 0).with_available(
                        mutex_id as int,
                        1,
                    ),
                    ..old(self)@
                }
            } else {
                old(self)@
            }),
    {
        if self.dead_lock_enabled {
            self.mutex_table.set_allocation(tid, mutex_id, 0);
            self.mutex_table.set_available(mutex_id, 1);
        }
        0
    }

    /// Bookkeeping of a semaphore up by thread `tid`, after the semaphore itself
    /// was raised: with deadlock detection on, `tid` holds one fewer and one
    /// more is free. Returns 0.
    pub fn sys_semaphore_up(&mut self, tid: usize, sem_id: usize) -> (r: isize)
        requires
            old(self)@.wf(),
            sem_id < old(self)@.semaphores.len(),
            old(self)@.semaphores[sem_id as int] is Some,
            old(self)@.deadlock_detect ==> {
                &&& tid < old(self)@.semaphore.allocation.len()
                &&& old(self)@.semaphore.allocation[tid as int][sem_id as int] >= 1
                &&& old(self)@.semaphore.available[sem_id as int] < usize::MAX
            },
        ensures
            r == 0,
            final(self)@.wf(),
            final(self)@ == (if old(self)@.deadlock_detect {
                let t = old(self)@.semaphore;
                SyncView {
                    semaphore: t.with_allocation(
                        tid as int,
                        sem_id as int,
                        (t.allocation[tid as int][sem_id as int] - 1) as usize,
                    ).with_available(sem_id as int, (t.available[sem_id as int] + 1) as usize),
                    ..old(self)@
                }
            } else {
                old(self)@
            }),
    {
        if self.dead_lock_enabled {
            let held = self.sem_table.allocation_at(tid, sem_id);
            self.sem_table.set_allocation(tid, sem_id, held - 1);
            let free = self.sem_table.available_at(sem_id);
            self.sem_table.set_available(sem_id, free + 1);
        }
        0
    }

    /// First half of a semaphore down by thread `tid` (threads exist as flagged
    /// in `active`): sizes the semaphore bookkeeping to all threads and
    /// semaphores, and, with deadlock detection on, records that `tid` waits for
    /// one more and runs the banker's safety check. When the state with that
    /// request is unsafe the request is withdrawn and `DEADLOCK_REJECTED`
    /// returned; otherwise 0, and the caller goes on to take the semaphore and
    /// then calls `semaphore_down_granted`.
    pub fn sys_semaphore_down(&mut self, tid: usize, sem_id: usize, active: &Vec<bool>) -> (r: isize)
        requires
            old(self)@.wf(),
            sem_id < old(self)@.semaphores.len(),
            old(self)@.semaphores[sem_id as int] is Some,
            tid < active@.len(),
            old(self)@.deadlock_detect ==> {
                let grown = old(self)@.semaphore.grown(active@.len(), old(self)@.semaphores.len());
                &&& grown.need[tid as int][sem_id as int] < usize::MAX
                &&& totals_fit(grown.available, grown.allocation, active@)
            },
        ensures
            final(self)@.wf(),
            r == 0 || r == DEADLOCK_REJECTED,
            r == DEADLOCK_REJECTED ==> old(self)@.deadlock_detect,
            old(self)@.deadlock_detect && r == 0 ==> final(self)@.semaphore.safe_for(active@),
            forall|i: int, j: int|
                0 <= i < old(self)@.semaphore.allocation.len() && 0 <= j < old(self)@.semaphore.allocation[i].len()
                    ==> #[trigger] final(self)@.semaphore.allocation[i][j] == old(self)@.semaphore.allocation[i][j],
            final(self)@.semaphore.available == old(self)@.semaphore.available,
            final(self)@.semaphore.allocation.len() >= active@.len(),
            ({
                let grown = old(self)@.semaphore.grown(active@.len(), old(self)@.semaphores.len());
                let waiting = grown.need[tid as int][sem_id as int];
                let asked = grown.with_need(tid as int, sem_id as int, (waiting + 1) as usize);
                if !old(self)@.deadlock_detect {
                    r == 0 && final(self)@ == (SyncView { semaphore: grown, ..old(self)@ })
                } else if asked.safe_for(active@) {
                    r == 0 && final(self)@ == (SyncView { semaphore: asked, ..old(self)@ })
                } else {
                    r == DEADLOCK_REJECTED && final(self)@ == (SyncView { semaphore: grown, ..old(self)@ })
                }
            }),
    {
        let thread_count = active.len();
        let sem_count = self.semaphore_list.len();
        self.sem_table.ensure_shape(thread_count, sem_count);
        if self.dead_lock_enabled {
            let waiting = self.sem_table.need_at(tid, sem_id);
            self.sem_table.set_need(tid, sem_id, waiting + 1);
            if !self.sem_table.check_safe(active) {
                let again = self.sem_table.need_at(tid, sem_id);
                self.sem_table.set_need(tid, sem_id, again - 1);
                proof {
                    let g = old(self)@.semaphore.grown(active@.len(), old(self)@.semaphores.len());
                    assert(self@.semaphore.need[tid as int] =~= g.need[tid as int]);
                    assert(self@.semaphore.need =~= g.need);
                    assert(self@.semaphore == g);
                }
                return DEADLOCK_REJECTED;
            }
        }
        0
    }

    /// Second half of a semaphore down, once thread `tid` has taken the
    /// semaphore: with deadlock detection on, `tid` waits for one fewer, holds
    /// one more, and one fewer is free.
    pub fn semaphore_down_granted(&mut self, tid: usize, sem_id: usize)
        requires
            old(self)@.wf(),
            sem_id < old(self)@.semaphores.len(),
            old(self)@.deadlock_detect ==> {
                let t = old(self)@.semaphore;
                &&& tid < t.allocation.len()
                &&& t.need[tid as int][sem_id as int] >= 1
                &&& t.allocation[tid as int][sem_id as int] < usize::MAX
                &&& t.available[sem_id as int] >= 1
            },
        ensures
            final(self)@.wf(),
            final(self)@ == (if old(self)@.deadlock_detect {
                let t = old(self)@.semaphore;
                SyncView {
                    semaphore: t.with_need(
                        tid as int,
                        sem_id as int,
                        (t.need[tid as int][sem_id as int] - 1) as usize,
                    ).with_allocation(
                        tid as int,
                        sem_id as int,
                        (t.allocation[tid as int][sem_id as int] + 1) as usize,
                    ).with_available(sem_id as int, (t.available[sem_id as int] - 1) as usize),
                    ..old(self)@
                }
            } else {
                old(self)@
            }),
    {
        if self.dead_lock_enabled {
            let waiting = self.sem_table.need_at(tid, sem_id);
            self.sem_table.set_need(tid, sem_id, waiting - 1);
            let held = self.sem_table.allocation_at(tid, sem_id);
            self.sem_table.set_allocation(tid, sem_id, held + 1);
            let free = self.sem_table.available_at(sem_id);
            self.sem_table.set_available(sem_id, free - 1);
        }
    }

    /// Turns deadlock detection on (`enabled == 1`) or off (`enabled == 0`) and
    /// returns 0; any other value is refused with -1 and changes nothing.
    pub fn sys_enable_deadlock_detect(&mut self, enabled: usize) -> (r: isize)
        ensures
            enabled == 1 ==> r == 0 && final(self)@ == (SyncView { deadlock_detect: true, ..old(self)@ }),
            enabled == 0 ==> r == 0 && final(self)@ == (SyncView { deadlock_detect: false, ..old(self)@ }),
            enabled > 1 ==> r == -1 && final(self)@ == old(self)@,
    {
        match enabled {
            1 => {
                self.dead_lock_enabled = true;
                0
            },
            0 => {
                self.dead_lock_enabled = false;
                0
            },
            _ => -1,
        }
    }
}

impl<M, S, C> ProcessSync<M, S, C> {
    /// The mutex in slot `id`.
    pub fn mutex(&self, id: usize) -> (m: &M)
        requires
            id < self@.mutexes.len(),
            self@.mutexes[id as int] is Some,
        ensures
            self@.mutexes[id as int] == Some(*m),
    {
        self.mutex_list[id].as_ref().unwrap()
    }

    /// The semaphore in slot `id`.
    pub fn semaphore(&self, id: usize) -> (sem: &S)
        requires
            id < self@.semaphores.len(),
            self@.semaphores[id as int] is Some,
        ensures
            self@.semaphores[id as int] == Some(*sem),
    {
        self.semaphore_list[id].as_ref().unwrap()
    }

    /// The condition variable in slot `id`.
    pub fn condvar(&self, id: usize) -> (cv: &C)
        requires
            id < self@.condvars.len(),
            self@.condvars[id as int] is Some,
        ensures
            self@.condvars[id as int] == Some(*cv),
    {
        self.condvar_list[id].as_ref().unwrap()
    }

    /// Whether slot `id` of the mutexes holds one.
    pub fn has_mutex(&self, id: usize) -> (b: bool)
        ensures
            b == (id < self@.mutexes.len() && self@.mutexes[id as int] is Some),
    {
        id < self.mutex_list.len() && self.mutex_list[id].is_some()
    }

    /// Whether slot `id` of the semaphores holds one.
    pub fn has_semaphore(&self, id: usize) -> (b: bool)
        ensures
            b == (id < self@.semaphores.len() && self@.semaphores[id as int] is Some),
    {
        id < self.semaphore_list.len() && self.semaphore_list[id].is_some()
    }

    /// Whether slot `id` of the condition variables holds one.
    pub fn has_condvar(&self, id: usize) -> (b: bool)
        ensures
            b == (id < self@.condvars.len() && self@.condvars[id as int] is Some),
    {
        id < self.condvar_list.len() && self.condvar_list[id].is_some()
    }

    /// Number of mutex slots.
    pub fn mutex_count(&self) -> (n: usize)
        ensures
            n == self@.mutexes.len(),
    {
        self.mutex_list.len()
    }

    /// Number of semaphore slots.
    pub fn semaphore_count(&self) -> (n: usize)
        ensures
            n == self@.semaphores.len(),
    {
        self.semaphore_list.len()
    }

    /// Number of condition variable slots.
    pub fn condvar_count(&self) -> (n: usize)
        ensures
            n == self@.condvars.len(),
    {
        self.condvar_list.len()
    }

    /// Whether deadlock detection is on.
    pub fn deadlock_detect_enabled(&self) -> (b: bool)
        ensures
            b == self@.deadlock_detect,
    {
        self.dead_lock_enabled
    }

    /// The banker's bookkeeping for mutexes.
    pub fn mutex_table(&self) -> (t: &ResourceTable)
        ensures
            t@ == self@.mutex,
    {
        &self.mutex_table
    }

    /// The banker's bookkeeping for semaphores.
    pub fn semaphore_table(&self) -> (t: &ResourceTable)
        ensures
            t@ == self@.semaphore,
    {
        &self.sem_table
    }
}

/// What a create call stores is what a later lookup of the returned slot finds,
/// and every other slot is left as it was.
pub proof fn lemma_created_is_found<T>(slots: Seq<Option<T>>, id: int, item: T)
    requires
        is_first_free(slots, id),
    ensures
        id < placed(slots, id, item).len(),
        placed(slots, id, item)[id] == Some(item),
        forall|k: int| 0 <= k < slots.len() && k != id ==> #[trigger] placed(slots, id, item)[k] == slots[k],
        placed(slots, id, item).len() == if id < slots.len() { slots.len() } else { slots.len() + 1 },
{
}

/// Two creates in a row hand out different slots.
pub proof fn lemma_creates_differ<T>(slots: Seq<Option<T>>, id1: int, a: T, id2: int, b: T)
    requires
        is_first_free(slots, id1),
        is_first_free(placed(slots, id1, a), id2),
    ensures
        id1 != id2,
{
}

/// With deadlock detection on, a mutex that thread `i` neither holds nor waits
/// for and that is free comes back to the same bookkeeping after `i` asks for it
/// (`sys_mutex_lock`), gets it (`mutex_lock_granted`) and releases it
/// (`sys_mutex_unlock`).
pub proof fn lemma_mutex_round_trip(t: TableView, i: int, j: int)
    requires
        0 <= i < t.need.len(),
        0 <= i < t.allocation.len(),
        0 <= j < t.available.len(),
        j < t.need[i].len(),
        j < t.allocation[i].len(),
        t.need[i][j] == 0,
        t.allocation[i][j] == 0,
        t.available[j] == 1,
    ensures
        t.with_need(i, j, 1).with_need(i, j, 0).with_allocation(i, j, 1).with_available(j, 0).with_allocation(
            i,
            j,
            0,
        ).with_available(j, 1) == t,
{
    let r = t.with_need(i, j, 1).with_need(i, j, 0).with_allocation(i, j, 1).with_available(j, 0).with_allocation(
        i,
        j,
        0,
    ).with_available(j, 1);
    assert(r.need[i] =~= t.need[i]);
    assert(r.need =~= t.need);
    assert(r.allocation[i] =~= t.allocation[i]);
    assert(r.allocation =~= t.allocation);
    assert(r.available =~= t.available);
}

/// With deadlock detection on, a semaphore down by thread `i`
/// (`sys_semaphore_down`, then `semaphore_down_granted`) followed by an up by
/// the same thread (`sys_semaphore_up`) leaves the bookkeeping as it was.
pub proof fn lemma_semaphore_round_trip(t: TableView, i: int, j: int)
    requires
        0 <= i < t.need.len(),
        0 <= i < t.allocation.len(),
        0 <= j < t.available.len(),
        j < t.need[i].len(),
        j < t.allocation[i].len(),
        t.need[i][j] < usize::MAX,
        t.allocation[i][j] < usize::MAX,
        t.available[j] >= 1,
    ensures
        ({
            let asked = t.with_need(i, j, (t.need[i][j] + 1) as usize);
            let got = asked.with_need(i, j, (asked.need[i][j] - 1) as usize).with_allocation(
                i,
                j,
                (asked.allocation[i][j] + 1) as usize,
            ).with_available(j, (asked.available[j] - 1) as usize);
            let back = got.with_allocation(i, j, (got.allocation[i][j] - 1) as usize).with_available(
                j,
                (got.available[j] + 1) as usize,
            );
            back == t
        }),
{
    let asked = t.with_need(i, j, (t.need[i][j] + 1) as usize);
    let got = asked.with_need(i, j, (asked.need[i][j] - 1) as usize).with_allocation(
        i,
        j,
        (asked.allocation[i][j] + 1) as usize,
    ).with_available(j, (asked.available[j] - 1) as usize);
    let back = got.with_allocation(i, j, (got.allocation[i][j] - 1) as usize).with_available(
        j,
        (got.available[j] + 1) as usize,
    );
    assert(back.need[i] =~= t.need[i]);
    assert(back.need =~= t.need);
    assert(back.allocation[i] =~= t.allocation[i]);
    assert(back.allocation =~= t.allocation);
    assert(back.available =~= t.available);
}

/// A refused mutex lock leaves the mutex bookkeeping as sizing alone left it,
/// when the thread was not already waiting for that mutex.
pub proof fn lemma_refused_lock_changes_nothing(grown: TableView, tid: int, mutex_id: int)
    requires
        0 <= tid < grown.need.len(),
        0 <= mutex_id < grown.need[tid].len(),
        grown.need[tid][mutex_id] == 0,
    ensures
        grown.with_need(tid, mutex_id, 0) == grown,
{
    let r = grown.with_need(tid, mutex_id, 0);
    assert(r.need[tid] =~= grown.need[tid]);
    assert(r.need =~= grown.need);
}

} // verus!
