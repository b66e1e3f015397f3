use vstd::prelude::*;
use crate::banker::{
    active_set, held, lemma_held_prefix, lemma_resized_entries, ensure_matrix, is_safe, matrix_view, resized, row_or_empty, safe_state, totals_fit,
};

verus! {

/// The banker's bookkeeping for one kind of resource, as values: what is
/// free of each resource, what each thread holds, and what each thread waits
/// for (rows are threads, columns are resources).
pub struct TableView {
    pub available: Seq<usize>,
    pub allocation: Seq<Seq<usize>>,
    pub need: Seq<Seq<usize>>,
}

/// A matrix after `ensure_matrix(.., rows, col)`.
pub open spec fn grown_matrix(m: Seq<Seq<usize>>, rows: nat, col: nat) -> Seq<Seq<usize>> {
    Seq::new(
        if m.len() < rows { rows } else { m.len() },
        |i: int| resized(row_or_empty(m, i), col),
    )
}

/// `m` with entry `(i, j)` set to `v`.
pub open spec fn set_entry(m: Seq<Seq<usize>>, i: int, j: int, v: usize) -> Seq<Seq<usize>> {
    m.update(i, m[i].update(j, v))
}


/// Growing the bookkeeping to `rows` threads and `count` resources keeps what is
/// free as it was, keeps every entry already held or awaited, and fills every
/// new row and column with zeros: both matrices get
/// `max(old rows, rows)` rows of exactly `count` columns.
pub proof fn lemma_growth_keeps_entries(t: TableView, rows: nat, count: nat)
    ensures
        t.grown(rows, count).available == t.available,
        t.grown(rows, count).allocation.len() == (if t.allocation.len() < rows { rows } else { t.allocation.len() }),
        t.grown(rows, count).need.len() == (if t.need.len() < rows { rows } else { t.need.len() }),
        forall|i: int|
            0 <= i < t.grown(rows, count).allocation.len() ==> #[trigger] t.grown(rows, count).allocation[i].len() == count,
        forall|i: int|
            0 <= i < t.grown(rows, count).need.len() ==> #[trigger] t.grown(rows, count).need[i].len() == count,
        forall|i: int, j: int|
            0 <= i < t.grown(rows, count).allocation.len() && 0 <= j < count ==> #[trigger] t.grown(rows, count).allocation[i][j]
                == (if i < t.allocation.len() && j < t.allocation[i].len() { t.allocation[i][j] } else { 0usize }),
        forall|i: int, j: int|
            0 <= i < t.grown(rows, count).need.len() && 0 <= j < count ==> #[trigger] t.grown(rows, count).need[i][j]
                == (if i < t.need.len() && j < t.need[i].len() { t.need[i][j] } else { 0usize }),
{
    let g = t.grown(rows, count);
    assert forall|i: int| 0 <= i < g.allocation.len() implies #[trigger] g.allocation[i].len() == count by {
        lemma_resized_entries(row_or_empty(t.allocation, i), count);
    }
    assert forall|i: int| 0 <= i < g.need.len() implies #[trigger] g.need[i].len() == count by {
        lemma_resized_entries(row_or_empty(t.need, i), count);
    }
    assert forall|i: int, j: int| 0 <= i < g.allocation.len() && 0 <= j < count implies #[trigger] g.allocation[i][j]
        == (if i < t.allocation.len() && j < t.allocation[i].len() { t.allocation[i][j] } else { 0usize }) by {
        lemma_resized_entries(row_or_empty(t.allocation, i), count);
    }
    assert forall|i: int, j: int| 0 <= i < g.need.len() && 0 <= j < count implies #[trigger] g.need[i][j]
        == (if i < t.need.len() && j < t.need[i].len() { t.need[i][j] } else { 0usize }) by {
        lemma_resized_entries(row_or_empty(t.need, i), count);
    }
}

/// Opening resource `id` with `amount` free among `count` resources sets what
/// is free of `id` to `amount`, keeps what is free of every other existing
/// resource, makes every new resource start with nothing free, and sizes the
/// matrices as growth does (keeping every existing entry).
pub proof fn lemma_open_keeps_entries(t: TableView, id: int, amount: usize, rows: nat, count: nat)
    requires
        0 <= id < count,
    ensures
        t.opened(id, amount, rows, count).available.len() == count,
        t.opened(id, amount, rows, count).available[id] == amount,
        forall|j: int|
            0 <= j < count && j != id ==> #[trigger] t.opened(id, amount, rows, count).available[j]
                == (if j < t.available.len() { t.available[j] } else { 0usize }),
        t.opened(id, amount, rows, count).allocation == t.grown(rows, count).allocation,
        t.opened(id, amount, rows, count).need == t.grown(rows, count).need,
{
    lemma_resized_entries(t.available, count);
}

impl TableView {
    /// Every row and the free vector have exactly `count` columns.
    pub open spec fn shaped(self, count: nat) -> bool {
        &&& self.available.len() == count
        &&& self.allocation.len() == self.need.len()
        &&& forall|i: int| 0 <= i < self.allocation.len() ==> #[trigger] self.allocation[i].len() == count
        &&& forall|i: int| 0 <= i < self.need.len() ==> #[trigger] self.need[i].len() == count
    }

    /// Both matrices grown to at least `rows` rows of exactly `count` columns.
    pub open spec fn grown(self, rows: nat, count: nat) -> TableView {
        TableView {
            available: self.available,
            allocation: grown_matrix(self.allocation, rows, count),
            need: grown_matrix(self.need, rows, count),
        }
    }

    /// A new resource `id` with `amount` free, among `count` resources, the
    /// matrices grown to `rows` rows.
    pub open spec fn opened(self, id: int, amount: usize, rows: nat, count: nat) -> TableView {
        TableView {
            available: resized(self.available, count).update(id, amount),
            ..self.grown(rows, count)
        }
    }

    pub open spec fn with_need(self, i: int, j: int, v: usize) -> TableView {
        TableView { need: set_entry(self.need, i, j, v), ..self }
    }

    pub open spec fn with_allocation(self, i: int, j: int, v: usize) -> TableView {
        TableView { allocation: set_entry(self.allocation, i, j, v), ..self }
    }

    pub open spec fn with_available(self, j: int, v: usize) -> TableView {
        TableView { available: self.available.update(j, v), ..self }
    }

    /// The banker's safety of this table for the threads flagged in `active`.
    pub open spec fn safe_for(self, active: Seq<bool>) -> bool {
        safe_state(self.available, self.allocation, self.need, active)
    }
}

/// The banker's bookkeeping for one kind of resource.
pub struct ResourceTable {
    available: Vec<usize>,
    allocation: Vec<Vec<usize>>,
    need: Vec<Vec<usize>>,
}

impl View for ResourceTable {
    type V = TableView;

    closed spec fn view(&self) -> TableView {
        TableView {
            available: self.available@,
            allocation: matrix_view(self.allocation@),
            need: matrix_view(self.need@),
        }
    }
}

impl ResourceTable {
    /// A table with no resources and no threads.
    pub fn new() -> (t: Self)
        ensures
            t@.available == Seq::<usize>::empty(),
            t@.allocation == Seq::<Seq<usize>>::empty(),
            t@.need == Seq::<Seq<usize>>::empty(),
    {
        let t = ResourceTable { available: Vec::new(), allocation: Vec::new(), need: Vec::new() };
        proof {
            assert(matrix_view(t.allocation@) =~= Seq::<Seq<usize>>::empty());
            assert(matrix_view(t.need@) =~= Seq::<Seq<usize>>::empty());
        }
        t
    }

    /// What is free of each resource.
    pub fn available(&self) -> (r: &Vec<usize>)
        ensures
            r@ == self@.available,
    {
        &self.available
    }

    /// What each thread holds of each resource.
    pub fn allocation(&self) -> (r: &Vec<Vec<usize>>)
        ensures
            matrix_view(r@) == self@.allocation,
    {
        &self.allocation
    }

    /// What each thread waits for of each resource.
    pub fn need(&self) -> (r: &Vec<Vec<usize>>)
        ensures
            matrix_view(r@) == self@.need,
    {
        &self.need
    }

    /// Grows both matrices to at least `rows` rows of exactly `count` columns.
    pub fn ensure_shape(&mut self, rows: usize, count: usize)
        ensures
            final(self)@ == old(self)@.grown(rows as nat, count as nat),
            final(self)@.available == old(self)@.available,
            forall|i: int, j: int|
                0 <= i < final(self)@.allocation.len() && 0 <= j < count ==> #[trigger] final(self)@.allocation[i][j]
                    == (if i < old(self)@.allocation.len() && j < old(self)@.allocation[i].len() {
                    old(self)@.allocation[i][j]
                } else {
                    0usize
                }),
            forall|i: int, j: int|
                0 <= i < final(self)@.need.len() && 0 <= j < count ==> #[trigger] final(self)@.need[i][j]
                    == (if i < old(self)@.need.len() && j < old(self)@.need[i].len() {
                    old(self)@.need[i][j]
                } else {
                    0usize
                }),
            final(self)@.allocation.len() == (if old(self)@.allocation.len() < rows { rows as int } else { old(self)@.allocation.len() as int }),
            final(self)@.need.len() == (if old(self)@.need.len() < rows { rows as int } else { old(self)@.need.len() as int }),
    {
        proof {
            lemma_growth_keeps_entries(old(self)@, rows as nat, count as nat);
        }
        ensure_matrix(&mut self.allocation, rows, count);
        ensure_matrix(&mut self.need, rows, count);
        proof {
            assert(matrix_view(self.allocation@) =~= grown_matrix(
                old(self)@.allocation,
                rows as nat,
                count as nat,
            ));
            assert(matrix_view(self.need@) =~= grown_matrix(
                old(self)@.need,
                rows as nat,
                count as nat,
            ));
        }
    }

    /// Makes room for `count` resources, sets `amount` free of resource `id`,
    /// and grows the matrices to at least `rows` rows of `count` columns.
    pub fn open_resource(&mut self, id: usize, amount: usize, rows: usize, count: usize)
        requires
            id < count,
        ensures
            final(self)@ == old(self)@.opened(id as int, amount, rows as nat, count as nat),
            final(self)@.available.len() == count,
            final(self)@.available[id as int] == amount,
            forall|j: int|
                0 <= j < count && j != id ==> #[trigger] final(self)@.available[j] == (if j < old(self)@.available.len() {
                    old(self)@.available[j]
                } else {
                    0usize
                }),
            forall|i: int, j: int|
                0 <= i < final(self)@.allocation.len() && 0 <= j < count ==> #[trigger] final(self)@.allocation[i][j]
                    == (if i < old(self)@.allocation.len() && j < old(self)@.allocation[i].len() {
                    old(self)@.allocation[i][j]
                } else {
                    0usize
                }),
            forall|i: int, j: int|
                0 <= i < final(self)@.need.len() && 0 <= j < count ==> #[trigger] final(self)@.need[i][j]
                    == (if i < old(self)@.need.len() && j < old(self)@.need[i].len() {
                    old(self)@.need[i][j]
                } else {
                    0usize
                }),
    {
        proof {
            lemma_growth_keeps_entries(old(self)@, rows as nat, count as nat);
            lemma_open_keeps_entries(old(self)@, id as int, amount, rows as nat, count as nat);
        }
        self.available.resize(count, 0);
        proof {
            assert(self.available@ =~= resized(old(self)@.available, count as nat));
        }
        self.available.set(id, amount);
        self.ensure_shape(rows, count);
    }

    /// Sets what thread `i` waits for of resource `j`.
    pub fn set_need(&mut self, i: usize, j: usize, v: usize)
        requires
            i < old(self)@.need.len(),
            j < old(self)@.need[i as int].len(),
        ensures
            final(self)@ == old(self)@.with_need(i as int, j as int, v),
    {
        self.need[i].set(j, v);
        proof {
            assert(matrix_view(self.need@) =~= set_entry(old(self)@.need, i as int, j as int, v));
        }
    }

    /// Sets what thread `i` holds of resource `j`.
    pub fn set_allocation(&mut self, i: usize, j: usize, v: usize)
        requires
            i < old(self)@.allocation.len(),
            j < old(self)@.allocation[i as int].len(),
        ensures
            final(self)@ == old(self)@.with_allocation(i as int, j as int, v),
    {
        self.allocation[i].set(j, v);
        proof {
            assert(matrix_view(self.allocation@) =~= set_entry(
                old(self)@.allocation,
                i as int,
                j as int,
                v,
            ));
        }
    }

    /// Sets what is free of resource `j`.
    pub fn set_available(&mut self, j: usize, v: usize)
        requires
            j < old(self)@.available.len(),
        ensures
            final(self)@ == old(self)@.with_available(j as int, v),
    {
        self.available.set(j, v);
    }

    /// What thread `i` waits for of resource `j`.
    pub fn need_at(&self, i: usize, j: usize) -> (r: usize)
        requires
            i < self@.need.len(),
            j < self@.need[i as int].len(),
        ensures
            r == self@.need[i as int][j as int],
    {
        self.need[i][j]
    }

    /// What thread `i` holds of resource `j`.
    pub fn allocation_at(&self, i: usize, j: usize) -> (r: usize)
        requires
            i < self@.allocation.len(),
            j < self@.allocation[i as int].len(),
        ensures
            r == self@.allocation[i as int][j as int],
    {
        self.allocation[i][j]
    }

    /// What is free of resource `j`.
    pub fn available_at(&self, j: usize) -> (r: usize)
        requires
            j < self@.available.len(),
        ensures
            r == self@.available[j as int],
    {
        self.available[j]
    }

    /// The banker's safety check on this table for the threads flagged in `active`.
    pub fn check_safe(&self, active: &Vec<bool>) -> (safe: bool)
        requires
            active@.len() <= self@.need.len(),
            active@.len() <= self@.allocation.len(),
            forall|i: int| 0 <= i < active@.len() ==> self@.available.len() <= #[trigger] self@.allocation[i].len(),
            totals_fit(self@.available, self@.allocation, active@),
        ensures
            safe == self@.safe_for(active@),
    {
        is_safe(&self.available, &self.allocation, &self.need, active)
    }
}

impl ResourceTable {
    /// Whether, once the matrices are grown to the threads in `active` and
    /// `count` columns, every column of what is free plus all that existing
    /// threads hold still fits in a `usize` (what the safety check needs).
    pub fn totals_fit_after_growth(&self, active: &Vec<bool>, count: usize) -> (ok: bool)
        requires
            self@.shaped(count as nat),
        ensures
            ok == totals_fit(
                self@.available,
                self@.grown(active@.len() as nat, count as nat).allocation,
                active@,
            ),
    {
        let ghost g = self@.grown(active@.len() as nat, count as nat).allocation;
        let ghost aset = active_set(active@);
        let n = active.len();
        let m = self.available.len();
        let mut j: usize = 0;
        while j < m
            invariant
                j <= m,
                m == self@.available.len(),
                m == count,
                n == active@.len(),
                self@.shaped(count as nat),
                g == self@.grown(active@.len() as nat, count as nat).allocation,
                aset == active_set(active@),
                forall|jj: int|
                    0 <= jj < j ==> #[trigger] self@.available[jj] + held(g, aset, jj, n as nat)
                        <= usize::MAX,
            decreases m - j,
        {
            let mut sum: usize = self.available[j];
            let mut i: usize = 0;
            while i < n
                invariant
                    i <= n,
                    j < m,
                    m == self@.available.len(),
                    m == count,
                    n == active@.len(),
                    self@.shaped(count as nat),
                    g == self@.grown(active@.len() as nat, count as nat).allocation,
                    aset == active_set(active@),
                    sum == self@.available[j as int] + held(g, aset, j as int, i as nat),
                decreases n - i,
            {
                if active[i] {
                    let x: usize = if i < self.allocation.len() {
                        proof {
                            assert(self@.allocation[i as int] == self.allocation@[i as int]@);
                        }
                        self.allocation[i][j]
                    } else {
                        0
                    };
                    proof {
                        assert(aset.contains(i as int));
                        if (i as int) < self@.allocation.len() {
                            assert(self@.allocation[i as int][j as int] == self.allocation@[i as int]@[j as int]);
                            assert(self@.allocation[i as int].len() == count);
                        }
                        assert(g[i as int][j as int] == x);
                    }
                    match sum.checked_add(x) {
                        Some(t) => {
                            sum = t;
                        },
                        None => {
                            proof {
                                lemma_held_prefix(g, aset, j as int, (i + 1) as nat, n as nat);
                            }
                            return false;
                        },
                    }
                } else {
                    proof {
                        assert(!aset.contains(i as int));
                    }
                }
                i = i + 1;
            }
            j = j + 1;
        }
        true
    }
}

} // verus!
