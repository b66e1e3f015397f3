use vstd::prelude::*;

verus! {

/// A row of a matrix after `Vec::resize(col, 0)`: cut to `col` entries,
/// or padded with zeros up to `col` entries.
pub open spec fn resized(row: Seq<usize>, col: nat) -> Seq<usize> {
    if col <= row.len() {
        row.take(col as int)
    } else {
        row + Seq::new((col - row.len()) as nat, |_i: int| 0usize)
    }
}

/// A row resized to `col` entries has exactly `col` entries: those it had
/// (up to `col`) unchanged, and zeros after them.
pub proof fn lemma_resized_entries(row: Seq<usize>, col: nat)
    ensures
        resized(row, col).len() == col,
        forall|j: int| 0 <= j < col ==> #[trigger] resized(row, col)[j] == (if j < row.len() { row[j] } else { 0usize }),
{
}

/// The rows of a matrix as a sequence of sequences.
pub open spec fn matrix_view(m: Seq<Vec<usize>>) -> Seq<Seq<usize>> {
    m.map_values(|r: Vec<usize>| r@)
}

/// The row `i` of `m` before a matrix is grown: a missing row reads as empty.
pub open spec fn row_or_empty(m: Seq<Seq<usize>>, i: int) -> Seq<usize> {
    if 0 <= i < m.len() { m[i] } else { Seq::empty() }
}

/// Grows `matrix` to at least `rows` rows (new rows start empty), then
/// resizes every row to exactly `col` entries, padding with zeros.
pub fn ensure_matrix(matrix: &mut Vec<Vec<usize>>, rows: usize, col: usize)
    ensures
        final(matrix)@.len() == (if old(matrix)@.len() < rows { rows as int } else { old(matrix)@.len() as int }),
        forall|i: int|
            0 <= i < final(matrix)@.len() ==> #[trigger] final(matrix)@[i]@ == resized(
                row_or_empty(matrix_view(old(matrix)@), i),
                col as nat,
            ),
{
    let ghost old_rows = matrix_view(matrix@);
    while matrix.len() < rows
        invariant
            old_rows.len() <= matrix@.len(),
            matrix@.len() <= (if old_rows.len() < rows { rows as int } else { old_rows.len() as int }),
            forall|i: int| 0 <= i < matrix@.len() ==> #[trigger] matrix@[i]@ == row_or_empty(old_rows, i),
        decreases rows - matrix@.len(),
    {
        matrix.push(Vec::new());
    }
    let n = matrix.len();
    let mut i: usize = 0;
    while i < n
        invariant
            i <= n,
            n == matrix@.len(),
            n == (if old_rows.len() < rows { rows as int } else { old_rows.len() as int }),
            forall|k: int| 0 <= k < i ==> #[trigger] matrix@[k]@ == resized(row_or_empty(old_rows, k), col as nat),
            forall|k: int| i <= k < n ==> #[trigger] matrix@[k]@ == row_or_empty(old_rows, k),
        decreases n - i,
    {
        let ghost before = matrix@[i as int]@;
        matrix[i].resize(col, 0);
        proof {
            let after = matrix@[i as int]@;
            assert(after =~= resized(before, col as nat));
        }
        i = i + 1;
    }
}


/// Sum of column `j` of `alloc` over the rows below `k` that belong to `members`.
pub open spec fn held(alloc: Seq<Seq<usize>>, members: Set<int>, j: int, k: nat) -> int
    decreases k,
{
    if k == 0 {
        0
    } else {
        held(alloc, members, j, (k - 1) as nat) + if members.contains(k - 1) {
            alloc[k - 1][j] as int
        } else {
            0
        }
    }
}

/// The elements of a sequence, as a set.
pub open spec fn members(s: Seq<int>) -> Set<int> {
    Set::new(|x: int| s.contains(x))
}

/// The threads that exist: the indices whose flag is set.
pub open spec fn active_set(active: Seq<bool>) -> Set<int> {
    Set::new(|i: int| 0 <= i < active.len() && active[i])
}

/// A thread with outstanding request `need_row` can run to completion once the
/// threads in `members` (among the first `n`) have finished and handed back
/// what they hold: in every column that both `need_row` and `available` have,
/// the request is at most what is free then.
pub open spec fn can_finish(
    need_row: Seq<usize>,
    available: Seq<usize>,
    alloc: Seq<Seq<usize>>,
    members: Set<int>,
    n: nat,
) -> bool {
    forall|j: int|
        0 <= j < need_row.len() && j < available.len() ==> #[trigger] need_row[j] <= available[j]
            + held(alloc, members, j, n)
}

/// `order` is a safe sequence: it lists every existing thread exactly once,
/// and each thread in it can finish with what is free once the threads
/// before it have finished.
pub open spec fn is_safe_order(
    available: Seq<usize>,
    alloc: Seq<Seq<usize>>,
    need: Seq<Seq<usize>>,
    active: Seq<bool>,
    order: Seq<int>,
) -> bool {
    &&& order.no_duplicates()
    &&& forall|k: int| 0 <= k < order.len() ==> 0 <= #[trigger] order[k] < active.len() && active[order[k]]
    &&& forall|i: int| 0 <= i < active.len() && #[trigger] active[i] ==> order.contains(i)
    &&& forall|k: int|
        0 <= k < order.len() ==> #[trigger] can_finish(
            need[order[k]],
            available,
            alloc,
            members(order.take(k)),
            active.len() as nat,
        )
}

/// The state is safe: some safe sequence of the existing threads exists.
pub open spec fn safe_state(
    available: Seq<usize>,
    alloc: Seq<Seq<usize>>,
    need: Seq<Seq<usize>>,
    active: Seq<bool>,
) -> bool {
    exists|order: Seq<int>| is_safe_order(available, alloc, need, active, order)
}

/// No column of `available` plus all that existing threads hold in it
/// exceeds `usize::MAX`: the sums the safety check builds fit.
pub open spec fn totals_fit(available: Seq<usize>, alloc: Seq<Seq<usize>>, active: Seq<bool>) -> bool {
    forall|j: int|
        0 <= j < available.len() ==> #[trigger] available[j] + held(
            alloc,
            active_set(active),
            j,
            active.len() as nat,
        ) <= usize::MAX
}

/// What the safety check reads is there, and the sums it builds fit in a
/// `usize`: every existing thread has a row in `need` and in `alloc`, and its
/// `alloc` row covers every column of `available`.
pub open spec fn safety_inputs_ok(
    available: Seq<usize>,
    alloc: Seq<Seq<usize>>,
    need: Seq<Seq<usize>>,
    active: Seq<bool>,
) -> bool {
    &&& forall|i: int|
        0 <= i < active.len() && #[trigger] active[i] ==> i < need.len() && i < alloc.len()
            && available.len() <= alloc[i].len()
    &&& totals_fit(available, alloc, active)
}

/// Number of unset flags.
spec fn unfinished(f: Seq<bool>) -> nat
    decreases f.len(),
{
    if f.len() == 0 {
        0
    } else {
        unfinished(f.drop_last()) + if f.last() {
            0nat
        } else {
            1nat
        }
    }
}

proof fn lemma_unfinished_set(f: Seq<bool>, i: int)
    requires
        0 <= i < f.len(),
        !f[i],
    ensures
        unfinished(f.update(i, true)) + 1 == unfinished(f),
    decreases f.len(),
{
    let g = f.update(i, true);
    if i < f.len() - 1 {
        assert(g.drop_last() =~= f.drop_last().update(i, true));
        lemma_unfinished_set(f.drop_last(), i);
    } else {
        assert(g.drop_last() =~= f.drop_last());
    }
}

proof fn lemma_held_insert(alloc: Seq<Seq<usize>>, s: Set<int>, i: int, j: int, k: nat)
    requires
        !s.contains(i),
    ensures
        held(alloc, s.insert(i), j, k) == held(alloc, s, j, k) + if 0 <= i < k {
            alloc[i][j] as int
        } else {
            0
        },
    decreases k,
{
    if k > 0 {
        lemma_held_insert(alloc, s, i, j, (k - 1) as nat);
    }
}

proof fn lemma_held_mono(alloc: Seq<Seq<usize>>, s: Set<int>, t: Set<int>, j: int, k: nat)
    requires
        forall|x: int| 0 <= x < k && #[trigger] s.contains(x) ==> t.contains(x),
    ensures
        held(alloc, s, j, k) <= held(alloc, t, j, k),
    decreases k,
{
    if k > 0 {
        lemma_held_mono(alloc, s, t, j, (k - 1) as nat);
    }
}

/// Column sums only grow as more rows are counted.
pub proof fn lemma_held_prefix(alloc: Seq<Seq<usize>>, s: Set<int>, j: int, k: nat, k2: nat)
    requires
        k <= k2,
    ensures
        held(alloc, s, j, k) <= held(alloc, s, j, k2),
    decreases k2,
{
    if k < k2 {
        lemma_held_prefix(alloc, s, j, k, (k2 - 1) as nat);
    }
}

proof fn lemma_held_none(alloc: Seq<Seq<usize>>, s: Set<int>, j: int, k: nat)
    requires
        forall|x: int| 0 <= x < k ==> !#[trigger] s.contains(x),
    ensures
        held(alloc, s, j, k) == 0,
    decreases k,
{
    if k > 0 {
        lemma_held_none(alloc, s, j, (k - 1) as nat);
    }
}

/// The first position of `s` whose element lies outside `f`.
proof fn first_outside(s: Seq<int>, f: Set<int>, x_idx: int) -> (k: int)
    requires
        0 <= x_idx < s.len(),
        !f.contains(s[x_idx]),
    ensures
        0 <= k <= x_idx,
        !f.contains(s[k]),
        forall|l: int| 0 <= l < k ==> f.contains(#[trigger] s[l]),
    decreases x_idx,
{
    if exists|l: int| 0 <= l < x_idx && !f.contains(#[trigger] s[l]) {
        let l = choose|l: int| 0 <= l < x_idx && !f.contains(#[trigger] s[l]);
        first_outside(s, f, l)
    } else {
        x_idx
    }
}

/// When every existing thread outside `f` is stuck with what `f` would hand
/// back, and one existing thread lies outside `f`, no safe sequence exists.
proof fn lemma_stuck_is_unsafe(
    available: Seq<usize>,
    alloc: Seq<Seq<usize>>,
    need: Seq<Seq<usize>>,
    active: Seq<bool>,
    f: Set<int>,
    x: int,
)
    requires
        0 <= x < active.len(),
        active[x],
        !f.contains(x),
        forall|y: int|
            0 <= y < active.len() && active[y] && !f.contains(y) ==> !can_finish(
                #[trigger] need[y],
                available,
                alloc,
                f,
                active.len() as nat,
            ),
    ensures
        !safe_state(available, alloc, need, active),
{
    if !safe_state(available, alloc, need, active) {
        return;
    }
    let s = choose|s: Seq<int>| is_safe_order(available, alloc, need, active, s);
    let n = active.len() as nat;
    assert(s.contains(x));
    let idx = choose|idx: int| 0 <= idx < s.len() && s[idx] == x;
    let k = first_outside(s, f, idx);
    let pre = members(s.take(k));
    assert forall|z: int| 0 <= z < n && #[trigger] pre.contains(z) implies f.contains(z) by {
        let l = choose|l: int| 0 <= l < s.take(k).len() && s.take(k)[l] == z;
        assert(s[l] == z);
    }
    let y = s[k];
    assert(can_finish(need[y], available, alloc, pre, n));
    assert(0 <= y < n && active[y]);
    assert(can_finish(need[y], available, alloc, f, n)) by {
        assert forall|j: int| 0 <= j < need[y].len() && j < available.len() implies #[trigger] need[y][j]
            <= available[j] + held(alloc, f, j, n) by {
            lemma_held_mono(alloc, pre, f, j, n);
        }
    }
    assert(!can_finish(need[y], available, alloc, f, n));
}

/// Whether `row` fits under `work` in every column the two share.
fn row_fits(row: &Vec<usize>, work: &Vec<usize>) -> (ok: bool)
    ensures
        ok == (forall|j: int| 0 <= j < row@.len() && j < work@.len() ==> row@[j] <= work@[j]),
{
    let mut j: usize = 0;
    while j < row.len() && j < work.len()
        invariant
            j <= row@.len(),
            forall|l: int| 0 <= l < j ==> row@[l] <= work@[l],
        decreases row@.len() - j,
    {
        if row[j] > work[j] {
            return false;
        }
        j = j + 1;
    }
    true
}

/// The bookkeeping of the safety check between steps.
spec fn progress(
    available: Seq<usize>,
    alloc: Seq<Seq<usize>>,
    need: Seq<Seq<usize>>,
    active: Seq<bool>,
    order: Seq<int>,
    finish: Seq<bool>,
    work: Seq<usize>,
) -> bool {
    let n = active.len();
    &&& finish.len() == n
    &&& work.len() == available.len()
    &&& order.no_duplicates()
    &&& forall|k: int| 0 <= k < order.len() ==> 0 <= #[trigger] order[k] < n && active[order[k]]
    &&& forall|x: int| 0 <= x < n ==> (#[trigger] finish[x] <==> (!active[x] || order.contains(x)))
    &&& forall|k: int|
        0 <= k < order.len() ==> #[trigger] can_finish(
            need[order[k]],
            available,
            alloc,
            members(order.take(k)),
            n as nat,
        )
    &&& forall|j: int|
        0 <= j < available.len() ==> #[trigger] work[j] == available[j] + held(
            alloc,
            members(order),
            j,
            n as nat,
        )
}

/// The banker's safety check. Starting from what is free, it repeatedly lets
/// any unfinished existing thread whose outstanding request fits run to
/// completion and take back what it holds, until no thread can progress; the
/// state is safe when every existing thread has finished. Threads whose flag in
/// `active` is clear count as finished from the start.
///
/// The result is exactly whether a safe sequence exists.
pub fn is_safe(
    available: &Vec<usize>,
    allocation: &Vec<Vec<usize>>,
    need: &Vec<Vec<usize>>,
    active: &Vec<bool>,
) -> (safe: bool)
    requires
        safety_inputs_ok(available@, matrix_view(allocation@), matrix_view(need@), active@),
    ensures
        safe == safe_state(available@, matrix_view(allocation@), matrix_view(need@), active@),
{
    let ghost a = matrix_view(allocation@);
    let ghost nd = matrix_view(need@);
    let ghost av = available@;
    let ghost act = active@;
    let n = active.len();
    let m = available.len();
    let mut work: Vec<usize> = Vec::new();
    let mut j: usize = 0;
    while j < m
        invariant
            j <= m,
            m == av.len(),
            av == available@,
            work@ =~= av.take(j as int),
        decreases m - j,
    {
        work.push(available[j]);
        j = j + 1;
    }
    let mut finish: Vec<bool> = Vec::new();
    let mut i: usize = 0;
    while i < n
        invariant
            i <= n,
            n == act.len(),
            act == active@,
            finish@.len() == i,
            forall|k: int| 0 <= k < i ==> #[trigger] finish@[k] == !act[k],
        decreases n - i,
    {
        finish.push(!active[i]);
        i = i + 1;
    }
    let ghost mut order: Seq<int> = Seq::empty();
    proof {
        assert forall|jj: int| 0 <= jj < av.len() implies #[trigger] work@[jj] == av[jj] + held(
            a,
            members(order),
            jj,
            n as nat,
        ) by {
            lemma_held_none(a, members(order), jj, n as nat);
        }
    }
    loop
        invariant
            n == act.len(),
            m == av.len(),
            act == active@,
            av == available@,
            a == matrix_view(allocation@),
            nd == matrix_view(need@),
            safety_inputs_ok(av, a, nd, act),
            progress(av, a, nd, act, order, finish@, work@),
        ensures
            progress(av, a, nd, act, order, finish@, work@),
            forall|x: int|
                0 <= x < n ==> #[trigger] finish@[x] || !can_finish(
                    nd[x],
                    av,
                    a,
                    members(order),
                    n as nat,
                ),
        decreases unfinished(finish@),
    {
        let ghost order0 = order;
        let ghost finish0 = finish@;
        let mut found = false;
        let mut i: usize = 0;
        while i < n
            invariant
                i <= n,
                n == act.len(),
                m == av.len(),
                act == active@,
                av == available@,
                a == matrix_view(allocation@),
                nd == matrix_view(need@),
                safety_inputs_ok(av, a, nd, act),
                progress(av, a, nd, act, order, finish@, work@),
                !found ==> order == order0 && finish@ == finish0,
                found ==> unfinished(finish@) < unfinished(finish0),
                !found ==> forall|x: int|
                    0 <= x < i ==> #[trigger] finish@[x] || !can_finish(
                        nd[x],
                        av,
                        a,
                        members(order),
                        n as nat,
                    ),
            decreases n - i,
        {
            if !finish[i] {
                assert(act[i as int]);
                assert(!order.contains(i as int));
                let ok = row_fits(&need[i], &work);
                proof {
                    assert(nd[i as int] == need@[i as int]@);
                    if ok {
                        assert(can_finish(nd[i as int], av, a, members(order), n as nat));
                    } else {
                        assert(!can_finish(nd[i as int], av, a, members(order), n as nat));
                    }
                }
                if ok {
                    let ghost grown = members(order).insert(i as int);
                    proof {
                        assert forall|x: int| 0 <= x < n && #[trigger] grown.contains(x) implies active_set(
                            act,
                        ).contains(x) by {
                            if x != i {
                                let l = choose|l: int| 0 <= l < order.len() && order[l] == x;
                            }
                        }
                    }
                    let ghost work0 = work@;
                    let mut j: usize = 0;
                    while j < m
                        invariant
                            j <= m,
                            m == av.len(),
                            i < n,
                            n == act.len(),
                            act[i as int],
                            av == available@,
                            a == matrix_view(allocation@),
                            safety_inputs_ok(av, a, nd, act),
                            work@.len() == m,
                            work0.len() == m,
                            forall|x: int| 0 <= x < n && #[trigger] grown.contains(x) ==> active_set(act).contains(x),
                            !members(order).contains(i as int),
                            grown == members(order).insert(i as int),
                            forall|jj: int| 0 <= jj < m ==> #[trigger] work0[jj] == av[jj] + held(a, members(order), jj, n as nat),
                            forall|jj: int| 0 <= jj < j ==> #[trigger] work@[jj] == av[jj] + held(a, grown, jj, n as nat),
                            forall|jj: int| j <= jj < m ==> #[trigger] work@[jj] == work0[jj],
                        decreases m - j,
                    {
                        proof {
                            lemma_held_insert(a, members(order), i as int, j as int, n as nat);
                            lemma_held_mono(a, grown, active_set(act), j as int, n as nat);
                            assert(a[i as int] == allocation@[i as int]@);
                        }
                        let add = allocation[i][j];
                        work[j] = work[j] + add;
                        j = j + 1;
                    }
                    proof {
                        lemma_unfinished_set(finish@, i as int);
                    }
                    finish[i] = true;
                    proof {
                        let old_order = order;
                        order = order.push(i as int);
                        assert forall|x: int| #[trigger] members(order).contains(x) == grown.contains(x) by {
                            if old_order.contains(x) {
                                let l = choose|l: int| 0 <= l < old_order.len() && old_order[l] == x;
                                assert(order[l] == x);
                            }
                            if x == i {
                                assert(order[old_order.len() as int] == x);
                            }
                            if order.contains(x) && x != i {
                                let l = choose|l: int| 0 <= l < order.len() && order[l] == x;
                                assert(old_order[l] == x);
                            }
                        }
                        assert(members(order) =~= grown);
                        assert forall|k: int| 0 <= k < order.len() implies #[trigger] can_finish(
                            nd[order[k]],
                            av,
                            a,
                            members(order.take(k)),
                            n as nat,
                        ) by {
                            if k < old_order.len() {
                                assert(order.take(k) =~= old_order.take(k));
                            } else {
                                assert(order.take(k) =~= old_order);
                            }
                        }
                        assert forall|x: int| 0 <= x < n implies (#[trigger] finish@[x] <==> (!act[x]
                            || order.contains(x))) by {
                            assert(members(order).contains(x) == order.contains(x));
                            assert(members(old_order).contains(x) == old_order.contains(x));
                        }
                    }
                    found = true;
                }
            }
            i = i + 1;
        }
        if !found {
            break;
        }
    }
    let mut all = true;
    let mut i: usize = 0;
    while i < n
        invariant
            i <= n,
            n == finish@.len(),
            n == act.len(),
            progress(av, a, nd, act, order, finish@, work@),
            forall|x: int|
                0 <= x < n ==> #[trigger] finish@[x] || !can_finish(
                    nd[x],
                    av,
                    a,
                    members(order),
                    n as nat,
                ),
            all == (forall|x: int| 0 <= x < i ==> #[trigger] finish@[x]),
        decreases n - i,
    {
        if !finish[i] {
            all = false;
        }
        i = i + 1;
    }
    proof {
        if all {
            assert forall|y: int| 0 <= y < act.len() && #[trigger] act[y] implies order.contains(y) by {
                assert(finish@[y]);
            }
            assert(is_safe_order(av, a, nd, act, order));
        } else {
            let x = choose|x: int| 0 <= x < n && !#[trigger] finish@[x];
            {
                assert forall|y: int|
                    0 <= y < act.len() && act[y] && !members(order).contains(y) implies !can_finish(
                    #[trigger] nd[y],
                    av,
                    a,
                    members(order),
                    act.len() as nat,
                ) by {
                    assert(!finish@[y]);
                }
                lemma_stuck_is_unsafe(av, a, nd, act, members(order), x);
            }
        }
    }
    all
}

} // verus!
