//! Resource-allocation safety check used for deadlock avoidance.
//!
//! A state is described by the units currently available of each semaphore
//! (`work`) and, for every live task, the units it holds (`allocation`) and
//! the units it is waiting for (`need`). The state is *safe* when the tasks can
//! be ordered so that each one, in turn, finds its whole need covered by what
//! is available once all earlier tasks have finished and handed back what
//! they held.

use crate::sync::ledger::{distinct_ids, has_id, position};
use vstd::prelude::*;

verus! {

/// The ledgers of one task, as the safety check reads them.
pub struct TaskLedger {
    /// Task id inside its process.
    pub tid: usize,
    /// Units held, as (semaphore id, count) pairs.
    pub allocation: Vec<(usize, isize)>,
    /// Units requested and not yet granted, as (semaphore id, count) pairs.
    pub need: Vec<(usize, isize)>,
}

/// Mathematical form of a [`TaskLedger`].
pub ghost struct LedgerRow {
    pub allocation: Seq<(usize, isize)>,
    pub need: Seq<(usize, isize)>,
}

impl View for TaskLedger {
    type V = LedgerRow;

    open spec fn view(&self) -> LedgerRow {
        LedgerRow { allocation: self.allocation@, need: self.need@ }
    }
}

/// The rows of a vector of task ledgers.
pub open spec fn rows_of(v: Seq<TaskLedger>) -> Seq<LedgerRow> {
    Seq::new(v.len(), |i: int| v[i]@)
}

/// Sum of the counts that `ledger` records for semaphore `sid`.
pub open spec fn total(ledger: Seq<(usize, isize)>, sid: usize) -> int
    decreases ledger.len(),
{
    if ledger.len() == 0 {
        0
    } else {
        total(ledger.drop_last(), sid) + if ledger.last().0 == sid {
            ledger.last().1 as int
        } else {
            0
        }
    }
}

/// Units of `sid` handed back by the tasks listed in `done`.
pub open spec fn released(rows: Seq<LedgerRow>, done: Seq<int>, sid: usize) -> int
    decreases done.len(),
{
    if done.len() == 0 {
        0
    } else {
        released(rows, done.drop_last(), sid) + total(rows[done.last()].allocation, sid)
    }
}

/// Units of `sid` available once the tasks listed in `done` have finished.
pub open spec fn available(
    work: Seq<(usize, isize)>,
    rows: Seq<LedgerRow>,
    done: Seq<int>,
    sid: usize,
) -> int {
    total(work, sid) + released(rows, done, sid)
}

/// Every entry of `need` is covered by what is available after `done`.
pub open spec fn fits(
    need: Seq<(usize, isize)>,
    work: Seq<(usize, isize)>,
    rows: Seq<LedgerRow>,
    done: Seq<int>,
) -> bool {
    forall|k: int| 0 <= k < need.len() ==> (#[trigger] need[k]).1 <= available(work, rows, done, need[k].0)
}

/// `order` lists every task exactly once, and each task's need is covered
/// when its turn comes.
pub open spec fn is_safe_sequence(
    work: Seq<(usize, isize)>,
    rows: Seq<LedgerRow>,
    order: Seq<int>,
) -> bool {
    &&& order.len() == rows.len()
    &&& order.no_duplicates()
    &&& forall|j: int| 0 <= j < order.len() ==> 0 <= #[trigger] order[j] < rows.len()
    &&& forall|j: int|
        0 <= j < order.len() ==> fits(rows[#[trigger] order[j]].need, work, rows, order.take(j))
}

/// The state admits an order in which every task can finish.
pub open spec fn is_safe(work: Seq<(usize, isize)>, rows: Seq<LedgerRow>) -> bool {
    exists|order: Seq<int>| is_safe_sequence(work, rows, order)
}

/// All counts in `ledger` are non-negative.
pub open spec fn nonneg(ledger: Seq<(usize, isize)>) -> bool {
    forall|i: int| 0 <= i < ledger.len() ==> (#[trigger] ledger[i]).1 >= 0
}

/// Every entry of `ledger` names a semaphore that `work` knows.
pub open spec fn ids_known(ledger: Seq<(usize, isize)>, work: Seq<(usize, isize)>) -> bool {
    forall|i: int| 0 <= i < ledger.len() ==> has_id(work, (#[trigger] ledger[i]).0)
}

/// What the safety check asks of its input.
pub open spec fn check_input_ok(work: Seq<(usize, isize)>, rows: Seq<LedgerRow>) -> bool {
    &&& distinct_ids(work)
    &&& nonneg(work)
    &&& forall|i: int|
        0 <= i < rows.len() ==> {
            &&& nonneg((#[trigger] rows[i]).allocation)
            &&& ids_known(rows[i].allocation, work)
            &&& ids_known(rows[i].need, work)
        }
}

/// A ledger without negative counts has no negative total.
pub proof fn lemma_total_nonneg(ledger: Seq<(usize, isize)>, sid: usize)
    requires
        nonneg(ledger),
    ensures
        total(ledger, sid) >= 0,
    decreases ledger.len(),
{
    if ledger.len() > 0 {
        lemma_total_nonneg(ledger.drop_last(), sid);
    }
}

/// With distinct ids, the total for an id that occurs is the count of its entry.
pub proof fn lemma_total_of_entry(ledger: Seq<(usize, isize)>, i: int)
    requires
        distinct_ids(ledger),
        0 <= i < ledger.len(),
    ensures
        total(ledger, ledger[i].0) == ledger[i].1,
    decreases ledger.len(),
{
    let sid = ledger[i].0;
    let front = ledger.drop_last();
    if i == ledger.len() - 1 {
        lemma_total_absent(front, sid);
    } else {
        lemma_total_of_entry(front, i);
    }
}

/// The total for an id that does not occur is zero.
pub proof fn lemma_total_absent(ledger: Seq<(usize, isize)>, sid: usize)
    requires
        forall|a: int| 0 <= a < ledger.len() ==> (#[trigger] ledger[a]).0 != sid,
    ensures
        total(ledger, sid) == 0,
    decreases ledger.len(),
{
    if ledger.len() > 0 {
        let front = ledger.drop_last();
        lemma_total_absent(front, sid);
    }
}

/// Tasks that hold nothing negative hand back nothing negative.
pub proof fn lemma_released_nonneg(rows: Seq<LedgerRow>, done: Seq<int>, sid: usize)
    requires
        forall|j: int| 0 <= j < done.len() ==> 0 <= #[trigger] done[j] < rows.len(),
        forall|i: int| 0 <= i < rows.len() ==> nonneg((#[trigger] rows[i]).allocation),
    ensures
        released(rows, done, sid) >= 0,
    decreases done.len(),
{
    if done.len() > 0 {
        let front = done.drop_last();
        lemma_released_nonneg(rows, front, sid);
        lemma_total_nonneg(rows[done.last()].allocation, sid);
    }
}

/// Taking one task out of `done` takes exactly its holdings out of the sum.
proof fn lemma_released_remove(rows: Seq<LedgerRow>, done: Seq<int>, p: int, sid: usize)
    requires
        0 <= p < done.len(),
    ensures
        released(rows, done, sid) == released(rows, done.remove(p), sid) + total(
            rows[done[p]].allocation,
            sid,
        ),
    decreases done.len(),
{
    if p != done.len() - 1 {
        let front = done.drop_last();
        lemma_released_remove(rows, front, p, sid);
        assert(done.remove(p).drop_last() =~= front.remove(p));
    }
}

/// A duplicate-free selection of the tasks in `b` releases no more than `b`.
proof fn lemma_released_subset(rows: Seq<LedgerRow>, a: Seq<int>, b: Seq<int>, sid: usize)
    requires
        a.no_duplicates(),
        b.no_duplicates(),
        forall|j: int| 0 <= j < a.len() ==> b.contains(#[trigger] a[j]),
        forall|j: int| 0 <= j < b.len() ==> 0 <= #[trigger] b[j] < rows.len(),
        forall|i: int| 0 <= i < rows.len() ==> nonneg((#[trigger] rows[i]).allocation),
    ensures
        released(rows, a, sid) <= released(rows, b, sid),
    decreases a.len(),
{
    if a.len() == 0 {
        lemma_released_nonneg(rows, b, sid);
    } else {
        let x = a.last();
        let p = choose|p: int| 0 <= p < b.len() && b[p] == x;
        let b1 = b.remove(p);
        let a1 = a.drop_last();
        lemma_released_remove(rows, b, p, sid);
        assert forall|j: int| 0 <= j < a1.len() implies b1.contains(#[trigger] a1[j]) by {
            let q = choose|q: int| 0 <= q < b.len() && b[q] == a[j];
            let q1 = if q < p { q } else { q - 1 };
            assert(b1[q1] == b[q]);
        }
        lemma_released_subset(rows, a1, b1, sid);
    }
}

/// Distinct indices below `n` are at most `n`; if they are `n`, each index occurs.
proof fn lemma_distinct_indices(s: Seq<int>, n: int)
    requires
        s.no_duplicates(),
        forall|j: int| 0 <= j < s.len() ==> 0 <= #[trigger] s[j] < n,
        0 <= n,
    ensures
        s.len() <= n,
        s.len() == n ==> forall|i: int| 0 <= i < n ==> s.contains(i),
        (forall|i: int| 0 <= i < n ==> s.contains(i)) ==> s.len() == n,
{
    let range = vstd::set_lib::set_int_range(0, n);
    vstd::set_lib::lemma_int_range(0, n);
    s.unique_seq_to_set();
    vstd::set_lib::lemma_len_subset(s.to_set(), range);
    if s.len() == n {
        vstd::set_lib::lemma_subset_equality(s.to_set(), range);
        assert forall|i: int| 0 <= i < n implies s.contains(i) by {
            assert(range.contains(i));
        }
    }
    if forall|i: int| 0 <= i < n ==> s.contains(i) {
        assert(s.to_set() =~= range);
    }
}

/// `done` is a duplicate-free run of tasks, each of which could finish in turn.
pub open spec fn is_partial_sequence(
    work: Seq<(usize, isize)>,
    rows: Seq<LedgerRow>,
    done: Seq<int>,
) -> bool {
    &&& done.no_duplicates()
    &&& forall|j: int| 0 <= j < done.len() ==> 0 <= #[trigger] done[j] < rows.len()
    &&& forall|j: int|
        0 <= j < done.len() ==> fits(rows[#[trigger] done[j]].need, work, rows, done.take(j))
}

/// The first position of `o`, at or before `upto`, whose task is not in `done`.
proof fn first_outside(o: Seq<int>, done: Seq<int>, upto: int) -> (k: int)
    requires
        0 <= upto < o.len(),
        !done.contains(o[upto]),
    ensures
        0 <= k <= upto,
        !done.contains(o[k]),
        forall|j: int| 0 <= j < k ==> done.contains(#[trigger] o[j]),
    decreases upto,
{
    if exists|j: int| 0 <= j < upto && !done.contains(#[trigger] o[j]) {
        let j = choose|j: int| 0 <= j < upto && !done.contains(#[trigger] o[j]);
        first_outside(o, done, j)
    } else {
        upto
    }
}

/// When the tasks in `done` have finished and none of the others can, no
/// order lets every task finish.
proof fn lemma_stuck_is_unsafe(
    work: Seq<(usize, isize)>,
    rows: Seq<LedgerRow>,
    done: Seq<int>,
    u: int,
)
    requires
        is_partial_sequence(work, rows, done),
        forall|i: int| 0 <= i < rows.len() ==> nonneg((#[trigger] rows[i]).allocation),
        0 <= u < rows.len(),
        !done.contains(u),
        forall|i: int|
            0 <= i < rows.len() && !done.contains(i) ==> !fits(
                (#[trigger] rows[i]).need,
                work,
                rows,
                done,
            ),
    ensures
        !is_safe(work, rows),
{
    if is_safe(work, rows) {
        let o = choose|o: Seq<int>| is_safe_sequence(work, rows, o);
        lemma_distinct_indices(o, rows.len() as int);
        assert(o.contains(u));
        let pu = choose|pu: int| 0 <= pu < o.len() && o[pu] == u;
        let k = first_outside(o, done, pu);
        let pre = o.take(k);
        let t = o[k];
        assert(fits(rows[t].need, work, rows, done)) by {
            let need = rows[t].need;
            assert forall|e: int| 0 <= e < need.len() implies (#[trigger] need[e]).1 <= available(
                work,
                rows,
                done,
                need[e].0,
            ) by {
                lemma_released_subset(rows, pre, done, need[e].0);
            }
        }
    }
}

/// Count `x`, held down to the largest count that can be stored.
pub open spec fn capped(x: int) -> int {
    if x > isize::MAX {
        isize::MAX as int
    } else {
        x
    }
}

/// `cur` holds, for each semaphore of `work`, what is available after `done`
/// plus the units of `extra`.
spec fn tracks(
    cur: Seq<(usize, isize)>,
    work: Seq<(usize, isize)>,
    rows: Seq<LedgerRow>,
    done: Seq<int>,
    extra: Seq<(usize, isize)>,
) -> bool {
    &&& cur.len() == work.len()
    &&& forall|k: int|
        0 <= k < cur.len() ==> {
            &&& (#[trigger] cur[k]).0 == work[k].0
            &&& cur[k].1 == capped(available(work, rows, done, work[k].0) + total(extra, work[k].0))
            &&& cur[k].1 >= 0
        }
}

/// Whether every entry of `need` is within what `cur` lists for its semaphore.
fn need_covered(need: &Vec<(usize, isize)>, cur: &Vec<(usize, isize)>) -> (ok: bool)
    requires
        distinct_ids(cur@),
        ids_known(need@, cur@),
    ensures
        ok == forall|k: int| 0 <= k < need.len() ==> (#[trigger] need[k]).1 <= total(cur@, need[k].0),
{
    let mut k: usize = 0;
    while k < need.len()
        invariant
            k <= need.len(),
            distinct_ids(cur@),
            ids_known(need@, cur@),
            forall|e: int| 0 <= e < k ==> (#[trigger] need[e]).1 <= total(cur@, need[e].0),
        decreases need.len() - k,
    {
        let sid = need[k].0;
        let count = need[k].1;
        let i = position(cur, sid).unwrap();
        proof {
            lemma_total_of_entry(cur@, i as int);
        }
        if cur[i].1 < count {
            return false;
        }
        k += 1;
    }
    true
}

/// Adds the units of `allocation` to `cur`, entry by entry.
fn hand_back(
    cur: &mut Vec<(usize, isize)>,
    allocation: &Vec<(usize, isize)>,
    Ghost(work): Ghost<Seq<(usize, isize)>>,
    Ghost(rows): Ghost<Seq<LedgerRow>>,
    Ghost(done): Ghost<Seq<int>>,
    Ghost(r): Ghost<int>,
)
    requires
        tracks(old(cur)@, work, rows, done, Seq::empty()),
        distinct_ids(work),
        0 <= r < rows.len(),
        allocation@ == rows[r].allocation,
        nonneg(allocation@),
        ids_known(allocation@, work),
    ensures
        tracks(final(cur)@, work, rows, done.push(r), Seq::empty()),
{
    let mut e: usize = 0;
    while e < allocation.len()
        invariant
            e <= allocation.len(),
            tracks(cur@, work, rows, done, allocation@.take(e as int)),
            distinct_ids(work),
            nonneg(allocation@),
            ids_known(allocation@, work),
        decreases allocation.len() - e,
    {
        let sid = allocation[e].0;
        let count = allocation[e].1;
        let ghost seen = allocation@.take(e as int);
        let ghost seen1 = allocation@.take(e as int + 1);
        proof {
            assert(seen1.drop_last() =~= seen);
            let w = choose|w: int| 0 <= w < work.len() && (#[trigger] work[w]).0 == sid;
            assert(cur@[w].0 == sid);
        }
        let i = position(cur, sid).unwrap();
        let held = cur[i].1;
        let sum = if count > isize::MAX - held {
            isize::MAX
        } else {
            held + count
        };
        cur[i].1 = sum;
        e += 1;
    }
    proof {
        assert(allocation@.take(allocation.len() as int) =~= allocation@);
        assert(done.push(r).drop_last() =~= done);
    }
}

/// Whether the state given by `work` and `rows` is safe.
///
/// Tasks are scanned in order, again and again; a task whose whole need is
/// covered finishes and hands back what it holds. The state is safe exactly
/// when this leaves no task unfinished. Sums that would exceed the largest
/// count are held at that count, which decides every comparison as the
/// unbounded sum would.
pub fn is_safe_state(work: Vec<(usize, isize)>, rows: &Vec<TaskLedger>) -> (safe: bool)
    requires
        check_input_ok(work@, rows_of(rows@)),
    ensures
        safe == is_safe(work@, rows_of(rows@)),
{
    let ghost work0 = work@;
    let ghost rws = rows_of(rows@);
    let n = rows.len();
    let mut cur = work;
    let mut finish: Vec<bool> = Vec::new();
    let mut c: usize = 0;
    while c < n
        invariant
            c <= n,
            finish.len() == c,
            forall|i: int| 0 <= i < c ==> !(#[trigger] finish[i]),
        decreases n - c,
    {
        finish.push(false);
        c += 1;
    }
    let ghost mut done: Seq<int> = Seq::empty();
    proof {
        assert forall|k: int| 0 <= k < cur@.len() implies {
            &&& (#[trigger] cur@[k]).0 == work0[k].0
            &&& cur@[k].1 == capped(
                available(work0, rws, done, work0[k].0) + total(Seq::empty(), work0[k].0),
            )
            &&& cur@[k].1 >= 0
        } by {
            lemma_total_of_entry(work0, k);
        }
    }
    let mut flag = true;
    while flag
        invariant
            n == rows.len(),
            finish.len() == n,
            rws == rows_of(rows@),
            check_input_ok(work0, rws),
            is_partial_sequence(work0, rws, done),
            forall|i: int| 0 <= i < n ==> (#[trigger] finish[i] <==> done.contains(i)),
            tracks(cur@, work0, rws, done, Seq::empty()),
            !flag ==> forall|i: int|
                0 <= i < n && !done.contains(i) ==> !fits((#[trigger] rws[i]).need, work0, rws, done),
        decreases n - done.len() + if flag { 1int } else { 0int },
    {
        flag = false;
        let ghost start = done;
        let mut i: usize = 0;
        while i < n
            invariant
                i <= n,
                n == rows.len(),
                finish.len() == n,
                rws == rows_of(rows@),
                check_input_ok(work0, rws),
                is_partial_sequence(work0, rws, done),
                forall|j: int| 0 <= j < n ==> (#[trigger] finish[j] <==> done.contains(j)),
                tracks(cur@, work0, rws, done, Seq::empty()),
                !flag ==> done == start,
                !flag ==> forall|j: int|
                    0 <= j < i && !done.contains(j) ==> !fits(
                        (#[trigger] rws[j]).need,
                        work0,
                        rws,
                        done,
                    ),
                flag ==> done.len() > start.len(),
            decreases n - i,
        {
            if !finish[i] {
                proof {
                    lemma_cur_ids(cur@, work0, rws, done, rws[i as int].need);
                }
                let ok = need_covered(&rows[i].need, &cur);
                proof {
                    lemma_covered_is_fits(cur@, work0, rws, done, rws[i as int].need);
                }
                if ok {
                    hand_back(
                        &mut cur,
                        &rows[i].allocation,
                        Ghost(work0),
                        Ghost(rws),
                        Ghost(done),
                        Ghost(i as int),
                    );
                    finish[i] = true;
                    proof {
                        let grown = done.push(i as int);
                        assert forall|j: int| 0 <= j < grown.len() implies fits(
                            rws[#[trigger] grown[j]].need,
                            work0,
                            rws,
                            grown.take(j),
                        ) by {
                            if j < done.len() {
                                assert(grown.take(j) =~= done.take(j));
                            } else {
                                assert(grown.take(j) =~= done);
                            }
                        }
                        assert forall|j: int| 0 <= j < n implies (#[trigger] finish[j]
                            <==> grown.contains(j)) by {
                            if j == i as int {
                                assert(grown[done.len() as int] == j);
                            } else {
                                if done.contains(j) {
                                    let q = choose|q: int| 0 <= q < done.len() && done[q] == j;
                                    assert(grown[q] == j);
                                }
                            }
                        }
                        done = grown;
                    }
                    flag = true;
                }
            }
            i += 1;
        }
        proof {
            lemma_distinct_indices(done, n as int);
        }
    }
    let mut all = true;
    let mut i: usize = 0;
    while i < n
        invariant
            i <= n,
            finish.len() == n,
            all <==> forall|j: int| 0 <= j < i ==> #[trigger] finish[j],
        decreases n - i,
    {
        if !finish[i] {
            all = false;
        }
        i += 1;
    }
    proof {
        if all {
            assert forall|j: int| 0 <= j < n implies done.contains(j) by {
                assert(finish[j]);
            }
            lemma_distinct_indices(done, n as int);
            assert(is_safe_sequence(work0, rws, done));
        } else {
            let u = choose|u: int| 0 <= u < n && !finish[u];
            lemma_stuck_is_unsafe(work0, rws, done, u);
        }
    }
    all
}

/// The ids that `cur` lists are those of `work`.
proof fn lemma_cur_ids(
    cur: Seq<(usize, isize)>,
    work: Seq<(usize, isize)>,
    rows: Seq<LedgerRow>,
    done: Seq<int>,
    need: Seq<(usize, isize)>,
)
    requires
        tracks(cur, work, rows, done, Seq::empty()),
        distinct_ids(work),
        ids_known(need, work),
    ensures
        distinct_ids(cur),
        ids_known(need, cur),
{
    assert forall|i: int| 0 <= i < need.len() implies has_id(cur, (#[trigger] need[i]).0) by {
        let w = choose|w: int| 0 <= w < work.len() && (#[trigger] work[w]).0 == need[i].0;
        assert(cur[w].0 == need[i].0);
    }
}

/// Being within what `cur` lists is being within what is available.
proof fn lemma_covered_is_fits(
    cur: Seq<(usize, isize)>,
    work: Seq<(usize, isize)>,
    rows: Seq<LedgerRow>,
    done: Seq<int>,
    need: Seq<(usize, isize)>,
)
    requires
        tracks(cur, work, rows, done, Seq::empty()),
        distinct_ids(work),
        ids_known(need, work),
    ensures
        fits(need, work, rows, done) <==> forall|k: int|
            0 <= k < need.len() ==> (#[trigger] need[k]).1 <= total(cur, need[k].0),
{
    assert forall|k: int| 0 <= k < need.len() implies (((#[trigger] need[k]).1 <= total(
        cur,
        need[k].0,
    )) <==> need[k].1 <= available(work, rows, done, need[k].0)) by {
        let w = choose|w: int| 0 <= w < work.len() && (#[trigger] work[w]).0 == need[k].0;
        lemma_total_of_entry(cur, w);
    }
}

} // verus!
