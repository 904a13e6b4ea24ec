//! Per-task resource ledgers: lists of (semaphore id, count) pairs.

use vstd::prelude::*;

verus! {

/// `ledger` has an entry for semaphore `sid`.
pub open spec fn has_id(ledger: Seq<(usize, isize)>, sid: usize) -> bool {
    exists|i: int| 0 <= i < ledger.len() && (#[trigger] ledger[i]).0 == sid
}

/// No two entries of `ledger` name the same semaphore.
pub open spec fn distinct_ids(ledger: Seq<(usize, isize)>) -> bool {
    forall|i: int, j: int|
        0 <= i < j < ledger.len() ==> (#[trigger] ledger[i]).0 != (#[trigger] ledger[j]).0
}

/// All counts in `ledger` are at least one.
pub open spec fn positive(ledger: Seq<(usize, isize)>) -> bool {
    forall|i: int| 0 <= i < ledger.len() ==> (#[trigger] ledger[i]).1 >= 1
}

/// `i` is the index of the first entry of `ledger` for semaphore `sid`.
pub open spec fn is_first(ledger: Seq<(usize, isize)>, sid: usize, i: int) -> bool {
    &&& 0 <= i < ledger.len()
    &&& ledger[i].0 == sid
    &&& forall|j: int| 0 <= j < i ==> (#[trigger] ledger[j]).0 != sid
}

/// Index of the first entry of `ledger` for semaphore `sid`.
pub open spec fn first_index(ledger: Seq<(usize, isize)>, sid: usize) -> int {
    choose|i: int| is_first(ledger, sid, i)
}

/// Count that `ledger` records for semaphore `sid`; zero where it has no entry.
pub open spec fn count_of(ledger: Seq<(usize, isize)>, sid: usize) -> int {
    if has_id(ledger, sid) {
        ledger[first_index(ledger, sid)].1 as int
    } else {
        0
    }
}

/// `ledger` with one more unit of `sid`: the count of its entry goes up by
/// one, or a new entry with count one is added at the end.
pub open spec fn with_unit(ledger: Seq<(usize, isize)>, sid: usize) -> Seq<(usize, isize)> {
    if has_id(ledger, sid) {
        let i = first_index(ledger, sid);
        ledger.update(i, (sid, (ledger[i].1 + 1) as isize))
    } else {
        ledger.push((sid, 1isize))
    }
}

/// `ledger` with one unit of `sid` less: the count of its entry goes down by
/// one, and the entry leaves when nothing is left of it.
pub open spec fn without_unit(ledger: Seq<(usize, isize)>, sid: usize) -> Seq<(usize, isize)> {
    let i = first_index(ledger, sid);
    if ledger[i].1 - 1 <= 0 {
        ledger.remove(i)
    } else {
        ledger.update(i, (sid, (ledger[i].1 - 1) as isize))
    }
}

/// The first entry for an id is the only index that `is_first` accepts.
pub proof fn lemma_first_index(ledger: Seq<(usize, isize)>, sid: usize, i: int)
    requires
        is_first(ledger, sid, i),
    ensures
        has_id(ledger, sid),
        first_index(ledger, sid) == i,
{
}

/// The first entry for `sid` at or before index `upto`, which holds one.
proof fn lemma_scan_first(ledger: Seq<(usize, isize)>, sid: usize, upto: int) -> (i: int)
    requires
        0 <= upto < ledger.len(),
        ledger[upto].0 == sid,
    ensures
        is_first(ledger, sid, i),
    decreases upto,
{
    if exists|j: int| 0 <= j < upto && (#[trigger] ledger[j]).0 == sid {
        let j = choose|j: int| 0 <= j < upto && (#[trigger] ledger[j]).0 == sid;
        lemma_scan_first(ledger, sid, j)
    } else {
        upto
    }
}

/// An id that occurs has a first entry.
pub proof fn lemma_has_first(ledger: Seq<(usize, isize)>, sid: usize)
    requires
        has_id(ledger, sid),
    ensures
        is_first(ledger, sid, first_index(ledger, sid)),
{
    let k = choose|k: int| 0 <= k < ledger.len() && (#[trigger] ledger[k]).0 == sid;
    lemma_scan_first(ledger, sid, k);
}

/// Index of the first entry for `sid`, if there is one.
pub fn position(ledger: &Vec<(usize, isize)>, sid: usize) -> (r: Option<usize>)
    ensures
        match r {
            Some(i) => is_first(ledger@, sid, i as int) && has_id(ledger@, sid) && i as int
                == first_index(ledger@, sid),
            None => !has_id(ledger@, sid),
        },
{
    let mut i: usize = 0;
    while i < ledger.len()
        invariant
            i <= ledger.len(),
            forall|j: int| 0 <= j < i ==> (#[trigger] ledger[j]).0 != sid,
        decreases ledger.len() - i,
    {
        if ledger[i].0 == sid {
            return Some(i);
        }
        i += 1;
    }
    None
}

/// Records one more unit of `sid` in `ledger`.
pub fn add_unit(ledger: &mut Vec<(usize, isize)>, sid: usize)
    requires
        count_of(old(ledger)@, sid) < isize::MAX,
    ensures
        final(ledger)@ == with_unit(old(ledger)@, sid),
{
    match position(ledger, sid) {
        Some(i) => {
            ledger[i].1 += 1;
        },
        None => {
            ledger.push((sid, 1));
        },
    }
}

/// Takes one unit of `sid` out of `ledger`, which has an entry for it.
pub fn take_unit(ledger: &mut Vec<(usize, isize)>, sid: usize)
    requires
        has_id(old(ledger)@, sid),
        count_of(old(ledger)@, sid) > isize::MIN,
    ensures
        final(ledger)@ == without_unit(old(ledger)@, sid),
{
    let i = position(ledger, sid).unwrap();
    ledger[i].1 -= 1;
    if ledger[i].1 <= 0 {
        ledger.remove(i);
    }
}

/// Adding a unit keeps ids distinct and counts positive.
pub proof fn lemma_with_unit_keeps(ledger: Seq<(usize, isize)>, sid: usize)
    requires
        distinct_ids(ledger),
        positive(ledger),
        count_of(ledger, sid) < isize::MAX,
    ensures
        distinct_ids(with_unit(ledger, sid)),
        positive(with_unit(ledger, sid)),
        has_id(with_unit(ledger, sid), sid),
        count_of(with_unit(ledger, sid), sid) == count_of(ledger, sid) + 1,
        forall|other: usize|
            other != sid ==> has_id(with_unit(ledger, sid), other) == has_id(ledger, other),
{
    let grown = with_unit(ledger, sid);
    if has_id(ledger, sid) {
        let i = first_index(ledger, sid);
        lemma_has_first(ledger, sid);
        assert(is_first(grown, sid, i));
        assert forall|other: usize| other != sid implies has_id(grown, other) == has_id(
            ledger,
            other,
        ) by {
            if has_id(ledger, other) {
                let a = choose|a: int| 0 <= a < ledger.len() && (#[trigger] ledger[a]).0 == other;
                assert(grown[a].0 == other);
            }
        }
    } else {
        let i = ledger.len() as int;
        assert(is_first(grown, sid, i));
        assert forall|other: usize| other != sid implies has_id(grown, other) == has_id(
            ledger,
            other,
        ) by {
            if has_id(ledger, other) {
                let a = choose|a: int| 0 <= a < ledger.len() && (#[trigger] ledger[a]).0 == other;
                assert(grown[a].0 == other);
            }
        }
    }
}

} // verus!
