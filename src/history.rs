//! A node's transaction log: an ordered sequence of transactions whose zxids are
//! positive and strictly increasing.
use vstd::prelude::*;
use crate::message::Transaction;

verus! {

/// Zxids are positive (zero stands for "no transaction") and strictly increasing.
pub open spec fn zxids_ascending(h: Seq<Transaction>) -> bool {
    &&& forall|i: int| 0 <= i < h.len() ==> #[trigger] h[i].zxid > 0
    &&& forall|i: int, j: int| 0 <= i < j < h.len() ==> h[i].zxid < h[j].zxid
}

/// The zxid of the newest entry, or 0 for an empty log.
pub open spec fn last_zxid_of(h: Seq<Transaction>) -> int {
    if h.len() == 0 {
        0
    } else {
        h.last().zxid as int
    }
}

/// The log holds an entry with zxid `z`.
pub open spec fn has_zxid(h: Seq<Transaction>, z: int) -> bool {
    exists|k: int| 0 <= k < h.len() && h[k].zxid == z
}

/// `z` falls strictly between the zxids of entries `i` and `i + 1`.
pub open spec fn in_gap(h: Seq<Transaction>, i: int, z: int) -> bool {
    0 <= i < h.len() - 1 && h[i].zxid < z < h[i + 1].zxid
}

/// `z` falls strictly inside some gap between two neighbouring entries.
pub open spec fn fits_interior_gap(h: Seq<Transaction>, z: int) -> bool {
    exists|i: int| in_gap(h, i, z)
}

/// The log after a follower reported the historical transaction `t`: an empty
/// log takes it when its zxid is positive (zero means "no transaction");
/// otherwise it is inserted only where its zxid falls strictly
/// between two neighbouring entries. Entries before the first or after the last
/// are not merged.
pub open spec fn merge_recovered(h: Seq<Transaction>, t: Transaction) -> Seq<Transaction> {
    if h.len() == 0 {
        if t.zxid > 0 {
            seq![t]
        } else {
            h
        }
    } else if fits_interior_gap(h, t.zxid as int) {
        let i = choose|i: int| in_gap(h, i, t.zxid as int);
        h.insert(i + 1, t)
    } else {
        h
    }
}

/// The zxid of the newest entry, or 0 when the log is empty.
pub fn last_zxid(h: &Vec<Transaction>) -> (r: i32)
    ensures
        r as int == last_zxid_of(h@),
{
    let len = h.len();
    if len == 0 {
        return 0;
    }
    h[len - 1].zxid
}

/// Whether a snapshot is a well-formed log.
pub fn is_ascending(h: &Vec<Transaction>) -> (r: bool)
    ensures
        r == zxids_ascending(h@),
{
    let mut i: usize = 0;
    while i < h.len()
        invariant
            0 <= i <= h.len(),
            forall|k: int| 0 <= k < i ==> #[trigger] h@[k].zxid > 0,
            forall|a: int, b: int| 0 <= a < b < i ==> h@[a].zxid < h@[b].zxid,
        decreases h.len() - i,
    {
        if h[i].zxid <= 0 {
            return false;
        }
        if i > 0 && h[i - 1].zxid >= h[i].zxid {
            return false;
        }
        i = i + 1;
    }
    true
}

proof fn lemma_gap_unique(h: Seq<Transaction>, i: int, j: int, z: int)
    requires
        zxids_ascending(h),
        in_gap(h, i, z),
        in_gap(h, j, z),
    ensures
        i == j,
{
    if i < j {
        assert(h[i + 1].zxid <= h[j].zxid) by {
            if i + 1 < j {
                assert(h[i + 1].zxid < h[j].zxid);
            }
        }
    } else if j < i {
        assert(h[j + 1].zxid <= h[i].zxid) by {
            if j + 1 < i {
                assert(h[j + 1].zxid < h[i].zxid);
            }
        }
    }
}

/// A well-formed log stays well-formed after a recovery merge, and then holds
/// the reported transaction's zxid whenever the merge took it.
pub proof fn lemma_merge_keeps_order(h: Seq<Transaction>, t: Transaction)
    requires
        zxids_ascending(h),
    ensures
        zxids_ascending(merge_recovered(h, t)),
        merge_recovered(h, t) != h ==> has_zxid(merge_recovered(h, t), t.zxid as int),
        h.len() > 0 ==> last_zxid_of(merge_recovered(h, t)) == last_zxid_of(h),
{
    let r = merge_recovered(h, t);
    if h.len() == 0 {
        if t.zxid > 0 {
            assert(r[0] == t);
        }
    } else if fits_interior_gap(h, t.zxid as int) {
        let i = choose|i: int| in_gap(h, i, t.zxid as int);
        assert(r[i + 1] == t);
        assert forall|a: int, b: int| 0 <= a < b < r.len() implies r[a].zxid < r[b].zxid by {
            if b < i + 1 {
            } else if b == i + 1 {
                if a < i {
                    assert(h[a].zxid < h[i].zxid);
                }
            } else if a == i + 1 {
                assert(r[b] == h[b - 1]);
                if b - 1 > i + 1 {
                    assert(h[i + 1].zxid < h[b - 1].zxid);
                }
            } else if a < i + 1 {
                assert(h[a].zxid < h[b - 1].zxid);
            } else {
                assert(h[a - 1].zxid < h[b - 1].zxid);
            }
        }
        assert forall|k: int| 0 <= k < r.len() implies #[trigger] r[k].zxid > 0 by {
            if k < i + 1 {
            } else if k == i + 1 {
                assert(h[i].zxid > 0);
            } else {
                assert(h[k - 1].zxid > 0);
            }
        }
    }
}

/// A zxid that the log already holds falls in none of its interior gaps.
proof fn lemma_present_not_in_gap(h: Seq<Transaction>, z: int)
    requires
        zxids_ascending(h),
        has_zxid(h, z),
    ensures
        !fits_interior_gap(h, z),
{
    if fits_interior_gap(h, z) {
        let i = choose|i: int| in_gap(h, i, z);
        let k = choose|k: int| 0 <= k < h.len() && h[k].zxid == z;
        if k <= i {
            if k < i {
                assert(h[k].zxid < h[i].zxid);
            }
        } else {
            if k > i + 1 {
                assert(h[i + 1].zxid < h[k].zxid);
            }
        }
    }
}

/// Replaying the same recovered transaction a second time changes nothing: the
/// merge never creates a duplicate entry.
pub proof fn lemma_merge_idempotent(h: Seq<Transaction>, t: Transaction)
    requires
        zxids_ascending(h),
    ensures
        merge_recovered(merge_recovered(h, t), t) == merge_recovered(h, t),
{
    let r = merge_recovered(h, t);
    lemma_merge_keeps_order(h, t);
    if r != h {
        lemma_present_not_in_gap(r, t.zxid as int);
        assert(r.len() > 0);
    }
}

/// Appending an entry newer than the newest keeps a log well-formed.
pub proof fn lemma_push_keeps_order(h: Seq<Transaction>, t: Transaction)
    requires
        zxids_ascending(h),
        t.zxid > last_zxid_of(h),
    ensures
        zxids_ascending(h.push(t)),
        last_zxid_of(h.push(t)) == t.zxid,
{
    let r = h.push(t);
    if h.len() > 0 {
        assert(h[h.len() - 1].zxid > 0);
        assert forall|a: int, b: int| 0 <= a < b < r.len() implies r[a].zxid < r[b].zxid by {
            if b == h.len() && a < h.len() - 1 {
                assert(h[a].zxid < h[h.len() - 1].zxid);
            }
        }
    }
    assert forall|k: int| 0 <= k < r.len() implies #[trigger] r[k].zxid > 0 by {
        if k < h.len() {
            assert(h[k].zxid > 0);
        }
    }
}

/// Merges a transaction that a follower reported into a well-formed log.
pub fn merge_recovered_tx(h: &mut Vec<Transaction>, t: &Transaction)
    requires
        zxids_ascending(old(h)@),
    ensures
        final(h)@ == merge_recovered(old(h)@, *t),
        zxids_ascending(final(h)@),
{
    proof {
        lemma_merge_keeps_order(old(h)@, *t);
    }
    let len = h.len();
    if len == 0 {
        if t.zxid > 0 {
            h.push(t.clone());
            assert(h@ =~= seq![*t]);
        }
        return;
    }
    let mut i: usize = 0;
    while i + 1 < len
        invariant
            len == h.len(),
            h@ == old(h)@,
            zxids_ascending(h@),
            len > 0,
            0 <= i < len,
            forall|k: int| 0 <= k < i ==> !#[trigger] in_gap(h@, k, t.zxid as int),
        decreases len - i,
    {
        if h[i].zxid < t.zxid && t.zxid < h[i + 1].zxid {
            let ghost before = h@;
            proof {
                assert(in_gap(before, i as int, t.zxid as int));
                let c = choose|c: int| in_gap(before, c, t.zxid as int);
                lemma_gap_unique(before, i as int, c, t.zxid as int);
            }
            h.insert(i + 1, t.clone());
            assert(h@ =~= before.insert(i + 1, *t));
            return;
        }
        i = i + 1;
    }
    assert(!fits_interior_gap(h@, t.zxid as int));
}

} // verus!
