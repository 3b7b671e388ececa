//! Properties of sequences of store operations, stated over the steps that
//! `RecordStore::increment_counter` and `RecordStore::insert` are specified by.
use vstd::prelude::*;

use crate::record::{counter_of, CounterKind, Record, RecordId};
use crate::store::{
    comes_before, has_id, increment_step, insert_step, same_records, sorted_by, unique_ids, SortKey,
};

verus! {

/// The records after the increments `ops`, applied in order, each naming a
/// record and one of its counters.
pub open spec fn apply_increments(s: Seq<Record>, ops: Seq<(RecordId, CounterKind)>) -> Seq<
    Record,
>
    decreases ops.len(),
{
    if ops.len() == 0 {
        s
    } else {
        increment_step(apply_increments(s, ops.drop_last()), ops.last().0, ops.last().1)
    }
}

/// How many of the increments `ops` name counter `c` of record `id`.
pub open spec fn count_ops(ops: Seq<(RecordId, CounterKind)>, id: RecordId, c: CounterKind) -> nat
    decreases ops.len(),
{
    if ops.len() == 0 {
        0
    } else {
        count_ops(ops.drop_last(), id, c) + if ops.last() == (id, c) {
            1nat
        } else {
            0nat
        }
    }
}

/// The records after the insertions `rs`, applied in order.
pub open spec fn apply_inserts(s: Seq<Record>, rs: Seq<Record>) -> Seq<Record>
    decreases rs.len(),
{
    if rs.len() == 0 {
        s
    } else {
        insert_step(apply_inserts(s, rs.drop_last()), rs.last())
    }
}

/// No increment is lost: whatever increments of any records and counters are
/// interleaved, a counter ends at its first value plus the number of
/// increments that named it, as long as that sum fits in a `u64`. The records
/// keep their places and identifiers.
pub proof fn lemma_increments_add_up(
    s: Seq<Record>,
    ops: Seq<(RecordId, CounterKind)>,
    i: int,
    c: CounterKind,
)
    requires
        0 <= i < s.len(),
        counter_of(s[i], c) + count_ops(ops, s[i].id, c) <= u64::MAX,
    ensures
        apply_increments(s, ops).len() == s.len(),
        apply_increments(s, ops)[i].id == s[i].id,
        counter_of(apply_increments(s, ops)[i], c) == counter_of(s[i], c) + count_ops(
            ops,
            s[i].id,
            c,
        ),
    decreases ops.len(),
{
    if ops.len() > 0 {
        let rest = ops.drop_last();
        lemma_increments_add_up(s, rest, i, c);
        let prev = apply_increments(s, rest);
        assert(increment_step(prev, ops.last().0, ops.last().1)[i] == if prev[i].id == ops.last().0
            && counter_of(prev[i], ops.last().1) < u64::MAX {
            crate::record::bumped(prev[i], ops.last().1)
        } else {
            prev[i]
        });
    }
}

/// No insertion is lost: inserting records whose identifiers are distinct and
/// new to the store appends them all, in order, and identifiers stay unique.
pub proof fn lemma_inserts_all_kept(s: Seq<Record>, rs: Seq<Record>)
    requires
        unique_ids(s),
        unique_ids(rs),
        forall|k: int| 0 <= k < rs.len() ==> !has_id(s, #[trigger] rs[k].id),
    ensures
        apply_inserts(s, rs) == s + rs,
        unique_ids(s + rs),
        (s + rs).len() == s.len() + rs.len(),
    decreases rs.len(),
{
    if rs.len() > 0 {
        let rest = rs.drop_last();
        assert forall|k: int| 0 <= k < rest.len() implies !has_id(s, #[trigger] rest[k].id) by {
            assert(rest[k] == rs[k]);
        }
        lemma_inserts_all_kept(s, rest);
        let prev = s + rest;
        let r = rs.last();
        if has_id(prev, r.id) {
            let j = choose|j: int| 0 <= j < prev.len() && prev[j].id == r.id;
            if j < s.len() {
                assert(s[j].id == r.id);
                assert(!has_id(s, rs[rs.len() - 1].id));
            } else {
                assert(rs[j - s.len()].id == rs[rs.len() - 1].id);
            }
        }
        assert(prev.push(r) =~= s + rs);
    }
    assert forall|a: int, b: int|
        0 <= a < (s + rs).len() && 0 <= b < (s + rs).len() && a != b implies (s + rs)[a].id != (s
        + rs)[b].id by {
        if a < s.len() && b >= s.len() {
            assert(!has_id(s, rs[b - s.len()].id));
        } else if a >= s.len() && b < s.len() {
            assert(!has_id(s, rs[a - s.len()].id));
        }
    }
}

/// An identifier that no insertion used stays absent from the store: looking
/// it up finds nothing.
pub proof fn lemma_unused_id_absent(s: Seq<Record>, rs: Seq<Record>, id: RecordId)
    requires
        !has_id(s, id),
        forall|k: int| 0 <= k < rs.len() ==> #[trigger] rs[k].id != id,
    ensures
        !has_id(apply_inserts(s, rs), id),
    decreases rs.len(),
{
    if rs.len() > 0 {
        let rest = rs.drop_last();
        assert forall|k: int| 0 <= k < rest.len() implies #[trigger] rest[k].id != id by {
            assert(rest[k] == rs[k]);
        }
        lemma_unused_id_absent(s, rest, id);
        let prev = apply_inserts(s, rest);
        let r = rs.last();
        assert(r.id == rs[rs.len() - 1].id);
        if !has_id(prev, r.id) {
            if has_id(prev.push(r), id) {
                let j = choose|j: int| 0 <= j < prev.push(r).len() && prev.push(r)[j].id == id;
                if j < prev.len() {
                    assert(prev[j].id == id);
                }
            }
        }
    }
}

/// A listing's order is determined: two orderings of the same records that
/// both follow `key` are the same sequence. So the page that
/// `RecordStore::list` returns is fixed by the store, the key and the paging.
pub proof fn lemma_sorted_order_unique(a: Seq<Record>, b: Seq<Record>, key: SortKey)
    requires
        sorted_by(a, key),
        sorted_by(b, key),
        same_records(a, b),
    ensures
        a == b,
    decreases a.len(),
{
    if a.len() > 0 {
        assert(b.contains(a[0]));
        let j = choose|j: int| 0 <= j < b.len() && b[j] == a[0];
        assert(a.contains(b[0]));
        let i = choose|i: int| 0 <= i < a.len() && a[i] == b[0];
        if j > 0 {
            assert(comes_before(b[0], b[j], key));
            if i > 0 {
                assert(comes_before(a[0], a[i], key));
            }
        }
        assert(a[0] == b[0]);
        let a1 = a.drop_first();
        let b1 = b.drop_first();
        assert forall|x: Record| a1.contains(x) implies b1.contains(x) by {
            let k = choose|k: int| 0 <= k < a1.len() && a1[k] == x;
            assert(a[k + 1] == x);
            assert(comes_before(a[0], a[k + 1], key));
            assert(b.contains(x));
            let m = choose|m: int| 0 <= m < b.len() && b[m] == x;
            assert(m != 0);
            assert(b1[m - 1] == x);
        }
        assert forall|x: Record| b1.contains(x) implies a1.contains(x) by {
            let k = choose|k: int| 0 <= k < b1.len() && b1[k] == x;
            assert(b[k + 1] == x);
            assert(comes_before(b[0], b[k + 1], key));
            assert(a.contains(x));
            let m = choose|m: int| 0 <= m < a.len() && a[m] == x;
            assert(m != 0);
            assert(a1[m - 1] == x);
        }
        lemma_sorted_order_unique(a1, b1, key);
        assert(a =~= seq![a[0]] + a1);
        assert(b =~= seq![b[0]] + b1);
    } else {
        assert(a =~= b);
    }
}

/// Successive successful creations never collide and lose nothing: when each
/// record of `rs` was added, as `RecordStore::create_record` adds on success,
/// under an identifier absent from the store at that moment, the store ends
/// holding its first records followed by all of `rs`, with distinct
/// identifiers throughout.
pub proof fn lemma_created_ids_distinct(s: Seq<Record>, rs: Seq<Record>)
    requires
        unique_ids(s),
        forall|k: int| 0 <= k < rs.len() ==> !has_id(s + rs.subrange(0, k), #[trigger] rs[k].id),
    ensures
        unique_ids(rs),
        unique_ids(s + rs),
        (s + rs).len() == s.len() + rs.len(),
{
    let all = s + rs;
    assert forall|a: int, b: int|
        0 <= a < all.len() && 0 <= b < all.len() && a != b implies all[a].id != all[b].id by {
        if a >= s.len() || b >= s.len() {
            let (lo, hi) = if a < b {
                (a, b)
            } else {
                (b, a)
            };
            let k = hi - s.len();
            let before = s + rs.subrange(0, k);
            assert(before[lo] == all[lo]);
            assert(all[hi] == rs[k]);
            assert(!has_id(before, rs[k].id));
        }
    }
    assert forall|a: int, b: int|
        0 <= a < rs.len() && 0 <= b < rs.len() && a != b implies rs[a].id != rs[b].id by {
        assert(all[s.len() + a] == rs[a]);
        assert(all[s.len() + b] == rs[b]);
    }
}

} // verus!
