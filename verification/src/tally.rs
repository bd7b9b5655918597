//! The mathematics of aggregation: churn totals per date and author as a map
//! over unbounded numbers, what folding a batch of records into it means, and
//! the laws that make it safe to fold pages in whatever order they arrive.

use vstd::prelude::*;
use vstd::seq_lib::*;
use crate::record::RecordView;

verus! {

/// Accumulated churn of one author on one date.
pub struct Tally {
    pub times: nat,
    pub additions: nat,
    pub deletions: nat,
}

impl Tally {
    /// Nothing counted.
    pub open spec fn zero() -> Tally {
        Tally { times: 0, additions: 0, deletions: 0 }
    }

    /// The fieldwise sum.
    pub open spec fn plus(self, other: Tally) -> Tally {
        Tally {
            times: self.times + other.times,
            additions: self.additions + other.additions,
            deletions: self.deletions + other.deletions,
        }
    }

    /// No field of `self` exceeds that of `other`.
    pub open spec fn le(self, other: Tally) -> bool {
        &&& self.times <= other.times
        &&& self.additions <= other.additions
        &&& self.deletions <= other.deletions
    }
}

/// The key under which a record is counted: its date and its author's email.
pub open spec fn key_of(r: RecordView) -> (Seq<char>, Seq<char>) {
    (r.date(), r.author_email)
}

/// What one counted record adds to its entry.
pub open spec fn contribution(r: RecordView) -> Tally {
    Tally { times: 1, additions: r.stats.additions as nat, deletions: r.stats.deletions as nat }
}

/// The entry of `m` at `k`, or zero where `m` has none.
pub open spec fn counted(m: Map<(Seq<char>, Seq<char>), Tally>, k: (Seq<char>, Seq<char>)) -> Tally {
    if m.contains_key(k) {
        m[k]
    } else {
        Tally::zero()
    }
}

/// `m` with `t` added to the entry at `k`, which is created where absent.
pub open spec fn add_entry(
    m: Map<(Seq<char>, Seq<char>), Tally>,
    k: (Seq<char>, Seq<char>),
    t: Tally,
) -> Map<(Seq<char>, Seq<char>), Tally> {
    m.insert(k, counted(m, k).plus(t))
}

/// `m` after one record: a merge commit leaves it as it is, any other commit
/// is added to the entry of its date and author.
pub open spec fn add_record(m: Map<(Seq<char>, Seq<char>), Tally>, r: RecordView) -> Map<
    (Seq<char>, Seq<char>),
    Tally,
> {
    if r.is_merge() {
        m
    } else {
        add_entry(m, key_of(r), contribution(r))
    }
}

/// `m` after the records of `batch`, taken in order.
pub open spec fn fold(m: Map<(Seq<char>, Seq<char>), Tally>, batch: Seq<RecordView>) -> Map<
    (Seq<char>, Seq<char>),
    Tally,
>
    decreases batch.len(),
{
    if batch.len() == 0 {
        m
    } else {
        add_record(fold(m, batch.drop_last()), batch.last())
    }
}

/// `m` after each batch of `batches` was folded in, in order.
pub open spec fn fold_all(m: Map<(Seq<char>, Seq<char>), Tally>, batches: Seq<Seq<RecordView>>) -> Map<
    (Seq<char>, Seq<char>),
    Tally,
>
    decreases batches.len(),
{
    if batches.len() == 0 {
        m
    } else {
        fold(fold_all(m, batches.drop_last()), batches.last())
    }
}

/// The entrywise sum of two aggregates.
pub open spec fn merge(a: Map<(Seq<char>, Seq<char>), Tally>, b: Map<(Seq<char>, Seq<char>), Tally>) -> Map<
    (Seq<char>, Seq<char>),
    Tally,
> {
    Map::new(
        |k: (Seq<char>, Seq<char>)| a.contains_key(k) || b.contains_key(k),
        |k: (Seq<char>, Seq<char>)| counted(a, k).plus(counted(b, k)),
    )
}

/// What `r` adds to the entry at `k`: its contribution where it is counted
/// there, else nothing.
pub open spec fn share(r: RecordView, k: (Seq<char>, Seq<char>)) -> Tally {
    if !r.is_merge() && key_of(r) == k {
        contribution(r)
    } else {
        Tally::zero()
    }
}

/// The sum of what the records of `batch` add to the entry at `k`.
pub open spec fn tally_of(batch: Seq<RecordView>, k: (Seq<char>, Seq<char>)) -> Tally
    decreases batch.len(),
{
    if batch.len() == 0 {
        Tally::zero()
    } else {
        tally_of(batch.drop_last(), k).plus(share(batch.last(), k))
    }
}

/// `a` and `b` agree at `k`: both have an entry there or neither has, and
/// the entries are the same.
pub open spec fn same_at(
    a: Map<(Seq<char>, Seq<char>), Tally>,
    b: Map<(Seq<char>, Seq<char>), Tally>,
    k: (Seq<char>, Seq<char>),
) -> bool {
    a.contains_key(k) == b.contains_key(k) && counted(a, k) == counted(b, k)
}

/// Aggregates that agree at every key are the same.
pub proof fn lemma_same_entries(a: Map<(Seq<char>, Seq<char>), Tally>, b: Map<(Seq<char>, Seq<char>), Tally>)
    requires
        forall|k: (Seq<char>, Seq<char>)| #[trigger] same_at(a, b, k),
    ensures
        a == b,
{
    assert forall|k: (Seq<char>, Seq<char>)| a.contains_key(k) == b.contains_key(k) by {
        assert(same_at(a, b, k));
    }
    assert forall|k: (Seq<char>, Seq<char>)| a.contains_key(k) implies a[k] == b[k] by {
        assert(same_at(a, b, k));
    }
    assert(a =~= b);
}

/// Folding in closed form: an entry exists after the fold where it existed
/// before or a record of the batch is counted there, and it holds what it
/// held before plus the batch's tally for it.
pub proof fn lemma_fold_entry(
    m: Map<(Seq<char>, Seq<char>), Tally>,
    batch: Seq<RecordView>,
    k: (Seq<char>, Seq<char>),
)
    ensures
        fold(m, batch).contains_key(k) <==> m.contains_key(k) || tally_of(batch, k).times > 0,
        counted(fold(m, batch), k) == counted(m, k).plus(tally_of(batch, k)),
    decreases batch.len(),
{
    if batch.len() > 0 {
        lemma_fold_entry(m, batch.drop_last(), k);
    }
}

/// Aggregates that result from folding batches with the same tallies into
/// the same aggregate are the same.
proof fn lemma_same_tallies(m: Map<(Seq<char>, Seq<char>), Tally>, a: Seq<RecordView>, b: Seq<RecordView>)
    requires
        forall|k: (Seq<char>, Seq<char>)| tally_of(a, k) == tally_of(b, k),
    ensures
        fold(m, a) == fold(m, b),
{
    assert forall|k: (Seq<char>, Seq<char>)| #[trigger] same_at(fold(m, a), fold(m, b), k) by {
        lemma_fold_entry(m, a, k);
        lemma_fold_entry(m, b, k);
        assert(tally_of(a, k) == tally_of(b, k));
    }
    lemma_same_entries(fold(m, a), fold(m, b));
}

/// The tally of a concatenation is the sum of the tallies.
proof fn lemma_tally_concat(a: Seq<RecordView>, b: Seq<RecordView>, k: (Seq<char>, Seq<char>))
    ensures
        tally_of(a + b, k) == tally_of(a, k).plus(tally_of(b, k)),
    decreases b.len(),
{
    if b.len() == 0 {
        assert(a + b =~= a);
    } else {
        assert((a + b).drop_last() =~= a + b.drop_last());
        lemma_tally_concat(a, b.drop_last(), k);
    }
}

/// A batch tallies what it tallies without one record, plus that record's
/// share.
proof fn lemma_tally_remove(s: Seq<RecordView>, i: int, k: (Seq<char>, Seq<char>))
    requires
        0 <= i < s.len(),
    ensures
        tally_of(s, k) == tally_of(s.remove(i), k).plus(share(s[i], k)),
{
    let head = s.take(i);
    let tail = s.skip(i + 1);
    assert(s =~= head.push(s[i]) + tail);
    assert(s.remove(i) =~= head + tail);
    assert(head.push(s[i]).drop_last() =~= head);
    lemma_tally_concat(head.push(s[i]), tail, k);
    lemma_tally_concat(head, tail, k);
}

/// The tally of a batch does not depend on the order of its records.
proof fn lemma_tally_rearranged(a: Seq<RecordView>, b: Seq<RecordView>, k: (Seq<char>, Seq<char>))
    requires
        a.to_multiset() == b.to_multiset(),
    ensures
        tally_of(a, k) == tally_of(b, k),
    decreases a.len(),
{
    a.to_multiset_ensures();
    b.to_multiset_ensures();
    if a.len() > 0 {
        let r = a.last();
        assert(a.contains(r));
        assert(b.to_multiset().count(r) > 0);
        assert(b.contains(r));
        let i = b.index_of(r);
        assert(a.drop_last() =~= a.remove(a.len() - 1));
        assert(a.remove(a.len() - 1).to_multiset() == a.to_multiset().remove(r));
        assert(b.remove(i).to_multiset() == b.to_multiset().remove(r));
        lemma_tally_rearranged(a.drop_last(), b.remove(i), k);
        lemma_tally_remove(b, i, k);
    } else {
        assert(b.len() == 0);
    }
}

/// Folding batches one by one is folding their concatenation.
proof fn lemma_fold_all_flat(m: Map<(Seq<char>, Seq<char>), Tally>, batches: Seq<Seq<RecordView>>)
    ensures
        fold_all(m, batches) == fold(m, batches.flatten()),
    decreases batches.len(),
{
    if batches.len() > 0 {
        let init = batches.drop_last();
        lemma_fold_all_flat(m, init);
        init.lemma_flatten_push(batches.last());
        assert(init.push(batches.last()) =~= batches);
        law_fold_concat(m, init.flatten(), batches.last());
    }
}

/// Folding two batches one after the other is folding their concatenation.
pub proof fn law_fold_concat(m: Map<(Seq<char>, Seq<char>), Tally>, a: Seq<RecordView>, b: Seq<RecordView>)
    ensures
        fold(fold(m, a), b) == fold(m, a + b),
    decreases b.len(),
{
    if b.len() == 0 {
        assert(a + b =~= a);
    } else {
        assert((a + b).drop_last() =~= a + b.drop_last());
        law_fold_concat(m, a, b.drop_last());
    }
}

/// Folding the same records in another order gives the same aggregate.
pub proof fn law_fold_any_order(m: Map<(Seq<char>, Seq<char>), Tally>, a: Seq<RecordView>, b: Seq<RecordView>)
    requires
        a.to_multiset() == b.to_multiset(),
    ensures
        fold(m, a) == fold(m, b),
{
    assert forall|k: (Seq<char>, Seq<char>)| tally_of(a, k) == tally_of(b, k) by {
        lemma_tally_rearranged(a, b, k);
    }
    lemma_same_tallies(m, a, b);
}

/// Folding a batch with one record more, wherever in the batch it stands,
/// is folding the batch and then the record.
pub proof fn law_fold_inserted(m: Map<(Seq<char>, Seq<char>), Tally>, batch: Seq<RecordView>, i: int, r: RecordView)
    requires
        0 <= i <= batch.len(),
    ensures
        fold(m, batch.insert(i, r)) == add_record(fold(m, batch), r),
{
    to_multiset_insert(batch, i, r);
    to_multiset_build(batch, r);
    law_fold_any_order(m, batch.insert(i, r), batch.push(r));
    assert(batch.push(r).drop_last() =~= batch);
}

/// However a collection of records is cut into batches, and in whatever
/// order the batches and the records within them are folded, the aggregate
/// that results is the same.
pub proof fn law_fold_any_partition(
    m: Map<(Seq<char>, Seq<char>), Tally>,
    x: Seq<Seq<RecordView>>,
    y: Seq<Seq<RecordView>>,
)
    requires
        x.flatten().to_multiset() == y.flatten().to_multiset(),
    ensures
        fold_all(m, x) == fold_all(m, y),
{
    lemma_fold_all_flat(m, x);
    lemma_fold_all_flat(m, y);
    law_fold_any_order(m, x.flatten(), y.flatten());
}

/// Two batches may be folded in either order.
pub proof fn law_fold_commutes(m: Map<(Seq<char>, Seq<char>), Tally>, a: Seq<RecordView>, b: Seq<RecordView>)
    ensures
        fold(fold(m, a), b) == fold(fold(m, b), a),
{
    law_fold_concat(m, a, b);
    law_fold_concat(m, b, a);
    assert forall|k: (Seq<char>, Seq<char>)| tally_of(a + b, k) == tally_of(b + a, k) by {
        lemma_tally_concat(a, b, k);
        lemma_tally_concat(b, a, k);
    }
    lemma_same_tallies(m, a + b, b + a);
}

/// Merging in an aggregate that has one entry more is merging and then
/// adding that entry.
pub proof fn lemma_merge_insert(
    a: Map<(Seq<char>, Seq<char>), Tally>,
    b: Map<(Seq<char>, Seq<char>), Tally>,
    k: (Seq<char>, Seq<char>),
    t: Tally,
)
    requires
        !b.contains_key(k),
    ensures
        merge(a, b.insert(k, t)) == add_entry(merge(a, b), k, t),
{
    assert forall|x: (Seq<char>, Seq<char>)| #[trigger]
        same_at(merge(a, b.insert(k, t)), add_entry(merge(a, b), k, t), x) by {}
    lemma_same_entries(merge(a, b.insert(k, t)), add_entry(merge(a, b), k, t));
}

/// Merging in nothing changes nothing.
pub proof fn lemma_merge_empty(a: Map<(Seq<char>, Seq<char>), Tally>)
    ensures
        merge(a, Map::empty()) == a,
{
    let empty = Map::<(Seq<char>, Seq<char>), Tally>::empty();
    assert forall|x: (Seq<char>, Seq<char>)| #[trigger] same_at(merge(a, empty), a, x) by {}
    lemma_same_entries(merge(a, empty), a);
}

/// Aggregating a batch on its own and merging the result into `m` is folding
/// the batch into `m`.
pub proof fn law_merge_of_fold(m: Map<(Seq<char>, Seq<char>), Tally>, batch: Seq<RecordView>)
    ensures
        merge(m, fold(Map::empty(), batch)) == fold(m, batch),
{
    let empty = Map::<(Seq<char>, Seq<char>), Tally>::empty();
    let alone = fold(empty, batch);
    assert forall|k: (Seq<char>, Seq<char>)| #[trigger] same_at(merge(m, alone), fold(m, batch), k) by {
        lemma_fold_entry(m, batch, k);
        lemma_fold_entry(empty, batch, k);
    }
    lemma_same_entries(merge(m, alone), fold(m, batch));
}

/// Merging is commutative and associative.
pub proof fn law_merge_order(
    a: Map<(Seq<char>, Seq<char>), Tally>,
    b: Map<(Seq<char>, Seq<char>), Tally>,
    c: Map<(Seq<char>, Seq<char>), Tally>,
)
    ensures
        merge(a, b) == merge(b, a),
        merge(merge(a, b), c) == merge(a, merge(b, c)),
{
    assert forall|k: (Seq<char>, Seq<char>)| #[trigger] same_at(merge(a, b), merge(b, a), k) by {}
    lemma_same_entries(merge(a, b), merge(b, a));
    assert forall|k: (Seq<char>, Seq<char>)| #[trigger]
        same_at(merge(merge(a, b), c), merge(a, merge(b, c)), k) by {}
    lemma_same_entries(merge(merge(a, b), c), merge(a, merge(b, c)));
}

/// A merge commit changes no entry, wherever in the stream of records it
/// stands.
pub proof fn law_merge_commit_ignored(
    m: Map<(Seq<char>, Seq<char>), Tally>,
    before: Seq<RecordView>,
    r: RecordView,
    after: Seq<RecordView>,
)
    requires
        r.is_merge(),
    ensures
        add_record(m, r) == m,
        forall|k: (Seq<char>, Seq<char>)| share(r, k) == Tally::zero(),
        fold(m, before.push(r) + after) == fold(m, before + after),
{
    law_fold_concat(m, before.push(r), after);
    law_fold_concat(m, before, after);
    assert(before.push(r).drop_last() =~= before);
}

/// Folding never removes an entry and never lowers a count.
pub proof fn law_fold_monotone(m: Map<(Seq<char>, Seq<char>), Tally>, batch: Seq<RecordView>)
    ensures
        forall|k: (Seq<char>, Seq<char>)|
            m.contains_key(k) ==> fold(m, batch).contains_key(k) && m[k].le(fold(m, batch)[k]),
{
    assert forall|k: (Seq<char>, Seq<char>)| m.contains_key(k) implies fold(m, batch).contains_key(k)
        && m[k].le(fold(m, batch)[k]) by {
        lemma_fold_entry(m, batch, k);
    }
}

/// Merging never removes an entry and never lowers a count.
pub proof fn law_merge_monotone(a: Map<(Seq<char>, Seq<char>), Tally>, b: Map<(Seq<char>, Seq<char>), Tally>)
    ensures
        forall|k: (Seq<char>, Seq<char>)|
            a.contains_key(k) ==> merge(a, b).contains_key(k) && a[k].le(merge(a, b)[k]),
{
}

} // verus!
