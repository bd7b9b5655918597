//! The run aggregate: churn totals per date and author, kept in ascending
//! order of date and, within a date, of author. Records are folded into it
//! batch by batch; whole aggregates are merged into it.

use vstd::prelude::*;
use crate::record::Record;
use crate::str_map::StrMap;
use crate::tally::{add_entry, add_record, contribution, counted, fold, key_of, merge, Tally};
use crate::tally::{lemma_merge_empty, lemma_merge_insert};
use crate::text::ascending;

verus! {

/// The most records that any aggregate counts. With at most so many records,
/// each of at most `u32::MAX` added and deleted lines, no total overflows.
pub const CAPACITY: u64 = 0xFFFF_FFFF;

/// Accumulated churn of one author on one date.
#[derive(Clone, Copy, Debug, PartialEq, Eq, Structural)]
pub struct Commits {
    pub times: u64,
    pub additions: u64,
    pub deletions: u64,
}

impl Commits {
    /// The same counts as unbounded numbers.
    pub open spec fn tally(self) -> Tally {
        Tally {
            times: self.times as nat,
            additions: self.additions as nat,
            deletions: self.deletions as nat,
        }
    }
}

/// The aggregate was asked to count more records than it has capacity for.
#[derive(Clone, Copy, Debug, PartialEq, Eq, Structural)]
pub struct AggregateFull;

/// `t` is what at most `n` records can add up to.
pub open spec fn within(t: Tally, n: nat) -> bool {
    &&& t.times <= n
    &&& t.additions <= n * 0xFFFF_FFFF
    &&& t.deletions <= n * 0xFFFF_FFFF
}

/// Every field of `t` fits a `u64`.
pub open spec fn fits(t: Tally) -> bool {
    &&& t.times <= u64::MAX
    &&& t.additions <= u64::MAX
    &&& t.deletions <= u64::MAX
}

/// Churn totals by date and author.
#[derive(Clone, Debug)]
pub struct RunAggregate {
    days: StrMap<StrMap<Commits>>,
    folded: u64,
    capacity: u64,
}

impl RunAggregate {
    /// The dates that have an entry, ascending.
    pub closed spec fn dates(&self) -> Seq<Seq<char>> {
        self.days.keys()
    }

    /// The authors that have an entry on the date at position `i`, ascending.
    pub closed spec fn authors(&self, i: int) -> Seq<Seq<char>> {
        self.days.values()[i].keys()
    }

    /// The entries of the date at position `i`, each at the position of its
    /// author in `authors(i)`.
    pub closed spec fn entries(&self, i: int) -> Seq<Commits> {
        self.days.values()[i].values()
    }

    /// The number of records counted so far, merge commits included.
    pub closed spec fn folded(&self) -> nat {
        self.folded as nat
    }

    /// The most records that this aggregate counts: no more than `CAPACITY`.
    pub closed spec fn capacity(&self) -> nat {
        self.capacity as nat
    }

    /// Dates ascend, the authors of each date ascend, and no date is without
    /// an author.
    pub closed spec fn shape(&self) -> bool {
        &&& self.days.wf()
        &&& forall|i: int|
            0 <= i < self.days.values().len() ==> (#[trigger] self.days.values()[i]).wf()
                && self.days.values()[i].keys().len() > 0
    }

    /// The entries by date and author.
    pub closed spec fn view(&self) -> Map<(Seq<char>, Seq<char>), Tally> {
        Map::new(
            |k: (Seq<char>, Seq<char>)| self.days@.contains_key(k.0) && self.days@[k.0]@.contains_key(k.1),
            |k: (Seq<char>, Seq<char>)| self.days@[k.0]@[k.1].tally(),
        )
    }

    /// The shape holds, no more records were counted than the aggregate has
    /// capacity for, and no entry holds more than so many records can add up
    /// to.
    pub closed spec fn wf(&self) -> bool {
        &&& self.shape()
        &&& self.folded <= self.capacity <= CAPACITY
        &&& forall|k: (Seq<char>, Seq<char>)| #[trigger]
            self@.contains_key(k) ==> within(self@[k], self.folded as nat)
    }

    /// What `wf` says of the walk and of the entries.
    pub proof fn lemma_wf(&self)
        requires
            self.wf(),
        ensures
            self.shape(),
            self.folded() <= self.capacity() <= CAPACITY,
            forall|k: (Seq<char>, Seq<char>)| #[trigger]
                self@.contains_key(k) ==> within(self@[k], self.folded()),
    {
    }

    /// How the walk relates to the entries: the entry at position `j` of the
    /// date at position `i` is the entry of that date and author.
    pub proof fn lemma_walk(&self, i: int, j: int)
        requires
            self.shape(),
            0 <= i < self.dates().len(),
            0 <= j < self.authors(i).len(),
        ensures
            self.authors(i).len() == self.entries(i).len(),
            self@.contains_key((self.dates()[i], self.authors(i)[j])),
            self@[(self.dates()[i], self.authors(i)[j])] == self.entries(i)[j].tally(),
    {
        self.days.lemma_entry(i);
        self.days.values()[i].lemma_entry(j);
    }

    /// What a walk delivers: the dates in ascending order, for each date its
    /// authors in ascending order, at least one, and every entry once.
    pub proof fn lemma_ordered(&self)
        requires
            self.wf(),
        ensures
            ascending(self.dates()),
            forall|i: int|
                0 <= i < self.dates().len() ==> ascending(#[trigger] self.authors(i)) && self.authors(
                    i,
                ).len() > 0 && self.authors(i).len() == self.entries(i).len(),
            forall|k: (Seq<char>, Seq<char>)| #[trigger]
                self@.contains_key(k) ==> exists|i: int, j: int|
                    0 <= i < self.dates().len() && 0 <= j < self.authors(i).len() && self.dates()[i] == k.0
                        && #[trigger] self.authors(i)[j] == k.1,
    {
        assert forall|k: (Seq<char>, Seq<char>)| #[trigger] self@.contains_key(k) implies exists|
            i: int,
            j: int,
        |
            0 <= i < self.dates().len() && 0 <= j < self.authors(i).len() && self.dates()[i] == k.0
                && #[trigger] self.authors(i)[j] == k.1 by {
            let i = self.days.keys().index_of(k.0);
            self.days.lemma_entry(i);
            let day = self.days.values()[i];
            let j = day.keys().index_of(k.1);
            assert(self.authors(i)[j] == k.1);
        }
    }

    /// Aggregates that hold the same entries are walked alike: the same
    /// dates in the same order, and on each date the same authors in the
    /// same order, with the same counts. In whatever order records were
    /// folded and aggregates merged, what results is one and the same.
    pub proof fn law_same_entries_same_walk(&self, other: &Self)
        requires
            self.wf(),
            other.wf(),
            self@ == other@,
        ensures
            self.dates() == other.dates(),
            forall|i: int|
                0 <= i < self.dates().len() ==> #[trigger] self.authors(i) == other.authors(i)
                    && self.entries(i) == other.entries(i),
    {
        assert forall|d: Seq<char>| self.days@.contains_key(d) == other.days@.contains_key(d) by {
            if self.days@.contains_key(d) {
                let i = self.days.keys().index_of(d);
                self.days.lemma_entry(i);
                let day = self.days.values()[i];
                day.lemma_entry(0);
                assert(self@.contains_key((d, day.keys()[0])));
                assert(other@.contains_key((d, day.keys()[0])));
            }
            if other.days@.contains_key(d) {
                let i = other.days.keys().index_of(d);
                other.days.lemma_entry(i);
                let day = other.days.values()[i];
                day.lemma_entry(0);
                assert(other@.contains_key((d, day.keys()[0])));
                assert(self@.contains_key((d, day.keys()[0])));
            }
        }
        assert(self.days@.dom() =~= other.days@.dom());
        self.days.lemma_same_walk(&other.days);
        assert forall|i: int| 0 <= i < self.dates().len() implies #[trigger] self.authors(i)
            == other.authors(i) && self.entries(i) == other.entries(i) by {
            let d = self.days.keys()[i];
            let mine = self.days.values()[i];
            let theirs = other.days.values()[i];
            self.days.lemma_entry(i);
            other.days.lemma_entry(i);
            assert forall|e: Seq<char>| mine@.contains_key(e) == theirs@.contains_key(e) by {
                assert(self@.contains_key((d, e)) == mine@.contains_key(e));
                assert(other@.contains_key((d, e)) == theirs@.contains_key(e));
            }
            assert forall|e: Seq<char>| #[trigger] mine@.contains_key(e) implies mine@[e] == theirs@[e] by {
                assert(self@[(d, e)] == mine@[e].tally());
                assert(other@[(d, e)] == theirs@[e].tally());
            }
            assert(mine@ =~= theirs@);
            mine.lemma_same_walk(&theirs);
        }
    }

    /// The entries that a walk has passed when it stands at the author at
    /// position `j` of the date at position `i`.
    pub closed spec fn part(&self, i: int, j: int) -> Map<(Seq<char>, Seq<char>), Tally> {
        Map::new(
            |k: (Seq<char>, Seq<char>)|
                (self.days.prefix_map(i).contains_key(k.0) && self.days@[k.0]@.contains_key(k.1)) || (0
                    <= i < self.days.keys().len() && k.0 == self.days.keys()[i]
                    && self.days.values()[i].prefix_map(j).contains_key(k.1)),
            |k: (Seq<char>, Seq<char>)| self.days@[k.0]@[k.1].tally(),
        )
    }

    /// A walk starts with nothing passed and ends with everything passed.
    pub proof fn lemma_part_ends(&self)
        requires
            self.shape(),
        ensures
            self.part(0, 0) == Map::<(Seq<char>, Seq<char>), Tally>::empty(),
            self.part(self.dates().len() as int, 0) == self@,
    {
        self.days.lemma_prefix_map(0);
        assert(self.part(0, 0) =~= Map::<(Seq<char>, Seq<char>), Tally>::empty()) by {
            assert forall|k: (Seq<char>, Seq<char>)| !self.part(0, 0).contains_key(k) by {
                if 0 < self.days.keys().len() {
                    self.days.values()[0].lemma_prefix_map(0);
                }
            }
        }
        assert(self.part(self.dates().len() as int, 0) =~= self@);
    }

    /// A walk passes one entry at a time, and no entry twice.
    pub proof fn lemma_part_step(&self, i: int, j: int)
        requires
            self.shape(),
            0 <= i < self.dates().len(),
            0 <= j < self.authors(i).len(),
        ensures
            !self.part(i, j).contains_key((self.dates()[i], self.authors(i)[j])),
            self.part(i, j + 1) == self.part(i, j).insert(
                (self.dates()[i], self.authors(i)[j]),
                self.entries(i)[j].tally(),
            ),
    {
        let day = self.days.values()[i];
        let k = (self.dates()[i], self.authors(i)[j]);
        self.days.lemma_entry(i);
        self.days.lemma_prefix_map(i);
        day.lemma_entry(j);
        day.lemma_prefix_map(j);
        assert(self.part(i, j + 1) =~= self.part(i, j).insert(k, self.entries(i)[j].tally()));
    }

    /// When a walk has passed the last author of a date it stands at the
    /// first author of the next.
    pub proof fn lemma_part_next_day(&self, i: int)
        requires
            self.shape(),
            0 <= i < self.dates().len(),
        ensures
            self.part(i, self.authors(i).len() as int) == self.part(i + 1, 0),
    {
        let day = self.days.values()[i];
        self.days.lemma_entry(i);
        self.days.lemma_prefix_map(i);
        day.lemma_prefix_map(0);
        if i + 1 < self.days.keys().len() {
            self.days.values()[i + 1].lemma_prefix_map(0);
        }
        assert(self.part(i, self.authors(i).len() as int) =~= self.part(i + 1, 0));
    }

    /// An empty aggregate that counts up to `CAPACITY` records.
    pub fn new() -> (a: Self)
        ensures
            a.wf(),
            a@ == Map::<(Seq<char>, Seq<char>), Tally>::empty(),
            a.folded() == 0,
            a.capacity() == CAPACITY,
            a.dates().len() == 0,
    {
        RunAggregate::with_capacity(CAPACITY)
    }

    /// An empty aggregate that counts up to `capacity` records, or up to
    /// `CAPACITY` where that is less.
    pub fn with_capacity(capacity: u64) -> (a: Self)
        ensures
            a.wf(),
            a@ == Map::<(Seq<char>, Seq<char>), Tally>::empty(),
            a.folded() == 0,
            a.capacity() == if capacity <= CAPACITY { capacity } else { CAPACITY },
            a.dates().len() == 0,
    {
        let capacity = if capacity <= CAPACITY {
            capacity
        } else {
            CAPACITY
        };
        let a = RunAggregate { days: StrMap::new(), folded: 0, capacity };
        assert(a@ =~= Map::<(Seq<char>, Seq<char>), Tally>::empty());
        a
    }

    /// The most records that this aggregate counts.
    pub fn records_capacity(&self) -> (n: u64)
        ensures
            n == self.capacity(),
    {
        self.capacity
    }

    /// The number of records counted so far, merge commits included.
    pub fn records_counted(&self) -> (n: u64)
        ensures
            n == self.folded(),
    {
        self.folded
    }

    /// The number of dates that have an entry.
    pub fn day_count(&self) -> (n: usize)
        ensures
            n == self.dates().len(),
    {
        self.days.len()
    }

    /// The date at position `i`.
    pub fn date_at(&self, i: usize) -> (d: &String)
        requires
            i < self.dates().len(),
        ensures
            d@ == self.dates()[i as int],
    {
        self.days.key_at(i)
    }

    /// The number of authors with an entry on the date at position `i`.
    pub fn author_count(&self, i: usize) -> (n: usize)
        requires
            i < self.dates().len(),
        ensures
            n == self.authors(i as int).len(),
    {
        self.days.value_at(i).len()
    }

    /// The author at position `j` of the date at position `i`.
    pub fn author_at(&self, i: usize, j: usize) -> (a: &String)
        requires
            i < self.dates().len(),
            j < self.authors(i as int).len(),
        ensures
            a@ == self.authors(i as int)[j as int],
    {
        self.days.value_at(i).key_at(j)
    }

    /// The entry at position `j` of the date at position `i`.
    pub fn commits_at(&self, i: usize, j: usize) -> (c: Commits)
        requires
            i < self.dates().len(),
            j < self.authors(i as int).len(),
        ensures
            c == self.entries(i as int)[j as int],
    {
        *self.days.value_at(i).value_at(j)
    }

    /// The entry of `author` on `date`.
    pub fn get(&self, date: &str, author: &str) -> (r: Option<Commits>)
        requires
            self.wf(),
        ensures
            r is Some <==> self@.contains_key((date@, author@)),
            r matches Some(c) ==> c.tally() == self@[(date@, author@)],
    {
        match self.days.get(date) {
            None => None,
            Some(day) => {
                proof {
                    let i = self.days.keys().index_of(date@);
                    self.days.lemma_entry(i);
                }
                match day.get(author) {
                    None => None,
                    Some(c) => Some(*c),
                }
            },
        }
    }

    /// Adds `c` to the entry of `author` on `date`, which is created where
    /// absent.
    fn credit(&mut self, date: String, author: String, c: Commits)
        requires
            old(self).shape(),
            fits(counted(old(self)@, (date@, author@)).plus(c.tally())),
        ensures
            final(self).shape(),
            final(self).folded == old(self).folded,
            final(self).capacity == old(self).capacity,
            final(self)@ == add_entry(old(self)@, (date@, author@), c.tally()),
    {
        let ghost before = *self;
        let ghost k = (date@, author@);
        let (i, found) = self.days.find(date.as_str());
        if found {
            proof {
                before.days.lemma_entry(i as int);
            }
            let day = self.days.value_mut(i);
            let ghost day0 = *day;
            let (j, present) = day.find(author.as_str());
            if present {
                proof {
                    day0.lemma_entry(j as int);
                }
                let slot = day.value_mut(j);
                slot.times = slot.times + c.times;
                slot.additions = slot.additions + c.additions;
                slot.deletions = slot.deletions + c.deletions;
                proof {
                    day0.lemma_value_changed(day, j as int);
                }
            } else {
                day.insert_at(j, author, c);
            }
            let ghost day1 = *day;
            proof {
                before.days.lemma_value_changed(&self.days, i as int);
                assert(self.days@ == before.days@.insert(date@, day1));
                assert(day1@ == day0@.insert(author@, Commits {
                    times: (counted(before@, k).times + c.times) as u64,
                    additions: (counted(before@, k).additions + c.additions) as u64,
                    deletions: (counted(before@, k).deletions + c.deletions) as u64,
                }));
                assert forall|x: int| 0 <= x < self.days.values().len() implies (
                #[trigger] self.days.values()[x]).wf() && self.days.values()[x].keys().len() > 0 by {
                    if x != i {
                        assert(self.days.values()[x] == before.days.values()[x]);
                    }
                }
                assert(self@ =~= add_entry(before@, k, c.tally()));
            }
        } else {
            let mut day: StrMap<Commits> = StrMap::new();
            day.insert_at(0, author, c);
            let ghost day1 = day;
            self.days.insert_at(i, date, day);
            proof {
                assert forall|x: int| 0 <= x < self.days.values().len() implies (
                #[trigger] self.days.values()[x]).wf() && self.days.values()[x].keys().len() > 0 by {
                    if x < i {
                        assert(self.days.values()[x] == before.days.values()[x]);
                    } else if x > i {
                        assert(self.days.values()[x] == before.days.values()[x - 1]);
                    }
                }
                assert(self@ =~= add_entry(before@, k, c.tally()));
            }
        }
    }

    /// Counts one record: a commit that is no merge adds one to the count of
    /// its date and author, and its added and deleted lines to the totals.
    pub fn count(&mut self, record: &Record)
        requires
            old(self).wf(),
            old(self).folded() < old(self).capacity(),
        ensures
            final(self).wf(),
            final(self)@ == add_record(old(self)@, record@),
            final(self).folded() == old(self).folded() + 1,
            final(self).capacity() == old(self).capacity(),
    {
        let ghost before = *self;
        if !record.is_merge() {
            let c = Commits {
                times: 1,
                additions: record.stats.additions as u64,
                deletions: record.stats.deletions as u64,
            };
            assert(c.tally() == contribution(record@));
            proof {
                let k = key_of(record@);
                if before@.contains_key(k) {
                    assert(within(before@[k], before.folded as nat));
                }
            }
            self.credit(record.date(), record.author_email.clone(), c);
            proof {
                let k = key_of(record@);
                assert forall|x: (Seq<char>, Seq<char>)| #[trigger] self@.contains_key(x) implies within(
                    self@[x],
                    (before.folded + 1) as nat,
                ) by {
                    if x != k {
                        assert(before@.contains_key(x));
                        assert(within(before@[x], before.folded as nat));
                    } else if before@.contains_key(k) {
                        assert(within(before@[k], before.folded as nat));
                    }
                }
            }
        } else {
            proof {
                assert forall|x: (Seq<char>, Seq<char>)| #[trigger] self@.contains_key(x) implies within(
                    self@[x],
                    (before.folded + 1) as nat,
                ) by {
                    assert(within(before@[x], before.folded as nat));
                }
            }
        }
        let ghost counted = self@;
        self.folded = self.folded + 1;
        proof {
            assert(self@ =~= counted);
            assert forall|x: (Seq<char>, Seq<char>)| #[trigger] self@.contains_key(x) implies within(
                self@[x],
                self.folded as nat,
            ) by {
                assert(counted.contains_key(x));
            }
        }
    }

    /// Folds a batch of records into the aggregate: each commit that is no
    /// merge adds one to the count of its date and author, and its added and
    /// deleted lines to the totals. The batch is taken whole or not at all:
    /// it is refused, and the aggregate left as it was, where it would bring
    /// the number of records counted above the aggregate's capacity.
    pub fn fold(&mut self, batch: &Vec<Record>) -> (r: Result<(), AggregateFull>)
        requires
            old(self).wf(),
        ensures
            final(self).wf(),
            final(self).capacity() == old(self).capacity(),
            r is Ok <==> old(self).folded() + batch.len() <= old(self).capacity(),
            r is Ok ==> final(self)@ == fold(old(self)@, batch.deep_view()),
            r is Ok ==> final(self).folded() == old(self).folded() + batch.len(),
            r is Err ==> *final(self) == *old(self),
    {
        if batch.len() as u64 > self.capacity - self.folded {
            return Err(AggregateFull);
        }
        let ghost records = batch.deep_view();
        let mut i: usize = 0;
        assert(records.take(0) =~= Seq::empty());
        while i < batch.len()
            invariant
                i <= batch.len(),
                records == batch.deep_view(),
                old(self).folded + batch.len() <= old(self).capacity,
                self.capacity == old(self).capacity,
                self.wf(),
                self.folded == old(self).folded + i,
                self@ == fold(old(self)@, records.take(i as int)),
            decreases batch.len() - i,
        {
            proof {
                assert(records.take(i + 1).drop_last() =~= records.take(i as int));
                assert(records.take(i + 1).last() == batch[i as int]@);
            }
            self.count(&batch[i]);
            i += 1;
        }
        assert(records.take(batch.len() as int) =~= records);
        Ok(())
    }

    /// Merges another aggregate into this one: each entry of `other` is added
    /// to the entry of the same date and author. `other` is taken whole or
    /// not at all: it is refused, and the aggregate left as it was, where the
    /// two together count more records than this aggregate has capacity for.
    pub fn merge(&mut self, other: &RunAggregate) -> (r: Result<(), AggregateFull>)
        requires
            old(self).wf(),
            other.wf(),
        ensures
            final(self).wf(),
            final(self).capacity() == old(self).capacity(),
            r is Ok <==> old(self).folded() + other.folded() <= old(self).capacity(),
            r is Ok ==> final(self)@ == merge(old(self)@, other@),
            r is Ok ==> final(self).folded() == old(self).folded() + other.folded(),
            r is Err ==> *final(self) == *old(self),
    {
        if other.folded > self.capacity - self.folded {
            return Err(AggregateFull);
        }
        let ghost start = *self;
        proof {
            other.lemma_part_ends();
            lemma_merge_empty(self@);
        }
        let mut i: usize = 0;
        while i < other.days.len()
            invariant
                i <= other.days.keys().len(),
                other.wf(),
                start.wf(),
                start.folded + other.folded <= start.capacity,
                self.shape(),
                self.folded == start.folded,
                self.capacity == start.capacity,
                self@ == merge(start@, other.part(i as int, 0)),
            decreases other.days.keys().len() - i,
        {
            let day = other.days.value_at(i);
            let mut j: usize = 0;
            while j < day.len()
                invariant
                    i < other.days.keys().len(),
                    j <= day.keys().len(),
                    *day == other.days.values()[i as int],
                    other.wf(),
                    start.wf(),
                    start.folded + other.folded <= start.capacity,
                    self.shape(),
                    self.folded == start.folded,
                    self.capacity == start.capacity,
                    self@ == merge(start@, other.part(i as int, j as int)),
                decreases day.keys().len() - j,
            {
                let c = *day.value_at(j);
                proof {
                    let k = (other.dates()[i as int], other.authors(i as int)[j as int]);
                    other.lemma_part_step(i as int, j as int);
                    other.lemma_walk(i as int, j as int);
                    assert(within(other@[k], other.folded as nat));
                    if start@.contains_key(k) {
                        assert(within(start@[k], start.folded as nat));
                    }
                    lemma_merge_insert(start@, other.part(i as int, j as int), k, c.tally());
                }
                self.credit(other.days.key_at(i).clone(), day.key_at(j).clone(), c);
                j += 1;
            }
            proof {
                other.lemma_part_next_day(i as int);
            }
            i += 1;
        }
        self.folded = self.folded + other.folded;
        proof {
            assert forall|k: (Seq<char>, Seq<char>)| #[trigger] self@.contains_key(k) implies within(
                self@[k],
                self.folded as nat,
            ) by {
                if start@.contains_key(k) {
                    assert(within(start@[k], start.folded as nat));
                }
                if other@.contains_key(k) {
                    assert(within(other@[k], other.folded as nat));
                }
            }
        }
        Ok(())
    }
}

} // verus!
