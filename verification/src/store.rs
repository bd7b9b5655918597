//! Raw commit records on their way to durable storage: the row that stands
//! for one commit, and the staging area that holds each commit of a project
//! once, however often it is delivered.

use vstd::prelude::*;
use crate::config::ProjectId;
use crate::record::{Record, RecordView};
use crate::str_map::StrMap;
use crate::text::{ascending, decimal, decimal_string, join, joined};

verus! {

/// Number of columns of a stored row.
pub const COLUMNS: usize = 15;

/// One commit as it is stored: the record's fields, flat, with the project
/// that it belongs to.
#[derive(Clone, Debug)]
pub struct CommitLog {
    pub project_id: u32,
    pub full_id: String,
    pub short_id: String,
    pub author_name: String,
    pub author_email: String,
    pub authored_date: String,
    pub committer_name: String,
    pub committer_email: String,
    pub committed_date: String,
    pub created_at: String,
    pub title: String,
    pub message: String,
    pub parent_ids: Vec<String>,
    pub additions: u32,
    pub deletions: u32,
}

/// What a `CommitLog` holds, as plain values.
pub struct CommitLogView {
    pub project_id: u32,
    pub full_id: Seq<char>,
    pub short_id: Seq<char>,
    pub author_name: Seq<char>,
    pub author_email: Seq<char>,
    pub authored_date: Seq<char>,
    pub committer_name: Seq<char>,
    pub committer_email: Seq<char>,
    pub committed_date: Seq<char>,
    pub created_at: Seq<char>,
    pub title: Seq<char>,
    pub message: Seq<char>,
    pub parent_ids: Seq<Seq<char>>,
    pub additions: u32,
    pub deletions: u32,
}

impl View for CommitLog {
    type V = CommitLogView;

    open spec fn view(&self) -> CommitLogView {
        CommitLogView {
            project_id: self.project_id,
            full_id: self.full_id@,
            short_id: self.short_id@,
            author_name: self.author_name@,
            author_email: self.author_email@,
            authored_date: self.authored_date@,
            committer_name: self.committer_name@,
            committer_email: self.committer_email@,
            committed_date: self.committed_date@,
            created_at: self.created_at@,
            title: self.title@,
            message: self.message@,
            parent_ids: self.parent_ids.deep_view(),
            additions: self.additions,
            deletions: self.deletions,
        }
    }
}

impl DeepView for CommitLog {
    type V = CommitLogView;

    open spec fn deep_view(&self) -> CommitLogView {
        self@
    }
}

/// The row that stands for record `r` of project `id`.
pub open spec fn row_of(id: u32, r: RecordView) -> CommitLogView {
    CommitLogView {
        project_id: id,
        full_id: r.full_id,
        short_id: r.short_id,
        author_name: r.author_name,
        author_email: r.author_email,
        authored_date: r.authored_date,
        committer_name: r.committer_name,
        committer_email: r.committer_email,
        committed_date: r.committed_date,
        created_at: r.created_at,
        title: r.title,
        message: r.message,
        parent_ids: r.parent_ids,
        additions: r.stats.additions,
        deletions: r.stats.deletions,
    }
}

/// The values of a row's columns, in the order of the columns: numbers in
/// decimal notation, the parents' identifiers separated by commas.
pub open spec fn column_values(row: CommitLogView) -> Seq<Seq<char>> {
    seq![
        decimal(row.project_id as nat),
        row.full_id,
        row.short_id,
        row.author_name,
        row.author_email,
        row.authored_date,
        row.committer_name,
        row.committer_email,
        row.committed_date,
        row.created_at,
        row.title,
        row.message,
        joined(row.parent_ids, ","@),
        decimal(row.additions as nat),
        decimal(row.deletions as nat),
    ]
}

impl CommitLog {
    /// The row that stands for `record` of project `id`.
    pub fn from(id: u32, record: Record) -> (row: CommitLog)
        ensures
            row@ == row_of(id, record@),
    {
        CommitLog {
            project_id: id,
            full_id: record.full_id,
            short_id: record.short_id,
            author_name: record.author_name,
            author_email: record.author_email,
            authored_date: record.authored_date,
            committer_name: record.committer_name,
            committer_email: record.committer_email,
            committed_date: record.committed_date,
            created_at: record.created_at,
            title: record.title,
            message: record.message,
            parent_ids: record.parent_ids,
            additions: record.stats.additions,
            deletions: record.stats.deletions,
        }
    }

    /// The values to bind to the columns of an insert statement, in the order
    /// of the columns.
    pub fn values(&self) -> (v: Vec<String>)
        ensures
            v@.len() == COLUMNS,
            v.deep_view() == column_values(self@),
    {
        let mut v: Vec<String> = Vec::new();
        v.push(decimal_string(self.project_id as u64));
        v.push(self.full_id.clone());
        v.push(self.short_id.clone());
        v.push(self.author_name.clone());
        v.push(self.author_email.clone());
        v.push(self.authored_date.clone());
        v.push(self.committer_name.clone());
        v.push(self.committer_email.clone());
        v.push(self.committed_date.clone());
        v.push(self.created_at.clone());
        v.push(self.title.clone());
        v.push(self.message.clone());
        let parents = join(&self.parent_ids, ",");
        proof {
            assert(crate::text::views(self.parent_ids@) =~= self.parent_ids.deep_view());
        }
        v.push(parents);
        v.push(decimal_string(self.additions as u64));
        v.push(decimal_string(self.deletions as u64));
        assert(v.deep_view() =~= column_values(self@));
        v
    }
}

/// The stored records after `r` was persisted: `r` is kept where no record
/// with its identifier is stored yet; else nothing changes.
pub open spec fn persisted(m: Map<Seq<char>, RecordView>, r: RecordView) -> Map<Seq<char>, RecordView> {
    if m.contains_key(r.full_id) {
        m
    } else {
        m.insert(r.full_id, r)
    }
}

/// The stored records after the records of `batch` were persisted in order.
pub open spec fn persisted_all(m: Map<Seq<char>, RecordView>, batch: Seq<RecordView>) -> Map<
    Seq<char>,
    RecordView,
>
    decreases batch.len(),
{
    if batch.len() == 0 {
        m
    } else {
        persisted(persisted_all(m, batch.drop_last()), batch.last())
    }
}

/// Persisting a record a second time changes nothing: there is still one
/// stored record with its identifier, and that record is as it was.
pub proof fn law_persist_idempotent(m: Map<Seq<char>, RecordView>, r: RecordView)
    ensures
        persisted(m, r).contains_key(r.full_id),
        persisted(persisted(m, r), r) == persisted(m, r),
        m.contains_key(r.full_id) ==> persisted(m, r)[r.full_id] == m[r.full_id],
        !m.contains_key(r.full_id) ==> persisted(m, r)[r.full_id] == r,
        forall|id: Seq<char>| id != r.full_id ==> (persisted(m, r).contains_key(id) <==> m.contains_key(id)),
{
}

/// Persisting a batch leaves what is stored under `id` as it is.
proof fn lemma_persist_keeps(m: Map<Seq<char>, RecordView>, batch: Seq<RecordView>, id: Seq<char>)
    requires
        m.contains_key(id),
    ensures
        persisted_all(m, batch).contains_key(id),
        persisted_all(m, batch)[id] == m[id],
    decreases batch.len(),
{
    if batch.len() > 0 {
        lemma_persist_keeps(m, batch.drop_last(), id);
    }
}

/// Persisting never drops or alters a stored record.
pub proof fn law_persist_keeps(m: Map<Seq<char>, RecordView>, batch: Seq<RecordView>)
    ensures
        forall|id: Seq<char>| #[trigger]
            m.contains_key(id) ==> persisted_all(m, batch).contains_key(id) && persisted_all(m, batch)[id]
                == m[id],
{
    assert forall|id: Seq<char>| #[trigger] m.contains_key(id) implies persisted_all(
        m,
        batch,
    ).contains_key(id) && persisted_all(m, batch)[id] == m[id] by {
        lemma_persist_keeps(m, batch, id);
    }
}

/// Persisting a batch stores at most one record more for each record of the
/// batch.
pub proof fn lemma_persist_size(m: Map<Seq<char>, RecordView>, batch: Seq<RecordView>)
    requires
        m.dom().finite(),
    ensures
        persisted_all(m, batch).dom().finite(),
        persisted_all(m, batch).dom().len() <= m.dom().len() + batch.len(),
    decreases batch.len(),
{
    if batch.len() > 0 {
        lemma_persist_size(m, batch.drop_last());
    }
}

/// Persisting a batch a second time changes nothing.
pub proof fn law_persist_all_idempotent(m: Map<Seq<char>, RecordView>, batch: Seq<RecordView>)
    ensures
        persisted_all(persisted_all(m, batch), batch) == persisted_all(m, batch),
{
    let done = persisted_all(m, batch);
    assert forall|i: int| 0 <= i < batch.len() implies done.contains_key(
        #[trigger] batch[i].full_id,
    ) by {
        lemma_persist_covers(m, batch, i);
    }
    lemma_persist_settled(done, batch);
}

/// Every record of a batch has a stored record with its identifier once the
/// batch was persisted.
pub proof fn lemma_persist_covers(m: Map<Seq<char>, RecordView>, batch: Seq<RecordView>, i: int)
    requires
        0 <= i < batch.len(),
    ensures
        persisted_all(m, batch).contains_key(batch[i].full_id),
    decreases batch.len(),
{
    if i < batch.len() - 1 {
        lemma_persist_covers(m, batch.drop_last(), i);
    }
}

/// Persisting records whose identifiers are all stored changes nothing.
pub proof fn lemma_persist_settled(done: Map<Seq<char>, RecordView>, batch: Seq<RecordView>)
    requires
        forall|i: int| 0 <= i < batch.len() ==> done.contains_key(#[trigger] batch[i].full_id),
    ensures
        persisted_all(done, batch) == done,
    decreases batch.len(),
{
    if batch.len() > 0 {
        assert forall|i: int| 0 <= i < batch.drop_last().len() implies done.contains_key(
            #[trigger] batch.drop_last()[i].full_id,
        ) by {
            assert(batch.drop_last()[i] == batch[i]);
        }
        lemma_persist_settled(done, batch.drop_last());
        assert(done.contains_key(batch[batch.len() - 1].full_id));
    }
}

/// Persisting two batches one after the other is persisting their
/// concatenation.
pub proof fn law_persist_concat(m: Map<Seq<char>, RecordView>, a: Seq<RecordView>, b: Seq<RecordView>)
    ensures
        persisted_all(persisted_all(m, a), b) == persisted_all(m, a + b),
    decreases b.len(),
{
    if b.len() == 0 {
        assert(a + b =~= a);
    } else {
        assert((a + b).drop_last() =~= a + b.drop_last());
        law_persist_concat(m, a, b.drop_last());
    }
}

/// The records of `batch` agree with one another and with what is stored:
/// records with the same identifier are the same record.
pub open spec fn agree(m: Map<Seq<char>, RecordView>, batch: Seq<RecordView>) -> bool {
    &&& forall|i: int, j: int|
        0 <= i < batch.len() && 0 <= j < batch.len() && (#[trigger] batch[i]).full_id == (
        #[trigger] batch[j]).full_id ==> batch[i] == batch[j]
    &&& forall|i: int|
        0 <= i < batch.len() && m.contains_key((#[trigger] batch[i]).full_id) ==> m[batch[i].full_id]
            == batch[i]
}

/// What is stored under `id` once a batch was persisted: what was stored
/// there before, else a record of the batch with that identifier, where
/// there is one.
proof fn lemma_persist_entry(m: Map<Seq<char>, RecordView>, batch: Seq<RecordView>, id: Seq<char>)
    ensures
        persisted_all(m, batch).contains_key(id) <==> m.contains_key(id) || exists|i: int|
            0 <= i < batch.len() && (#[trigger] batch[i]).full_id == id,
        m.contains_key(id) ==> persisted_all(m, batch)[id] == m[id],
        !m.contains_key(id) && persisted_all(m, batch).contains_key(id) ==> exists|i: int|
            0 <= i < batch.len() && (#[trigger] batch[i]).full_id == id && persisted_all(m, batch)[id]
                == batch[i],
    decreases batch.len(),
{
    if batch.len() > 0 {
        let init = batch.drop_last();
        let r = batch.last();
        lemma_persist_entry(m, init, id);
        if persisted_all(m, init).contains_key(id) {
            if !m.contains_key(id) {
                let i = choose|i: int|
                    0 <= i < init.len() && (#[trigger] init[i]).full_id == id && persisted_all(m, init)[id]
                        == init[i];
                assert(batch[i] == init[i]);
            }
        } else if r.full_id == id {
            assert(batch[batch.len() - 1].full_id == id);
        }
        if exists|i: int| 0 <= i < batch.len() && (#[trigger] batch[i]).full_id == id {
            let i = choose|i: int| 0 <= i < batch.len() && (#[trigger] batch[i]).full_id == id;
            if i < init.len() {
                assert(init[i].full_id == id);
            }
        }
    }
}

/// Where records with the same identifier are the same record, what is
/// stored does not depend on the order in which batches arrive.
pub proof fn law_persist_any_order(m: Map<Seq<char>, RecordView>, a: Seq<RecordView>, b: Seq<RecordView>)
    requires
        agree(m, a + b),
    ensures
        persisted_all(persisted_all(m, a), b) == persisted_all(persisted_all(m, b), a),
{
    law_persist_concat(m, a, b);
    law_persist_concat(m, b, a);
    let x = a + b;
    let y = b + a;
    let sx = persisted_all(m, x);
    let sy = persisted_all(m, y);
    assert forall|id: Seq<char>| sx.contains_key(id) == sy.contains_key(id) by {
        lemma_persist_entry(m, x, id);
        lemma_persist_entry(m, y, id);
        if exists|i: int| 0 <= i < x.len() && (#[trigger] x[i]).full_id == id {
            let i = choose|i: int| 0 <= i < x.len() && (#[trigger] x[i]).full_id == id;
            let j = if i < a.len() { i + b.len() } else { i - a.len() };
            assert(y[j] == x[i]);
        }
        if exists|i: int| 0 <= i < y.len() && (#[trigger] y[i]).full_id == id {
            let i = choose|i: int| 0 <= i < y.len() && (#[trigger] y[i]).full_id == id;
            let j = if i < b.len() { i + a.len() } else { i - b.len() };
            assert(x[j] == y[i]);
        }
    }
    assert forall|id: Seq<char>| #[trigger] sx.contains_key(id) implies sx[id] == sy[id] by {
        lemma_persist_entry(m, x, id);
        lemma_persist_entry(m, y, id);
        if !m.contains_key(id) {
            let i = choose|i: int|
                0 <= i < x.len() && (#[trigger] x[i]).full_id == id && persisted_all(m, x)[id] == x[i];
            let k = choose|k: int|
                0 <= k < y.len() && (#[trigger] y[k]).full_id == id && persisted_all(m, y)[id] == y[k];
            let j = if k < b.len() { k + a.len() } else { k - b.len() };
            assert(x[j] == y[k]);
            assert(x[i] == x[j]);
        }
    }
    assert(sx =~= sy);
}

/// `l` lists the records of `m`, each once.
pub open spec fn lists(l: Seq<RecordView>, m: Map<Seq<char>, RecordView>) -> bool {
    &&& forall|i: int|
        0 <= i < l.len() ==> m.contains_key((#[trigger] l[i]).full_id) && m[l[i].full_id] == l[i]
    &&& forall|i: int, j: int|
        0 <= i < j < l.len() ==> (#[trigger] l[i]).full_id != (#[trigger] l[j]).full_id
    &&& forall|id: Seq<char>| #[trigger]
        m.contains_key(id) ==> exists|i: int| 0 <= i < l.len() && (#[trigger] l[i]).full_id == id
}

/// Two listings of the same records hold the same records, in whatever
/// order.
pub proof fn lemma_lists_same(l1: Seq<RecordView>, l2: Seq<RecordView>, m: Map<Seq<char>, RecordView>)
    requires
        lists(l1, m),
        lists(l2, m),
    ensures
        l1.to_multiset() == l2.to_multiset(),
{
    l1.to_multiset_ensures();
    l2.to_multiset_ensures();
    assert(l1.no_duplicates());
    assert(l2.no_duplicates());
    l1.lemma_multiset_has_no_duplicates();
    l2.lemma_multiset_has_no_duplicates();
    assert forall|r: RecordView| l1.to_multiset().count(r) == l2.to_multiset().count(r) by {
        if l1.contains(r) {
            let i = choose|i: int| 0 <= i < l1.len() && l1[i] == r;
            assert(m.contains_key(l1[i].full_id));
            let j = choose|j: int| 0 <= j < l2.len() && (#[trigger] l2[j]).full_id == r.full_id;
            assert(l2[j] == r);
            assert(l2.contains(r));
        }
        if l2.contains(r) {
            let i = choose|i: int| 0 <= i < l2.len() && l2[i] == r;
            assert(m.contains_key(l2[i].full_id));
            let j = choose|j: int| 0 <= j < l1.len() && (#[trigger] l1[j]).full_id == r.full_id;
            assert(l1[j] == r);
            assert(l1.contains(r));
        }
    }
    assert(l1.to_multiset() =~= l2.to_multiset());
}

/// A listing with a new record at its end lists what is stored once that
/// record was persisted.
pub proof fn lemma_lists_persisted(l: Seq<RecordView>, m: Map<Seq<char>, RecordView>, r: RecordView)
    requires
        lists(l, m),
        !m.contains_key(r.full_id),
    ensures
        lists(l.push(r), persisted(m, r)),
{
    let l2 = l.push(r);
    let m2 = persisted(m, r);
    assert forall|i: int| 0 <= i < l2.len() implies m2.contains_key((#[trigger] l2[i]).full_id)
        && m2[l2[i].full_id] == l2[i] by {
        if i < l.len() {
            assert(l2[i] == l[i]);
        }
    }
    assert forall|i: int, j: int| 0 <= i < j < l2.len() implies (#[trigger] l2[i]).full_id != (
    #[trigger] l2[j]).full_id by {
        assert(l2[i] == l[i]);
        if j < l.len() {
            assert(l2[j] == l[j]);
        }
    }
    assert forall|id: Seq<char>| #[trigger] m2.contains_key(id) implies exists|i: int|
        0 <= i < l2.len() && (#[trigger] l2[i]).full_id == id by {
        if id == r.full_id {
            assert(l2[l.len() as int].full_id == id);
        } else {
            let i = choose|i: int| 0 <= i < l.len() && (#[trigger] l[i]).full_id == id;
            assert(l2[i].full_id == id);
        }
    }
}

/// The records of one project that await storage, each identifier once, in
/// ascending order of identifier.
#[derive(Clone, Debug)]
pub struct CommitStore {
    project: ProjectId,
    records: StrMap<Record>,
}

impl CommitStore {
    /// The project whose records these are.
    pub closed spec fn project(&self) -> ProjectId {
        self.project
    }

    /// The identifiers of the stored records, ascending.
    pub closed spec fn ids(&self) -> Seq<Seq<char>> {
        self.records.keys()
    }

    /// The stored records, in ascending order of identifier.
    pub closed spec fn listed(&self) -> Seq<RecordView> {
        Seq::new(self.records.values().len(), |i: int| self.records.values()[i]@)
    }

    /// The stored records by identifier.
    pub closed spec fn view(&self) -> Map<Seq<char>, RecordView> {
        Map::new(|id: Seq<char>| self.records@.contains_key(id), |id: Seq<char>| self.records@[id]@)
    }

    /// Each record is stored under its own identifier, and no identifier
    /// twice.
    pub closed spec fn wf(&self) -> bool {
        &&& self.records.wf()
        &&& forall|i: int|
            0 <= i < self.records.keys().len() ==> (#[trigger] self.records.values()[i])@.full_id
                == self.records.keys()[i]
    }

    /// How the listing relates to the map: it lists every stored record
    /// once.
    pub proof fn lemma_listed(&self)
        requires
            self.wf(),
        ensures
            self.ids().len() == self.listed().len(),
            self@.dom().finite(),
            self@.dom().len() == self.listed().len(),
            forall|i: int|
                0 <= i < self.listed().len() ==> self@.contains_key(#[trigger] self.ids()[i])
                    && self@[self.ids()[i]] == self.listed()[i] && self.listed()[i].full_id
                    == self.ids()[i],
            ascending(self.ids()),
            lists(self.listed(), self@),
    {
        self.records.lemma_dom();
        assert forall|i: int| 0 <= i < self.listed().len() implies self@.contains_key(
            (#[trigger] self.listed()[i]).full_id,
        ) && self@[self.listed()[i].full_id] == self.listed()[i] by {
            self.records.lemma_entry(i);
        }
        assert forall|i: int, j: int| 0 <= i < j < self.listed().len() implies (
        #[trigger] self.listed()[i]).full_id != (#[trigger] self.listed()[j]).full_id by {
            self.records.lemma_entry(i);
            self.records.lemma_entry(j);
        }
        assert forall|id: Seq<char>| #[trigger] self@.contains_key(id) implies exists|i: int|
            0 <= i < self.listed().len() && (#[trigger] self.listed()[i]).full_id == id by {
            let i = self.records.keys().index_of(id);
            self.records.lemma_entry(i);
            assert(self.listed()[i].full_id == id);
        }
        assert(self@.dom() =~= self.records@.dom());
        assert forall|i: int| 0 <= i < self.listed().len() implies self@.contains_key(
            #[trigger] self.ids()[i],
        ) && self@[self.ids()[i]] == self.listed()[i] && self.listed()[i].full_id
            == self.ids()[i] by {
            self.records.lemma_entry(i);
        }
    }

    /// An empty store for the records of `project`.
    pub fn new(project: ProjectId) -> (s: Self)
        ensures
            s.wf(),
            s.project() == project,
            s@ == Map::<Seq<char>, RecordView>::empty(),
            s.listed().len() == 0,
    {
        let s = CommitStore { project, records: StrMap::new() };
        assert(s@ =~= Map::<Seq<char>, RecordView>::empty());
        s
    }

    /// The number of stored records.
    pub fn len(&self) -> (n: usize)
        ensures
            n == self.listed().len(),
    {
        self.records.len()
    }

    /// Whether a record with identifier `full_id` is stored.
    pub fn contains(&self, full_id: &str) -> (b: bool)
        requires
            self.wf(),
        ensures
            b == self@.contains_key(full_id@),
    {
        self.records.contains_key(full_id)
    }

    /// Persists `record`: it is kept where no record with its identifier is
    /// stored yet, which the result tells; else nothing changes.
    pub fn persist(&mut self, record: Record) -> (kept: bool)
        requires
            old(self).wf(),
        ensures
            final(self).wf(),
            final(self).project() == old(self).project(),
            kept == !old(self)@.contains_key(record@.full_id),
            final(self)@ == persisted(old(self)@, record@),
            final(self).listed().len() == old(self).listed().len() + if kept { 1int } else { 0 },
            !kept ==> final(self).listed() == old(self).listed(),
            kept ==> exists|i: int|
                0 <= i <= old(self).listed().len() && final(self).listed() == #[trigger] old(
                    self,
                ).listed().insert(i, record@),
    {
        let (i, found) = self.records.find(record.full_id.as_str());
        if found {
            false
        } else {
            let ghost before = *self;
            let key = record.full_id.clone();
            self.records.insert_at(i, key, record);
            proof {
                assert forall|x: int| 0 <= x < self.records.keys().len() implies (
                #[trigger] self.records.values()[x])@.full_id == self.records.keys()[x] by {
                    if x < i {
                        assert(self.records.values()[x] == before.records.values()[x]);
                    } else if x > i {
                        assert(self.records.values()[x] == before.records.values()[x - 1]);
                    }
                }
                assert(self@ =~= persisted(before@, record@));
                assert(self.listed() =~= before.listed().insert(i as int, record@));
            }
            true
        }
    }

    /// The stored record at position `i` of the listing.
    pub fn record_at(&self, i: usize) -> (r: &Record)
        requires
            self.wf(),
            i < self.listed().len(),
        ensures
            r@ == self.listed()[i as int],
    {
        self.records.value_at(i)
    }

    /// The rows to store, one for each stored record, in ascending order of
    /// identifier.
    pub fn rows(&self) -> (rows: Vec<CommitLog>)
        requires
            self.wf(),
        ensures
            rows@.len() == self.listed().len(),
            forall|i: int|
                0 <= i < rows@.len() ==> (#[trigger] rows@[i])@ == row_of(
                    self.project().0,
                    self.listed()[i],
                ),
    {
        let mut rows: Vec<CommitLog> = Vec::new();
        let mut i: usize = 0;
        while i < self.records.len()
            invariant
                i <= self.records.keys().len(),
                self.records.keys().len() == self.records.values().len(),
                rows@.len() == i,
                forall|j: int|
                    0 <= j < i ==> (#[trigger] rows@[j])@ == row_of(self.project.0, self.listed()[j]),
            decreases self.records.keys().len() - i,
        {
            let record = self.records.value_at(i).duplicate();
            rows.push(CommitLog::from(self.project.0, record));
            i += 1;
        }
        rows
    }
}

} // verus!
