//! The run of one project, as a state machine: it is probed for its number
//! of pages, its pages are started one by one and answered in any order, and
//! what arrives is stored and folded until the project is done or has failed.

use vstd::prelude::*;
use crate::aggregate::{RunAggregate, CAPACITY};
use crate::config::ProjectId;
use crate::error::{FetchError, ProjectError};
use crate::probe::UNAUTHORIZED;
use crate::record::{Record, RecordView};
use crate::store::{agree, lemma_lists_persisted, lemma_lists_same, lists, persisted_all, CommitStore};
use crate::tally::{add_record, fold, law_fold_any_order, law_fold_inserted, Tally};

verus! {

/// Where a project stands in its run.
#[derive(Clone, Copy, Debug, PartialEq, Eq, Structural)]
pub enum Phase {
    /// Nothing was asked of the service yet.
    Idle,
    /// The probe is out.
    Probing,
    /// Pages remain to be started.
    Fetching,
    /// No page remains to be started; answers are still awaited.
    Aggregating,
    /// Every page arrived and was folded.
    Done,
    /// The probe or a page failed, and nothing is awaited any more.
    Failed,
}

/// What became of one page.
#[derive(Clone, Copy, Debug, PartialEq, Eq, Structural)]
pub enum PageState {
    /// Not asked for yet.
    Pending,
    /// Asked for; no answer yet.
    InFlight,
    /// Its records arrived and were folded.
    Folded,
    /// It failed, or its records were refused.
    Failed,
    /// Its answer came after the project was cancelled and was dropped.
    Discarded,
}

/// The number of pages in `pages` that are in flight.
pub open spec fn in_flight_of(pages: Seq<PageState>) -> nat
    decreases pages.len(),
{
    if pages.len() == 0 {
        0
    } else {
        in_flight_of(pages.drop_last()) + if pages.last() is InFlight {
            1nat
        } else {
            0nat
        }
    }
}

/// Changing the state of one page changes the number in flight by what that
/// page contributes.
pub proof fn lemma_in_flight_update(pages: Seq<PageState>, i: int, s: PageState)
    requires
        0 <= i < pages.len(),
    ensures
        in_flight_of(pages.update(i, s)) + (if pages[i] is InFlight {
            1nat
        } else {
            0nat
        }) == in_flight_of(pages) + (if s is InFlight {
            1nat
        } else {
            0nat
        }),
    decreases pages.len(),
{
    if i == pages.len() - 1 {
        assert(pages.update(i, s).drop_last() =~= pages.drop_last());
    } else {
        lemma_in_flight_update(pages.drop_last(), i, s);
        assert(pages.update(i, s).drop_last() =~= pages.drop_last().update(i, s));
    }
}

/// No more pages are in flight than there are pages, and none where no page
/// is in that state.
pub proof fn lemma_in_flight_bounds(pages: Seq<PageState>)
    ensures
        in_flight_of(pages) <= pages.len(),
        (forall|i: int| 0 <= i < pages.len() ==> !(#[trigger] pages[i] is InFlight)) ==> in_flight_of(pages)
            == 0,
        in_flight_of(pages) > 0 ==> exists|i: int| 0 <= i < pages.len() && #[trigger] pages[i] is InFlight,
    decreases pages.len(),
{
    if pages.len() > 0 {
        lemma_in_flight_bounds(pages.drop_last());
        if in_flight_of(pages) > 0 {
            if pages.last() is InFlight {
                assert(pages[pages.len() - 1] is InFlight);
            } else {
                let i = choose|i: int|
                    0 <= i < pages.drop_last().len() && #[trigger] pages.drop_last()[i] is InFlight;
                assert(pages[i] is InFlight);
            }
        }
        if forall|i: int| 0 <= i < pages.len() ==> !(#[trigger] pages[i] is InFlight) {
            assert forall|i: int| 0 <= i < pages.drop_last().len() implies !(
            #[trigger] pages.drop_last()[i] is InFlight) by {
                assert(pages.drop_last()[i] == pages[i]);
            }
        }
    }
}

/// The aggregate after a batch was absorbed: each record whose identifier is
/// not stored yet, and did not occur earlier in the batch, is counted.
pub open spec fn absorbed(
    stored: Map<Seq<char>, RecordView>,
    aggregate: Map<(Seq<char>, Seq<char>), Tally>,
    batch: Seq<RecordView>,
) -> Map<(Seq<char>, Seq<char>), Tally>
    decreases batch.len(),
{
    if batch.len() == 0 {
        aggregate
    } else {
        let before = absorbed(stored, aggregate, batch.drop_last());
        if persisted_all(stored, batch.drop_last()).contains_key(batch.last().full_id) {
            before
        } else {
            add_record(before, batch.last())
        }
    }
}

/// A page that is delivered a second time adds nothing: every one of its
/// records is stored already, so none is counted again.
pub proof fn law_redelivery_adds_nothing(
    stored: Map<Seq<char>, RecordView>,
    aggregate: Map<(Seq<char>, Seq<char>), Tally>,
    batch: Seq<RecordView>,
)
    ensures
        persisted_all(persisted_all(stored, batch), batch) == persisted_all(stored, batch),
        absorbed(persisted_all(stored, batch), absorbed(stored, aggregate, batch), batch) == absorbed(
            stored,
            aggregate,
            batch,
        ),
{
    let done = persisted_all(stored, batch);
    crate::store::law_persist_all_idempotent(stored, batch);
    assert forall|i: int| 0 <= i < batch.len() implies done.contains_key(
        #[trigger] batch[i].full_id,
    ) by {
        crate::store::lemma_persist_covers(stored, batch, i);
    }
    lemma_absorb_settled(done, absorbed(stored, aggregate, batch), batch);
}

/// Absorbing records whose identifiers are all stored changes nothing.
proof fn lemma_absorb_settled(
    done: Map<Seq<char>, RecordView>,
    aggregate: Map<(Seq<char>, Seq<char>), Tally>,
    batch: Seq<RecordView>,
)
    requires
        forall|i: int| 0 <= i < batch.len() ==> done.contains_key(#[trigger] batch[i].full_id),
    ensures
        absorbed(done, aggregate, batch) == aggregate,
    decreases batch.len(),
{
    if batch.len() > 0 {
        assert forall|i: int| 0 <= i < batch.drop_last().len() implies done.contains_key(
            #[trigger] batch.drop_last()[i].full_id,
        ) by {
            assert(batch.drop_last()[i] == batch[i]);
        }
        lemma_absorb_settled(done, aggregate, batch.drop_last());
        crate::store::lemma_persist_settled(done, batch.drop_last());
        assert(done.contains_key(batch[batch.len() - 1].full_id));
    }
}

/// The failure to report when `e` comes on top of `failure`: the earlier one
/// stands.
pub open spec fn first_failure(failure: Option<ProjectError>, e: ProjectError) -> Option<ProjectError> {
    if failure is Some {
        failure
    } else {
        Some(e)
    }
}

/// The state of one project's run.
pub struct RunModel {
    /// The project that is run.
    pub project: ProjectId,
    /// Where the project stands.
    pub phase: Phase,
    /// The state of each page; page `p` stands at position `p - 1`.
    pub pages: Seq<PageState>,
    /// The number of pages that were started.
    pub started: nat,
    /// The service refused the credential: no further page is started.
    pub cancelled: bool,
    /// Why the project fails, where it does.
    pub failure: Option<ProjectError>,
    /// The records received, by identifier.
    pub stored: Map<Seq<char>, RecordView>,
    /// The churn totals of the records received.
    pub aggregate: Map<(Seq<char>, Seq<char>), Tally>,
    /// The most records that the project may hold: no more than `CAPACITY`.
    pub capacity: nat,
}

impl RunModel {
    /// A run of which nothing has happened yet.
    pub open spec fn idle(project: ProjectId, capacity: nat) -> RunModel {
        RunModel {
            capacity,
            project,
            phase: Phase::Idle,
            pages: Seq::empty(),
            started: 0,
            cancelled: false,
            failure: None,
            stored: Map::empty(),
            aggregate: Map::empty(),
        }
    }

    /// The number of pages in flight.
    pub open spec fn in_flight(self) -> nat {
        in_flight_of(self.pages)
    }

    /// Whether a page can be started: one remains, and the run is not
    /// cancelled.
    pub open spec fn startable(self) -> bool {
        !self.cancelled && self.started < self.pages.len()
    }

    /// The phase of a probed run, which its pages and its failure determine.
    pub open spec fn settled_phase(self) -> Phase {
        if self.startable() {
            Phase::Fetching
        } else if self.in_flight() > 0 {
            Phase::Aggregating
        } else if self.failure is Some {
            Phase::Failed
        } else {
            Phase::Done
        }
    }

    /// The run in the phase that its pages and its failure determine.
    pub open spec fn settled(self) -> RunModel {
        RunModel { phase: self.settled_phase(), ..self }
    }

    /// Whether the run has ended.
    pub open spec fn finished(self) -> bool {
        self.phase is Done || self.phase is Failed
    }

    /// The pages that were started are the first ones, and all others are
    /// pending; no more is stored than the project has capacity for; the
    /// phase is the one that the pages and the failure determine; a run is
    /// cancelled only as unauthorized; a failed page has left a failure, and
    /// only a cancelled run has dropped an answer.
    pub open spec fn wf(self) -> bool {
        &&& self.started <= self.pages.len() <= u16::MAX
        &&& forall|i: int|
            0 <= i < self.pages.len() ==> (#[trigger] self.pages[i] is Pending <==> i >= self.started)
        &&& self.stored.dom().finite()
        &&& self.stored.dom().len() <= self.capacity <= CAPACITY
        &&& (self.phase is Idle || self.phase is Probing) ==> self == RunModel {
            phase: self.phase,
            ..RunModel::idle(self.project, self.capacity)
        }
        &&& !(self.phase is Idle || self.phase is Probing) ==> self.phase == self.settled_phase()
        &&& self.cancelled ==> self.failure == Some(ProjectError::Unauthorized)
        &&& forall|i: int| 0 <= i < self.pages.len() && #[trigger] self.pages[i] is Failed ==> self.failure is Some
        &&& forall|i: int| 0 <= i < self.pages.len() && #[trigger] self.pages[i] is Discarded ==> self.cancelled
    }

    /// The aggregate counts the records received, each once: it is the fold
    /// of a listing of what is stored.
    pub open spec fn accounted(self) -> bool {
        exists|l: Seq<RecordView>| #[trigger] lists(l, self.stored) && self.aggregate == fold(Map::empty(), l)
    }

    /// The run after its probe was sent: an idle run is probing; any other
    /// is as it was.
    pub open spec fn begin_probe(self) -> RunModel {
        if self.phase is Idle {
            RunModel { phase: Phase::Probing, ..self }
        } else {
            self
        }
    }

    /// The run after its probe was answered. A number of pages makes so many
    /// pending pages; a failure fails the project, and a refused credential
    /// cancels it as well. A run that is not probing is as it was.
    pub open spec fn probed(self, outcome: Result<u16, ProjectError>) -> RunModel {
        if !(self.phase is Probing) {
            self
        } else {
            match outcome {
                Ok(n) => RunModel { pages: Seq::new(n as nat, |i: int| PageState::Pending), ..self }.settled(),
                Err(e) => RunModel {
                    phase: Phase::Failed,
                    cancelled: e is Unauthorized,
                    failure: Some(e),
                    ..self
                },
            }
        }
    }

    /// The run after its next page was started: the first pending page is in
    /// flight. A run that is not fetching is as it was.
    pub open spec fn start_page(self) -> RunModel {
        if !(self.phase is Fetching) {
            self
        } else {
            RunModel {
                pages: self.pages.update(self.started as int, PageState::InFlight),
                started: self.started + 1,
                ..self
            }.settled()
        }
    }

    /// Whether an answer for `page` is awaited.
    pub open spec fn accepts(self, page: u16) -> bool {
        1 <= page <= self.pages.len() && self.pages[page - 1] is InFlight
    }

    /// The run with `page` in state `s`.
    pub open spec fn with_page(self, page: u16, s: PageState) -> RunModel {
        RunModel { pages: self.pages.update(page - 1, s), ..self }
    }

    /// The run after `page` was answered. An answer that is not awaited
    /// changes nothing. One that comes after the run was cancelled is
    /// dropped. A refused credential fails the page and cancels the run; any
    /// other failure fails the page and, unless an earlier failure stands,
    /// becomes the project's. Records are stored and counted, each
    /// identifier once; where the project could come to hold more records
    /// with them than it has capacity for, the page fails instead and
    /// nothing of it is kept.
    pub open spec fn page_done(self, page: u16, result: Result<Seq<RecordView>, FetchError>) -> RunModel {
        if !self.accepts(page) {
            self
        } else if self.cancelled {
            self.with_page(page, PageState::Discarded).settled()
        } else {
            match result {
                Err(e) => if e is Unauthorized {
                    RunModel {
                        cancelled: true,
                        failure: Some(ProjectError::Unauthorized),
                        ..self.with_page(page, PageState::Failed)
                    }.settled()
                } else {
                    RunModel {
                        failure: first_failure(self.failure, e.spec_page_error()),
                        ..self.with_page(page, PageState::Failed)
                    }.settled()
                },
                Ok(batch) => if self.stored.dom().len() + batch.len() > self.capacity {
                    RunModel {
                        failure: first_failure(self.failure, ProjectError::AggregateFull),
                        ..self.with_page(page, PageState::Failed)
                    }.settled()
                } else {
                    RunModel {
                        stored: persisted_all(self.stored, batch),
                        aggregate: absorbed(self.stored, self.aggregate, batch),
                        ..self.with_page(page, PageState::Folded)
                    }.settled()
                },
            }
        }
    }
}

/// Something that happens to a run.
pub enum RunEvent {
    /// The probe was sent.
    BeginProbe,
    /// The probe was answered.
    Probed(Result<u16, ProjectError>),
    /// The next page was started.
    StartPage,
    /// A page was answered.
    PageDone(u16, Result<Seq<RecordView>, FetchError>),
}

impl RunModel {
    /// The run after `event`.
    pub open spec fn step(self, event: RunEvent) -> RunModel {
        match event {
            RunEvent::BeginProbe => self.begin_probe(),
            RunEvent::Probed(outcome) => self.probed(outcome),
            RunEvent::StartPage => self.start_page(),
            RunEvent::PageDone(page, result) => self.page_done(page, result),
        }
    }

    /// The run after `events`, in order.
    pub open spec fn replay(self, events: Seq<RunEvent>) -> RunModel
        decreases events.len(),
    {
        if events.len() == 0 {
            self
        } else {
            self.replay(events.drop_last()).step(events.last())
        }
    }

    /// The run was cancelled in state `at` and nothing but dropped answers
    /// has happened to it since.
    pub open spec fn stopped_at(self, at: RunModel) -> bool {
        &&& self.cancelled
        &&& self.failure == Some(ProjectError::Unauthorized)
        &&& self.started == at.started
        &&& self.pages.len() == at.pages.len()
        &&& self.stored == at.stored
        &&& self.aggregate == at.aggregate
        &&& self.in_flight() <= at.in_flight()
        &&& !(self.phase is Done)
        &&& !(self.phase is Fetching)
        &&& self.in_flight() == 0 ==> self.phase is Failed
    }
}

/// A batch is absorbed into an aggregate that counts what is stored: the
/// result counts what is stored then, listed by the sequence returned.
proof fn lemma_absorb_listed(
    stored: Map<Seq<char>, RecordView>,
    l: Seq<RecordView>,
    batch: Seq<RecordView>,
) -> (after: Seq<RecordView>)
    requires
        lists(l, stored),
    ensures
        lists(after, persisted_all(stored, batch)),
        absorbed(stored, fold(Map::empty(), l), batch) == fold(Map::empty(), after),
    decreases batch.len(),
{
    if batch.len() == 0 {
        l
    } else {
        let before = lemma_absorb_listed(stored, l, batch.drop_last());
        let r = batch.last();
        if persisted_all(stored, batch.drop_last()).contains_key(r.full_id) {
            before
        } else {
            lemma_lists_persisted(before, persisted_all(stored, batch.drop_last()), r);
            assert(before.push(r).drop_last() =~= before);
            before.push(r)
        }
    }
}

/// Whatever happens to a run leaves it well-formed, and its aggregate the
/// count of what is stored. Only the start of a page puts a page in flight,
/// and only one; the answer to a page that is awaited takes one out of
/// flight.
pub proof fn lemma_step(m: RunModel, event: RunEvent)
    requires
        m.wf(),
    ensures
        m.step(event).wf(),
        m.accounted() ==> m.step(event).accounted(),
        m.step(event).project == m.project,
        m.step(event).capacity == m.capacity,
        event is StartPage && m.phase is Fetching ==> m.step(event).in_flight() == m.in_flight() + 1,
        !(event is StartPage && m.phase is Fetching) ==> m.step(event).in_flight() <= m.in_flight(),
        event matches RunEvent::PageDone(page, _) ==> m.step(event).in_flight() + (if m.accepts(page) {
            1nat
        } else {
            0nat
        }) == m.in_flight(),
{
    match event {
        RunEvent::BeginProbe => {},
        RunEvent::Probed(outcome) => {
            if m.phase is Probing {
                lemma_in_flight_bounds(m.pages);
                lemma_in_flight_bounds(m.probed(outcome).pages);
            }
        },
        RunEvent::StartPage => {
            if m.phase is Fetching {
                lemma_in_flight_update(m.pages, m.started as int, PageState::InFlight);
            }
        },
        RunEvent::PageDone(page, result) => {
            if m.accepts(page) {
                let after = m.page_done(page, result);
                lemma_in_flight_update(m.pages, page - 1, after.pages[page - 1]);
                if let Ok(batch) = result {
                    crate::store::lemma_persist_size(m.stored, batch);
                    if m.accounted() {
                        let l = choose|l: Seq<RecordView>| #[trigger]
                            lists(l, m.stored) && m.aggregate == fold(Map::empty(), l);
                        let l2 = lemma_absorb_listed(m.stored, l, batch);
                        if after.stored != m.stored || after.aggregate != m.aggregate {
                            assert(lists(l2, after.stored));
                        }
                    }
                }
            }
        },
    }
}

/// Every state that a run can reach from a well-formed one is well-formed,
/// and in every state that it can reach from one whose aggregate counts what
/// is stored, the aggregate counts what is stored: each record received,
/// once.
pub proof fn law_run_stays_wf(m: RunModel, events: Seq<RunEvent>)
    requires
        m.wf(),
    ensures
        m.replay(events).wf(),
        m.accounted() ==> m.replay(events).accounted(),
    decreases events.len(),
{
    if events.len() > 0 {
        law_run_stays_wf(m, events.drop_last());
        lemma_step(m.replay(events.drop_last()), events.last());
    }
}

/// How far a phase is along the way of a run.
pub open spec fn rank(phase: Phase) -> int {
    match phase {
        Phase::Idle => 0,
        Phase::Probing => 1,
        Phase::Fetching => 2,
        Phase::Aggregating => 3,
        Phase::Done => 4,
        Phase::Failed => 4,
    }
}

/// A run only moves forward: from idle to probing, to fetching, to
/// aggregating, to done or failed. Once it is done or has failed nothing
/// changes it any more: there is no way back and no second try.
pub proof fn law_phases_advance(m: RunModel, event: RunEvent)
    requires
        m.wf(),
    ensures
        rank(m.phase) <= rank(m.step(event).phase),
        m.finished() ==> m.step(event) == m,
{
    lemma_step(m, event);
    lemma_in_flight_bounds(m.pages);
    match event {
        RunEvent::PageDone(page, result) => {
            if m.accepts(page) {
                assert(m.pages[page - 1] is InFlight);
            }
        },
        _ => {},
    }
}

/// Absorbing a batch removes no entry and lowers no count.
proof fn lemma_absorb_monotone(
    stored: Map<Seq<char>, RecordView>,
    aggregate: Map<(Seq<char>, Seq<char>), Tally>,
    batch: Seq<RecordView>,
    k: (Seq<char>, Seq<char>),
)
    requires
        aggregate.contains_key(k),
    ensures
        absorbed(stored, aggregate, batch).contains_key(k),
        aggregate[k].le(absorbed(stored, aggregate, batch)[k]),
    decreases batch.len(),
{
    if batch.len() > 0 {
        lemma_absorb_monotone(stored, aggregate, batch.drop_last(), k);
    }
}

/// Whatever happens to a run, no entry of its aggregate is removed and no
/// count is lowered; what was stored stays stored as it is.
pub proof fn law_run_never_loses(m: RunModel, event: RunEvent)
    requires
        m.wf(),
    ensures
        forall|k: (Seq<char>, Seq<char>)| #[trigger]
            m.aggregate.contains_key(k) ==> m.step(event).aggregate.contains_key(k) && m.aggregate[k].le(
                m.step(event).aggregate[k],
            ),
        forall|id: Seq<char>| #[trigger]
            m.stored.contains_key(id) ==> m.step(event).stored.contains_key(id) && m.step(event).stored[id]
                == m.stored[id],
{
    match event {
        RunEvent::PageDone(page, Ok(batch)) => {
            assert forall|k: (Seq<char>, Seq<char>)| #[trigger]
                m.aggregate.contains_key(k) implies m.step(event).aggregate.contains_key(k)
                && m.aggregate[k].le(m.step(event).aggregate[k]) by {
                lemma_absorb_monotone(m.stored, m.aggregate, batch, k);
            }
            crate::store::law_persist_keeps(m.stored, batch);
        },
        _ => {},
    }
}

/// Pages may be answered in either order. Where two pages are awaited and
/// both arrive with records, the run ends up in the same state whichever
/// arrives first: provided that records with the same identifier are the
/// same record, and that the project has capacity for both pages.
pub proof fn law_answers_commute(m: RunModel, p: u16, a: Seq<RecordView>, q: u16, b: Seq<RecordView>)
    requires
        m.wf(),
        m.accounted(),
        !m.cancelled,
        p != q,
        m.accepts(p),
        m.accepts(q),
        agree(m.stored, a + b),
        m.stored.dom().len() + a.len() + b.len() <= m.capacity,
    ensures
        m.page_done(p, Ok(a)).page_done(q, Ok(b)) == m.page_done(q, Ok(b)).page_done(p, Ok(a)),
{
    let first = m.page_done(p, Ok(a));
    let second = m.page_done(q, Ok(b));
    let pq = first.page_done(q, Ok(b));
    let qp = second.page_done(p, Ok(a));
    lemma_step(m, RunEvent::PageDone(p, Ok(a)));
    lemma_step(m, RunEvent::PageDone(q, Ok(b)));
    lemma_step(first, RunEvent::PageDone(q, Ok(b)));
    lemma_step(second, RunEvent::PageDone(p, Ok(a)));
    crate::store::lemma_persist_size(m.stored, a);
    crate::store::lemma_persist_size(m.stored, b);
    crate::store::law_persist_any_order(m.stored, a, b);
    assert(pq.stored == qp.stored);
    assert(pq.pages =~= qp.pages);
    let l1 = choose|l: Seq<RecordView>| #[trigger] lists(l, pq.stored) && pq.aggregate == fold(Map::empty(), l);
    let l2 = choose|l: Seq<RecordView>| #[trigger] lists(l, qp.stored) && qp.aggregate == fold(Map::empty(), l);
    lemma_lists_same(l1, l2, pq.stored);
    law_fold_any_order(Map::empty(), l1, l2);
}

/// A run that was stopped stays stopped, whatever happens to it.
proof fn lemma_stopped(at: RunModel, m: RunModel, event: RunEvent)
    requires
        m.wf(),
        m.stopped_at(at),
    ensures
        m.step(event).wf(),
        m.step(event).stopped_at(at),
{
    lemma_step(m, event);
}

/// Once the service has refused the credential for a page, no further page
/// of the project is started, whatever happens next: the pages that were
/// not started stay pending, answers that are still awaited are dropped
/// without touching what was stored or counted, and the project fails as
/// unauthorized as soon as nothing is in flight.
pub proof fn law_fail_fast(m: RunModel, page: u16, events: Seq<RunEvent>)
    requires
        m.wf(),
        m.accepts(page),
    ensures
        ({
            let refused = m.page_done(page, Err(FetchError::Unauthorized));
            let later = refused.replay(events);
            &&& refused.wf()
            &&& refused.stored == m.stored
            &&& refused.aggregate == m.aggregate
            &&& refused.started == m.started
            &&& later.wf()
            &&& later.stopped_at(refused)
            &&& forall|i: int| later.started <= i < later.pages.len() ==> later.pages[i] is Pending
        }),
    decreases events.len(),
{
    let refused = m.page_done(page, Err(FetchError::Unauthorized));
    lemma_step(m, RunEvent::PageDone(page, Err(FetchError::Unauthorized)));
    if events.len() > 0 {
        law_fail_fast(m, page, events.drop_last());
        lemma_stopped(refused, refused.replay(events.drop_last()), events.last());
    }
}

/// A probe that the service refuses fails the project at once: it has no
/// page, and none is ever started.
pub proof fn law_probe_refused(m: RunModel, events: Seq<RunEvent>)
    requires
        m.wf(),
        m.phase is Probing,
    ensures
        ({
            let refused = m.probed(Err(ProjectError::Unauthorized));
            let later = refused.replay(events);
            &&& later.wf()
            &&& later.phase is Failed
            &&& later.pages.len() == 0
            &&& later.failure == Some(ProjectError::Unauthorized)
        }),
    decreases events.len(),
{
    let refused = m.probed(Err(ProjectError::Unauthorized));
    lemma_step(m, RunEvent::Probed(Err(ProjectError::Unauthorized)));
    lemma_in_flight_bounds(refused.pages);
    if events.len() > 0 {
        law_probe_refused(m, events.drop_last());
        let before = refused.replay(events.drop_last());
        lemma_in_flight_bounds(before.pages);
        lemma_step(before, events.last());
    }
}

/// What an answer holds, as plain values.
pub open spec fn answer_view(result: Result<Vec<Record>, FetchError>) -> Result<Seq<RecordView>, FetchError> {
    match result {
        Ok(batch) => Ok(batch.deep_view()),
        Err(e) => Err(e),
    }
}

/// What the answer to a page request amounts to: a refused credential where
/// the status says so, whatever the body holds; else the records that the
/// body holds, or a failed parse where it holds none.
pub open spec fn spec_page_answer(status: u16, body: Result<Vec<Record>, String>) -> Result<
    Vec<Record>,
    FetchError,
> {
    if status == UNAUTHORIZED {
        Err(FetchError::Unauthorized)
    } else {
        match body {
            Ok(records) => Ok(records),
            Err(cause) => Err(FetchError::Parse(cause)),
        }
    }
}

/// What the answer to a page request amounts to.
pub fn page_answer(status: u16, body: Result<Vec<Record>, String>) -> (r: Result<Vec<Record>, FetchError>)
    ensures
        r == spec_page_answer(status, body),
{
    if status == UNAUTHORIZED {
        Err(FetchError::Unauthorized)
    } else {
        match body {
            Ok(records) => Ok(records),
            Err(cause) => Err(FetchError::Parse(cause)),
        }
    }
}

/// One project's run.
#[derive(Clone, Debug)]
pub struct ProjectRun {
    project: ProjectId,
    phase: Phase,
    pages: Vec<PageState>,
    started: usize,
    in_flight: usize,
    cancelled: bool,
    failure: Option<ProjectError>,
    store: CommitStore,
    aggregate: RunAggregate,
    capacity: u64,
}

impl ProjectRun {
    /// The state of the run.
    pub closed spec fn view(&self) -> RunModel {
        RunModel {
            project: self.project,
            phase: self.phase,
            pages: self.pages@,
            started: self.started as nat,
            cancelled: self.cancelled,
            failure: self.failure,
            stored: self.store@,
            aggregate: self.aggregate@,
            capacity: self.capacity as nat,
        }
    }

    /// The records received, in ascending order of identifier.
    pub closed spec fn listed(&self) -> Seq<RecordView> {
        self.store.listed()
    }

    /// The aggregate of the records received.
    pub closed spec fn totals(&self) -> RunAggregate {
        self.aggregate
    }

    /// The state is well-formed; the store and the aggregate are, and they
    /// hold the same records.
    pub closed spec fn wf(&self) -> bool {
        &&& self@.wf()
        &&& self.store.wf()
        &&& self.store.project() == self.project
        &&& self.aggregate.wf()
        &&& self.aggregate.folded() == self.store.listed().len()
        &&& self.aggregate.capacity() == self.capacity
        &&& self.aggregate@ == fold(Map::empty(), self.store.listed())
        &&& self.in_flight == in_flight_of(self.pages@)
    }

    /// What `wf` says of the state and of the aggregate: the aggregate is
    /// that of the records received, each identifier counted once.
    pub proof fn lemma_wf(&self)
        requires
            self.wf(),
        ensures
            self@.wf(),
            self.totals().wf(),
            self.totals()@ == self@.aggregate,
            self.totals()@ == fold(Map::empty(), self.listed()),
            self@.accounted(),
            self.totals().folded() == self@.stored.dom().len(),
            self@.stored.dom().len() == self.listed().len(),
    {
        self.store.lemma_listed();
        assert(lists(self.store.listed(), self@.stored));
    }

    /// A run of which nothing has happened yet, for a project that may hold
    /// up to `CAPACITY` records.
    pub fn new(project: ProjectId) -> (run: Self)
        ensures
            run.wf(),
            run@ == RunModel::idle(project, CAPACITY as nat),
    {
        ProjectRun::with_capacity(project, CAPACITY)
    }

    /// A run of which nothing has happened yet, for a project that may hold
    /// up to `capacity` records, or up to `CAPACITY` where that is less.
    pub fn with_capacity(project: ProjectId, capacity: u64) -> (run: Self)
        ensures
            run.wf(),
            run@ == RunModel::idle(project, if capacity <= CAPACITY { capacity as nat } else { CAPACITY as nat }),
    {
        let aggregate = RunAggregate::with_capacity(capacity);
        let run = ProjectRun {
            capacity: aggregate.records_capacity(),
            project,
            phase: Phase::Idle,
            pages: Vec::new(),
            started: 0,
            in_flight: 0,
            cancelled: false,
            failure: None,
            store: CommitStore::new(project),
            aggregate,
        };
        assert(run@.pages =~= Seq::<PageState>::empty());
        run
    }

    /// The project that is run.
    pub fn project(&self) -> (p: ProjectId)
        ensures
            p == self@.project,
    {
        self.project
    }

    /// Where the project stands.
    pub fn phase(&self) -> (p: Phase)
        ensures
            p == self@.phase,
    {
        self.phase
    }

    /// Whether the run has ended.
    pub fn is_finished(&self) -> (b: bool)
        ensures
            b == self@.finished(),
    {
        match self.phase {
            Phase::Done => true,
            Phase::Failed => true,
            _ => false,
        }
    }

    /// Whether the service refused the credential.
    pub fn is_cancelled(&self) -> (b: bool)
        ensures
            b == self@.cancelled,
    {
        self.cancelled
    }

    /// The number of pages that the probe announced.
    pub fn total_pages(&self) -> (n: usize)
        ensures
            n == self@.pages.len(),
    {
        self.pages.len()
    }

    /// The number of pages in flight.
    pub fn in_flight(&self) -> (n: usize)
        requires
            self.wf(),
        ensures
            n == self@.in_flight(),
    {
        self.in_flight
    }

    /// What became of `page`; `None` where the project has no such page.
    pub fn page_state(&self, page: u16) -> (s: Option<PageState>)
        ensures
            s is Some <==> 1 <= page <= self@.pages.len(),
            s matches Some(state) ==> state == self@.pages[page - 1],
    {
        if page >= 1 && (page as usize) <= self.pages.len() {
            Some(self.pages[(page - 1) as usize])
        } else {
            None
        }
    }

    /// Why the project fails, where it does.
    pub fn failure(&self) -> (f: &Option<ProjectError>)
        ensures
            *f == self@.failure,
    {
        &self.failure
    }

    /// How the run ended: with the aggregate of the project where it is
    /// done, with the failure where it failed; `None` while it has not ended.
    /// The aggregate of a failed project holds what was folded before it
    /// failed, and stays to be had through `aggregate`.
    pub fn outcome(&self) -> (r: Option<Result<&RunAggregate, &ProjectError>>)
        requires
            self.wf(),
        ensures
            r is Some <==> self@.finished(),
            self@.phase is Done ==> r == Some(Ok::<&RunAggregate, &ProjectError>(&self.totals())),
            self@.phase is Failed ==> self@.failure is Some && r == Some(
                Err::<&RunAggregate, &ProjectError>(&self@.failure->0),
            ),
    {
        match self.phase {
            Phase::Done => Some(Ok(&self.aggregate)),
            Phase::Failed => match &self.failure {
                Some(e) => Some(Err(e)),
                None => {
                    proof {
                        lemma_in_flight_bounds(self.pages@);
                    }
                    None
                },
            },
            _ => None,
        }
    }

    /// The churn totals of the records received so far.
    pub fn aggregate(&self) -> (a: &RunAggregate)
        ensures
            *a == self.totals(),
    {
        &self.aggregate
    }

    /// The records received so far, each identifier once.
    pub fn store(&self) -> (s: &CommitStore)
        requires
            self.wf(),
        ensures
            s.wf(),
            s@ == self@.stored,
            s.listed() == self.listed(),
            s.project() == self@.project,
    {
        &self.store
    }

    /// Puts the run in the phase that its pages and its failure determine.
    fn settle(&mut self)
        requires
            old(self).in_flight == in_flight_of(old(self).pages@),
        ensures
            final(self)@ == old(self)@.settled(),
            final(self).store == old(self).store,
            final(self).aggregate == old(self).aggregate,
            final(self).in_flight == old(self).in_flight,
            final(self).capacity == old(self).capacity,
    {
        self.phase = if !self.cancelled && self.started < self.pages.len() {
            Phase::Fetching
        } else if self.in_flight > 0 {
            Phase::Aggregating
        } else if self.failure.is_some() {
            Phase::Failed
        } else {
            Phase::Done
        };
    }

    /// Records that the probe was sent. The result tells whether the run was
    /// idle; any other run is left as it was.
    pub fn begin_probe(&mut self) -> (begun: bool)
        requires
            old(self).wf(),
        ensures
            final(self).wf(),
            begun == (old(self)@.phase is Idle),
            final(self)@ == old(self)@.begin_probe(),
    {
        match self.phase {
            Phase::Idle => {
                self.phase = Phase::Probing;
                true
            },
            _ => false,
        }
    }

    /// Takes the answer to the probe. The result tells whether the run was
    /// probing; any other run is left as it was.
    pub fn probed(&mut self, outcome: Result<u16, ProjectError>) -> (taken: bool)
        requires
            old(self).wf(),
        ensures
            final(self).wf(),
            taken == (old(self)@.phase is Probing),
            final(self)@ == old(self)@.probed(outcome),
    {
        match self.phase {
            Phase::Probing => {},
            _ => {
                return false;
            },
        }
        match outcome {
            Ok(n) => {
                let mut pages: Vec<PageState> = Vec::new();
                let mut i: u16 = 0;
                while i < n
                    invariant
                        i <= n,
                        pages@.len() == i,
                        forall|j: int| 0 <= j < i ==> pages@[j] == PageState::Pending,
                    decreases n - i,
                {
                    pages.push(PageState::Pending);
                    i += 1;
                }
                assert(pages@ =~= Seq::new(n as nat, |i: int| PageState::Pending));
                proof {
                    lemma_in_flight_bounds(pages@);
                }
                self.pages = pages;
                self.settle();
            },
            Err(e) => {
                self.cancelled = e.is_unauthorized();
                self.failure = Some(e);
                self.phase = Phase::Failed;
                proof {
                    assert(self.pages@ =~= Seq::<PageState>::empty());
                }
            },
        }
        true
    }

    /// Starts the next page: the first pending one, whose number is
    /// returned. `None`, and the run left as it was, where the run is not
    /// fetching.
    pub fn start_page(&mut self) -> (page: Option<u16>)
        requires
            old(self).wf(),
        ensures
            final(self).wf(),
            page is Some <==> old(self)@.phase is Fetching,
            page matches Some(p) ==> p == old(self)@.started + 1,
            final(self)@ == old(self)@.start_page(),
            final(self)@.in_flight() == old(self)@.in_flight() + if page is Some { 1nat } else { 0nat },
    {
        match self.phase {
            Phase::Fetching => {},
            _ => {
                return None;
            },
        }
        let index = self.started;
        proof {
            lemma_in_flight_update(self.pages@, index as int, PageState::InFlight);
            lemma_in_flight_bounds(self.pages@);
        }
        self.pages.set(index, PageState::InFlight);
        self.started = self.started + 1;
        self.in_flight = self.in_flight + 1;
        self.settle();
        Some((index + 1) as u16)
    }

    /// Stores and counts the records of a page, each identifier once.
    fn absorb(&mut self, batch: &Vec<Record>)
        requires
            old(self).store.wf(),
            old(self).aggregate.wf(),
            old(self).aggregate.folded() == old(self).store.listed().len(),
            old(self).aggregate@ == fold(Map::empty(), old(self).store.listed()),
            old(self).store.listed().len() + batch.len() <= old(self).aggregate.capacity(),
        ensures
            final(self).store.wf(),
            final(self).store.project() == old(self).store.project(),
            final(self).aggregate.wf(),
            final(self).aggregate.folded() == final(self).store.listed().len(),
            final(self).aggregate@ == fold(Map::empty(), final(self).store.listed()),
            final(self).aggregate.capacity() == old(self).aggregate.capacity(),
            final(self).capacity == old(self).capacity,
            final(self).store.listed().len() <= old(self).store.listed().len() + batch.len(),
            final(self).store@ == persisted_all(old(self).store@, batch.deep_view()),
            final(self).aggregate@ == absorbed(old(self).store@, old(self).aggregate@, batch.deep_view()),
            final(self).project == old(self).project,
            final(self).phase == old(self).phase,
            final(self).pages == old(self).pages,
            final(self).started == old(self).started,
            final(self).in_flight == old(self).in_flight,
            final(self).cancelled == old(self).cancelled,
            final(self).failure == old(self).failure,
    {
        let ghost records = batch.deep_view();
        let mut i: usize = 0;
        assert(records.take(0) =~= Seq::empty());
        while i < batch.len()
            invariant
                i <= batch.len(),
                records == batch.deep_view(),
                old(self).store.listed().len() + batch.len() <= old(self).aggregate.capacity(),
                self.aggregate.capacity() == old(self).aggregate.capacity(),
                self.capacity == old(self).capacity,
                self.store.wf(),
                self.store.project() == old(self).store.project(),
                self.aggregate.wf(),
                self.aggregate.folded() == self.store.listed().len(),
                self.aggregate@ == fold(Map::empty(), self.store.listed()),
                self.store.listed().len() <= old(self).store.listed().len() + i,
                self.store@ == persisted_all(old(self).store@, records.take(i as int)),
                self.aggregate@ == absorbed(old(self).store@, old(self).aggregate@, records.take(i as int)),
                self.project == old(self).project,
                self.phase == old(self).phase,
                self.pages == old(self).pages,
                self.started == old(self).started,
                self.in_flight == old(self).in_flight,
                self.cancelled == old(self).cancelled,
                self.failure == old(self).failure,
            decreases batch.len() - i,
        {
            let record = &batch[i];
            proof {
                assert(records.take(i + 1).drop_last() =~= records.take(i as int));
                assert(records.take(i + 1).last() == record@);
            }
            let ghost stored = self.store.listed();
            if self.store.persist(record.duplicate()) {
                proof {
                    let at = choose|at: int|
                        0 <= at <= stored.len() && self.store.listed() == #[trigger] stored.insert(
                            at,
                            record@,
                        );
                    law_fold_inserted(Map::empty(), stored, at, record@);
                }
                self.aggregate.count(record);
            }
            i += 1;
        }
        assert(records.take(batch.len() as int) =~= records);
    }

    /// Takes the answer for `page`. The result tells whether the answer was
    /// awaited; one that was not changes nothing.
    pub fn page_done(&mut self, page: u16, result: Result<Vec<Record>, FetchError>) -> (taken: bool)
        requires
            old(self).wf(),
        ensures
            final(self).wf(),
            taken == old(self)@.accepts(page),
            final(self)@ == old(self)@.page_done(page, answer_view(result)),
            final(self)@.in_flight() + (if taken { 1nat } else { 0nat }) == old(self)@.in_flight(),
    {
        if page < 1 || page as usize > self.pages.len() {
            return false;
        }
        let index = (page - 1) as usize;
        match self.pages[index] {
            PageState::InFlight => {},
            _ => {
                return false;
            },
        }
        proof {
            self.store.lemma_listed();
            lemma_in_flight_bounds(self.pages@);
        }
        let state = if self.cancelled {
            PageState::Discarded
        } else {
            match result {
                Err(e) => {
                    if e.is_unauthorized() {
                        self.cancelled = true;
                        self.failure = Some(ProjectError::Unauthorized);
                    } else if self.failure.is_none() {
                        self.failure = Some(e.page_error());
                    }
                    PageState::Failed
                },
                Ok(batch) => {
                    if batch.len() as u64 > self.capacity - self.store.len() as u64 {
                        if self.failure.is_none() {
                            self.failure = Some(ProjectError::AggregateFull);
                        }
                        PageState::Failed
                    } else {
                        self.absorb(&batch);
                        PageState::Folded
                    }
                },
            }
        };
        proof {
            lemma_in_flight_update(self.pages@, index as int, state);
            self.store.lemma_listed();
        }
        self.pages.set(index, state);
        self.in_flight = self.in_flight - 1;
        self.settle();
        true
    }
}

} // verus!
