//! The run over all configured projects: which request to send next under
//! the global limit on fetches in flight, what each answer changes, and what
//! the run amounts to when every project has ended.

use vstd::prelude::*;
use crate::aggregate::{AggregateFull, RunAggregate, CAPACITY};
use crate::config::ProjectId;
use crate::error::FetchError;
use crate::probe::{probe_outcome, spec_probe_outcome, ProbeResponse};
use crate::project::{answer_view, Phase, ProjectRun, RunModel};
use crate::record::Record;
use crate::tally::{merge, Tally};

verus! {

/// What the driver of a run is to do next.
#[derive(Clone, Copy, Debug, PartialEq, Eq, Structural)]
pub enum Action {
    /// Send the probe of the project at position `index`.
    Probe { index: usize, project: ProjectId },
    /// Fetch page `page` of the project at position `index`.
    Fetch { index: usize, project: ProjectId, page: u16 },
    /// Nothing can be started now; an answer is awaited.
    Wait,
    /// Every project has ended.
    Finished,
}

/// The number of pages in flight over all of `runs`.
pub open spec fn total_in_flight(runs: Seq<RunModel>) -> nat
    decreases runs.len(),
{
    if runs.len() == 0 {
        0
    } else {
        total_in_flight(runs.drop_last()) + runs.last().in_flight()
    }
}

/// Replacing one run changes the number in flight by the difference between
/// the two.
pub proof fn lemma_total_update(runs: Seq<RunModel>, i: int, r: RunModel)
    requires
        0 <= i < runs.len(),
    ensures
        total_in_flight(runs.update(i, r)) + runs[i].in_flight() == total_in_flight(runs) + r.in_flight(),
    decreases runs.len(),
{
    if i == runs.len() - 1 {
        assert(runs.update(i, r).drop_last() =~= runs.drop_last());
    } else {
        lemma_total_update(runs.drop_last(), i, r);
        assert(runs.update(i, r).drop_last() =~= runs.drop_last().update(i, r));
    }
}

/// No run has more pages in flight than all runs together.
pub proof fn lemma_total_covers(runs: Seq<RunModel>, i: int)
    requires
        0 <= i < runs.len(),
    ensures
        runs[i].in_flight() <= total_in_flight(runs),
    decreases runs.len(),
{
    if i < runs.len() - 1 {
        lemma_total_covers(runs.drop_last(), i);
    }
}

/// The number of runs among `runs` that are in phase `phase`.
pub open spec fn count_in_phase(runs: Seq<RunModel>, phase: Phase) -> nat
    decreases runs.len(),
{
    if runs.len() == 0 {
        0
    } else {
        count_in_phase(runs.drop_last(), phase) + if runs.last().phase == phase {
            1nat
        } else {
            0nat
        }
    }
}

/// The projects of the runs among `runs` that have failed, in order.
pub open spec fn failed_projects(runs: Seq<RunModel>) -> Seq<ProjectId>
    decreases runs.len(),
{
    if runs.len() == 0 {
        Seq::empty()
    } else if runs.last().phase is Failed {
        failed_projects(runs.drop_last()).push(runs.last().project)
    } else {
        failed_projects(runs.drop_last())
    }
}

/// The merged aggregates of the runs among `runs` that are done. A run that
/// failed, or has not ended, adds nothing.
pub open spec fn combined(runs: Seq<RunModel>) -> Map<(Seq<char>, Seq<char>), Tally>
    decreases runs.len(),
{
    if runs.len() == 0 {
        Map::empty()
    } else if runs.last().phase is Done {
        merge(combined(runs.drop_last()), runs.last().aggregate)
    } else {
        combined(runs.drop_last())
    }
}

/// The number of records that the runs among `runs` that are done hold.
pub open spec fn done_records(runs: Seq<RunModel>) -> nat
    decreases runs.len(),
{
    if runs.len() == 0 {
        0
    } else if runs.last().phase is Done {
        done_records(runs.drop_last()) + runs.last().stored.dom().len()
    } else {
        done_records(runs.drop_last())
    }
}

/// The runs that are done among the first `n` hold no more records than
/// those among all.
proof fn lemma_done_records_grow(runs: Seq<RunModel>, n: int)
    requires
        0 <= n <= runs.len(),
    ensures
        done_records(runs.take(n)) <= done_records(runs),
    decreases runs.len() - n,
{
    if n == runs.len() {
        assert(runs.take(n) =~= runs);
    } else {
        lemma_done_records_grow(runs, n + 1);
        assert(runs.take(n + 1).drop_last() =~= runs.take(n));
    }
}

/// The state of a run over several projects.
pub struct ScheduleModel {
    /// The most fetches that may be in flight at once.
    pub limit: nat,
    /// The run of each project, in the order in which they are configured.
    pub runs: Seq<RunModel>,
    /// The most records that a project, and the combined aggregate, may
    /// hold: no more than `CAPACITY`.
    pub capacity: nat,
}

impl ScheduleModel {
    /// The number of fetches in flight.
    pub open spec fn in_flight(self) -> nat {
        total_in_flight(self.runs)
    }

    /// The limit is at least one, every run is well-formed, and no more
    /// fetches are in flight than the limit allows.
    pub open spec fn wf(self) -> bool {
        &&& self.limit >= 1
        &&& self.capacity <= CAPACITY
        &&& forall|i: int| 0 <= i < self.runs.len() ==> (#[trigger] self.runs[i]).wf()
        &&& self.in_flight() <= self.limit
    }

    /// No run before position `i` is in phase `phase`.
    pub open spec fn none_before(self, i: int, phase: Phase) -> bool {
        forall|j: int| 0 <= j < i && j < self.runs.len() ==> (#[trigger] self.runs[j]).phase != phase
    }

    /// Every run has ended.
    pub open spec fn all_finished(self) -> bool {
        forall|j: int| 0 <= j < self.runs.len() ==> (#[trigger] self.runs[j]).finished()
    }

    /// The schedule with the run at position `i` replaced.
    pub open spec fn with_run(self, i: int, run: RunModel) -> ScheduleModel {
        ScheduleModel { runs: self.runs.update(i, run), ..self }
    }

    /// Whether `action` is the next one: the probe of the first idle project
    /// where there is one; else, where fewer fetches than the limit are in
    /// flight, the next page of the first project that is fetching; else to
    /// wait while a project has not ended; else the run is finished.
    pub open spec fn next_is(self, action: Action) -> bool {
        let n = self.runs.len() as int;
        match action {
            Action::Probe { index, project } => {
                &&& index < n
                &&& self.runs[index as int].phase is Idle
                &&& self.none_before(index as int, Phase::Idle)
                &&& project == self.runs[index as int].project
            },
            Action::Fetch { index, project, page } => {
                &&& index < n
                &&& self.none_before(n, Phase::Idle)
                &&& self.in_flight() < self.limit
                &&& self.runs[index as int].phase is Fetching
                &&& self.none_before(index as int, Phase::Fetching)
                &&& project == self.runs[index as int].project
                &&& page == self.runs[index as int].started + 1
            },
            Action::Wait => {
                &&& self.none_before(n, Phase::Idle)
                &&& (self.in_flight() >= self.limit || self.none_before(n, Phase::Fetching))
                &&& !self.all_finished()
            },
            Action::Finished => self.all_finished(),
        }
    }

    /// The schedule after `action` was handed out: a probed project is
    /// probing, a fetched page is in flight.
    pub open spec fn after(self, action: Action) -> ScheduleModel {
        match action {
            Action::Probe { index, project } => self.with_run(
                index as int,
                self.runs[index as int].begin_probe(),
            ),
            Action::Fetch { index, project, page } => self.with_run(
                index as int,
                self.runs[index as int].start_page(),
            ),
            Action::Wait => self,
            Action::Finished => self,
        }
    }

    /// The schedule after the probe of the project at position `index` was
    /// answered. An index that names no project changes nothing.
    pub open spec fn on_probe(self, index: usize, outcome: Result<u16, crate::error::ProjectError>) -> ScheduleModel {
        if index < self.runs.len() {
            self.with_run(index as int, self.runs[index as int].probed(outcome))
        } else {
            self
        }
    }

    /// The schedule after page `page` of the project at position `index` was
    /// answered. An index that names no project changes nothing.
    pub open spec fn on_page(
        self,
        index: usize,
        page: u16,
        result: Result<Seq<crate::record::RecordView>, FetchError>,
    ) -> ScheduleModel {
        if index < self.runs.len() {
            self.with_run(index as int, self.runs[index as int].page_done(page, result))
        } else {
            self
        }
    }
}

/// Something that happens to a schedule.
pub enum Event {
    /// An action was handed out.
    Handed(Action),
    /// The probe of a project was answered.
    Probe(usize, Result<u16, crate::error::ProjectError>),
    /// A page of a project was answered.
    Page(usize, u16, Result<Seq<crate::record::RecordView>, FetchError>),
}

impl ScheduleModel {
    /// The schedule of a run over `projects` of which nothing has happened.
    pub open spec fn initial(projects: Seq<ProjectId>, limit: nat, capacity: nat) -> ScheduleModel {
        ScheduleModel {
            limit,
            runs: Seq::new(projects.len(), |i: int| RunModel::idle(projects[i], capacity)),
            capacity,
        }
    }

    /// The schedule after `event`. An action is handed out only where it is
    /// the next one.
    pub open spec fn step(self, event: Event) -> ScheduleModel {
        match event {
            Event::Handed(action) => if self.next_is(action) {
                self.after(action)
            } else {
                self
            },
            Event::Probe(index, outcome) => self.on_probe(index, outcome),
            Event::Page(index, page, result) => self.on_page(index, page, result),
        }
    }

    /// The schedule after `events`, in order.
    pub open spec fn replay(self, events: Seq<Event>) -> ScheduleModel
        decreases events.len(),
    {
        if events.len() == 0 {
            self
        } else {
            self.replay(events.drop_last()).step(events.last())
        }
    }
}

/// A schedule with one run replaced by a well-formed one that has no more
/// pages in flight than `extra` above the old is well-formed while the
/// total stays within the limit.
proof fn lemma_with_run(m: ScheduleModel, i: int, run: RunModel)
    requires
        m.wf(),
        0 <= i < m.runs.len(),
        run.wf(),
        total_in_flight(m.runs) + run.in_flight() <= m.limit + m.runs[i].in_flight(),
    ensures
        m.with_run(i, run).wf(),
{
    lemma_total_update(m.runs, i, run);
    lemma_total_covers(m.runs, i);
}

/// Whatever happens to a well-formed schedule leaves it well-formed.
pub proof fn lemma_schedule_step(m: ScheduleModel, event: Event)
    requires
        m.wf(),
    ensures
        m.step(event).wf(),
        m.step(event).limit == m.limit,
        m.step(event).capacity == m.capacity,
{
    match event {
        Event::Handed(action) => {
            if m.next_is(action) {
                match action {
                    Action::Probe { index, project } => {
                        crate::project::lemma_step(
                            m.runs[index as int],
                            crate::project::RunEvent::BeginProbe,
                        );
                        lemma_with_run(m, index as int, m.runs[index as int].begin_probe());
                    },
                    Action::Fetch { index, project, page } => {
                        crate::project::lemma_step(
                            m.runs[index as int],
                            crate::project::RunEvent::StartPage,
                        );
                        lemma_with_run(m, index as int, m.runs[index as int].start_page());
                    },
                    _ => {},
                }
            }
        },
        Event::Probe(index, outcome) => {
            if index < m.runs.len() {
                crate::project::lemma_step(
                    m.runs[index as int],
                    crate::project::RunEvent::Probed(outcome),
                );
                lemma_with_run(m, index as int, m.runs[index as int].probed(outcome));
            }
        },
        Event::Page(index, page, result) => {
            if index < m.runs.len() {
                crate::project::lemma_step(
                    m.runs[index as int],
                    crate::project::RunEvent::PageDone(page, result),
                );
                lemma_with_run(m, index as int, m.runs[index as int].page_done(page, result));
            }
        },
    }
}

/// At no time are more fetches in flight than the limit allows: whatever
/// actions are handed out and whatever answers arrive, in whatever order, the
/// pages in flight over all projects number no more than the limit.
pub proof fn law_bounded_concurrency(projects: Seq<ProjectId>, limit: nat, capacity: nat, events: Seq<Event>)
    requires
        limit >= 1,
        capacity <= CAPACITY,
    ensures
        ScheduleModel::initial(projects, limit, capacity).replay(events).wf(),
        ScheduleModel::initial(projects, limit, capacity).replay(events).limit == limit,
        ScheduleModel::initial(projects, limit, capacity).replay(events).in_flight() <= limit,
    decreases events.len(),
{
    let start = ScheduleModel::initial(projects, limit, capacity);
    if events.len() == 0 {
        lemma_total_idle(start.runs);
    } else {
        law_bounded_concurrency(projects, limit, capacity, events.drop_last());
        lemma_schedule_step(start.replay(events.drop_last()), events.last());
    }
}

/// The project that an event is about, by its position; `None` where the
/// event is about none.
pub open spec fn subject(event: Event) -> Option<int> {
    match event {
        Event::Handed(Action::Probe { index, project }) => Some(index as int),
        Event::Handed(Action::Fetch { index, project, page }) => Some(index as int),
        Event::Handed(_) => None,
        Event::Probe(index, _) => Some(index as int),
        Event::Page(index, _, _) => Some(index as int),
    }
}

/// What happens to one project leaves every other project as it is: its
/// pages, what it has stored and counted, and its failure. A project that
/// fails, or is refused, takes no other project with it.
pub proof fn law_projects_are_isolated(m: ScheduleModel, event: Event, j: int)
    requires
        0 <= j < m.runs.len(),
        subject(event) != Some(j),
    ensures
        m.step(event).runs.len() == m.runs.len(),
        m.step(event).runs[j] == m.runs[j],
{
}

/// A driver is told to wait only while an answer is on its way: a probe is
/// out or a page is in flight.
pub proof fn law_wait_is_answered(m: ScheduleModel)
    requires
        m.wf(),
        m.next_is(Action::Wait),
    ensures
        m.in_flight() > 0 || exists|j: int| 0 <= j < m.runs.len() && (#[trigger] m.runs[j]).phase is Probing,
{
    let j = choose|j: int| 0 <= j < m.runs.len() && !(#[trigger] m.runs[j]).finished();
    let run = m.runs[j];
    assert(run.wf());
    if run.phase is Aggregating {
        lemma_total_covers(m.runs, j);
    }
}

/// What a run amounts to.
#[derive(Clone, Debug)]
pub struct RunSummary {
    /// The number of projects configured.
    pub total: usize,
    /// The number of projects that are done.
    pub succeeded: usize,
    /// The number of projects that failed.
    pub failed: usize,
    /// The projects that failed, in the order in which they are configured.
    pub failed_projects: Vec<ProjectId>,
}

impl RunSummary {
    /// Whether the combined report is to be generated: where no project
    /// failed, or the caller accepts a report of the others alone.
    pub fn report_allowed(&self, allow_partial: bool) -> (b: bool)
        ensures
            b == (self.failed == 0 || allow_partial),
    {
        self.failed == 0 || allow_partial
    }
}

/// The run over all configured projects.
#[derive(Clone, Debug)]
pub struct Orchestrator {
    limit: usize,
    in_flight: usize,
    runs: Vec<ProjectRun>,
    capacity: u64,
}

impl Orchestrator {
    /// The state of the run.
    pub closed spec fn view(&self) -> ScheduleModel {
        ScheduleModel {
            limit: self.limit as nat,
            runs: Seq::new(self.runs@.len(), |i: int| self.runs@[i]@),
            capacity: self.capacity as nat,
        }
    }

    /// The run of the project at position `i`.
    pub closed spec fn run_at(&self, i: int) -> ProjectRun {
        self.runs@[i]
    }

    /// The state is well-formed, and so is the run of every project.
    pub closed spec fn wf(&self) -> bool {
        &&& self.limit >= 1
        &&& self.capacity <= CAPACITY
        &&& forall|i: int| 0 <= i < self.runs@.len() ==> (#[trigger] self.runs@[i]).wf()
        &&& self.in_flight == total_in_flight(self@.runs)
        &&& self.in_flight <= self.limit
    }

    /// At no time are more fetches in flight than the limit allows: a
    /// well-formed run has a well-formed state, whose pages in flight, over
    /// all projects, number no more than the limit.
    pub proof fn lemma_wf(&self)
        requires
            self.wf(),
        ensures
            self@.wf(),
            self@.in_flight() <= self@.limit,
            forall|i: int|
                0 <= i < self@.runs.len() ==> (#[trigger] self.run_at(i)).wf() && self.run_at(i)@
                    == self@.runs[i],
            forall|i: int| 0 <= i < self@.runs.len() ==> (#[trigger] self@.runs[i]).accounted(),
    {
        assert forall|i: int| 0 <= i < self@.runs.len() implies (#[trigger] self@.runs[i]).wf()
            && self@.runs[i].accounted() by {
            self.runs@[i].lemma_wf();
        }
    }

    /// A run over `projects` with at most `limit` fetches in flight at once,
    /// in which a project may hold up to `CAPACITY` records. `None` where
    /// `limit` is zero: no page could ever be fetched.
    pub fn new(projects: &Vec<ProjectId>, limit: usize) -> (o: Option<Self>)
        ensures
            o is Some <==> limit >= 1,
            o matches Some(run) ==> run.wf() && run@ == ScheduleModel::initial(
                projects@,
                limit as nat,
                CAPACITY as nat,
            ) && run@.in_flight() == 0,
    {
        Orchestrator::with_capacity(projects, limit, CAPACITY)
    }

    /// A run over `projects` with at most `limit` fetches in flight at once,
    /// in which a project, and the combined aggregate, may hold up to
    /// `capacity` records, or up to `CAPACITY` where that is less. `None`
    /// where `limit` is zero.
    pub fn with_capacity(projects: &Vec<ProjectId>, limit: usize, capacity: u64) -> (o: Option<Self>)
        ensures
            o is Some <==> limit >= 1,
            o matches Some(run) ==> run.wf() && run@ == ScheduleModel::initial(
                projects@,
                limit as nat,
                if capacity <= CAPACITY { capacity as nat } else { CAPACITY as nat },
            ) && run@.in_flight() == 0,
    {
        if limit == 0 {
            return None;
        }
        let capacity = if capacity <= CAPACITY {
            capacity
        } else {
            CAPACITY
        };
        let mut runs: Vec<ProjectRun> = Vec::new();
        let mut i: usize = 0;
        while i < projects.len()
            invariant
                i <= projects.len(),
                capacity <= CAPACITY,
                runs@.len() == i,
                forall|j: int|
                    0 <= j < i ==> (#[trigger] runs@[j]).wf() && runs@[j]@ == RunModel::idle(
                        projects@[j],
                        capacity as nat,
                    ),
            decreases projects.len() - i,
        {
            runs.push(ProjectRun::with_capacity(projects[i], capacity));
            i += 1;
        }
        let o = Orchestrator { limit, in_flight: 0, runs, capacity };
        proof {
            assert(o@.runs =~= Seq::new(
                projects@.len(),
                |i: int| RunModel::idle(projects@[i], capacity as nat),
            ));
            lemma_total_idle(o@.runs);
        }
        Some(o)
    }

    /// The number of projects.
    pub fn project_count(&self) -> (n: usize)
        ensures
            n == self@.runs.len(),
    {
        self.runs.len()
    }

    /// The most fetches that may be in flight at once.
    pub fn limit(&self) -> (n: usize)
        ensures
            n == self@.limit,
    {
        self.limit
    }

    /// The number of fetches in flight.
    pub fn in_flight(&self) -> (n: usize)
        requires
            self.wf(),
        ensures
            n == self@.in_flight(),
            n <= self@.limit,
    {
        self.in_flight
    }

    /// The run of the project at position `index`.
    pub fn run(&self, index: usize) -> (r: &ProjectRun)
        requires
            self.wf(),
            index < self@.runs.len(),
        ensures
            r.wf(),
            r@ == self@.runs[index as int],
            *r == self.run_at(index as int),
    {
        &self.runs[index]
    }

    /// Hands out the next action and records it: a probed project is
    /// probing, a fetched page is in flight. Probes are not counted against
    /// the limit; a fetch is handed out only while fewer fetches than the
    /// limit are in flight. `Wait` is returned only while an answer is
    /// awaited, so a driver that waits for one is never stuck.
    pub fn next_action(&mut self) -> (action: Action)
        requires
            old(self).wf(),
        ensures
            final(self).wf(),
            old(self)@.next_is(action),
            final(self)@ == old(self)@.after(action),
            final(self)@.in_flight() == old(self)@.in_flight() + if action is Fetch { 1nat } else { 0nat },
            final(self)@.in_flight() <= final(self)@.limit,
            action is Wait ==> old(self)@.in_flight() > 0 || exists|j: int|
                0 <= j < old(self)@.runs.len() && (#[trigger] old(self)@.runs[j]).phase is Probing,
    {
        let ghost before = *self;
        let n = self.runs.len();
        let mut i: usize = 0;
        while i < n
            invariant
                i <= n,
                n == self.runs@.len(),
                *self == before,
                before == *old(self),
                before.wf(),
                before@.none_before(i as int, Phase::Idle),
            decreases n - i,
        {
            match self.runs[i].phase() {
                Phase::Idle => {
                    let project = self.runs[i].project();
                    let ghost run0 = self.runs@[i as int];
                    proof {
                        run0.lemma_wf();
                    }
                    self.runs[i].begin_probe();
                    proof {
                        let run1 = self.runs@[i as int];
                        assert(self@.runs =~= before@.runs.update(i as int, run1@));
                        lemma_total_update(before@.runs, i as int, run1@);
                        assert forall|j: int| 0 <= j < self.runs@.len() implies (
                        #[trigger] self.runs@[j]).wf() by {
                            if j != i {
                                assert(self.runs@[j] == before.runs@[j]);
                            }
                        }
                    }
                    return Action::Probe { index: i, project };
                },
                _ => {},
            }
            i += 1;
        }
        if self.in_flight < self.limit {
            let mut i: usize = 0;
            while i < n
                invariant
                    i <= n,
                    n == self.runs@.len(),
                    *self == before,
                    before == *old(self),
                before == *old(self),
                    before.wf(),
                    before.in_flight < before.limit,
                    before@.none_before(n as int, Phase::Idle),
                    before@.none_before(i as int, Phase::Fetching),
                decreases n - i,
            {
                match self.runs[i].phase() {
                    Phase::Fetching => {
                        let project = self.runs[i].project();
                        let ghost run0 = self.runs@[i as int];
                        proof {
                            run0.lemma_wf();
                        }
                        let page = self.runs[i].start_page();
                        self.in_flight = self.in_flight + 1;
                        proof {
                            let run1 = self.runs@[i as int];
                            assert(self@.runs =~= before@.runs.update(i as int, run1@));
                            lemma_total_update(before@.runs, i as int, run1@);
                            assert forall|j: int| 0 <= j < self.runs@.len() implies (
                            #[trigger] self.runs@[j]).wf() by {
                                if j != i {
                                    assert(self.runs@[j] == before.runs@[j]);
                                }
                            }
                        }
                        return Action::Fetch { index: i, project, page: page.unwrap() };
                    },
                    _ => {},
                }
                i += 1;
            }
        }
        let mut i: usize = 0;
        while i < n
            invariant
                i <= n,
                n == self.runs@.len(),
                *self == before,
                before == *old(self),
                before.wf(),
                before@.none_before(n as int, Phase::Idle),
                before.in_flight >= before.limit || before@.none_before(n as int, Phase::Fetching),
                forall|j: int| 0 <= j < i ==> (#[trigger] before@.runs[j]).finished(),
            decreases n - i,
        {
            if !self.runs[i].is_finished() {
                proof {
                    let m = before@.runs[i as int];
                    assert(!m.finished());
                    before.runs@[i as int].lemma_wf();
                    assert(m.wf());
                    if m.phase is Aggregating {
                        lemma_total_covers(before@.runs, i as int);
                    }
                    if m.phase is Fetching {
                        assert(before.in_flight >= before.limit);
                    }
                    if !(m.phase is Probing) {
                        assert(before@.in_flight() > 0);
                    }
                }
                return Action::Wait;
            }
            i += 1;
        }
        Action::Finished
    }

    /// Takes the answer to the probe of the project at position `index`.
    /// The result tells whether that project was probing; an answer for any
    /// other, or for no project, changes nothing. A refused credential, or a
    /// probe that did not get through, fails the project; any other answer
    /// makes as many pending pages as it announces.
    pub fn on_probe(&mut self, index: usize, outcome: Result<ProbeResponse, FetchError>) -> (taken: bool)
        requires
            old(self).wf(),
        ensures
            final(self).wf(),
            taken == (index < old(self)@.runs.len() && old(self)@.runs[index as int].phase is Probing),
            final(self)@ == old(self)@.on_probe(index, spec_probe_outcome(outcome)),
            final(self)@.in_flight() == old(self)@.in_flight(),
    {
        if index >= self.runs.len() {
            return false;
        }
        let ghost before = *self;
        let pages = probe_outcome(outcome);
        proof {
            before.runs@[index as int].lemma_wf();
        }
        let taken = self.runs[index].probed(pages);
        proof {
            let run1 = self.runs@[index as int];
            run1.lemma_wf();
            assert(self@.runs =~= before@.runs.update(index as int, run1@));
            lemma_total_update(before@.runs, index as int, run1@);
            lemma_probed_in_flight(before@.runs[index as int], pages);
            assert forall|j: int| 0 <= j < self.runs@.len() implies (#[trigger] self.runs@[j]).wf() by {
                if j != index {
                    assert(self.runs@[j] == before.runs@[j]);
                }
            }
        }
        taken
    }

    /// Takes the answer for page `page` of the project at position `index`.
    /// The result tells whether that answer was awaited; one that was not
    /// changes nothing. An awaited answer frees its place under the limit,
    /// whatever it holds.
    pub fn on_page(&mut self, index: usize, page: u16, result: Result<Vec<Record>, FetchError>) -> (taken: bool)
        requires
            old(self).wf(),
        ensures
            final(self).wf(),
            taken == (index < old(self)@.runs.len() && old(self)@.runs[index as int].accepts(page)),
            final(self)@ == old(self)@.on_page(index, page, answer_view(result)),
            final(self)@.in_flight() + (if taken { 1nat } else { 0nat }) == old(self)@.in_flight(),
            final(self)@.in_flight() <= final(self)@.limit,
    {
        if index >= self.runs.len() {
            return false;
        }
        let ghost before = *self;
        let taken = self.runs[index].page_done(page, result);
        proof {
            let run1 = self.runs@[index as int];
            assert(self@.runs =~= before@.runs.update(index as int, run1@));
            lemma_total_update(before@.runs, index as int, run1@);
            lemma_total_covers(before@.runs, index as int);
            assert forall|j: int| 0 <= j < self.runs@.len() implies (#[trigger] self.runs@[j]).wf() by {
                if j != index {
                    assert(self.runs@[j] == before.runs@[j]);
                }
            }
        }
        if taken {
            self.in_flight = self.in_flight - 1;
        }
        taken
    }

    /// What the run amounts to so far: how many projects are done, how many
    /// failed, and which.
    pub fn summary(&self) -> (s: RunSummary)
        requires
            self.wf(),
        ensures
            s.total == self@.runs.len(),
            s.succeeded == count_in_phase(self@.runs, Phase::Done),
            s.failed == count_in_phase(self@.runs, Phase::Failed),
            s.failed_projects@ == failed_projects(self@.runs),
            s.failed == s.failed_projects@.len(),
            s.succeeded + s.failed <= s.total,
    {
        let mut succeeded: usize = 0;
        let mut failed: usize = 0;
        let mut failed_ids: Vec<ProjectId> = Vec::new();
        let mut i: usize = 0;
        assert(self@.runs.take(0) =~= Seq::empty());
        while i < self.runs.len()
            invariant
                i <= self.runs@.len(),
                self@.runs.len() == self.runs@.len(),
                succeeded == count_in_phase(self@.runs.take(i as int), Phase::Done),
                failed == count_in_phase(self@.runs.take(i as int), Phase::Failed),
                failed_ids@ == failed_projects(self@.runs.take(i as int)),
                failed == failed_ids@.len(),
                succeeded + failed <= i,
            decreases self.runs@.len() - i,
        {
            proof {
                assert(self@.runs.take(i + 1).drop_last() =~= self@.runs.take(i as int));
                assert(self@.runs.take(i + 1).last() == self.runs@[i as int]@);
            }
            match self.runs[i].phase() {
                Phase::Done => {
                    succeeded = succeeded + 1;
                },
                Phase::Failed => {
                    failed = failed + 1;
                    failed_ids.push(self.runs[i].project());
                },
                _ => {},
            }
            i += 1;
        }
        assert(self@.runs.take(self.runs@.len() as int) =~= self@.runs);
        RunSummary { total: self.runs.len(), succeeded, failed, failed_projects: failed_ids }
    }

    /// The combined aggregate of the run: the merged aggregates of the
    /// projects that are done. A project that failed adds nothing, whatever
    /// was folded for it before it failed. Refused where the projects that
    /// are done hold more records together than the run has capacity for.
    pub fn combined(&self) -> (r: Result<RunAggregate, AggregateFull>)
        requires
            self.wf(),
        ensures
            r is Ok <==> done_records(self@.runs) <= self@.capacity,
            r matches Ok(a) ==> a.wf() && a@ == combined(self@.runs) && a.folded() == done_records(
                self@.runs,
            ),
    {
        let mut total = RunAggregate::with_capacity(self.capacity);
        let mut i: usize = 0;
        assert(self@.runs.take(0) =~= Seq::empty());
        while i < self.runs.len()
            invariant
                i <= self.runs@.len(),
                self@.runs.len() == self.runs@.len(),
                self.wf(),
                total.wf(),
                total.capacity() == self@.capacity,
                total@ == combined(self@.runs.take(i as int)),
                total.folded() == done_records(self@.runs.take(i as int)),
            decreases self.runs@.len() - i,
        {
            proof {
                assert(self@.runs.take(i + 1).drop_last() =~= self@.runs.take(i as int));
                assert(self@.runs.take(i + 1).last() == self.runs@[i as int]@);
                self.runs@[i as int].lemma_wf();
            }
            match self.runs[i].phase() {
                Phase::Done => {
                    match total.merge(self.runs[i].aggregate()) {
                        Ok(()) => {},
                        Err(e) => {
                            proof {
                                lemma_done_records_grow(self@.runs, i + 1);
                            }
                            return Err(e);
                        },
                    }
                },
                _ => {},
            }
            i += 1;
        }
        proof {
            assert(self@.runs.take(self.runs@.len() as int) =~= self@.runs);
            total.lemma_wf();
        }
        Ok(total)
    }
}

/// Runs of which nothing has happened have nothing in flight.
proof fn lemma_total_idle(runs: Seq<RunModel>)
    requires
        forall|i: int| 0 <= i < runs.len() ==> (#[trigger] runs[i]).pages.len() == 0,
    ensures
        total_in_flight(runs) == 0,
    decreases runs.len(),
{
    if runs.len() > 0 {
        lemma_total_idle(runs.drop_last());
        assert(runs.last() == runs[runs.len() - 1]);
    }
}

/// The answer to a probe puts nothing in flight.
proof fn lemma_probed_in_flight(m: RunModel, outcome: Result<u16, crate::error::ProjectError>)
    requires
        m.wf(),
    ensures
        m.probed(outcome).in_flight() == m.in_flight(),
{
    if m.phase is Probing {
        crate::project::lemma_in_flight_bounds(m.pages);
        crate::project::lemma_in_flight_bounds(m.probed(outcome).pages);
    }
}

} // verus!
