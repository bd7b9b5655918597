use commit_stats::aggregate::Commits;
use commit_stats::config::ProjectId;
use commit_stats::error::{FetchError, ProjectError};
use commit_stats::orchestrator::{Action, Orchestrator};
use commit_stats::probe::ProbeResponse;
use commit_stats::project::{PageState, Phase, ProjectRun};
use commit_stats::record::{Record, Stats};

fn commit(id: &str, email: &str, day: &str, additions: u32) -> Record {
    Record {
        full_id: id.to_string(),
        short_id: String::new(),
        author_name: String::new(),
        author_email: email.to_string(),
        authored_date: String::new(),
        committer_name: String::new(),
        committer_email: String::new(),
        committed_date: String::new(),
        created_at: format!("{}T00:00:00Z", day),
        title: String::new(),
        message: String::new(),
        parent_ids: vec!["p".to_string()],
        stats: Stats { additions, deletions: 0 },
    }
}

fn announce(pages: &str) -> Result<ProbeResponse, FetchError> {
    Ok(ProbeResponse { status: 200, total_pages: Some(pages.to_string()) })
}

#[test]
fn a_limit_of_zero_is_refused() {
    assert!(Orchestrator::new(&vec![ProjectId(1)], 0).is_none());
    assert!(Orchestrator::with_capacity(&vec![], 0, 10).is_none());
    assert!(Orchestrator::new(&vec![], 1).is_some());
}

#[test]
fn a_run_without_projects_is_finished() {
    let mut run = Orchestrator::new(&vec![], 3).unwrap();
    assert_eq!(run.project_count(), 0);
    assert_eq!(run.limit(), 3);
    assert_eq!(run.next_action(), Action::Finished);
    let summary = run.summary();
    assert_eq!((summary.total, summary.succeeded, summary.failed), (0, 0, 0));
    assert!(summary.report_allowed(false));
    assert_eq!(run.combined().unwrap().day_count(), 0);
}

#[test]
fn a_project_walks_through_its_phases() {
    let mut run = ProjectRun::new(ProjectId(5));
    assert_eq!(run.project(), ProjectId(5));
    assert_eq!(run.phase(), Phase::Idle);
    assert!(run.outcome().is_none());
    assert_eq!(run.start_page(), None);
    assert!(!run.probed(Ok(2)));
    assert!(run.begin_probe());
    assert!(!run.begin_probe());
    assert_eq!(run.phase(), Phase::Probing);
    assert!(run.probed(Ok(2)));
    assert_eq!(run.phase(), Phase::Fetching);
    assert_eq!(run.total_pages(), 2);
    assert_eq!(run.page_state(0), None);
    assert_eq!(run.page_state(1), Some(PageState::Pending));
    assert_eq!(run.page_state(3), None);
    assert_eq!(run.start_page(), Some(1));
    assert_eq!(run.phase(), Phase::Fetching);
    assert_eq!(run.start_page(), Some(2));
    assert_eq!(run.phase(), Phase::Aggregating);
    assert_eq!(run.start_page(), None);
    assert_eq!(run.in_flight(), 2);
    assert!(run.page_done(2, Ok(vec![commit("b", "a@x", "2021-01-02", 2)])));
    assert_eq!(run.page_state(2), Some(PageState::Folded));
    assert_eq!(run.phase(), Phase::Aggregating);
    assert!(run.page_done(1, Ok(vec![commit("a", "a@x", "2021-01-02", 1)])));
    assert_eq!(run.phase(), Phase::Done);
    assert!(run.is_finished());
    assert_eq!(run.in_flight(), 0);
    assert!(run.failure().is_none());
    let totals = run.outcome().unwrap().ok().unwrap();
    assert_eq!(totals.get("2021-01-02", "a@x"), Some(Commits { times: 2, additions: 3, deletions: 0 }));
    assert_eq!(run.store().len(), 2);
}

#[test]
fn answers_that_are_not_awaited_change_nothing() {
    let mut run = Orchestrator::new(&vec![ProjectId(1)], 1).unwrap();
    assert!(!run.on_probe(0, announce("2")));
    assert!(!run.on_probe(7, announce("2")));
    assert!(matches!(run.next_action(), Action::Probe { index: 0, .. }));
    assert!(!run.on_page(0, 1, Ok(vec![])));
    assert!(run.on_probe(0, announce("2")));
    assert!(!run.on_probe(0, announce("9")));
    assert_eq!(run.run(0).total_pages(), 2);
    assert!(!run.on_page(0, 1, Ok(vec![commit("a", "a@x", "2021-01-02", 1)])));
    assert_eq!(run.next_action(), Action::Fetch { index: 0, project: ProjectId(1), page: 1 });
    assert!(!run.on_page(0, 0, Ok(vec![])));
    assert!(!run.on_page(0, 2, Ok(vec![])));
    assert!(!run.on_page(0, 3, Ok(vec![])));
    assert!(!run.on_page(1, 1, Ok(vec![])));
    assert_eq!(run.in_flight(), 1);
    assert!(run.on_page(0, 1, Ok(vec![])));
    assert!(!run.on_page(0, 1, Ok(vec![commit("a", "a@x", "2021-01-02", 1)])));
    assert_eq!(run.in_flight(), 0);
    assert_eq!(run.run(0).aggregate().day_count(), 0);
}

#[test]
fn a_project_without_pages_is_done() {
    let mut run = Orchestrator::new(&vec![ProjectId(1)], 1).unwrap();
    run.next_action();
    assert!(run.on_probe(0, announce("0")));
    assert_eq!(run.run(0).phase(), Phase::Done);
    assert_eq!(run.next_action(), Action::Finished);
    assert_eq!(run.summary().succeeded, 1);
}

#[test]
fn a_probe_without_the_header_means_one_page() {
    let mut run = Orchestrator::new(&vec![ProjectId(1)], 1).unwrap();
    run.next_action();
    assert!(run.on_probe(0, Ok(ProbeResponse { status: 200, total_pages: None })));
    assert_eq!(run.run(0).total_pages(), 1);
    assert_eq!(run.next_action(), Action::Fetch { index: 0, project: ProjectId(1), page: 1 });
}

#[test]
fn an_unauthorized_probe_fails_the_project_at_once() {
    let mut run = Orchestrator::new(&vec![ProjectId(1), ProjectId(2)], 2).unwrap();
    run.next_action();
    run.next_action();
    assert!(run.on_probe(0, Ok(ProbeResponse { status: 401, total_pages: Some("9".to_string()) })));
    assert_eq!(run.run(0).phase(), Phase::Failed);
    assert_eq!(run.run(0).total_pages(), 0);
    assert!(run.run(0).is_cancelled());
    assert!(matches!(run.run(0).outcome(), Some(Err(ProjectError::Unauthorized))));
    // The other project is not touched.
    assert_eq!(run.run(1).phase(), Phase::Probing);
    assert!(run.on_probe(1, announce("1")));
    assert_eq!(run.next_action(), Action::Fetch { index: 1, project: ProjectId(2), page: 1 });
    assert!(run.on_page(1, 1, Ok(vec![])));
    assert_eq!(run.next_action(), Action::Finished);
    assert_eq!(run.summary().failed_projects, vec![ProjectId(1)]);
}

#[test]
fn a_probe_that_does_not_get_through_fails_the_project() {
    let mut run = Orchestrator::new(&vec![ProjectId(1)], 2).unwrap();
    run.next_action();
    assert!(run.on_probe(0, Err(FetchError::Transport("timed out".to_string()))));
    assert_eq!(run.run(0).phase(), Phase::Failed);
    assert!(!run.run(0).is_cancelled());
    assert!(matches!(run.run(0).failure(), Some(ProjectError::ProbeFailed(cause)) if cause == "timed out"));
    assert_eq!(run.next_action(), Action::Finished);
}

#[test]
fn a_page_failure_does_not_stop_its_siblings() {
    let mut run = Orchestrator::new(&vec![ProjectId(1)], 1).unwrap();
    run.next_action();
    run.on_probe(0, announce("3"));
    assert_eq!(run.next_action(), Action::Fetch { index: 0, project: ProjectId(1), page: 1 });
    assert!(run.on_page(0, 1, Err(FetchError::Parse("unexpected end".to_string()))));
    assert_eq!(run.run(0).page_state(1), Some(PageState::Failed));
    assert_eq!(run.run(0).phase(), Phase::Fetching);
    assert_eq!(run.next_action(), Action::Fetch { index: 0, project: ProjectId(1), page: 2 });
    assert!(run.on_page(0, 2, Ok(vec![commit("a", "a@x", "2021-01-02", 4)])));
    assert_eq!(run.next_action(), Action::Fetch { index: 0, project: ProjectId(1), page: 3 });
    assert!(run.on_page(0, 3, Err(FetchError::Transport("later".to_string()))));
    assert_eq!(run.next_action(), Action::Finished);
    assert_eq!(run.run(0).phase(), Phase::Failed);
    // The first failure is the one reported.
    assert!(matches!(run.run(0).failure(), Some(ProjectError::ParseFailed(cause)) if cause == "unexpected end"));
    assert_eq!(
        run.run(0).aggregate().get("2021-01-02", "a@x"),
        Some(Commits { times: 1, additions: 4, deletions: 0 })
    );
    assert_eq!(run.combined().unwrap().day_count(), 0);
}

#[test]
fn unauthorized_overrides_an_earlier_failure() {
    let mut run = ProjectRun::new(ProjectId(1));
    run.begin_probe();
    run.probed(Ok(3));
    run.start_page();
    run.start_page();
    assert!(run.page_done(1, Err(FetchError::Transport("reset".to_string()))));
    assert!(run.page_done(2, Err(FetchError::Unauthorized)));
    assert!(run.is_cancelled());
    assert_eq!(run.start_page(), None);
    assert_eq!(run.phase(), Phase::Failed);
    assert!(matches!(run.failure(), Some(ProjectError::Unauthorized)));
    assert_eq!(run.page_state(3), Some(PageState::Pending));
}

#[test]
fn a_commit_delivered_twice_counts_once() {
    let mut run = ProjectRun::new(ProjectId(1));
    run.begin_probe();
    run.probed(Ok(2));
    run.start_page();
    run.start_page();
    let page = || vec![commit("a", "a@x", "2021-01-02", 4), commit("b", "a@x", "2021-01-02", 6)];
    assert!(run.page_done(1, Ok(page())));
    let mut again = page();
    again.push(commit("a", "a@x", "2021-01-02", 4));
    again.push(commit("c", "a@x", "2021-01-03", 1));
    assert!(run.page_done(2, Ok(again)));
    assert_eq!(run.phase(), Phase::Done);
    assert_eq!(run.store().len(), 3);
    assert_eq!(run.aggregate().get("2021-01-02", "a@x"), Some(Commits { times: 2, additions: 10, deletions: 0 }));
    assert_eq!(run.aggregate().get("2021-01-03", "a@x"), Some(Commits { times: 1, additions: 1, deletions: 0 }));
    let rows = run.store().rows();
    assert_eq!(rows.iter().map(|r| r.full_id.as_str()).collect::<Vec<_>>(), vec!["a", "b", "c"]);
    assert!(rows.iter().all(|r| r.project_id == 1));
}

#[test]
fn a_page_that_does_not_fit_fails_whole() {
    let mut run = Orchestrator::with_capacity(&vec![ProjectId(1)], 2, 3).unwrap();
    run.next_action();
    run.on_probe(0, announce("2"));
    run.next_action();
    run.next_action();
    assert!(run.on_page(0, 1, Ok(vec![commit("a", "a@x", "2021-01-02", 1), commit("b", "a@x", "2021-01-02", 1)])));
    assert!(run.on_page(0, 2, Ok(vec![commit("c", "a@x", "2021-01-02", 1), commit("d", "a@x", "2021-01-02", 1)])));
    assert_eq!(run.run(0).page_state(2), Some(PageState::Failed));
    assert_eq!(run.run(0).phase(), Phase::Failed);
    assert!(matches!(run.run(0).failure(), Some(ProjectError::AggregateFull)));
    assert_eq!(run.run(0).store().len(), 2);
    assert_eq!(
        run.run(0).aggregate().get("2021-01-02", "a@x"),
        Some(Commits { times: 2, additions: 2, deletions: 0 })
    );
}

#[test]
fn combined_refuses_more_than_the_capacity() {
    let mut run = Orchestrator::with_capacity(&vec![ProjectId(1), ProjectId(2)], 2, 2).unwrap();
    run.next_action();
    run.next_action();
    run.on_probe(0, announce("1"));
    run.on_probe(1, announce("1"));
    run.next_action();
    run.next_action();
    assert!(run.on_page(0, 1, Ok(vec![commit("a", "a@x", "2021-01-02", 1), commit("b", "a@x", "2021-01-02", 1)])));
    assert!(run.on_page(1, 1, Ok(vec![commit("a", "a@x", "2021-01-02", 1)])));
    assert_eq!(run.summary().succeeded, 2);
    assert!(run.combined().is_err());
}

#[test]
fn combined_merges_the_projects_that_are_done() {
    let mut run = Orchestrator::new(&vec![ProjectId(1), ProjectId(2), ProjectId(3)], 8).unwrap();
    for _ in 0..3 {
        run.next_action();
    }
    for index in 0..3 {
        run.on_probe(index, announce("1"));
    }
    for _ in 0..3 {
        assert!(matches!(run.next_action(), Action::Fetch { page: 1, .. }));
    }
    assert_eq!(run.in_flight(), 3);
    // The same commit identifier in two projects counts in both.
    assert!(run.on_page(2, 1, Ok(vec![commit("a", "a@x", "2021-01-02", 1), commit("z", "b@x", "2021-01-01", 8)])));
    assert!(run.on_page(0, 1, Ok(vec![commit("a", "a@x", "2021-01-02", 10)])));
    // Not everything is done yet.
    assert_eq!(run.next_action(), Action::Wait);
    let so_far = run.combined().unwrap();
    assert_eq!(so_far.get("2021-01-02", "a@x"), Some(Commits { times: 2, additions: 11, deletions: 0 }));
    assert!(run.on_page(1, 1, Ok(vec![commit("q", "a@x", "2021-01-02", 100)])));
    assert_eq!(run.next_action(), Action::Finished);
    let total = run.combined().unwrap();
    assert_eq!(total.get("2021-01-02", "a@x"), Some(Commits { times: 3, additions: 111, deletions: 0 }));
    assert_eq!(total.get("2021-01-01", "b@x"), Some(Commits { times: 1, additions: 8, deletions: 0 }));
    assert_eq!(total.records_counted(), 4);
    assert_eq!(total.date_at(0), "2021-01-01");
    assert_eq!(total.date_at(1), "2021-01-02");
}

#[test]
fn probes_do_not_count_against_the_limit() {
    let projects: Vec<ProjectId> = (0..5).map(ProjectId).collect();
    let mut run = Orchestrator::new(&projects, 1).unwrap();
    for index in 0..5 {
        assert_eq!(run.next_action(), Action::Probe { index, project: ProjectId(index as u32) });
    }
    assert_eq!(run.in_flight(), 0);
    assert_eq!(run.next_action(), Action::Wait);
    run.on_probe(3, announce("2"));
    assert_eq!(run.next_action(), Action::Fetch { index: 3, project: ProjectId(3), page: 1 });
    assert_eq!(run.next_action(), Action::Wait);
    run.on_probe(1, announce("1"));
    assert_eq!(run.next_action(), Action::Wait);
    run.on_page(3, 1, Ok(vec![]));
    // The project that comes first is served first.
    assert_eq!(run.next_action(), Action::Fetch { index: 1, project: ProjectId(1), page: 1 });
    assert_eq!(run.in_flight(), 1);
}

#[test]
fn pages_may_arrive_in_either_order() {
    let first = || vec![commit("a", "a@x", "2021-01-02", 4), commit("b", "b@x", "2021-01-03", 6)];
    let second = || vec![commit("b", "b@x", "2021-01-03", 6), commit("c", "a@x", "2021-01-02", 1)];
    let mut one = ProjectRun::new(ProjectId(1));
    let mut other = ProjectRun::new(ProjectId(1));
    for run in [&mut one, &mut other] {
        run.begin_probe();
        run.probed(Ok(2));
        run.start_page();
        run.start_page();
    }
    assert!(one.page_done(1, Ok(first())));
    assert!(one.page_done(2, Ok(second())));
    assert!(other.page_done(2, Ok(second())));
    assert!(other.page_done(1, Ok(first())));
    assert_eq!(one.phase(), Phase::Done);
    assert_eq!(other.phase(), Phase::Done);
    assert_eq!(one.store().len(), 3);
    assert_eq!(other.store().len(), 3);
    for (date, author) in [("2021-01-02", "a@x"), ("2021-01-03", "b@x")] {
        assert_eq!(one.aggregate().get(date, author), other.aggregate().get(date, author));
    }
    assert_eq!(one.aggregate().get("2021-01-02", "a@x"), Some(Commits { times: 2, additions: 5, deletions: 0 }));
    assert_eq!(one.aggregate().get("2021-01-03", "b@x"), Some(Commits { times: 1, additions: 6, deletions: 0 }));
    assert_eq!(
        commit_stats::csv::generate(one.aggregate()),
        commit_stats::csv::generate(other.aggregate())
    );
    assert_eq!(one.page_state(1), other.page_state(1));
    assert_eq!(one.page_state(2), other.page_state(2));
}

#[test]
fn a_run_that_has_ended_stays_as_it_is() {
    let mut run = ProjectRun::new(ProjectId(1));
    run.begin_probe();
    run.probed(Ok(1));
    run.start_page();
    assert!(run.page_done(1, Ok(vec![commit("a", "a@x", "2021-01-02", 4)])));
    assert_eq!(run.phase(), Phase::Done);
    assert!(!run.begin_probe());
    assert!(!run.probed(Ok(5)));
    assert_eq!(run.start_page(), None);
    assert!(!run.page_done(1, Err(FetchError::Unauthorized)));
    assert_eq!(run.phase(), Phase::Done);
    assert_eq!(run.total_pages(), 1);
    assert!(!run.is_cancelled());
    assert!(run.failure().is_none());
    assert_eq!(run.aggregate().get("2021-01-02", "a@x"), Some(Commits { times: 1, additions: 4, deletions: 0 }));
}
