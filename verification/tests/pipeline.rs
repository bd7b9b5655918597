use commit_stats::aggregate::{Commits, RunAggregate};
use commit_stats::config::ProjectId;
use commit_stats::error::{FetchError, ProjectError};
use commit_stats::orchestrator::{Action, Orchestrator};
use commit_stats::probe::ProbeResponse;
use commit_stats::project::{PageState, Phase};
use commit_stats::record::{Record, Stats};

fn record(id: &str, email: &str, created_at: &str, parents: usize, additions: u32, deletions: u32) -> Record {
    let mut parent_ids = Vec::new();
    for p in 0..parents {
        parent_ids.push(format!("parent-{}", p));
    }
    Record {
        full_id: id.to_string(),
        short_id: id.chars().take(8).collect(),
        author_name: "Someone".to_string(),
        author_email: email.to_string(),
        authored_date: created_at.to_string(),
        committer_name: "Someone".to_string(),
        committer_email: email.to_string(),
        committed_date: created_at.to_string(),
        created_at: created_at.to_string(),
        title: "title".to_string(),
        message: "message".to_string(),
        parent_ids,
        stats: Stats { additions, deletions },
    }
}

fn pages(n: &str) -> Result<ProbeResponse, FetchError> {
    Ok(ProbeResponse { status: 200, total_pages: Some(n.to_string()) })
}

#[test]
fn three_pages_of_one_author_make_one_entry() {
    let mut run = Orchestrator::new(&vec![ProjectId(705)], 2).unwrap();
    assert_eq!(run.next_action(), Action::Probe { index: 0, project: ProjectId(705) });
    assert!(run.on_probe(0, pages("3")));
    assert_eq!(run.next_action(), Action::Fetch { index: 0, project: ProjectId(705), page: 1 });
    assert_eq!(run.next_action(), Action::Fetch { index: 0, project: ProjectId(705), page: 2 });
    assert_eq!(run.next_action(), Action::Wait);
    let day = "2020-12-11T10:00:00.000+08:00";
    assert!(run.on_page(0, 2, Ok(vec![])));
    assert_eq!(run.next_action(), Action::Fetch { index: 0, project: ProjectId(705), page: 3 });
    assert!(run.on_page(
        0,
        3,
        Ok(vec![
            record("c3", "a@mail.com", day, 1, 5, 1),
            record("c4", "a@mail.com", day, 1, 7, 0),
            record("c5", "a@mail.com", day, 0, 11, 2),
        ])
    ));
    assert!(run.on_page(
        0,
        1,
        Ok(vec![record("c1", "a@mail.com", day, 1, 1, 10), record("c2", "a@mail.com", day, 1, 2, 20)])
    ));
    assert_eq!(run.next_action(), Action::Finished);
    assert_eq!(run.run(0).phase(), Phase::Done);
    let total = run.combined().unwrap();
    assert_eq!(total.day_count(), 1);
    assert_eq!(total.author_count(0), 1);
    assert_eq!(total.date_at(0), "2020-12-11");
    assert_eq!(total.author_at(0, 0), "a@mail.com");
    assert_eq!(
        total.get("2020-12-11", "a@mail.com"),
        Some(Commits { times: 5, additions: 26, deletions: 33 })
    );
    let summary = run.summary();
    assert_eq!((summary.total, summary.succeeded, summary.failed), (1, 1, 0));
}

#[test]
fn a_failed_project_is_left_out_of_the_combined_aggregate() {
    let mut run = Orchestrator::new(&vec![ProjectId(1), ProjectId(2)], 4).unwrap();
    assert_eq!(run.next_action(), Action::Probe { index: 0, project: ProjectId(1) });
    assert_eq!(run.next_action(), Action::Probe { index: 1, project: ProjectId(2) });
    assert_eq!(run.next_action(), Action::Wait);
    assert!(run.on_probe(0, pages("1")));
    assert!(run.on_probe(1, pages("2")));
    assert_eq!(run.next_action(), Action::Fetch { index: 0, project: ProjectId(1), page: 1 });
    assert_eq!(run.next_action(), Action::Fetch { index: 1, project: ProjectId(2), page: 1 });
    assert_eq!(run.next_action(), Action::Fetch { index: 1, project: ProjectId(2), page: 2 });
    assert!(run.on_page(0, 1, Ok(vec![record("a1", "a@mail.com", "2021-01-02T00:00:00Z", 1, 3, 4)])));
    assert!(run.on_page(1, 1, Ok(vec![record("b1", "b@mail.com", "2021-01-03T00:00:00Z", 1, 100, 200)])));
    assert!(run.on_page(1, 2, Err(FetchError::Transport("connection reset".to_string()))));
    assert_eq!(run.next_action(), Action::Finished);

    let summary = run.summary();
    assert_eq!(summary.total, 2);
    assert_eq!(summary.succeeded, 1);
    assert_eq!(summary.failed, 1);
    assert_eq!(summary.failed_projects, vec![ProjectId(2)]);
    assert!(!summary.report_allowed(false));
    assert!(summary.report_allowed(true));

    assert_eq!(run.run(1).phase(), Phase::Failed);
    assert!(matches!(run.run(1).failure(), Some(ProjectError::FetchFailed(cause)) if cause == "connection reset"));
    // What was folded before the failure is still there to be had.
    assert_eq!(
        run.run(1).aggregate().get("2021-01-03", "b@mail.com"),
        Some(Commits { times: 1, additions: 100, deletions: 200 })
    );

    let total = run.combined().unwrap();
    assert_eq!(total.get("2021-01-02", "a@mail.com"), Some(Commits { times: 1, additions: 3, deletions: 4 }));
    assert_eq!(total.get("2021-01-03", "b@mail.com"), None);
    assert_eq!(total.day_count(), 1);
}

#[test]
fn never_more_in_flight_than_the_limit() {
    let projects = vec![ProjectId(1), ProjectId(2), ProjectId(3)];
    let mut run = Orchestrator::new(&projects, 2).unwrap();
    for index in 0..3 {
        assert!(matches!(run.next_action(), Action::Probe { .. }));
        assert!(run.on_probe(index, pages("4")));
    }
    let mut awaited: Vec<(usize, u16)> = Vec::new();
    let mut fetched = 0;
    loop {
        match run.next_action() {
            Action::Fetch { index, page, .. } => {
                awaited.push((index, page));
                fetched += 1;
                assert!(awaited.len() <= 2);
                assert_eq!(run.in_flight(), awaited.len());
            }
            Action::Wait => {
                assert!(!awaited.is_empty());
                let (index, page) = awaited.remove(0);
                assert!(run.on_page(index, page, Ok(vec![])));
                assert_eq!(run.in_flight(), awaited.len());
            }
            Action::Finished => break,
            Action::Probe { .. } => panic!("every project was probed already"),
        }
    }
    assert_eq!(fetched, 12);
    assert_eq!(run.in_flight(), 0);
    assert_eq!(run.summary().succeeded, 3);
}

#[test]
fn unauthorized_page_stops_the_project() {
    let mut run = Orchestrator::new(&vec![ProjectId(9), ProjectId(10)], 2).unwrap();
    assert!(matches!(run.next_action(), Action::Probe { index: 0, .. }));
    assert!(matches!(run.next_action(), Action::Probe { index: 1, .. }));
    assert!(run.on_probe(0, pages("5")));
    assert!(run.on_probe(1, pages("1")));
    assert_eq!(run.next_action(), Action::Fetch { index: 0, project: ProjectId(9), page: 1 });
    assert_eq!(run.next_action(), Action::Fetch { index: 0, project: ProjectId(9), page: 2 });
    assert!(run.on_page(0, 1, Err(FetchError::Unauthorized)));
    assert!(run.run(0).is_cancelled());
    assert_eq!(run.run(0).phase(), Phase::Aggregating);
    // Pages 3 to 5 are never asked for; the other project goes on.
    assert_eq!(run.next_action(), Action::Fetch { index: 1, project: ProjectId(10), page: 1 });
    assert_eq!(run.next_action(), Action::Wait);
    // The page that was in flight completes and is dropped.
    assert!(run.on_page(0, 2, Ok(vec![record("x", "a@mail.com", "2021-01-02", 1, 1, 1)])));
    assert_eq!(run.run(0).page_state(2), Some(PageState::Discarded));
    assert_eq!(run.run(0).page_state(3), Some(PageState::Pending));
    assert_eq!(run.run(0).phase(), Phase::Failed);
    assert!(matches!(run.run(0).failure(), Some(ProjectError::Unauthorized)));
    assert_eq!(run.run(0).aggregate().day_count(), 0);
    assert!(run.on_page(1, 1, Ok(vec![])));
    assert_eq!(run.next_action(), Action::Finished);
    let summary = run.summary();
    assert_eq!((summary.succeeded, summary.failed), (1, 1));
}

#[test]
fn fold_skips_merge_commits() {
    let mut total = RunAggregate::new();
    let batch = vec![
        record("m", "a@mail.com", "2021-05-05T01:02:03Z", 2, 1000, 1000),
        record("n", "a@mail.com", "2021-05-05T01:02:03Z", 1, 1, 2),
    ];
    assert!(total.fold(&batch).is_ok());
    assert_eq!(total.get("2021-05-05", "a@mail.com"), Some(Commits { times: 1, additions: 1, deletions: 2 }));
    assert_eq!(total.records_counted(), 2);
}
