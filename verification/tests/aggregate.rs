use commit_stats::aggregate::{AggregateFull, Commits, RunAggregate, CAPACITY};
use commit_stats::csv::{commits_to_string, generate};
use commit_stats::record::{Record, Stats};

fn commit(id: &str, email: &str, created_at: &str, parents: usize, additions: u32, deletions: u32) -> Record {
    Record {
        full_id: id.to_string(),
        short_id: String::new(),
        author_name: String::new(),
        author_email: email.to_string(),
        authored_date: String::new(),
        committer_name: String::new(),
        committer_email: String::new(),
        committed_date: String::new(),
        created_at: created_at.to_string(),
        title: String::new(),
        message: String::new(),
        parent_ids: (0..parents).map(|p| format!("parent{}", p)).collect(),
        stats: Stats { additions, deletions },
    }
}

fn entries(a: &RunAggregate) -> Vec<(String, String, Commits)> {
    let mut all = Vec::new();
    for i in 0..a.day_count() {
        for j in 0..a.author_count(i) {
            all.push((a.date_at(i).clone(), a.author_at(i, j).clone(), a.commits_at(i, j)));
        }
    }
    all
}

fn sample() -> Vec<Record> {
    vec![
        commit("1", "b@x", "2021-03-02T10:00:00Z", 1, 10, 1),
        commit("2", "a@x", "2021-03-02T11:00:00Z", 1, 20, 2),
        commit("3", "a@x", "2021-03-01T09:00:00Z", 0, 30, 3),
        commit("4", "a@x", "2021-03-02T23:59:59Z", 2, 4000, 4000),
        commit("5", "b@x", "2021-03-02T12:00:00Z", 1, 50, 5),
        commit("6", "c@x", "2021-02-28", 1, 0, 0),
        commit("7", "a@x", "short", 1, 7, 70),
    ]
}

#[test]
fn record_date_and_merge() {
    let r = commit("1", "a@x", "2020-12-11T12:12:12.000+08:00", 1, 0, 0);
    assert_eq!(r.date(), "2020-12-11");
    assert!(!r.is_merge());
    assert!(!commit("1", "a@x", "", 0, 0, 0).is_merge());
    assert!(commit("1", "a@x", "", 2, 0, 0).is_merge());
    assert!(commit("1", "a@x", "", 3, 0, 0).is_merge());
    assert_eq!(commit("1", "a@x", "2020", 1, 0, 0).date(), "2020");
    assert_eq!(commit("1", "a@x", "", 1, 0, 0).date(), "");
    let copy = r.duplicate();
    assert_eq!(copy.full_id, r.full_id);
    assert_eq!(copy.created_at, r.created_at);
    assert_eq!(copy.parent_ids, r.parent_ids);
    assert_eq!(copy.stats, r.stats);
}

#[test]
fn fold_accumulates_by_date_and_author() {
    let mut a = RunAggregate::new();
    assert_eq!(a.fold(&sample()), Ok(()));
    assert_eq!(
        entries(&a),
        vec![
            ("2021-02-28".to_string(), "c@x".to_string(), Commits { times: 1, additions: 0, deletions: 0 }),
            ("2021-03-01".to_string(), "a@x".to_string(), Commits { times: 1, additions: 30, deletions: 3 }),
            ("2021-03-02".to_string(), "a@x".to_string(), Commits { times: 1, additions: 20, deletions: 2 }),
            ("2021-03-02".to_string(), "b@x".to_string(), Commits { times: 2, additions: 60, deletions: 6 }),
            ("short".to_string(), "a@x".to_string(), Commits { times: 1, additions: 7, deletions: 70 }),
        ]
    );
    assert_eq!(a.records_counted(), 7);
    assert_eq!(a.get("2021-03-02", "b@x"), Some(Commits { times: 2, additions: 60, deletions: 6 }));
    assert_eq!(a.get("2021-03-02", "c@x"), None);
    assert_eq!(a.get("2021-03-03", "a@x"), None);
}

#[test]
fn fold_gives_the_same_in_any_order_and_partition() {
    let all = sample();
    let mut whole = RunAggregate::new();
    whole.fold(&all).unwrap();

    let mut reversed = RunAggregate::new();
    let mut backwards = sample();
    backwards.reverse();
    reversed.fold(&backwards).unwrap();
    assert_eq!(entries(&reversed), entries(&whole));

    // Three pages, folded last to first.
    let mut paged = RunAggregate::new();
    let pages = [&all[5..], &all[2..5], &all[..2]];
    for page in pages {
        paged.fold(&page.to_vec()).unwrap();
    }
    assert_eq!(entries(&paged), entries(&whole));

    // One record at a time, in a shuffled order.
    let mut single = RunAggregate::new();
    for i in [3usize, 0, 6, 2, 5, 1, 4] {
        single.fold(&vec![all[i].duplicate()]).unwrap();
    }
    assert_eq!(entries(&single), entries(&whole));
    assert_eq!(single.records_counted(), whole.records_counted());
}

#[test]
fn merge_commits_never_count() {
    let mut a = RunAggregate::new();
    a.fold(&vec![commit("m1", "a@x", "2021-03-02", 2, 5, 5), commit("m2", "b@x", "2021-03-03", 5, 1, 1)])
        .unwrap();
    assert_eq!(a.day_count(), 0);
    assert_eq!(entries(&a), vec![]);

    let mut with = RunAggregate::new();
    with.fold(&sample()).unwrap();
    let mut without = RunAggregate::new();
    let plain: Vec<Record> = sample().into_iter().filter(|r| r.parent_ids.len() <= 1).collect();
    without.fold(&plain).unwrap();
    assert_eq!(entries(&with), entries(&without));
}

#[test]
fn folding_never_lowers_a_count() {
    let mut a = RunAggregate::new();
    let mut before = entries(&a);
    for r in sample() {
        a.fold(&vec![r]).unwrap();
        let after = entries(&a);
        for (date, author, old) in &before {
            let new = a.get(date, author).unwrap();
            assert!(new.times >= old.times);
            assert!(new.additions >= old.additions);
            assert!(new.deletions >= old.deletions);
        }
        assert!(after.len() >= before.len());
        before = after;
    }
}

#[test]
fn fold_of_nothing_changes_nothing() {
    let mut a = RunAggregate::new();
    a.fold(&sample()).unwrap();
    let before = entries(&a);
    assert_eq!(a.fold(&vec![]), Ok(()));
    assert_eq!(entries(&a), before);
}

#[test]
fn count_takes_one_record() {
    let mut a = RunAggregate::new();
    a.count(&commit("1", "a@x", "2021-03-02T00:00:00Z", 1, 3, 4));
    a.count(&commit("2", "a@x", "2021-03-02T00:00:01Z", 1, 3, 4));
    a.count(&commit("3", "a@x", "2021-03-02T00:00:02Z", 2, 3, 4));
    assert_eq!(a.get("2021-03-02", "a@x"), Some(Commits { times: 2, additions: 6, deletions: 8 }));
    assert_eq!(a.records_counted(), 3);
}

#[test]
fn totals_of_large_commits_do_not_overflow() {
    let mut a = RunAggregate::new();
    let big = vec![
        commit("1", "a@x", "2021-03-02", 1, u32::MAX, u32::MAX),
        commit("2", "a@x", "2021-03-02", 1, u32::MAX, u32::MAX),
        commit("3", "a@x", "2021-03-02", 1, u32::MAX, 1),
    ];
    a.fold(&big).unwrap();
    assert_eq!(
        a.get("2021-03-02", "a@x"),
        Some(Commits { times: 3, additions: 3 * (u32::MAX as u64), deletions: 2 * (u32::MAX as u64) + 1 })
    );
}

#[test]
fn a_full_aggregate_refuses_the_whole_batch() {
    let mut a = RunAggregate::with_capacity(8);
    assert_eq!(a.records_capacity(), 8);
    a.fold(&sample()).unwrap();
    let before = entries(&a);
    let two = vec![commit("8", "a@x", "2021-03-05", 1, 1, 1), commit("9", "a@x", "2021-03-05", 1, 1, 1)];
    assert_eq!(a.fold(&two), Err(AggregateFull));
    assert_eq!(entries(&a), before);
    assert_eq!(a.records_counted(), 7);
    assert_eq!(a.fold(&two[..1].to_vec()), Ok(()));
    assert_eq!(a.records_counted(), 8);
    assert_eq!(a.fold(&vec![]), Ok(()));
    // Merge commits count against the capacity as well.
    assert_eq!(a.fold(&vec![commit("m", "a@x", "2021-03-05", 2, 1, 1)]), Err(AggregateFull));
}

#[test]
fn capacity_is_capped() {
    assert_eq!(RunAggregate::new().records_capacity(), CAPACITY);
    assert_eq!(RunAggregate::with_capacity(u64::MAX).records_capacity(), CAPACITY);
    assert_eq!(RunAggregate::with_capacity(0).records_capacity(), 0);
    assert_eq!(CAPACITY, 4294967295);
    let mut none = RunAggregate::with_capacity(0);
    assert_eq!(none.fold(&vec![commit("1", "a@x", "2021", 1, 1, 1)]), Err(AggregateFull));
    assert_eq!(none.fold(&vec![]), Ok(()));
}

#[test]
fn merge_adds_entry_by_entry() {
    let all = sample();
    let mut left = RunAggregate::new();
    left.fold(&all[..3].to_vec()).unwrap();
    let mut right = RunAggregate::new();
    right.fold(&all[3..].to_vec()).unwrap();
    let mut whole = RunAggregate::new();
    whole.fold(&all).unwrap();

    let mut merged = RunAggregate::new();
    merged.merge(&left).unwrap();
    merged.merge(&right).unwrap();
    assert_eq!(entries(&merged), entries(&whole));
    assert_eq!(merged.records_counted(), 7);

    let mut other_way = RunAggregate::new();
    other_way.merge(&right).unwrap();
    other_way.merge(&left).unwrap();
    assert_eq!(entries(&other_way), entries(&whole));

    // Merging into an aggregate that has entries already.
    left.merge(&right).unwrap();
    assert_eq!(entries(&left), entries(&whole));
}

#[test]
fn merge_refuses_what_does_not_fit() {
    let all = sample();
    let mut small = RunAggregate::with_capacity(5);
    small.fold(&all[..3].to_vec()).unwrap();
    let mut other = RunAggregate::new();
    other.fold(&all[3..].to_vec()).unwrap();
    let before = entries(&small);
    assert_eq!(small.merge(&other), Err(AggregateFull));
    assert_eq!(entries(&small), before);
    assert_eq!(small.records_counted(), 3);
    assert_eq!(small.merge(&RunAggregate::new()), Ok(()));
}

#[test]
fn commits_to_string_writes_three_cells() {
    let c = Commits { times: 2, additions: 60, deletions: 6 };
    assert_eq!(commits_to_string(&c, ","), ",2,60,6");
    assert_eq!(commits_to_string(&c, " | "), " | 2 | 60 | 6");
    assert_eq!(commits_to_string(&Commits { times: 0, additions: 0, deletions: 0 }, ""), "000");
}

#[test]
fn generate_of_nothing_is_the_headings() {
    assert_eq!(generate(&RunAggregate::new()), "date\n\n");
}

#[test]
fn generate_writes_the_latest_date_first() {
    let mut a = RunAggregate::new();
    a.fold(&sample()).unwrap();
    let expected = "date,c@x,,,a@x,,,b@x,,\n\
                    ,times,additions,deletions,times,additions,deletions,times,additions,deletions\n\
                    short,,,,1,7,70,,,\n\
                    2021-03-02,,,,1,20,2,2,60,6\n\
                    2021-03-01,,,,1,30,3\n\
                    2021-02-28,1,0,0";
    assert_eq!(generate(&a), expected);
}

#[test]
fn generate_with_one_author() {
    let mut a = RunAggregate::new();
    a.fold(&vec![
        commit("1", "zs", "2020-12-11T12:12:12", 1, 1, 0),
        commit("2", "zs", "2020-12-12T12:12:12", 1, 2, 1),
        commit("3", "zs", "2020-12-12T13:00:00", 1, 3, 1),
    ])
    .unwrap();
    assert_eq!(generate(&a), "date,zs,,\n,times,additions,deletions\n2020-12-12,2,5,2\n2020-12-11,1,1,0");
}
