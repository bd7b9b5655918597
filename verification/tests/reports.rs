use commit_stats::calendar::{
    is_monday, iso_text, month_period, period, previous_month, stamp_text, week_period, Date, Period,
};
use commit_stats::config::{default_config, initial_config, Author, Config, ProjectId, DEFAULT_CONCURRENT};
use commit_stats::report::{
    create, file_name, gen_file, gen_report, has_project, row_for, title, RecordPerAccount, RecordPerAuthor, Report,
    MONTHLY, REPORT_COLUMNS, SHEET_NAME, WEEKLY,
};

fn date(year: i32, month: u32, day: u32) -> Date {
    Date { year, month, day }
}

fn row(project: u32, account: &str, commit_times: u32, additions: u32) -> RecordPerAccount {
    RecordPerAccount { project_id: ProjectId(project), account: account.to_string(), commit_times, additions }
}

fn config() -> Config {
    let mut c = default_config(4);
    c.account.insert("ls".to_string(), "李四".to_string());
    c.project.insert("706".to_string(), "  spaced name ".to_string());
    c
}

#[test]
fn default_config_has_the_samples() {
    let c = default_config(3);
    assert_eq!(c.threads, 3);
    assert_eq!(c.concurrent, 32);
    assert_eq!(DEFAULT_CONCURRENT, 32);
    assert_eq!(c.sqlite, "gitlab.db");
    assert_eq!(c.gitlab.addr, "http://devgit.z-bank.com/");
    assert_eq!(c.gitlab.token, "");
    assert_eq!(c.account.len(), 1);
    assert_eq!(c.account.get("zs"), Some(&"张三".to_string()));
    assert_eq!(c.project.len(), 1);
    assert_eq!(c.project.get("705"), Some(&"综合理财".to_string()));
}

#[test]
fn project_ids_come_from_the_keys() {
    let mut c = default_config(1);
    assert_eq!(c.project_ids(), Some(vec![ProjectId(705)]));
    c.project.insert("9".to_string(), "nine".to_string());
    c.project.insert("1000".to_string(), "thousand".to_string());
    // In the order of the keys, which are text.
    assert_eq!(c.project_ids(), Some(vec![ProjectId(1000), ProjectId(705), ProjectId(9)]));
    c.project.insert("seven".to_string(), "not a number".to_string());
    assert_eq!(c.project_ids(), None);
    let mut d = default_config(1);
    d.project.insert("4294967296".to_string(), "too large".to_string());
    assert_eq!(d.project_ids(), None);
}

#[test]
fn initial_config_counts_the_processors() {
    let c = initial_config();
    assert!(c.threads >= 1);
    assert_eq!(c.concurrent, 32);
    assert_eq!(c.project.get("705"), Some(&"综合理财".to_string()));
}

#[test]
fn display_names_fall_back_to_what_is_given() {
    let c = config();
    assert_eq!(ProjectId(705).display_name(&c), "综合理财");
    assert_eq!(ProjectId(7050).display_name(&c), "7050");
    assert_eq!(ProjectId(0).display_name(&c), "0");
    assert_eq!(Author("zs".to_string()).display_name(&c), "张三");
    assert_eq!(Author("ls".to_string()).display_name(&c), "李四");
    assert_eq!(Author("ww".to_string()).display_name(&c), "ww");
    assert_eq!(Author("".to_string()).display_name(&c), "");
}

#[test]
fn weekly_report_is_due_on_mondays() {
    assert_eq!(
        week_period(date(2024, 1, 1)),
        Some(Period { start: date(2023, 12, 25), end: date(2024, 1, 1), days: 7 })
    );
    assert_eq!(
        week_period(date(2020, 12, 14)),
        Some(Period { start: date(2020, 12, 7), end: date(2020, 12, 14), days: 7 })
    );
    assert_eq!(
        week_period(date(2024, 3, 4)),
        Some(Period { start: date(2024, 2, 26), end: date(2024, 3, 4), days: 7 })
    );
    for day in 2..8 {
        assert_eq!(week_period(date(2024, 1, day)), None);
    }
    assert_eq!(week_period(date(2024, 2, 30)), None);
    assert_eq!(week_period(date(2024, 13, 1)), None);
    assert_eq!(week_period(date(2024, 0, 0)), None);
}

#[test]
fn monthly_report_is_due_on_the_first() {
    assert_eq!(
        month_period(date(2024, 3, 1)),
        Some(Period { start: date(2024, 2, 1), end: date(2024, 3, 1), days: 29 })
    );
    assert_eq!(
        month_period(date(2023, 3, 1)),
        Some(Period { start: date(2023, 2, 1), end: date(2023, 3, 1), days: 28 })
    );
    assert_eq!(
        month_period(date(2024, 1, 1)),
        Some(Period { start: date(2023, 12, 1), end: date(2024, 1, 1), days: 31 })
    );
    assert_eq!(month_period(date(2024, 3, 2)), None);
    assert_eq!(month_period(date(2024, 3, 31)), None);
    assert_eq!(month_period(date(2024, 13, 1)), None);
    assert_eq!(month_period(date(2024, 0, 1)), None);
}

#[test]
fn previous_month_wraps_the_year() {
    assert_eq!(previous_month(date(2024, 1, 15)), Some(date(2023, 12, 1)));
    assert_eq!(previous_month(date(2024, 12, 31)), Some(date(2024, 11, 1)));
    assert_eq!(previous_month(date(i32::MIN, 1, 1)), None);
    assert_eq!(previous_month(date(i32::MIN, 2, 1)), Some(date(i32::MIN, 1, 1)));
    assert_eq!(previous_month(date(2024, 0, 1)), None);
}

#[test]
fn a_period_has_at_least_one_day() {
    let end = date(2024, 1, 8);
    let start = Some(date(2024, 1, 1));
    assert_eq!(period(start, end, Some(7)), Some(Period { start: date(2024, 1, 1), end, days: 7 }));
    assert_eq!(period(start, end, Some(1)).map(|p| p.days), Some(1));
    assert_eq!(period(start, end, Some(u32::MAX as i64)).map(|p| p.days), Some(u32::MAX));
    assert_eq!(period(start, end, Some(0)), None);
    assert_eq!(period(start, end, Some(-7)), None);
    assert_eq!(period(start, end, Some(u32::MAX as i64 + 1)), None);
    assert_eq!(period(start, end, None), None);
    assert_eq!(period(None, end, Some(7)), None);
    assert!(is_monday(Some(0)));
    assert!(!is_monday(Some(1)));
    assert!(!is_monday(Some(6)));
    assert!(!is_monday(None));
}

#[test]
fn dates_are_written_after_their_patterns() {
    assert_eq!(iso_text(date(2024, 1, 1)), Some("2024-01-01".to_string()));
    assert_eq!(iso_text(date(2020, 12, 11)), Some("2020-12-11".to_string()));
    assert_eq!(iso_text(date(987, 6, 5)), Some("0987-06-05".to_string()));
    assert_eq!(iso_text(date(2023, 2, 29)), None);
    assert_eq!(stamp_text(date(2024, 1, 1)), Some("20240101".to_string()));
    assert_eq!(stamp_text(date(2020, 12, 11)), Some("20201211".to_string()));
    assert_eq!(stamp_text(date(2020, 12, 32)), None);
}

#[test]
fn report_adds_up_by_account() {
    let mut report = Report::new();
    assert!(report.is_empty());
    assert!(report.add(row(705, "zs", 3, 100)));
    assert!(report.add(row(706, "zs", 2, 50)));
    assert!(report.add(row(705, "ls", 1, 7)));
    assert!(report.add(row(705, "zs", 1, 1)));
    assert_eq!(report.len(), 2);
    let ls = report.record_at(0);
    assert_eq!(ls.accounts, vec!["ls".to_string()]);
    assert_eq!(ls.projects, vec![ProjectId(705)]);
    assert_eq!((ls.commit_times, ls.additions, ls.additions_per_day), (1, 7, 0));
    let zs = report.record_at(1);
    assert_eq!(zs.accounts, vec!["zs".to_string()]);
    assert_eq!(zs.projects, vec![ProjectId(705), ProjectId(706)]);
    assert_eq!((zs.commit_times, zs.additions, zs.additions_per_day), (6, 151, 0));
}

#[test]
fn report_refuses_totals_that_do_not_fit() {
    let mut report = Report::new();
    assert!(report.add(row(1, "zs", u32::MAX, 5)));
    assert!(!report.add(row(2, "zs", 1, 5)));
    assert!(!report.add(row(2, "zs", 0, u32::MAX)));
    assert!(report.add(row(2, "ls", 1, 5)));
    let zs = report.record_at(1);
    assert_eq!(zs.projects, vec![ProjectId(1)]);
    assert_eq!((zs.commit_times, zs.additions), (u32::MAX, 5));
    assert!(report.add(row(3, "zs", 0, u32::MAX - 5)));
    assert_eq!(report.record_at(1).additions, u32::MAX);
}

#[test]
fn gen_report_sets_additions_per_day() {
    let rows = vec![row(705, "zs", 3, 100), row(706, "zs", 2, 50), row(705, "ls", 1, 6)];
    let report = gen_report(&rows, 7).unwrap();
    assert_eq!(report.len(), 2);
    assert_eq!(report.record_at(0).additions_per_day, 0);
    assert_eq!(report.record_at(1).additions, 150);
    assert_eq!(report.record_at(1).additions_per_day, 21);
    let monthly = gen_report(&rows, 31).unwrap();
    assert_eq!(monthly.record_at(1).additions_per_day, 4);
    let daily = gen_report(&rows, 1).unwrap();
    assert_eq!(daily.record_at(0).additions_per_day, 6);
    assert_eq!(daily.record_at(1).additions_per_day, 150);
    assert!(gen_report(&vec![], 7).unwrap().is_empty());
}

#[test]
fn gen_report_fails_without_days_or_room() {
    let rows = vec![row(705, "zs", 3, 100)];
    assert!(gen_report(&rows, 0).is_none());
    assert!(gen_report(&vec![], 0).is_none());
    let too_many = vec![row(1, "zs", 1, u32::MAX), row(2, "zs", 1, 1), row(3, "ls", 1, 1)];
    assert!(gen_report(&too_many, 7).is_none());
}

#[test]
fn has_project_looks_for_the_identifier() {
    let projects = vec![ProjectId(1), ProjectId(705)];
    assert!(has_project(&projects, ProjectId(705)));
    assert!(!has_project(&projects, ProjectId(70)));
    assert!(!has_project(&vec![], ProjectId(0)));
}

#[test]
fn rows_name_projects_and_authors() {
    let c = config();
    let record = RecordPerAuthor {
        projects: vec![ProjectId(705), ProjectId(9), ProjectId(706)],
        accounts: vec!["zs".to_string(), "zs2".to_string()],
        commit_times: 6,
        additions: 151,
        additions_per_day: 21,
    };
    let r = row_for(&record, &c).unwrap();
    // One project to a line; white space at either end of the whole is trimmed.
    assert_eq!(r.projects, "综合理财\n9\n  spaced name");
    assert_eq!(r.accounts, "zs\nzs2");
    assert_eq!(r.name, "张三");
    assert_eq!((r.commit_times, r.additions, r.additions_per_day), (6, 151, 21));

    let unknown = RecordPerAuthor {
        projects: vec![],
        accounts: vec!["ww".to_string()],
        commit_times: 0,
        additions: 0,
        additions_per_day: 0,
    };
    let r = row_for(&unknown, &c).unwrap();
    assert_eq!(r.projects, "");
    assert_eq!(r.accounts, "ww");
    assert_eq!(r.name, "ww");

    let nobody =
        RecordPerAuthor { projects: vec![], accounts: vec![], commit_times: 0, additions: 0, additions_per_day: 0 };
    assert!(row_for(&nobody, &c).is_none());
}

#[test]
fn titles_and_file_names() {
    assert_eq!(REPORT_COLUMNS, 6);
    assert_eq!(title(), vec!["项目", "账号", "姓名", "提交次数", "新增代码总行数", "日均新增代码行数"]);
    assert_eq!(file_name("周报", "20201214"), "周报-20201214.xlsx");
    assert_eq!(file_name(MONTHLY, "20240301"), "月报-20240301.xlsx");
    assert_eq!(WEEKLY, "周报");
    assert_eq!(SHEET_NAME, "代码量统计");
}

#[test]
fn an_empty_report_writes_no_file() {
    let c = config();
    assert!(gen_file(&Report::new(), WEEKLY, "20201214", &c).is_none());
    assert!(create(&Report::new(), &Report::new(), "20201214", &c).is_empty());
}

#[test]
fn create_writes_the_weekly_file_before_the_monthly() {
    let c = config();
    let week = gen_report(&vec![row(705, "zs", 3, 100), row(706, "ls", 2, 50)], 7).unwrap();
    let month = gen_report(&vec![row(705, "zs", 30, 3100)], 31).unwrap();

    let files = create(&week, &month, "20240101", &c);
    assert_eq!(files.len(), 2);
    assert_eq!(files[0].name, "周报-20240101.xlsx");
    assert_eq!(files[0].sheet, "代码量统计");
    assert_eq!(files[0].title, title());
    assert_eq!(files[0].rows.len(), 2);
    assert_eq!(files[0].rows[0].name, "李四");
    assert_eq!(files[0].rows[0].projects, "spaced name");
    assert_eq!(files[0].rows[0].additions_per_day, 7);
    assert_eq!(files[0].rows[1].name, "张三");
    assert_eq!(files[0].rows[1].projects, "综合理财");
    assert_eq!(files[0].rows[1].additions_per_day, 14);
    assert_eq!(files[1].name, "月报-20240101.xlsx");
    assert_eq!(files[1].rows.len(), 1);
    assert_eq!(files[1].rows[0].commit_times, 30);
    assert_eq!(files[1].rows[0].additions_per_day, 100);

    let only_month = create(&Report::new(), &month, "20240201", &c);
    assert_eq!(only_month.len(), 1);
    assert_eq!(only_month[0].name, "月报-20240201.xlsx");
    let only_week = create(&week, &Report::new(), "20240108", &c);
    assert_eq!(only_week.len(), 1);
    assert_eq!(only_week[0].name, "周报-20240108.xlsx");
}
