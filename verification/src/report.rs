//! Periodic reports: what each account committed in a period, by author, as
//! the rows of a spreadsheet.

use vstd::prelude::*;
use crate::config::{Author, Config, ProjectId};
use crate::str_map::StrMap;
use crate::text::{same, trim, trimmed, views};

verus! {

/// Name of the sheet that a report is written to.
pub const SHEET_NAME: &'static str = "代码量统计";

/// Kind of the report that covers a week.
pub const WEEKLY: &'static str = "周报";

/// Kind of the report that covers a month.
pub const MONTHLY: &'static str = "月报";

/// Number of columns of a report.
pub const REPORT_COLUMNS: usize = 6;

/// What one account committed to one project in a period.
#[derive(Clone, Debug)]
pub struct RecordPerAccount {
    pub project_id: ProjectId,
    pub account: String,
    pub commit_times: u32,
    pub additions: u32,
}

/// What one author committed in a period, over all projects.
#[derive(Clone, Debug)]
pub struct RecordPerAuthor {
    pub projects: Vec<ProjectId>,
    pub accounts: Vec<String>,
    pub commit_times: u32,
    pub additions: u32,
    pub additions_per_day: u32,
}

/// What a `RecordPerAuthor` holds, as plain values.
pub struct AuthorTotals {
    pub projects: Seq<ProjectId>,
    pub accounts: Seq<Seq<char>>,
    pub commit_times: u32,
    pub additions: u32,
    pub additions_per_day: u32,
}

impl View for RecordPerAuthor {
    type V = AuthorTotals;

    open spec fn view(&self) -> AuthorTotals {
        AuthorTotals {
            projects: self.projects@,
            accounts: views(self.accounts@),
            commit_times: self.commit_times,
            additions: self.additions,
            additions_per_day: self.additions_per_day,
        }
    }
}

/// `s` with `x` at its end, unless it holds `x` already.
pub open spec fn with_once<T>(s: Seq<T>, x: T) -> Seq<T> {
    if s.contains(x) {
        s
    } else {
        s.push(x)
    }
}

/// Whether a report takes a record: it does unless the author's totals
/// would no longer fit.
pub open spec fn takes(m: Map<Seq<char>, AuthorTotals>, account: Seq<char>, commit_times: u32, additions: u32) -> bool {
    m.contains_key(account) ==> m[account].commit_times + commit_times <= u32::MAX
        && m[account].additions + additions <= u32::MAX
}

/// A report after it took a record: the project and the account are noted
/// with the author, once each, and the counts are added to the author's.
pub open spec fn added(
    m: Map<Seq<char>, AuthorTotals>,
    project: ProjectId,
    account: Seq<char>,
    commit_times: u32,
    additions: u32,
) -> Map<Seq<char>, AuthorTotals> {
    if m.contains_key(account) {
        let e = m[account];
        m.insert(
            account,
            AuthorTotals {
                projects: with_once(e.projects, project),
                accounts: with_once(e.accounts, account),
                commit_times: (e.commit_times + commit_times) as u32,
                additions: (e.additions + additions) as u32,
                additions_per_day: e.additions_per_day,
            },
        )
    } else {
        m.insert(
            account,
            AuthorTotals {
                projects: seq![project],
                accounts: seq![account],
                commit_times,
                additions,
                additions_per_day: 0,
            },
        )
    }
}

/// What a `RecordPerAccount` holds, as plain values.
pub struct AccountTotals {
    pub project_id: ProjectId,
    pub account: Seq<char>,
    pub commit_times: u32,
    pub additions: u32,
}

impl View for RecordPerAccount {
    type V = AccountTotals;

    open spec fn view(&self) -> AccountTotals {
        AccountTotals {
            project_id: self.project_id,
            account: self.account@,
            commit_times: self.commit_times,
            additions: self.additions,
        }
    }
}

impl DeepView for RecordPerAccount {
    type V = AccountTotals;

    open spec fn deep_view(&self) -> AccountTotals {
        self@
    }
}

/// A report after it took the records `rows` in order; `None` where it does
/// not take one of them.
pub open spec fn added_all(m: Map<Seq<char>, AuthorTotals>, rows: Seq<AccountTotals>) -> Option<
    Map<Seq<char>, AuthorTotals>,
>
    decreases rows.len(),
{
    if rows.len() == 0 {
        Some(m)
    } else {
        match added_all(m, rows.drop_last()) {
            Some(before) => {
                let r = rows.last();
                if takes(before, r.account, r.commit_times, r.additions) {
                    Some(added(before, r.project_id, r.account, r.commit_times, r.additions))
                } else {
                    None
                }
            },
            None => None,
        }
    }
}

/// An author's totals with the additions per day of a period of `days` days.
pub open spec fn with_daily(e: AuthorTotals, days: u32) -> AuthorTotals {
    AuthorTotals { additions_per_day: e.additions / days, ..e }
}

/// The report of a period of `days` days over the records `rows`: `None`
/// where the period has no day or the totals of an author do not fit.
pub open spec fn spec_gen_report(rows: Seq<AccountTotals>, days: u32) -> Option<Map<Seq<char>, AuthorTotals>> {
    if days == 0 {
        None
    } else {
        match added_all(Map::empty(), rows) {
            Some(m) => Some(m.map_values(|e: AuthorTotals| with_daily(e, days))),
            None => None,
        }
    }
}

/// Whether `id` is among `projects`.
pub fn has_project(projects: &Vec<ProjectId>, id: ProjectId) -> (b: bool)
    ensures
        b == projects@.contains(id),
{
    let mut i: usize = 0;
    while i < projects.len()
        invariant
            i <= projects.len(),
            forall|j: int| 0 <= j < i ==> projects@[j] != id,
        decreases projects.len() - i,
    {
        if projects[i].0 == id.0 {
            assert(projects@[i as int] == id);
            return true;
        }
        i += 1;
    }
    false
}

/// The totals of the authors of a period, by account, in ascending order of
/// account.
#[derive(Clone, Debug)]
pub struct Report {
    authors: StrMap<RecordPerAuthor>,
}

impl Report {
    /// The accounts that have totals, ascending.
    pub closed spec fn accounts(&self) -> Seq<Seq<char>> {
        self.authors.keys()
    }

    /// The totals, each at the position of its account in `accounts()`.
    pub closed spec fn listed(&self) -> Seq<AuthorTotals> {
        Seq::new(self.authors.values().len(), |i: int| self.authors.values()[i]@)
    }

    /// The totals by account.
    pub closed spec fn view(&self) -> Map<Seq<char>, AuthorTotals> {
        Map::new(|k: Seq<char>| self.authors@.contains_key(k), |k: Seq<char>| self.authors@[k]@)
    }

    /// No account has totals twice.
    pub closed spec fn wf(&self) -> bool {
        self.authors.wf()
    }

    /// How the listing relates to the map: it lists the totals of every
    /// account once.
    pub proof fn lemma_listed(&self)
        requires
            self.wf(),
        ensures
            self.accounts().len() == self.listed().len(),
            forall|i: int|
                0 <= i < self.listed().len() ==> self@.contains_key(#[trigger] self.accounts()[i])
                    && self@[self.accounts()[i]] == self.listed()[i],
            forall|k: Seq<char>| self@.contains_key(k) ==> self.accounts().contains(k),
    {
        assert forall|i: int| 0 <= i < self.listed().len() implies self@.contains_key(
            #[trigger] self.accounts()[i],
        ) && self@[self.accounts()[i]] == self.listed()[i] by {
            self.authors.lemma_entry(i);
        }
    }

    /// A report without totals.
    pub fn new() -> (r: Self)
        ensures
            r.wf(),
            r@ == Map::<Seq<char>, AuthorTotals>::empty(),
            r.listed().len() == 0,
    {
        let r = Report { authors: StrMap::new() };
        assert(r@ =~= Map::<Seq<char>, AuthorTotals>::empty());
        r
    }

    /// The number of authors.
    pub fn len(&self) -> (n: usize)
        ensures
            n == self.listed().len(),
    {
        self.authors.len()
    }

    /// Whether no author has totals.
    pub fn is_empty(&self) -> (b: bool)
        ensures
            b == (self.listed().len() == 0),
    {
        self.authors.len() == 0
    }

    /// The totals at position `i` of the listing.
    pub fn record_at(&self, i: usize) -> (r: &RecordPerAuthor)
        requires
            self.wf(),
            i < self.listed().len(),
        ensures
            r@ == self.listed()[i as int],
    {
        self.authors.value_at(i)
    }

    /// Takes a record into the report, where the report takes it, which the
    /// result tells; else the report is left as it was.
    pub fn add(&mut self, record: RecordPerAccount) -> (taken: bool)
        requires
            old(self).wf(),
        ensures
            final(self).wf(),
            taken == takes(old(self)@, record.account@, record.commit_times, record.additions),
            taken ==> final(self)@ == added(
                old(self)@,
                record.project_id,
                record.account@,
                record.commit_times,
                record.additions,
            ),
            !taken ==> *final(self) == *old(self),
    {
        let ghost before = *self;
        let (i, found) = self.authors.find(record.account.as_str());
        if found {
            proof {
                before.authors.lemma_entry(i as int);
            }
            let known = self.authors.value_at(i);
            let times = match known.commit_times.checked_add(record.commit_times) {
                Some(n) => n,
                None => {
                    return false;
                },
            };
            let additions = match known.additions.checked_add(record.additions) {
                Some(n) => n,
                None => {
                    return false;
                },
            };
            let e = self.authors.value_mut(i);
            if !has_project(&e.projects, record.project_id) {
                e.projects.push(record.project_id);
            }
            if !crate::text::contains(&e.accounts, record.account.as_str()) {
                let ghost known = views(e.accounts@);
                e.accounts.push(record.account);
                assert(views(e.accounts@) =~= known.push(record.account@));
            }
            e.commit_times = times;
            e.additions = additions;
            proof {
                before.authors.lemma_value_changed(&self.authors, i as int);
                assert(self@ =~= added(
                    before@,
                    record.project_id,
                    record.account@,
                    record.commit_times,
                    record.additions,
                ));
            }
            true
        } else {
            let key = record.account.clone();
            let mut projects: Vec<ProjectId> = Vec::new();
            projects.push(record.project_id);
            let mut accounts: Vec<String> = Vec::new();
            accounts.push(record.account);
            let entry = RecordPerAuthor {
                projects,
                accounts,
                commit_times: record.commit_times,
                additions: record.additions,
                additions_per_day: 0,
            };
            proof {
                assert(entry@.projects =~= seq![record.project_id]);
                assert(entry@.accounts =~= seq![key@]);
            }
            self.authors.insert_at(i, key, entry);
            proof {
                assert(self@ =~= added(
                    before@,
                    record.project_id,
                    key@,
                    record.commit_times,
                    record.additions,
                ));
            }
            true
        }
    }

    /// Sets each author's additions per day for a period of `days` days.
    pub fn set_daily(&mut self, days: u32)
        requires
            old(self).wf(),
            days > 0,
        ensures
            final(self).wf(),
            final(self)@ == old(self)@.map_values(|e: AuthorTotals| with_daily(e, days)),
    {
        let ghost before = *self;
        let n = self.authors.len();
        let mut i: usize = 0;
        while i < n
            invariant
                i <= n,
                days > 0,
                before.wf(),
                self.wf(),
                n == before.authors.keys().len(),
                self.authors.keys() == before.authors.keys(),
                self.authors.values().len() == n,
                forall|j: int|
                    0 <= j < i ==> (#[trigger] self.authors.values()[j])@ == with_daily(
                        before.authors.values()[j]@,
                        days,
                    ),
                forall|j: int| i <= j < n ==> #[trigger] self.authors.values()[j] == before.authors.values()[j],
            decreases n - i,
        {
            let ghost now = *self;
            let e = self.authors.value_mut(i);
            e.additions_per_day = e.additions / days;
            proof {
                now.authors.lemma_value_changed(&self.authors, i as int);
            }
            i += 1;
        }
        proof {
            let target = before@.map_values(|e: AuthorTotals| with_daily(e, days));
            assert forall|k: Seq<char>| self@.contains_key(k) == target.contains_key(k) by {}
            assert forall|k: Seq<char>| #[trigger] self@.contains_key(k) implies self@[k] == target[k] by {
                let j = before.authors.keys().index_of(k);
                before.authors.lemma_entry(j);
                self.authors.lemma_entry(j);
            }
            assert(self@ =~= target);
        }
    }
}

/// The report of a period of `days` days over the records `rows`: the totals
/// of each author, with the additions per day. `None` where the period has
/// no day or the totals of an author do not fit.
pub fn gen_report(rows: &Vec<RecordPerAccount>, days: u32) -> (r: Option<Report>)
    ensures
        r is Some <==> spec_gen_report(rows.deep_view(), days) is Some,
        r matches Some(report) ==> report.wf() && Some(report@) == spec_gen_report(rows.deep_view(), days),
{
    if days == 0 {
        return None;
    }
    let ghost all = rows.deep_view();
    let mut report = Report::new();
    let n = rows.len();
    let mut i: usize = 0;
    assert(all.take(0) =~= Seq::empty());
    while i < n
        invariant
            i <= n,
            days > 0,
            n == rows@.len(),
            all == rows.deep_view(),
            report.wf(),
            added_all(Map::empty(), all.take(i as int)) == Some(report@),
        decreases n - i,
    {
        let row = &rows[i];
        let record = RecordPerAccount {
            project_id: row.project_id,
            account: row.account.clone(),
            commit_times: row.commit_times,
            additions: row.additions,
        };
        proof {
            assert(record@ == all[i as int]);
            assert(all.take(i + 1).drop_last() =~= all.take(i as int));
            assert(all.take(i + 1).last() == all[i as int]);
        }
        if !report.add(record) {
            proof {
                lemma_added_all_fails(Map::empty(), all, i + 1);
            }
            return None;
        }
        i += 1;
    }
    proof {
        assert(all.take(n as int) =~= all);
    }
    report.set_daily(days);
    Some(report)
}

/// Once a report does not take a record it takes none after it.
proof fn lemma_added_all_fails(m: Map<Seq<char>, AuthorTotals>, rows: Seq<AccountTotals>, n: int)
    requires
        0 <= n <= rows.len(),
        added_all(m, rows.take(n)) is None,
    ensures
        added_all(m, rows) is None,
    decreases rows.len() - n,
{
    if n == rows.len() {
        assert(rows.take(n) =~= rows);
    } else {
        assert(rows.take(n + 1).drop_last() =~= rows.take(n));
        lemma_added_all_fails(m, rows, n + 1);
    }
}

/// One row of a report.
#[derive(Clone, Debug)]
pub struct ReportRow {
    /// The names of the projects, one to a line.
    pub projects: String,
    /// The accounts, one to a line.
    pub accounts: String,
    /// The author's display name.
    pub name: String,
    pub commit_times: u32,
    pub additions: u32,
    pub additions_per_day: u32,
}

/// What a `ReportRow` holds, as plain values.
pub struct ReportRowView {
    pub projects: Seq<char>,
    pub accounts: Seq<char>,
    pub name: Seq<char>,
    pub commit_times: u32,
    pub additions: u32,
    pub additions_per_day: u32,
}

impl View for ReportRow {
    type V = ReportRowView;

    open spec fn view(&self) -> ReportRowView {
        ReportRowView {
            projects: self.projects@,
            accounts: self.accounts@,
            name: self.name@,
            commit_times: self.commit_times,
            additions: self.additions,
            additions_per_day: self.additions_per_day,
        }
    }
}

impl DeepView for ReportRow {
    type V = ReportRowView;

    open spec fn deep_view(&self) -> ReportRowView {
        self@
    }
}

/// The items of `parts`, each followed by a line break.
pub open spec fn lines(parts: Seq<Seq<char>>) -> Seq<char>
    decreases parts.len(),
{
    if parts.len() == 0 {
        Seq::empty()
    } else {
        lines(parts.drop_last()) + parts.last() + "\n"@
    }
}

/// The display names of `projects`.
pub open spec fn project_names(projects: Seq<ProjectId>, config: &Config) -> Seq<Seq<char>> {
    Seq::new(projects.len(), |i: int| projects[i].spec_display_name(config))
}

/// The display name of `account`.
pub open spec fn author_name(account: Seq<char>, config: &Config) -> Seq<char> {
    if config.account@.contains_key(account) {
        config.account@[account]@
    } else {
        account
    }
}

/// The row of an author's totals: the projects by name and the accounts,
/// one to a line and trimmed; the display name of the author's first
/// account; the counts.
pub open spec fn spec_row(e: AuthorTotals, config: &Config) -> ReportRowView {
    ReportRowView {
        projects: trimmed(lines(project_names(e.projects, config))),
        accounts: trimmed(lines(e.accounts)),
        name: author_name(e.accounts[0], config),
        commit_times: e.commit_times,
        additions: e.additions,
        additions_per_day: e.additions_per_day,
    }
}

/// The row of an author's totals. An author without an account has no row.
pub fn row_for(record: &RecordPerAuthor, config: &Config) -> (row: Option<ReportRow>)
    requires
        config.wf(),
    ensures
        row is Some <==> record@.accounts.len() > 0,
        row matches Some(r) ==> r@ == spec_row(record@, config),
{
    if record.accounts.len() == 0 {
        return None;
    }
    let mut projects = String::new();
    let mut i: usize = 0;
    assert(project_names(record@.projects, config).take(0) =~= Seq::empty());
    while i < record.projects.len()
        invariant
            i <= record.projects.len(),
            config.wf(),
            projects@ == lines(project_names(record@.projects, config).take(i as int)),
        decreases record.projects.len() - i,
    {
        let ghost names = project_names(record@.projects, config);
        proof {
            assert(names.take(i + 1).drop_last() =~= names.take(i as int));
            assert(names.take(i + 1).last() == record.projects@[i as int].spec_display_name(config));
        }
        let name = record.projects[i].display_name(config);
        projects.append(name.as_str());
        projects.append("\n");
        assert(projects@ =~= lines(names.take(i + 1)));
        i += 1;
    }
    assert(project_names(record@.projects, config).take(record.projects.len() as int) =~= project_names(
        record@.projects,
        config,
    ));
    let mut accounts = String::new();
    let mut j: usize = 0;
    assert(record@.accounts.take(0) =~= Seq::empty());
    while j < record.accounts.len()
        invariant
            j <= record.accounts.len(),
            accounts@ == lines(record@.accounts.take(j as int)),
        decreases record.accounts.len() - j,
    {
        proof {
            assert(record@.accounts.take(j + 1).drop_last() =~= record@.accounts.take(j as int));
            assert(record@.accounts.take(j + 1).last() == record.accounts@[j as int]@);
        }
        accounts.append(record.accounts[j].as_str());
        accounts.append("\n");
        assert(accounts@ =~= lines(record@.accounts.take(j + 1)));
        j += 1;
    }
    assert(record@.accounts.take(record.accounts.len() as int) =~= record@.accounts);
    let author = Author(record.accounts[0].clone());
    Some(
        ReportRow {
            projects: trim(projects.as_str()),
            accounts: trim(accounts.as_str()),
            name: author.display_name(config),
            commit_times: record.commit_times,
            additions: record.additions,
            additions_per_day: record.additions_per_day,
        },
    )
}

/// The titles of the columns of a report.
pub open spec fn spec_title() -> Seq<Seq<char>> {
    seq!["项目"@, "账号"@, "姓名"@, "提交次数"@, "新增代码总行数"@, "日均新增代码行数"@]
}

/// The titles of the columns of a report.
pub fn title() -> (t: Vec<String>)
    ensures
        t@.len() == REPORT_COLUMNS,
        views(t@) == spec_title(),
{
    let mut t: Vec<String> = Vec::new();
    t.push("项目".to_owned());
    t.push("账号".to_owned());
    t.push("姓名".to_owned());
    t.push("提交次数".to_owned());
    t.push("新增代码总行数".to_owned());
    t.push("日均新增代码行数".to_owned());
    assert(views(t@) =~= spec_title());
    t
}

/// A spreadsheet to write: its file name, its one sheet, the titles of the
/// columns and the rows.
#[derive(Clone, Debug)]
pub struct ReportFile {
    pub name: String,
    pub sheet: String,
    pub title: Vec<String>,
    pub rows: Vec<ReportRow>,
}

/// The name of the file of a report: its kind, the day it is made on, and
/// the extension of a spreadsheet.
pub open spec fn spec_file_name(kind: Seq<char>, stamp: Seq<char>) -> Seq<char> {
    kind + "-"@ + stamp + ".xlsx"@
}

/// The name of the file of a report.
pub fn file_name(kind: &str, stamp: &str) -> (name: String)
    ensures
        name@ == spec_file_name(kind@, stamp@),
{
    let mut name = kind.to_owned();
    name.append("-");
    name.append(stamp);
    name.append(".xlsx");
    name
}

/// The rows of a report: one for each author that has an account, in
/// ascending order of account.
pub open spec fn spec_rows(totals: Seq<AuthorTotals>, config: &Config) -> Seq<ReportRowView>
    decreases totals.len(),
{
    if totals.len() == 0 {
        Seq::empty()
    } else if totals.last().accounts.len() > 0 {
        spec_rows(totals.drop_last(), config).push(spec_row(totals.last(), config))
    } else {
        spec_rows(totals.drop_last(), config)
    }
}

/// Whether `file` is the spreadsheet of `report`.
pub open spec fn is_file_of(file: &ReportFile, report: &Report, kind: Seq<char>, stamp: Seq<char>, config: &Config) -> bool {
    &&& file.name@ == spec_file_name(kind, stamp)
    &&& file.sheet@ == SHEET_NAME@
    &&& views(file.title@) == spec_title()
    &&& file.rows.deep_view() == spec_rows(report.listed(), config)
}

/// The spreadsheet of a report of kind `kind` made on the day `stamp`:
/// `None` for a report without authors, of which no file is written.
pub fn gen_file(report: &Report, kind: &str, stamp: &str, config: &Config) -> (file: Option<ReportFile>)
    requires
        report.wf(),
        config.wf(),
    ensures
        file is Some <==> report.listed().len() > 0,
        file matches Some(f) ==> is_file_of(&f, report, kind@, stamp@, config),
{
    if report.is_empty() {
        return None;
    }
    let mut rows: Vec<ReportRow> = Vec::new();
    let n = report.len();
    let mut i: usize = 0;
    assert(report.listed().take(0) =~= Seq::empty());
    while i < n
        invariant
            i <= n,
            n == report.listed().len(),
            report.wf(),
            config.wf(),
            rows.deep_view() == spec_rows(report.listed().take(i as int), config),
        decreases n - i,
    {
        let ghost done = rows.deep_view();
        proof {
            assert(report.listed().take(i + 1).drop_last() =~= report.listed().take(i as int));
            assert(report.listed().take(i + 1).last() == report.listed()[i as int]);
        }
        match row_for(report.record_at(i), config) {
            Some(row) => {
                rows.push(row);
                assert(rows.deep_view() =~= done.push(row@));
            },
            None => {},
        }
        i += 1;
    }
    assert(report.listed().take(n as int) =~= report.listed());
    Some(ReportFile { name: file_name(kind, stamp), sheet: SHEET_NAME.to_owned(), title: title(), rows })
}

/// The spreadsheets to write on one day: that of the weekly report, then
/// that of the monthly report, each only where it has authors.
pub fn create(week: &Report, month: &Report, stamp: &str, config: &Config) -> (files: Vec<ReportFile>)
    requires
        week.wf(),
        month.wf(),
        config.wf(),
    ensures
        files@.len() == (if week.listed().len() > 0 { 1int } else { 0 }) + (if month.listed().len() > 0 {
            1int
        } else {
            0
        }),
        week.listed().len() > 0 ==> is_file_of(&files@[0], week, WEEKLY@, stamp@, config),
        month.listed().len() > 0 ==> is_file_of(&files@[files@.len() - 1], month, MONTHLY@, stamp@, config),
{
    let mut files: Vec<ReportFile> = Vec::new();
    match gen_file(week, WEEKLY, stamp, config) {
        Some(f) => {
            files.push(f);
        },
        None => {},
    }
    match gen_file(month, MONTHLY, stamp, config) {
        Some(f) => {
            files.push(f);
        },
        None => {},
    }
    files
}

} // verus!
