//! Sample answers of the kind the remote service gives, for trying a run
//! without one: a probe that announces one page, and a page of ten commits.

use vstd::prelude::*;
use crate::probe::ProbeResponse;
use crate::record::{Record, RecordView, Stats};
use crate::text::{decimal, decimal_string};

verus! {

/// Number of commits on the sample page.
pub const SAMPLE_COMMITS: u32 = 10;

/// The status of an answer that is in order.
pub const OK: u16 = 200;

/// The `n`th commit of the sample page: commit `n` of author `n`, which adds
/// `n` lines. It has no parents and no other data but the day it was
/// authored.
pub open spec fn sample_record(n: u32) -> RecordView {
    RecordView {
        full_id: decimal(n as nat),
        short_id: ""@,
        author_name: decimal(n as nat),
        author_email: ""@,
        authored_date: "20201211T121212"@,
        committer_name: ""@,
        committer_email: ""@,
        committed_date: ""@,
        created_at: ""@,
        title: ""@,
        message: ""@,
        parent_ids: Seq::empty(),
        stats: Stats { additions: n, deletions: 0 },
    }
}

/// The answer to a probe: all is in order, and there is one page.
pub fn head() -> (response: ProbeResponse)
    ensures
        response.status == OK,
        response.total_pages matches Some(n) && n@ == "1"@,
{
    ProbeResponse { status: OK, total_pages: Some("1".to_owned()) }
}

/// The sample page: the commits 1 to `SAMPLE_COMMITS`.
pub fn select() -> (page: Vec<Record>)
    ensures
        page@.len() == SAMPLE_COMMITS,
        forall|i: int| 0 <= i < page@.len() ==> (#[trigger] page@[i])@ == sample_record((i + 1) as u32),
{
    let mut page: Vec<Record> = Vec::new();
    let mut n: u32 = 1;
    while n <= SAMPLE_COMMITS
        invariant
            1 <= n <= SAMPLE_COMMITS + 1,
            page@.len() == n - 1,
            forall|i: int| 0 <= i < page@.len() ==> (#[trigger] page@[i])@ == sample_record((i + 1) as u32),
        decreases SAMPLE_COMMITS + 1 - n,
    {
        let parents: Vec<String> = Vec::new();
        let record = Record {
            full_id: decimal_string(n as u64),
            short_id: "".to_owned(),
            author_name: decimal_string(n as u64),
            author_email: "".to_owned(),
            authored_date: "20201211T121212".to_owned(),
            committer_name: "".to_owned(),
            committer_email: "".to_owned(),
            committed_date: "".to_owned(),
            created_at: "".to_owned(),
            title: "".to_owned(),
            message: "".to_owned(),
            parent_ids: parents,
            stats: Stats { additions: n, deletions: 0 },
        };
        assert(record@.parent_ids =~= Seq::empty());
        page.push(record);
        n += 1;
    }
    page
}

} // verus!
