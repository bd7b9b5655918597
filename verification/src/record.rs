//! Commit records as a page of the remote history delivers them.

use vstd::prelude::*;
use crate::text::prefix;

verus! {

/// Number of leading characters of a creation timestamp that make up its
/// calendar date.
pub const DATE_LEN: usize = 10;

/// Lines that one commit added and deleted.
#[derive(Clone, Copy, Debug, PartialEq, Eq, Structural)]
pub struct Stats {
    pub additions: u32,
    pub deletions: u32,
}

/// One commit of a remote project.
#[derive(Clone, Debug)]
pub struct Record {
    pub full_id: String,
    pub short_id: String,
    pub author_name: String,
    pub author_email: String,
    pub authored_date: String,
    pub committer_name: String,
    pub committer_email: String,
    pub committed_date: String,
    pub created_at: String,
    pub title: String,
    pub message: String,
    pub parent_ids: Vec<String>,
    pub stats: Stats,
}

/// What a `Record` holds, as plain values.
pub struct RecordView {
    pub full_id: Seq<char>,
    pub short_id: Seq<char>,
    pub author_name: Seq<char>,
    pub author_email: Seq<char>,
    pub authored_date: Seq<char>,
    pub committer_name: Seq<char>,
    pub committer_email: Seq<char>,
    pub committed_date: Seq<char>,
    pub created_at: Seq<char>,
    pub title: Seq<char>,
    pub message: Seq<char>,
    pub parent_ids: Seq<Seq<char>>,
    pub stats: Stats,
}

impl View for Record {
    type V = RecordView;

    open spec fn view(&self) -> RecordView {
        RecordView {
            full_id: self.full_id@,
            short_id: self.short_id@,
            author_name: self.author_name@,
            author_email: self.author_email@,
            authored_date: self.authored_date@,
            committer_name: self.committer_name@,
            committer_email: self.committer_email@,
            committed_date: self.committed_date@,
            created_at: self.created_at@,
            title: self.title@,
            message: self.message@,
            parent_ids: self.parent_ids.deep_view(),
            stats: self.stats,
        }
    }
}

impl DeepView for Record {
    type V = RecordView;

    open spec fn deep_view(&self) -> RecordView {
        self@
    }
}

impl RecordView {
    /// A merge commit has more than one parent.
    pub open spec fn is_merge(self) -> bool {
        self.parent_ids.len() > 1
    }

    /// The calendar date on which the commit was created.
    pub open spec fn date(self) -> Seq<char> {
        prefix(self.created_at, DATE_LEN as nat)
    }
}

impl Record {
    /// Whether this is a merge commit: one with more than one parent.
    pub fn is_merge(&self) -> (b: bool)
        ensures
            b == self@.is_merge(),
    {
        proof {
            assert(self.parent_ids.deep_view().len() == self.parent_ids@.len());
        }
        self.parent_ids.len() > 1
    }

    /// A copy of the record.
    pub fn duplicate(&self) -> (r: Record)
        ensures
            r@ == self@,
    {
        Record {
            full_id: self.full_id.clone(),
            short_id: self.short_id.clone(),
            author_name: self.author_name.clone(),
            author_email: self.author_email.clone(),
            authored_date: self.authored_date.clone(),
            committer_name: self.committer_name.clone(),
            committer_email: self.committer_email.clone(),
            committed_date: self.committed_date.clone(),
            created_at: self.created_at.clone(),
            title: self.title.clone(),
            message: self.message.clone(),
            parent_ids: crate::text::copy_strings(&self.parent_ids),
            stats: self.stats,
        }
    }

    /// The calendar date on which the commit was created: the first ten
    /// characters of `created_at`, or all of it where it is shorter.
    pub fn date(&self) -> (d: String)
        ensures
            d@ == self@.date(),
    {
        crate::text::leading(self.created_at.as_str(), DATE_LEN)
    }
}

} // verus!
