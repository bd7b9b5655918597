//! The run aggregate as delimited text: one line per date, newest first,
//! with three columns for every author.

use vstd::prelude::*;
use crate::aggregate::{Commits, RunAggregate};
use crate::tally::Tally;
use crate::text::{contains, decimal, joined, push_decimal, views};

verus! {

/// The text of one entry: its count, additions and deletions, each after a
/// separator.
pub open spec fn spec_commits_text(t: Tally, separator: Seq<char>) -> Seq<char> {
    separator + decimal(t.times) + separator + decimal(t.additions) + separator + decimal(t.deletions)
}

/// The columns that are known when a walk stands at the author at position
/// `j` of the date at position `i`: the authors passed so far, each once, in
/// the order in which they were first met.
pub open spec fn columns_at(a: &RunAggregate, i: int, j: int) -> Seq<Seq<char>>
    decreases i, j,
{
    if i < 0 || j < 0 {
        Seq::empty()
    } else if j > 0 {
        let before = columns_at(a, i, j - 1);
        let author = a.authors(i)[j - 1];
        if before.contains(author) {
            before
        } else {
            before.push(author)
        }
    } else if i > 0 && a.authors(i - 1).len() >= 0 {
        columns_at(a, i - 1, a.authors(i - 1).len() as int)
    } else {
        Seq::empty()
    }
}

/// The three cells of `author` in the line of the date at position `i`: the
/// author's entry on that date, or three empty cells where there is none.
pub open spec fn cell(a: &RunAggregate, i: int, author: Seq<char>) -> Seq<char> {
    let k = (a.dates()[i], author);
    if a@.contains_key(k) {
        spec_commits_text(a@[k], ","@)
    } else {
        ",,,"@
    }
}

/// The cells of the authors `columns` in the line of the date at position
/// `i`.
pub open spec fn cells(a: &RunAggregate, i: int, columns: Seq<Seq<char>>) -> Seq<char>
    decreases columns.len(),
{
    if columns.len() == 0 {
        Seq::empty()
    } else {
        cells(a, i, columns.drop_last()) + cell(a, i, columns.last())
    }
}

/// The line of the date at position `i`: the date, then the cells of every
/// author known up to and including that date.
pub open spec fn line(a: &RunAggregate, i: int) -> Seq<char> {
    a.dates()[i] + cells(a, i, columns_at(a, i, a.authors(i).len() as int))
}

/// The lines of the first `n` dates, the latest first.
pub open spec fn lines_newest_first(a: &RunAggregate, n: int) -> Seq<Seq<char>> {
    Seq::new(n as nat, |i: int| line(a, n - 1 - i))
}

/// The first heading: `date`, then each author followed by two empty cells.
pub open spec fn heading_authors(columns: Seq<Seq<char>>) -> Seq<char>
    decreases columns.len(),
{
    if columns.len() == 0 {
        "date"@
    } else {
        heading_authors(columns.drop_last()) + ","@ + columns.last() + ",,"@
    }
}

/// The second heading: an empty cell, then the three titles once for each
/// author.
pub open spec fn heading_fields(columns: Seq<Seq<char>>) -> Seq<char>
    decreases columns.len(),
{
    if columns.len() == 0 {
        Seq::empty()
    } else {
        heading_fields(columns.drop_last()) + ",times,additions,deletions"@
    }
}

/// The aggregate as delimited text: the two headings, then the lines of the
/// dates, the latest first.
pub open spec fn spec_generate(a: &RunAggregate) -> Seq<char> {
    let n = a.dates().len() as int;
    let columns = columns_at(a, n, 0);
    heading_authors(columns) + "\n"@ + heading_fields(columns) + "\n"@ + joined(
        lines_newest_first(a, n),
        "\n"@,
    )
}

/// Aggregates that hold the same entries have the same columns.
proof fn lemma_same_columns(a: &RunAggregate, b: &RunAggregate, i: int, j: int)
    requires
        a.wf(),
        b.wf(),
        a@ == b@,
        0 <= i <= a.dates().len(),
        0 <= j,
        i < a.dates().len() ==> j <= a.authors(i).len(),
        i == a.dates().len() ==> j == 0,
    ensures
        columns_at(a, i, j) == columns_at(b, i, j),
    decreases i, j,
{
    a.law_same_entries_same_walk(b);
    a.lemma_ordered();
    if j > 0 {
        lemma_same_columns(a, b, i, j - 1);
    } else if i > 0 {
        lemma_same_columns(a, b, i - 1, a.authors(i - 1).len() as int);
    }
}

/// Aggregates that hold the same entries fill the same cells.
proof fn lemma_same_cells(a: &RunAggregate, b: &RunAggregate, i: int, columns: Seq<Seq<char>>)
    requires
        a@ == b@,
        a.dates() == b.dates(),
    ensures
        cells(a, i, columns) == cells(b, i, columns),
    decreases columns.len(),
{
    if columns.len() > 0 {
        lemma_same_cells(a, b, i, columns.drop_last());
    }
}

/// Aggregates that hold the same entries are written alike: the text does
/// not depend on the order in which the records were folded.
pub proof fn law_text_depends_on_entries(a: &RunAggregate, b: &RunAggregate)
    requires
        a.wf(),
        b.wf(),
        a@ == b@,
    ensures
        spec_generate(a) == spec_generate(b),
{
    a.law_same_entries_same_walk(b);
    a.lemma_ordered();
    let n = a.dates().len() as int;
    lemma_same_columns(a, b, n, 0);
    assert forall|i: int| 0 <= i < n implies line(a, i) == line(b, i) by {
        lemma_same_columns(a, b, i, a.authors(i).len() as int);
        lemma_same_cells(a, b, i, columns_at(a, i, a.authors(i).len() as int));
    }
    assert(lines_newest_first(a, n) =~= lines_newest_first(b, n));
}

/// The text of one entry: its count, additions and deletions, each after
/// `separator`.
pub fn commits_to_string(commits: &Commits, separator: &str) -> (s: String)
    ensures
        s@ == spec_commits_text(commits.tally(), separator@),
{
    let mut s = String::new();
    s.append(separator);
    push_decimal(&mut s, commits.times);
    s.append(separator);
    push_decimal(&mut s, commits.additions);
    s.append(separator);
    push_decimal(&mut s, commits.deletions);
    assert(s@ =~= spec_commits_text(commits.tally(), separator@));
    s
}

/// The aggregate as delimited text. Each author has three columns, in the
/// order in which the authors are first met when the dates are walked in
/// ascending order; the line of a date has cells for the authors known up to
/// that date. The lines are written with the latest date first.
pub fn generate(a: &RunAggregate) -> (s: String)
    requires
        a.wf(),
    ensures
        s@ == spec_generate(a),
{
    proof {
        a.lemma_wf();
    }
    let n = a.day_count();
    let mut lines: Vec<String> = Vec::new();
    let mut emails: Vec<String> = Vec::new();
    let mut i: usize = 0;
    while i < n
        invariant
            i <= n,
            n == a.dates().len(),
            a.wf(),
            a.shape(),
            lines@.len() == i,
            forall|x: int| 0 <= x < i ==> (#[trigger] lines@[x])@ == line(a, x),
            views(emails@) == columns_at(a, i as int, 0),
        decreases n - i,
    {
        let date = a.date_at(i);
        let mut msg = date.clone();
        let known = emails.len();
        let mut c: usize = 0;
        assert(views(emails@).take(0) =~= Seq::empty());
        while c < known
            invariant
                c <= known,
                known == emails@.len(),
                i < n,
                n == a.dates().len(),
                a.wf(),
                date@ == a.dates()[i as int],
                msg@ == a.dates()[i as int] + cells(a, i as int, views(emails@).take(c as int)),
            decreases known - c,
        {
            proof {
                assert(views(emails@).take(c + 1).drop_last() =~= views(emails@).take(c as int));
                assert(views(emails@).take(c + 1).last() == emails@[c as int]@);
            }
            match a.get(date.as_str(), emails[c].as_str()) {
                None => {
                    msg.append(",,,");
                },
                Some(commits) => {
                    let text = commits_to_string(&commits, ",");
                    msg.append(text.as_str());
                },
            }
            assert(msg@ =~= a.dates()[i as int] + cells(a, i as int, views(emails@).take(c + 1)));
            c += 1;
        }
        assert(views(emails@).take(known as int) =~= views(emails@));
        let m = a.author_count(i);
        let mut j: usize = 0;
        while j < m
            invariant
                j <= m,
                i < n,
                n == a.dates().len(),
                m == a.authors(i as int).len(),
                a.wf(),
                a.shape(),
                views(emails@) == columns_at(a, i as int, j as int),
                msg@ == a.dates()[i as int] + cells(a, i as int, columns_at(a, i as int, j as int)),
            decreases m - j,
        {
            proof {
                a.lemma_walk(i as int, j as int);
            }
            let author = a.author_at(i, j);
            if !contains(&emails, author.as_str()) {
                let ghost before = views(emails@);
                emails.push(author.clone());
                let text = commits_to_string(&a.commits_at(i, j), ",");
                msg.append(text.as_str());
                proof {
                    assert(views(emails@) =~= before.push(author@));
                    assert(before.push(author@).drop_last() =~= before);
                    assert(msg@ =~= a.dates()[i as int] + cells(a, i as int, before.push(author@)));
                }
            }
            j += 1;
        }
        lines.push(msg);
        i += 1;
    }
    let mut head1 = "date".to_owned();
    let mut head2 = String::new();
    let known = emails.len();
    let mut c: usize = 0;
    assert(views(emails@).take(0) =~= Seq::empty());
    while c < known
        invariant
            c <= known,
            known == emails@.len(),
            head1@ == heading_authors(views(emails@).take(c as int)),
            head2@ == heading_fields(views(emails@).take(c as int)),
        decreases known - c,
    {
        proof {
            assert(views(emails@).take(c + 1).drop_last() =~= views(emails@).take(c as int));
            assert(views(emails@).take(c + 1).last() == emails@[c as int]@);
        }
        head1.append(",");
        head1.append(emails[c].as_str());
        head1.append(",,");
        head2.append(",times,additions,deletions");
        assert(head1@ =~= heading_authors(views(emails@).take(c + 1)));
        c += 1;
    }
    assert(views(emails@).take(known as int) =~= views(emails@));
    let mut out = head1;
    out.append("\n");
    out.append(head2.as_str());
    out.append("\n");
    let ghost head = out@;
    let ghost all = lines_newest_first(a, n as int);
    let mut k: usize = n;
    assert(all.take(0) =~= Seq::empty());
    while k > 0
        invariant
            k <= n,
            n == lines@.len(),
            all == lines_newest_first(a, n as int),
            forall|x: int| 0 <= x < n ==> (#[trigger] lines@[x])@ == line(a, x),
            out@ == head + joined(all.take(n - k), "\n"@),
        decreases k,
    {
        proof {
            assert(all.take(n - k + 1).drop_last() =~= all.take(n - k));
            assert(all.take(n - k + 1).last() == line(a, k - 1));
        }
        if k < n {
            out.append("\n");
        }
        k -= 1;
        out.append(lines[k].as_str());
        assert(out@ =~= head + joined(all.take(n - k), "\n"@));
    }
    assert(all.take(n as int) =~= all);
    assert(out@ =~= spec_generate(a));
    out
}

} // verus!
