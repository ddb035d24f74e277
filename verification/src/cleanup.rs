//! The outcome of removing the unused images.

use vstd::prelude::*;

verus! {

/// What came of removing a list of files, one by one.
#[derive(Debug, PartialEq, Eq)]
pub struct DeleteReport {
    /// How many files were removed.
    pub count: usize,
    /// The files that were removed, in the order of the list.
    pub deleted: Vec<String>,
    /// The files that could not be removed, in the order of the list.
    pub failures: Vec<String>,
}

/// A `DeleteReport` as plain text.
pub ghost struct DeleteReportModel {
    pub count: nat,
    pub deleted: Seq<Seq<char>>,
    pub failures: Seq<Seq<char>>,
}

impl DeepView for DeleteReport {
    type V = DeleteReportModel;

    open spec fn deep_view(&self) -> DeleteReportModel {
        DeleteReportModel {
            count: self.count as nat,
            deleted: self.deleted.deep_view(),
            failures: self.failures.deep_view(),
        }
    }
}

impl View for DeleteReport {
    type V = DeleteReportModel;

    open spec fn view(&self) -> DeleteReportModel {
        self.deep_view()
    }
}

/// Whether the file at index `i` was removed: a file whose outcome is
/// missing from `removed` counts as not removed.
pub open spec fn was_removed(removed: Seq<bool>, i: int) -> bool {
    0 <= i < removed.len() && removed[i]
}

/// The files of `paths` that were removed, in order.
pub open spec fn deleted_of(paths: Seq<Seq<char>>, removed: Seq<bool>) -> Seq<Seq<char>>
    decreases paths.len(),
{
    if paths.len() == 0 {
        Seq::empty()
    } else if was_removed(removed, paths.len() - 1) {
        deleted_of(paths.drop_last(), removed).push(paths.last())
    } else {
        deleted_of(paths.drop_last(), removed)
    }
}

/// The files of `paths` that were not removed, in order.
pub open spec fn failures_of(paths: Seq<Seq<char>>, removed: Seq<bool>) -> Seq<Seq<char>>
    decreases paths.len(),
{
    if paths.len() == 0 {
        Seq::empty()
    } else if was_removed(removed, paths.len() - 1) {
        failures_of(paths.drop_last(), removed)
    } else {
        failures_of(paths.drop_last(), removed).push(paths.last())
    }
}

/// The report on removing `paths`, where `removed` tells of each file
/// whether it was removed.
pub open spec fn report_of(paths: Seq<Seq<char>>, removed: Seq<bool>) -> DeleteReportModel {
    DeleteReportModel {
        count: deleted_of(paths, removed).len(),
        deleted: deleted_of(paths, removed),
        failures: failures_of(paths, removed),
    }
}

/// Every file is either among the removed or among the failures.
pub proof fn lemma_report_covers(paths: Seq<Seq<char>>, removed: Seq<bool>)
    ensures
        deleted_of(paths, removed).len() + failures_of(paths, removed).len() == paths.len(),
    decreases paths.len(),
{
    if paths.len() > 0 {
        lemma_report_covers(paths.drop_last(), removed);
    }
}

/// Where there is nothing to remove, nothing is reported removed and
/// nothing failed.
pub proof fn lemma_report_of_nothing(removed: Seq<bool>)
    ensures
        report_of(Seq::empty(), removed) == (DeleteReportModel {
            count: 0,
            deleted: Seq::empty(),
            failures: Seq::empty(),
        }),
{
}

/// Sums up the removal of `paths`: `removed[i]` tells whether `paths[i]`
/// was removed. A failure for one file does not keep the others from
/// being counted.
pub fn delete_report(paths: &Vec<String>, removed: &Vec<bool>) -> (report: DeleteReport)
    ensures
        report.deep_view() == report_of(paths.deep_view(), removed@),
{
    let ghost all: Seq<Seq<char>> = paths.deep_view();
    let mut deleted: Vec<String> = Vec::new();
    let mut failures: Vec<String> = Vec::new();
    let mut i: usize = 0;
    assert(deleted.deep_view() =~= deleted_of(all.take(0), removed@));
    assert(failures.deep_view() =~= failures_of(all.take(0), removed@));
    while i < paths.len()
        invariant
            i <= paths.len(),
            all == paths.deep_view(),
            deleted.deep_view() == deleted_of(all.take(i as int), removed@),
            failures.deep_view() == failures_of(all.take(i as int), removed@),
            deleted.len() <= i,
        decreases paths.len() - i,
    {
        let ghost was_deleted: Seq<Seq<char>> = deleted.deep_view();
        let ghost was_failed: Seq<Seq<char>> = failures.deep_view();
        assert(all.take(i + 1).drop_last() =~= all.take(i as int));
        assert(all.take(i + 1).last() == paths@[i as int]@);
        if i < removed.len() && removed[i] {
            deleted.push(paths[i].clone());
            assert(deleted.deep_view() =~= was_deleted.push(paths@[i as int]@));
        } else {
            failures.push(paths[i].clone());
            assert(failures.deep_view() =~= was_failed.push(paths@[i as int]@));
        }
        i += 1;
    }
    assert(all.take(paths.len() as int) =~= all);
    DeleteReport { count: deleted.len(), deleted, failures }
}

} // verus!
