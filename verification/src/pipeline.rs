//! From per-project resolutions to a download batch.
//!
//! Each project contributes at most one item — the first file of its
//! first compatible version — and the batch keeps the projects' order.

use vstd::prelude::*;
use crate::registry::{destination_path, destination_prefix};
use crate::resolver::ProjectResolution;
use crate::scheduler::DownloadItem;

verus! {

/// What one resolution contributes to the batch, as (url, path) character
/// pairs: one pair for a selected file, nothing otherwise.
pub open spec fn planned_of(r: ProjectResolution) -> Seq<(Seq<char>, Seq<char>)> {
    match r {
        ProjectResolution::Selected { file, .. } => seq![
            (file.url@, destination_prefix() + file.filename@),
        ],
        _ => Seq::empty(),
    }
}

/// The whole batch a sequence of resolutions plans, in project order.
pub open spec fn planned_views(rs: Seq<ProjectResolution>) -> Seq<(Seq<char>, Seq<char>)>
    decreases rs.len(),
{
    if rs.len() == 0 {
        Seq::empty()
    } else {
        planned_views(rs.drop_last()) + planned_of(rs.last())
    }
}

/// A project whose resolution selected nothing — no compatible version,
/// an empty file list, or failed metadata — contributes no download.
pub proof fn lemma_no_selection_no_download(r: ProjectResolution)
    requires
        !(r matches ProjectResolution::Selected { .. }),
    ensures
        planned_of(r) == Seq::<(Seq<char>, Seq<char>)>::empty(),
{
}

/// At most one file is selected per project: a batch never holds more
/// items than there were projects resolved.
pub proof fn lemma_at_most_one_file_per_project(rs: Seq<ProjectResolution>)
    ensures
        planned_views(rs).len() <= rs.len(),
    decreases rs.len(),
{
    if rs.len() > 0 {
        lemma_at_most_one_file_per_project(rs.drop_last());
    }
}

proof fn lemma_planned_views_extend(rs: Seq<ProjectResolution>, i: int)
    requires
        0 <= i < rs.len(),
    ensures
        planned_views(rs.subrange(0, i + 1)) == planned_views(rs.subrange(0, i)) + planned_of(
            rs[i],
        ),
{
    assert(rs.subrange(0, i + 1).drop_last() =~= rs.subrange(0, i));
    assert(rs.subrange(0, i + 1).last() == rs[i]);
}

/// Build the download batch: one item per selected file, in project
/// order, each destined for the registry filename nested inside the
/// fixed destination directory.
pub fn plan_downloads(resolutions: &Vec<ProjectResolution>) -> (items: Vec<DownloadItem>)
    ensures
        items@.len() == planned_views(resolutions@).len(),
        forall|k: int|
            0 <= k < items@.len() ==> items@[k].url@ == planned_views(resolutions@)[k].0
                && items@[k].path@ == planned_views(resolutions@)[k].1,
{
    let n = resolutions.len();
    let mut items: Vec<DownloadItem> = Vec::new();
    let mut i: usize = 0;
    while i < n
        invariant
            0 <= i <= n,
            n == resolutions@.len(),
            items@.len() == planned_views(resolutions@.subrange(0, i as int)).len(),
            forall|k: int|
                0 <= k < items@.len() ==> items@[k].url@ == planned_views(
                    resolutions@.subrange(0, i as int),
                )[k].0 && items@[k].path@ == planned_views(resolutions@.subrange(0, i as int))[k].1,
        decreases n - i,
    {
        proof {
            lemma_planned_views_extend(resolutions@, i as int);
        }
        match &resolutions[i] {
            ProjectResolution::Selected { file, .. } => {
                let item = DownloadItem {
                    url: file.url.clone(),
                    path: destination_path(&file.filename),
                };
                items.push(item);
            },
            _ => {},
        }
        i = i + 1;
    }
    proof {
        assert(resolutions@.subrange(0, n as int) =~= resolutions@);
    }
    items
}

} // verus!
