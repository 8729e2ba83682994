use vstd::prelude::*;

use crate::name::{copy_names, views};

verus! {

/// A trashed item: its identity in the trash store, the components of the
/// absolute path it was deleted from, and when it was deleted.
pub struct TrashEntry {
    pub id: u64,
    pub original: Vec<Vec<u8>>,
    pub deleted_at: i64,
}

/// What restoring one entry comes to.
#[derive(Debug)]
pub enum RestoreOutcome {
    /// Put the item back at this path: the one it was deleted from.
    Restore(Vec<Vec<u8>>),
    /// The original parent directory is gone: the caller must pick a new
    /// destination for this entry.
    NeedsDestination,
}

/// The components of the directory that holds `path`.
pub fn parent_path(path: &Vec<Vec<u8>>) -> (r: Vec<Vec<u8>>)
    ensures
        path@.len() > 0 ==> views(r@) == views(path@).drop_last(),
        path@.len() == 0 ==> r@.len() == 0,
{
    let mut r = copy_names(path);
    if r.len() > 0 {
        let ghost before = r@;
        r.pop();
        assert(r@ == before.drop_last());
        assert(views(r@) =~= views(before).drop_last());
    }
    r
}

/// Plans a restore: `parent_exists[i]` tells whether the parent directory of
/// entry `i`'s original path still exists. Each entry whose parent exists
/// goes back to its original path; each other one fails on its own and asks
/// for a new destination, and is never placed elsewhere silently.
pub fn restore_plan(entries: &Vec<TrashEntry>, parent_exists: &Vec<bool>) -> (r: Vec<RestoreOutcome>)
    requires
        entries@.len() == parent_exists@.len(),
    ensures
        r@.len() == entries@.len(),
        forall|i: int|
            0 <= i < r@.len() ==> (if parent_exists@[i] {
                #[trigger] r@[i] matches RestoreOutcome::Restore(p) && views(p@) == views(
                    entries@[i].original@,
                )
            } else {
                r@[i] is NeedsDestination
            }),
{
    let mut r: Vec<RestoreOutcome> = Vec::new();
    let mut i: usize = 0;
    while i < entries.len()
        invariant
            i <= entries@.len(),
            entries@.len() == parent_exists@.len(),
            r@.len() == i,
            forall|j: int|
                0 <= j < i ==> (if parent_exists@[j] {
                    #[trigger] r@[j] matches RestoreOutcome::Restore(p) && views(p@) == views(
                        entries@[j].original@,
                    )
                } else {
                    r@[j] is NeedsDestination
                }),
        decreases entries@.len() - i,
    {
        if parent_exists[i] {
            r.push(RestoreOutcome::Restore(copy_names(&entries[i].original)));
        } else {
            r.push(RestoreOutcome::NeedsDestination);
        }
        i += 1;
    }
    r
}

} // verus!
