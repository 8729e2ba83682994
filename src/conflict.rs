use vstd::prelude::*;

use crate::name::{
    contains_name, copy_bytes, keep_both_name, keep_both_of, views,
};

verus! {

/// Whether a directory entry is a file or a directory.
#[derive(Clone, Copy, Debug, PartialEq, Eq, Structural)]
pub enum EntryKind {
    File,
    Directory,
}

/// One entry of a destination directory.
pub struct DirEntry {
    pub name: Vec<u8>,
    pub kind: EntryKind,
}

/// A conflict policy that the caller chose ahead of time.
#[derive(Clone, Copy, Debug, PartialEq, Eq, Structural)]
pub enum ConflictPolicy {
    Overwrite,
    Skip,
    KeepBoth,
}

/// What to do with one item that is about to be written into a directory.
#[derive(Debug)]
pub enum ConflictDecision {
    /// Nothing stands under the name: write it as it is.
    Write,
    /// Replace the entry that stands under the name.
    Overwrite,
    /// Leave the item out.
    Skip,
    /// Write the item under the given free name.
    KeepBoth(Vec<u8>),
    /// Both are directories: go into the existing one and resolve each child.
    Merge,
}

/// The names of a directory's entries.
pub open spec fn entry_names(entries: Seq<DirEntry>) -> Seq<Seq<u8>> {
    entries.map_values(|e: DirEntry| e.name@)
}

/// An entry of `entries` that is a directory is called `name`.
pub open spec fn has_dir_named(entries: Seq<DirEntry>, name: Seq<u8>) -> bool {
    exists|i: int|
        0 <= i < entries.len() && entries[i].name@ == name && entries[i].kind
            == EntryKind::Directory
}

/// The decision for an item called `name` of kind `kind`, written into a
/// directory holding `entries` by an operation that has already given out the
/// names `given`. `recursive` is set for a directory copy or move.
pub open spec fn decision_of(
    name: Seq<u8>,
    kind: EntryKind,
    recursive: bool,
    entries: Seq<DirEntry>,
    given: Seq<Seq<u8>>,
    policy: Option<ConflictPolicy>,
    d: ConflictDecision,
) -> bool {
    let taken = entry_names(entries) + given;
    if !taken.contains(name) {
        d is Write
    } else if recursive && kind == EntryKind::Directory && has_dir_named(entries, name) {
        d is Merge
    } else {
        match policy {
            Some(ConflictPolicy::Overwrite) => d is Overwrite,
            Some(ConflictPolicy::Skip) => d is Skip,
            _ => match d {
                ConflictDecision::KeepBoth(n) => keep_both_of(name, taken, n@),
                _ => false,
            },
        }
    }
}

/// Decides what happens to an item called `name` that is written into a
/// directory holding `entries`, where the same operation has already given out
/// the names `given`. Overwrite is chosen only where the caller asked for it;
/// with no policy set a colliding item is kept beside the other one.
pub fn resolve(
    name: &Vec<u8>,
    kind: EntryKind,
    recursive: bool,
    entries: &Vec<DirEntry>,
    given: &Vec<Vec<u8>>,
    policy: Option<ConflictPolicy>,
) -> (d: ConflictDecision)
    requires
        entries@.len() + given@.len() + 3 <= usize::MAX,
    ensures
        decision_of(name@, kind, recursive, entries@, views(given@), policy, d),
{
    let ghost g = views(given@);
    let mut taken: Vec<Vec<u8>> = Vec::new();
    let mut dir_match = false;
    let mut i: usize = 0;
    while i < entries.len()
        invariant
            i <= entries.len(),
            views(taken@) == entry_names(entries@).subrange(0, i as int),
            dir_match == exists|j: int|
                0 <= j < i && entries@[j].name@ == name@ && entries@[j].kind
                    == EntryKind::Directory,
        decreases entries.len() - i,
    {
        let e = &entries[i];
        if e.kind == EntryKind::Directory && crate::name::same_bytes(&e.name, name) {
            dir_match = true;
        }
        let c = copy_bytes(&e.name);
        let ghost before = taken@;
        taken.push(c);
        assert(taken@ == before.push(c));
        assert(views(taken@) =~= views(before).push(entries@[i as int].name@));
        assert(views(taken@) =~= entry_names(entries@).subrange(0, i + 1));
        i += 1;
    }
    assert(entry_names(entries@).subrange(0, entries@.len() as int) =~= entry_names(entries@));
    let mut j: usize = 0;
    while j < given.len()
        invariant
            j <= given.len(),
            views(taken@) == entry_names(entries@) + g.subrange(0, j as int),
            g == views(given@),
            taken@.len() == entries@.len() + j,
        decreases given.len() - j,
    {
        let c = copy_bytes(&given[j]);
        let ghost before = taken@;
        taken.push(c);
        assert(taken@ == before.push(c));
        assert(views(taken@) =~= views(before).push(given@[j as int]@));
        assert(views(taken@) =~= entry_names(entries@) + g.subrange(0, j + 1));
        j += 1;
    }
    assert(g.subrange(0, given@.len() as int) =~= g);
    if !contains_name(&taken, name) {
        ConflictDecision::Write
    } else if recursive && kind == EntryKind::Directory && dir_match {
        ConflictDecision::Merge
    } else {
        match policy {
            Some(ConflictPolicy::Overwrite) => ConflictDecision::Overwrite,
            Some(ConflictPolicy::Skip) => ConflictDecision::Skip,
            _ => ConflictDecision::KeepBoth(keep_both_name(name, &taken)),
        }
    }
}

} // verus!
