use vstd::prelude::*;

use crate::archive::{check_format, format_offered, FormatSupport};
use crate::conflict::ConflictPolicy;
use crate::error::ErrorKind;
use crate::name::{same_bytes, views};
use crate::scheduler::OperationKind;

verus! {

/// What the user asked for: the kind of operation, its sources in order
/// (each as path components), an optional destination, and a conflict policy
/// chosen ahead of time, if any.
pub struct OperationRequest {
    pub kind: OperationKind,
    pub sources: Vec<Vec<Vec<u8>>>,
    pub destination: Option<Vec<Vec<u8>>>,
    pub policy: Option<ConflictPolicy>,
}

/// Kinds that act on a list of existing items.
pub open spec fn needs_sources(kind: OperationKind) -> bool {
    match kind {
        OperationKind::NewFolder | OperationKind::NewFile | OperationKind::EmptyTrash => false,
        _ => true,
    }
}

/// Kinds that write to a path the caller names.
pub open spec fn needs_destination(kind: OperationKind) -> bool {
    match kind {
        OperationKind::Copy | OperationKind::Move | OperationKind::Rename
        | OperationKind::NewFolder | OperationKind::NewFile | OperationKind::Compress(_)
        | OperationKind::Extract => true,
        _ => false,
    }
}

/// The path components of a list of paths.
pub open spec fn path_views(s: Seq<Vec<Vec<u8>>>) -> Seq<Seq<Seq<u8>>> {
    s.map_values(|p: Vec<Vec<u8>>| views(p@))
}

/// A copy or move whose destination is one of its sources.
pub open spec fn onto_itself(kind: OperationKind, sources: Seq<Seq<Seq<u8>>>, dest: Option<Seq<Seq<u8>>>) -> bool {
    &&& (kind == OperationKind::Copy || kind == OperationKind::Move)
    &&& dest matches Some(d) && sources.contains(d)
}

/// The error, if any, that stops a request before any I/O, checked in this
/// order: missing sources or destination, a copy or move onto itself, then a
/// compression format that the build does not offer.
pub open spec fn request_error(
    kind: OperationKind,
    sources: Seq<Seq<Seq<u8>>>,
    dest: Option<Seq<Seq<u8>>>,
    support: FormatSupport,
) -> Option<ErrorKind> {
    if needs_sources(kind) && sources.len() == 0 {
        Some(ErrorKind::InvalidRequest)
    } else if needs_destination(kind) && dest is None {
        Some(ErrorKind::InvalidRequest)
    } else if onto_itself(kind, sources, dest) {
        Some(ErrorKind::InvalidRequest)
    } else {
        match kind {
            OperationKind::Compress(f) => if format_offered(f, support) {
                None
            } else {
                Some(ErrorKind::UnsupportedFormat)
            },
            _ => None,
        }
    }
}

/// The destination of a request as path components.
pub open spec fn dest_view(d: Option<Vec<Vec<u8>>>) -> Option<Seq<Seq<u8>>> {
    match d {
        Some(p) => Some(views(p@)),
        None => None,
    }
}

/// Tells whether two paths are equal, component by component.
pub fn same_path(a: &Vec<Vec<u8>>, b: &Vec<Vec<u8>>) -> (r: bool)
    ensures
        r == (views(a@) == views(b@)),
{
    if a.len() != b.len() {
        assert(views(a@).len() != views(b@).len());
        return false;
    }
    let mut i: usize = 0;
    while i < a.len()
        invariant
            a@.len() == b@.len(),
            i <= a@.len(),
            views(a@).subrange(0, i as int) == views(b@).subrange(0, i as int),
        decreases a@.len() - i,
    {
        if !same_bytes(&a[i], &b[i]) {
            assert(views(a@)[i as int] != views(b@)[i as int]);
            return false;
        }
        assert(views(a@).subrange(0, i + 1) =~= views(a@).subrange(0, i as int).push(
            views(a@)[i as int],
        ));
        assert(views(b@).subrange(0, i + 1) =~= views(b@).subrange(0, i as int).push(
            views(b@)[i as int],
        ));
        i += 1;
    }
    assert(views(a@) =~= views(a@).subrange(0, a@.len() as int));
    assert(views(b@) =~= views(b@).subrange(0, b@.len() as int));
    true
}

/// Checks a request before any I/O: `Ok` exactly where `request_error`
/// finds nothing, else that error.
pub fn validate(req: &OperationRequest, support: FormatSupport) -> (r: Result<(), ErrorKind>)
    ensures
        match request_error(req.kind, path_views(req.sources@), dest_view(req.destination), support) {
            None => r is Ok,
            Some(e) => r == Err::<(), ErrorKind>(e),
        },
{
    let ghost srcs = path_views(req.sources@);
    let ghost dest = dest_view(req.destination);
    let wants_sources = match req.kind {
        OperationKind::NewFolder | OperationKind::NewFile | OperationKind::EmptyTrash => false,
        _ => true,
    };
    if wants_sources && req.sources.len() == 0 {
        return Err(ErrorKind::InvalidRequest);
    }
    let wants_dest = match req.kind {
        OperationKind::Copy | OperationKind::Move | OperationKind::Rename
        | OperationKind::NewFolder | OperationKind::NewFile | OperationKind::Compress(_)
        | OperationKind::Extract => true,
        _ => false,
    };
    if wants_dest && req.destination.is_none() {
        return Err(ErrorKind::InvalidRequest);
    }
    if req.kind == OperationKind::Copy || req.kind == OperationKind::Move {
        if let Some(d) = &req.destination {
            let mut i: usize = 0;
            while i < req.sources.len()
                invariant
                    i <= req.sources@.len(),
                    srcs == path_views(req.sources@),
                    dest == Some(views(d@)),
                    req.kind == OperationKind::Copy || req.kind == OperationKind::Move,
                    srcs.len() == req.sources@.len(),
                    srcs.len() > 0,
                    dest == dest_view(req.destination),
                    forall|j: int| 0 <= j < i ==> srcs[j] != views(d@),
                decreases req.sources@.len() - i,
            {
                if same_path(&req.sources[i], d) {
                    assert(srcs[i as int] == views(d@));
                    assert(srcs.contains(views(d@)));
                    assert(onto_itself(req.kind, srcs, dest));
                    return Err(ErrorKind::InvalidRequest);
                }
                i += 1;
            }
            assert(!srcs.contains(views(d@)));
        }
    }
    match req.kind {
        OperationKind::Compress(f) => check_format(f, support),
        _ => Ok(()),
    }
}

} // verus!
