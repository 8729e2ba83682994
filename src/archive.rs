use vstd::prelude::*;

use crate::error::ErrorKind;
use crate::name::views;

verus! {

/// The archive formats that the engine knows.
#[derive(Clone, Copy, Debug, PartialEq, Eq, Structural)]
pub enum ArchiveFormat {
    Tar,
    TarGzip,
    Zip,
    TarBzip2,
    TarXz,
}

/// The formats that a build offers beyond tar, gzip-tar and zip.
#[derive(Clone, Copy, Debug, PartialEq, Eq, Structural)]
pub struct FormatSupport {
    pub bzip2: bool,
    pub xz: bool,
}

/// `format` can be written by a build with `support`.
pub open spec fn format_offered(format: ArchiveFormat, support: FormatSupport) -> bool {
    match format {
        ArchiveFormat::TarBzip2 => support.bzip2,
        ArchiveFormat::TarXz => support.xz,
        _ => true,
    }
}

/// Checks, before any I/O, that compression into `format` is offered.
pub fn check_format(format: ArchiveFormat, support: FormatSupport) -> (r: Result<(), ErrorKind>)
    ensures
        r is Ok <==> format_offered(format, support),
        r is Err ==> r == Err::<(), ErrorKind>(ErrorKind::UnsupportedFormat),
{
    let offered = match format {
        ArchiveFormat::TarBzip2 => support.bzip2,
        ArchiveFormat::TarXz => support.xz,
        _ => true,
    };
    if offered {
        Ok(())
    } else {
        Err(ErrorKind::UnsupportedFormat)
    }
}

pub open spec fn slash() -> u8 {
    47u8
}

pub open spec fn dot() -> u8 {
    46u8
}

/// The components that `s` splits into at each '/', with the one in progress
/// last: `(done, current)`.
pub open spec fn split_state(s: Seq<u8>) -> (Seq<Seq<u8>>, Seq<u8>)
    decreases s.len(),
{
    if s.len() == 0 {
        (Seq::empty(), Seq::empty())
    } else {
        let (done, cur) = split_state(s.drop_last());
        if s.last() == slash() {
            (done.push(cur), Seq::empty())
        } else {
            (done, cur.push(s.last()))
        }
    }
}

/// The components of `s` between its '/' separators, empty ones included.
pub open spec fn components(s: Seq<u8>) -> Seq<Seq<u8>> {
    split_state(s).0.push(split_state(s).1)
}

/// A component that names the directory it stands in.
pub open spec fn is_here(c: Seq<u8>) -> bool {
    c.len() == 0 || c == seq![dot()]
}

/// A component that names the parent directory.
pub open spec fn is_parent(c: Seq<u8>) -> bool {
    c == seq![dot(), dot()]
}

/// Applies one component to the resolved path `st`; `None` once the path has
/// left the destination.
pub open spec fn step(st: Option<Seq<Seq<u8>>>, c: Seq<u8>) -> Option<Seq<Seq<u8>>> {
    match st {
        None => None,
        Some(p) => if is_here(c) {
            Some(p)
        } else if is_parent(c) {
            if p.len() == 0 {
                None
            } else {
                Some(p.drop_last())
            }
        } else {
            Some(p.push(c))
        },
    }
}

/// The path that the components `cs` lead to from the destination, or `None`
/// where some prefix of them leads out of it.
pub open spec fn resolve_components(cs: Seq<Seq<u8>>) -> Option<Seq<Seq<u8>>>
    decreases cs.len(),
{
    if cs.len() == 0 {
        Some(Seq::empty())
    } else {
        step(resolve_components(cs.drop_last()), cs.last())
    }
}

/// Where an archive entry named `path` lands below the destination: the
/// components of the resolved path, or `PathTraversal` where the path is
/// absolute or some prefix of it climbs above the destination.
pub open spec fn entry_target(path: Seq<u8>) -> Result<Seq<Seq<u8>>, ErrorKind> {
    if path.len() > 0 && path[0] == slash() {
        Err(ErrorKind::PathTraversal)
    } else {
        match resolve_components(components(path)) {
            Some(p) => Ok(p),
            None => Err(ErrorKind::PathTraversal),
        }
    }
}

/// A component that can stand in a path below the destination: not empty, not
/// "." or "..", and without a '/'.
pub open spec fn plain_component(c: Seq<u8>) -> bool {
    &&& !is_here(c)
    &&& !is_parent(c)
    &&& !c.contains(slash())
}

proof fn lemma_split_no_slash(s: Seq<u8>)
    ensures
        !split_state(s).1.contains(slash()),
        forall|i: int|
            0 <= i < split_state(s).0.len() ==> !(#[trigger] split_state(s).0[i]).contains(slash()),
    decreases s.len(),
{
    if s.len() > 0 {
        lemma_split_no_slash(s.drop_last());
        let (done, cur) = split_state(s.drop_last());
        if s.last() != slash() {
            assert forall|j: int| 0 <= j < cur.push(s.last()).len() implies cur.push(s.last())[j]
                != slash() by {
                if j < cur.len() {
                    assert(cur.push(s.last())[j] == cur[j]);
                }
            }
        } else {
            assert forall|i: int| 0 <= i < done.push(cur).len() implies !(
            #[trigger] done.push(cur)[i]).contains(slash()) by {
                if i < done.len() {
                    assert(done.push(cur)[i] == done[i]);
                }
            }
        }
    }
}

proof fn lemma_resolved_plain(cs: Seq<Seq<u8>>)
    requires
        forall|i: int| 0 <= i < cs.len() ==> !(#[trigger] cs[i]).contains(slash()),
    ensures
        resolve_components(cs) matches Some(p) ==> forall|i: int|
            0 <= i < p.len() ==> plain_component(#[trigger] p[i]),
    decreases cs.len(),
{
    if cs.len() > 0 {
        let front = cs.drop_last();
        assert forall|i: int| 0 <= i < front.len() implies !(#[trigger] front[i]).contains(
            slash(),
        ) by {
            assert(front[i] == cs[i]);
        }
        lemma_resolved_plain(front);
        assert(!cs[cs.len() - 1].contains(slash()));
        if let Some(p) = resolve_components(front) {
            let c = cs.last();
            if !is_here(c) && !is_parent(c) {
                assert forall|i: int| 0 <= i < p.push(c).len() implies plain_component(
                    #[trigger] p.push(c)[i],
                ) by {
                    if i < p.len() {
                        assert(p.push(c)[i] == p[i]);
                    }
                }
            } else if is_parent(c) && p.len() > 0 {
                assert forall|i: int| 0 <= i < p.drop_last().len() implies plain_component(
                    #[trigger] p.drop_last()[i],
                ) by {
                    assert(p.drop_last()[i] == p[i]);
                }
            }
        }
    }
}

/// Every component of a resolved entry path is a plain name: the entry lands
/// at or below the destination directory and never above it.
pub proof fn lemma_entry_stays_inside(path: Seq<u8>)
    ensures
        entry_target(path) matches Ok(p) ==> forall|i: int|
            0 <= i < p.len() ==> plain_component(#[trigger] p[i]),
{
    lemma_split_no_slash(path);
    let cs = components(path);
    assert forall|i: int| 0 <= i < cs.len() implies !(#[trigger] cs[i]).contains(slash()) by {
        if i < split_state(path).0.len() {
            assert(cs[i] == split_state(path).0[i]);
        }
    }
    lemma_resolved_plain(cs);
}

/// Applies one component to the resolved path in `stack`; returns false, with
/// `stack` left as it was, where the component climbs above the destination.
fn apply_component(stack: &mut Vec<Vec<u8>>, c: Vec<u8>) -> (ok: bool)
    ensures
        step(Some(views(old(stack)@)), c@) matches Some(p) ==> ok && views(final(stack)@) == p,
        step(Some(views(old(stack)@)), c@) is None ==> !ok,
{
    let ghost before = stack@;
    let ghost cv = c@;
    let len = c.len();
    if len == 0 || (len == 1 && c[0] == 46u8) {
        assert(is_here(cv)) by {
            if len == 1 {
                assert(cv =~= seq![dot()]);
            }
        }
        return true;
    }
    if len == 2 && c[0] == 46u8 && c[1] == 46u8 {
        assert(cv =~= seq![dot(), dot()]);
        if stack.len() == 0 {
            return false;
        }
        stack.pop();
        assert(views(stack@) =~= views(before).drop_last());
        return true;
    }
    assert(!is_here(cv)) by {
        if cv == seq![dot()] {
            assert(cv[0] == dot());
        }
    }
    assert(!is_parent(cv)) by {
        if cv == seq![dot(), dot()] {
            assert(cv[0] == dot() && cv[1] == dot());
        }
    }
    stack.push(c);
    assert(stack@ == before.push(c));
    assert(views(stack@) =~= views(before).push(cv));
    true
}

/// Resolves the path of an archive entry against the destination directory.
/// An absolute path, or one whose ".." components climb above the destination
/// at any point, fails with `PathTraversal`; nothing is written for it.
pub fn entry_path(path: &Vec<u8>) -> (r: Result<Vec<Vec<u8>>, ErrorKind>)
    ensures
        match (r, entry_target(path@)) {
            (Ok(v), Ok(p)) => views(v@) == p,
            (Err(e), Err(f)) => e == f,
            _ => false,
        },
{
    if path.len() > 0 && path[0] == 47u8 {
        return Err(ErrorKind::PathTraversal);
    }
    let mut stack: Vec<Vec<u8>> = Vec::new();
    let mut cur: Vec<u8> = Vec::new();
    let mut i: usize = 0;
    assert(path@.subrange(0, 0) =~= Seq::<u8>::empty());
    while i < path.len()
        invariant
            i <= path.len(),
            split_state(path@.subrange(0, i as int)).1 == cur@,
            resolve_components(split_state(path@.subrange(0, i as int)).0) == Some(views(stack@)),
        decreases path.len() - i,
    {
        let b = path[i];
        let ghost pre = path@.subrange(0, i as int);
        let ghost next = path@.subrange(0, i + 1);
        assert(next.drop_last() =~= pre);
        assert(next.last() == b);
        if b == 47u8 {
            let done_c = cur;
            cur = Vec::new();
            let ghost d = split_state(pre).0;
            assert(d.push(done_c@).drop_last() =~= d);
            if !apply_component(&mut stack, done_c) {
                assert(split_state(next).0 == d.push(done_c@));
                assert(resolve_components(split_state(next).0) is None);
                assert(entry_target(path@) is Err) by {
                    lemma_resolve_stays_none(path@, i + 1);
                }
                return Err(ErrorKind::PathTraversal);
            }
        } else {
            cur.push(b);
        }
        i += 1;
    }
    assert(path@.subrange(0, path@.len() as int) =~= path@);
    let ghost d = split_state(path@).0;
    let ghost last = cur@;
    assert(components(path@).drop_last() =~= d);
    if apply_component(&mut stack, cur) {
        Ok(stack)
    } else {
        Err(ErrorKind::PathTraversal)
    }
}

/// Once a prefix of a path has climbed out, the whole path stays out.
proof fn lemma_resolve_stays_none(path: Seq<u8>, i: int)
    requires
        0 <= i <= path.len(),
        resolve_components(split_state(path.subrange(0, i)).0) is None,
    ensures
        resolve_components(components(path)) is None,
    decreases path.len() - i,
{
    if i == path.len() {
        assert(path.subrange(0, i) =~= path);
        assert(components(path).drop_last() =~= split_state(path).0);
    } else {
        let next = path.subrange(0, i + 1);
        assert(next.drop_last() =~= path.subrange(0, i));
        let d = split_state(path.subrange(0, i)).0;
        if path[i] == slash() {
            assert(split_state(next).0 == d.push(split_state(path.subrange(0, i)).1));
            assert(d.push(split_state(path.subrange(0, i)).1).drop_last() =~= d);
        }
        lemma_resolve_stays_none(path, i + 1);
    }
}

} // verus!
