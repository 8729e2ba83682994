use vstd::prelude::*;

use crate::name::copy_bytes;

verus! {

/// "Desktop", the folder below the home directory used when none is configured.
pub open spec fn desktop_name() -> Seq<u8> {
    seq![68u8, 101u8, 115u8, 107u8, 116u8, 111u8, 112u8]
}

/// `dir` joined with the relative path `rel`: a '/' between the two unless
/// `dir` is empty or already ends in one.
pub open spec fn join_of(dir: Seq<u8>, rel: Seq<u8>) -> Seq<u8> {
    if dir.len() == 0 || dir.last() == 47u8 {
        dir + rel
    } else {
        dir.push(47u8) + rel
    }
}

/// Relies on dirs::home_dir: the user's home directory where one is known
/// ($HOME, else the password database); the path's bytes are kept as they
/// are.
#[verifier::external_body]
fn home_dir_found() -> (r: Option<Vec<u8>>) {
    dirs::home_dir().map(|p| p.as_os_str().as_encoded_bytes().to_vec())
}

/// Joins `dir` and the relative path `rel`.
pub fn join_path(dir: &Vec<u8>, rel: &Vec<u8>) -> (r: Vec<u8>)
    ensures
        r@ == join_of(dir@, rel@),
{
    let mut r = copy_bytes(dir);
    if r.len() > 0 && r[r.len() - 1] != 47u8 {
        r.push(47u8);
    }
    let ghost head = r@;
    let mut i: usize = 0;
    while i < rel.len()
        invariant
            i <= rel@.len(),
            r@ == head + rel@.subrange(0, i as int),
        decreases rel@.len() - i,
    {
        r.push(rel[i]);
        assert(rel@.subrange(0, i + 1) =~= rel@.subrange(0, i as int).push(rel@[i as int]));
        i += 1;
    }
    assert(rel@.subrange(0, rel@.len() as int) =~= rel@);
    r
}

/// The home directory that was found, or "/" where none was or it is empty.
pub fn home_dir_or_root(found: Option<Vec<u8>>) -> (r: Vec<u8>)
    ensures
        r@ == (match found {
            Some(h) => if h@.len() > 0 {
                h@
            } else {
                seq![47u8]
            },
            None => seq![47u8],
        }),
{
    match found {
        Some(h) if h.len() > 0 => h,
        _ => {
            let mut r: Vec<u8> = Vec::new();
            r.push(47u8);
            assert(r@ =~= seq![47u8]);
            r
        },
    }
}

/// The desktop directory that was found, or "Desktop" below `home` where
/// none was.
pub fn desktop_dir_or_fallback(found: Option<Vec<u8>>, home: &Vec<u8>) -> (r: Vec<u8>)
    ensures
        r@ == (match found {
            Some(d) => d@,
            None => join_of(home@, desktop_name()),
        }),
{
    match found {
        Some(d) => d,
        None => {
            let desktop: Vec<u8> = vec![68u8, 101u8, 115u8, 107u8, 116u8, 111u8, 112u8];
            assert(desktop@ =~= desktop_name());
            join_path(home, &desktop)
        },
    }
}

/// The user's home directory, or "/" where none is known or it is empty.
pub fn home_dir() -> (r: Vec<u8>)
    ensures
        r@.len() > 0,
{
    home_dir_or_root(home_dir_found())
}

/// The user's desktop directory: `found`, the configured one where there is
/// one, else "Desktop" below the home directory.
pub fn desktop_dir(found: Option<Vec<u8>>) -> (r: Vec<u8>)
    ensures
        found matches Some(d) ==> r@ == d@,
        found is None ==> exists|h: Seq<u8>| h.len() > 0 && r@ == join_of(h, desktop_name()),
        found matches Some(d) && d@.len() > 0 ==> r@.len() > 0,
        found is None ==> r@.len() > 0,
{
    match found {
        Some(d) => d,
        None => {
            let home = home_dir();
            let r = desktop_dir_or_fallback(None, &home);
            assert(r@.len() >= desktop_name().len());
            r
        },
    }
}

} // verus!
