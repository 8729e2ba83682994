use vstd::prelude::*;

use crate::name::copy_bytes;
use vstd::string::StringSliceAdditionalSpecFns;

verus! {

/// What one command-line argument asks for.
#[derive(Debug)]
pub enum StartArg {
    /// "--no-daemon": stay in the foreground.
    NoDaemon,
    /// "--trash": open the trash.
    Trash,
    /// Open this path (not yet made absolute).
    Location(Vec<u8>),
    /// A URL that names no local file: ignored.
    Invalid,
}

/// What URL parsing made of an argument.
#[derive(Debug)]
pub enum UrlPath {
    /// Not a URL: the argument is a plain path.
    NotUrl,
    /// A URL without a local file path.
    NotFile,
    /// A URL of a local file, with its path.
    File(Vec<u8>),
}

/// The bytes of "--no-daemon".
pub open spec fn no_daemon_flag() -> Seq<u8> {
    seq![45u8, 45u8, 110u8, 111u8, 45u8, 100u8, 97u8, 101u8, 109u8, 111u8, 110u8]
}

/// The bytes of "--trash".
pub open spec fn trash_flag() -> Seq<u8> {
    seq![45u8, 45u8, 116u8, 114u8, 97u8, 115u8, 104u8]
}

/// `r` is what the argument with bytes `arg` asks for, given what URL parsing
/// made of it.
pub open spec fn start_arg_of(arg: Seq<u8>, parsed: UrlPath, r: StartArg) -> bool {
    if arg == no_daemon_flag() {
        r is NoDaemon
    } else if arg == trash_flag() {
        r is Trash
    } else {
        match (parsed, r) {
            (UrlPath::NotUrl, StartArg::Location(p)) => p@ == arg,
            (UrlPath::NotFile, StartArg::Invalid) => true,
            (UrlPath::File(f), StartArg::Location(p)) => p@ == f@,
            _ => false,
        }
    }
}

/// What parsing `arg` as a URL gives: `None` where it is no absolute URL,
/// `Some(None)` where it is one without a local file path, else the path.
pub uninterp spec fn url_path_of(arg: Seq<char>) -> Option<Option<Seq<u8>>>;

/// The value of a `UrlPath` in the form that `url_path_of` gives.
pub open spec fn url_path_view(u: UrlPath) -> Option<Option<Seq<u8>>> {
    match u {
        UrlPath::NotUrl => None,
        UrlPath::NotFile => Some(None),
        UrlPath::File(p) => Some(Some(p@)),
    }
}

/// Relies on url::Url::parse and url::Url::to_file_path: the text is parsed
/// as an absolute URL, and a URL without a host (or with host "localhost")
/// gives its local path. The result depends on the text alone.
#[verifier::external_body]
fn parse_url_path(arg: &str) -> (r: UrlPath)
    ensures
        url_path_view(r) == url_path_of(arg@),
{
    match url::Url::parse(arg) {
        Err(_) => UrlPath::NotUrl,
        Ok(u) => match u.to_file_path() {
            Ok(p) => UrlPath::File(p.as_os_str().as_encoded_bytes().to_vec()),
            Err(()) => UrlPath::NotFile,
        },
    }
}

/// Tells what one argument asks for, given what URL parsing made of it: the
/// two flags, else the file path of a URL, else the argument as a path.
pub fn classify_arg(arg: &Vec<u8>, parsed: UrlPath) -> (r: StartArg)
    ensures
        start_arg_of(arg@, parsed, r),
{
    let no_daemon: Vec<u8> = vec![45u8, 45u8, 110u8, 111u8, 45u8, 100u8, 97u8, 101u8, 109u8, 111u8, 110u8];
    let trash: Vec<u8> = vec![45u8, 45u8, 116u8, 114u8, 97u8, 115u8, 104u8];
    assert(no_daemon@ =~= no_daemon_flag());
    assert(trash@ =~= trash_flag());
    if crate::name::same_bytes(arg, &no_daemon) {
        StartArg::NoDaemon
    } else if crate::name::same_bytes(arg, &trash) {
        StartArg::Trash
    } else {
        match parsed {
            UrlPath::NotUrl => StartArg::Location(copy_bytes(arg)),
            UrlPath::NotFile => StartArg::Invalid,
            UrlPath::File(p) => StartArg::Location(p),
        }
    }
}

/// Tells what one command-line argument asks for. The flags are recognised
/// as they are; any other argument that parses as a URL stands for its local
/// file path, or is invalid where it has none; the rest are paths.
pub fn start_arg(arg: &str) -> (r: StartArg)
    ensures
        exists|u: UrlPath|
            url_path_view(u) == url_path_of(arg@) && start_arg_of(arg.spec_bytes(), u, r),
        arg.spec_bytes() == no_daemon_flag() ==> r is NoDaemon,
        arg.spec_bytes() == trash_flag() ==> r is Trash,
{
    let bytes = arg.as_bytes();
    let mut raw: Vec<u8> = Vec::new();
    let mut i: usize = 0;
    while i < bytes.len()
        invariant
            i <= bytes@.len(),
            raw@ == bytes@.subrange(0, i as int),
        decreases bytes@.len() - i,
    {
        raw.push(bytes[i]);
        i += 1;
    }
    assert(raw@ =~= arg.spec_bytes());
    let parsed = parse_url_path(arg);
    let ghost g = parsed;
    let r = classify_arg(&raw, parsed);
    assert(url_path_view(g) == url_path_of(arg@) && start_arg_of(arg.spec_bytes(), g, r));
    r
}

} // verus!
