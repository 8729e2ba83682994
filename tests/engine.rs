use cosmic_files::archive::{check_format, entry_path, ArchiveFormat, FormatSupport};
use cosmic_files::cli::{classify_arg, start_arg, StartArg, UrlPath};
use cosmic_files::conflict::{resolve, ConflictDecision, ConflictPolicy, DirEntry, EntryKind};
use cosmic_files::err_str;
use cosmic_files::error::ErrorKind;
use cosmic_files::name::{keep_both_batch, keep_both_name, suffixed_name};
use cosmic_files::places::{desktop_dir, desktop_dir_or_fallback, home_dir_or_root, join_path};
use cosmic_files::request::{validate, OperationRequest};
use cosmic_files::progress::{summarize, ItemOutcome, ProgressSnapshot, ProgressUpdate, Status, Summary};
use cosmic_files::scheduler::{paths_overlap, OperationKind, Scheduler};
use cosmic_files::state::{transition, Event, OperationState};
use cosmic_files::transfer::{
    may_remove_source, move_strategy, walk_totals, CopyAction, FileCopy, MoveStrategy,
};
use cosmic_files::trash::{parent_path, restore_plan, RestoreOutcome, TrashEntry};

fn b(s: &str) -> Vec<u8> {
    s.as_bytes().to_vec()
}

fn names(list: &[&str]) -> Vec<Vec<u8>> {
    list.iter().map(|s| b(s)).collect()
}

fn path(list: &[&str]) -> Vec<Vec<u8>> {
    names(list)
}

#[test]
fn err_str_keeps_message() {
    assert_eq!(err_str("disk full"), "disk full".to_string());
}

#[test]
fn suffix_format() {
    assert_eq!(suffixed_name(&b("notes.txt"), 2), b("notes.txt (2)"));
    assert_eq!(suffixed_name(&b("x"), 105), b("x (105)"));
}

#[test]
fn free_name_is_kept() {
    assert_eq!(keep_both_name(&b("a"), &names(&["b", "c"])), b("a"));
}

#[test]
fn colliding_name_gets_first_free_suffix() {
    assert_eq!(keep_both_name(&b("a"), &names(&["a"])), b("a (2)"));
    assert_eq!(keep_both_name(&b("a"), &names(&["a", "a (2)", "a (3)"])), b("a (4)"));
    assert_eq!(keep_both_name(&b("a"), &names(&["a", "a (3)"])), b("a (2)"));
}

#[test]
fn suffix_past_nine() {
    let taken = names(&[
        "d", "d (2)", "d (3)", "d (4)", "d (5)", "d (6)", "d (7)", "d (8)", "d (9)",
    ]);
    assert_eq!(keep_both_name(&b("d"), &taken), b("d (10)"));
}

#[test]
fn keep_both_is_deterministic() {
    let taken = names(&["a", "a (2)"]);
    assert_eq!(keep_both_name(&b("a"), &taken), keep_both_name(&b("a"), &taken));
}

#[test]
fn batch_of_collisions_gets_distinct_names() {
    let r = keep_both_batch(&names(&["f", "f", "f", "g"]), &names(&["f", "f (3)"]));
    assert_eq!(r, names(&["f (2)", "f (4)", "f (5)", "g"]));
    for i in 0..r.len() {
        for j in 0..r.len() {
            if i != j {
                assert_ne!(r[i], r[j]);
            }
        }
        assert!(r[i] != b("f") && r[i] != b("f (3)"));
    }
}

fn entry(name: &str, kind: EntryKind) -> DirEntry {
    DirEntry { name: b(name), kind }
}

#[test]
fn resolve_without_conflict_writes() {
    let entries = vec![entry("a", EntryKind::File)];
    let d = resolve(&b("b"), EntryKind::File, false, &entries, &Vec::new(), None);
    assert!(matches!(d, ConflictDecision::Write));
}

#[test]
fn resolve_directories_merge() {
    let entries = vec![entry("docs", EntryKind::Directory)];
    let d = resolve(&b("docs"), EntryKind::Directory, true, &entries, &Vec::new(), None);
    assert!(matches!(d, ConflictDecision::Merge));
}

#[test]
fn resolve_defaults_to_keep_both() {
    let entries = vec![entry("a", EntryKind::File)];
    let d = resolve(&b("a"), EntryKind::File, false, &entries, &Vec::new(), None);
    match d {
        ConflictDecision::KeepBoth(n) => assert_eq!(n, b("a (2)")),
        other => panic!("unexpected {:?}", other),
    }
}

#[test]
fn resolve_counts_names_given_in_batch() {
    let entries = vec![entry("a", EntryKind::File)];
    let d = resolve(&b("a"), EntryKind::File, false, &entries, &names(&["a (2)"]), None);
    match d {
        ConflictDecision::KeepBoth(n) => assert_eq!(n, b("a (3)")),
        other => panic!("unexpected {:?}", other),
    }
    let d = resolve(&b("z"), EntryKind::File, false, &entries, &names(&["z"]), None);
    match d {
        ConflictDecision::KeepBoth(n) => assert_eq!(n, b("z (2)")),
        other => panic!("unexpected {:?}", other),
    }
}

#[test]
fn resolve_overwrite_and_skip_only_on_request() {
    let entries = vec![entry("a", EntryKind::File)];
    let d = resolve(&b("a"), EntryKind::File, false, &entries, &Vec::new(), Some(ConflictPolicy::Overwrite));
    assert!(matches!(d, ConflictDecision::Overwrite));
    let d = resolve(&b("a"), EntryKind::File, false, &entries, &Vec::new(), Some(ConflictPolicy::Skip));
    assert!(matches!(d, ConflictDecision::Skip));
    let d = resolve(&b("a"), EntryKind::File, false, &entries, &Vec::new(), Some(ConflictPolicy::KeepBoth));
    assert!(matches!(d, ConflictDecision::KeepBoth(_)));
}

#[test]
fn file_onto_directory_does_not_merge() {
    let entries = vec![entry("a", EntryKind::Directory)];
    let d = resolve(&b("a"), EntryKind::File, true, &entries, &Vec::new(), None);
    assert!(matches!(d, ConflictDecision::KeepBoth(_)));
}

#[test]
fn extract_rejects_parent_escape() {
    assert_eq!(entry_path(&b("../../etc/passwd")), Err(ErrorKind::PathTraversal));
    assert_eq!(entry_path(&b("a/../../x")), Err(ErrorKind::PathTraversal));
    assert_eq!(entry_path(&b("/etc/passwd")), Err(ErrorKind::PathTraversal));
}

#[test]
fn extract_resolves_inner_paths() {
    assert_eq!(entry_path(&b("a/./b/../c")), Ok(path(&["a", "c"])));
    assert_eq!(entry_path(&b("dir//file")), Ok(path(&["dir", "file"])));
    assert_eq!(entry_path(&b("a/..")), Ok(Vec::new()));
    assert_eq!(entry_path(&b("..a/b..")), Ok(path(&["..a", "b.."])));
}

#[test]
fn unsupported_format_is_refused() {
    let plain = FormatSupport { bzip2: false, xz: true };
    assert_eq!(check_format(ArchiveFormat::Zip, plain), Ok(()));
    assert_eq!(check_format(ArchiveFormat::TarXz, plain), Ok(()));
    assert_eq!(check_format(ArchiveFormat::TarBzip2, plain), Err(ErrorKind::UnsupportedFormat));
}

#[test]
fn state_machine_edges() {
    assert_eq!(transition(OperationState::Queued, Event::Start), Some(OperationState::Running));
    assert_eq!(transition(OperationState::Queued, Event::Cancel), Some(OperationState::Cancelled));
    assert_eq!(transition(OperationState::Running, Event::Pause), Some(OperationState::Paused));
    assert_eq!(transition(OperationState::Paused, Event::Resume), Some(OperationState::Running));
    assert_eq!(transition(OperationState::Paused, Event::Finish), None);
    assert_eq!(transition(OperationState::Running, Event::Cancel), Some(OperationState::Cancelling));
    assert_eq!(transition(OperationState::Cancelling, Event::CancelAcknowledged), Some(OperationState::Cancelled));
    assert_eq!(transition(OperationState::Cancelling, Event::Fail(ErrorKind::NotFound)), Some(OperationState::Cancelled));
    assert_eq!(transition(OperationState::Running, Event::Fail(ErrorKind::NotFound)), Some(OperationState::Failed(ErrorKind::NotFound)));
    assert_eq!(transition(OperationState::Completed, Event::Start), None);
    assert_eq!(transition(OperationState::Cancelling, Event::Finish), None);
    assert_eq!(transition(OperationState::Cancelled, Event::Resume), None);
}

#[test]
fn scheduler_ids_increase() {
    let mut s = Scheduler::new(2, 10);
    let a = s.enqueue(OperationKind::Copy, path(&["home", "a"]));
    let b2 = s.enqueue(OperationKind::Move, path(&["home", "b"]));
    assert!(a < b2);
    assert_eq!(s.state_of(a), Some(OperationState::Queued));
    assert_eq!(s.state_of(999), None);
}

#[test]
fn scheduler_serializes_overlapping_targets() {
    let mut s = Scheduler::new(4, 10);
    let a = s.enqueue(OperationKind::Copy, path(&["home", "u"]));
    let c = s.enqueue(OperationKind::Copy, path(&["home", "u", "docs"]));
    let d = s.enqueue(OperationKind::Copy, path(&["tmp"]));
    assert_eq!(s.start_next(), Some(a));
    assert_eq!(s.start_next(), Some(d));
    assert_eq!(s.start_next(), None);
    assert_eq!(s.apply(a, Event::Finish), Ok(OperationState::Completed));
    assert_eq!(s.start_next(), Some(c));
}

#[test]
fn scheduler_respects_worker_limit() {
    let mut s = Scheduler::new(1, 10);
    let a = s.enqueue(OperationKind::Copy, path(&["a"]));
    let b2 = s.enqueue(OperationKind::Copy, path(&["b"]));
    assert_eq!(s.start_next(), Some(a));
    assert_eq!(s.start_next(), None);
    assert_eq!(s.apply(a, Event::Pause), Ok(OperationState::Paused));
    assert_eq!(s.start_next(), None);
    assert_eq!(s.apply(a, Event::Cancel), Ok(OperationState::Cancelling));
    assert_eq!(s.apply(a, Event::CancelAcknowledged), Ok(OperationState::Cancelled));
    assert_eq!(s.start_next(), Some(b2));
}

#[test]
fn scheduler_rejects_bad_events() {
    let mut s = Scheduler::new(1, 10);
    let a = s.enqueue(OperationKind::Rename, path(&["a"]));
    assert_eq!(s.apply(a, Event::Start), Err(ErrorKind::InvalidRequest));
    assert_eq!(s.apply(a, Event::Finish), Err(ErrorKind::InvalidRequest));
    assert_eq!(s.apply(a + 1, Event::Cancel), Err(ErrorKind::NotFound));
    assert_eq!(s.apply(a, Event::Cancel), Ok(OperationState::Cancelled));
    assert_eq!(s.apply(a, Event::Cancel), Err(ErrorKind::InvalidRequest));
    assert_eq!(s.state_of(a), Some(OperationState::Cancelled));
}

#[test]
fn scheduler_evicts_oldest_finished() {
    let mut s = Scheduler::new(1, 2);
    let a = s.enqueue(OperationKind::NewFile, path(&["a"]));
    let b2 = s.enqueue(OperationKind::NewFile, path(&["b"]));
    let c = s.enqueue(OperationKind::NewFile, path(&["c"]));
    let live = s.enqueue(OperationKind::NewFolder, path(&["d"]));
    for id in [a, b2, c] {
        assert_eq!(s.apply(id, Event::Cancel), Ok(OperationState::Cancelled));
    }
    assert_eq!(s.state_of(a), None);
    assert_eq!(s.state_of(b2), Some(OperationState::Cancelled));
    assert_eq!(s.state_of(c), Some(OperationState::Cancelled));
    assert_eq!(s.state_of(live), Some(OperationState::Queued));
    assert!(s.purge(b2));
    assert!(!s.purge(b2));
    assert!(!s.purge(live));
    assert_eq!(s.state_of(b2), None);
}

#[test]
fn overlap_is_prefix_relation() {
    assert!(paths_overlap(&path(&["a"]), &path(&["a", "b"])));
    assert!(paths_overlap(&path(&["a", "b"]), &path(&["a"])));
    assert!(!paths_overlap(&path(&["a", "b"]), &path(&["a", "c"])));
    assert!(!paths_overlap(&path(&["ab"]), &path(&["a"])));
}

#[test]
fn progress_totals_move_up_only() {
    let mut p = ProgressSnapshot::new();
    p.advance(100, 1);
    assert_eq!(p.bytes_total, None);
    p.set_totals(50, 3);
    assert_eq!(p.bytes_total, Some(100));
    assert_eq!(p.items_total, Some(3));
    p.advance(30, 3);
    assert_eq!(p.bytes_done, 130);
    assert_eq!(p.bytes_total, Some(130));
    assert_eq!(p.items_done, 4);
    assert_eq!(p.items_total, Some(4));
    p.set_totals(10, 1);
    assert_eq!(p.bytes_total, Some(130));
    assert_eq!(p.items_total, Some(4));
    p.set_totals(500, 9);
    assert_eq!(p.bytes_total, Some(500));
    p.set_totals(200, 9);
    assert_eq!(p.bytes_total, Some(500));
    p.advance(u64::MAX, 0);
    assert_eq!(p.bytes_done, u64::MAX);
}

#[test]
fn summary_counts_outcomes() {
    let paths = names(&["a", "b", "c", "d"]);
    let outcomes = vec![
        ItemOutcome::Succeeded(10),
        ItemOutcome::Failed(ErrorKind::PermissionDenied),
        ItemOutcome::Skipped,
        ItemOutcome::Succeeded(5),
    ];
    let s = summarize(&paths, &outcomes);
    assert_eq!(s.succeeded, 2);
    assert_eq!(s.skipped, 1);
    assert_eq!(s.bytes, 15);
    assert_eq!(s.failures.len(), 1);
    assert_eq!(s.failures[0].path, b("b"));
    assert_eq!(s.failures[0].kind, ErrorKind::PermissionDenied);
    assert_eq!(s.status(), Status::Partial);
}

#[test]
fn summary_status_kinds() {
    let mut s = Summary::new();
    assert_eq!(s.status(), Status::Success);
    s.record(b("x"), ItemOutcome::Failed(ErrorKind::NotFound));
    assert_eq!(s.status(), Status::Failure);
    s.record(b("y"), ItemOutcome::Succeeded(1));
    assert_eq!(s.status(), Status::Partial);
}

#[test]
fn copy_three_files_keep_both_scenario() {
    let mb: u64 = 1024 * 1024;
    let sources = names(&["one", "two", "three"]);
    let sizes = vec![2 * mb, 3 * mb, 5 * mb];
    let entries = vec![entry("two", EntryKind::File)];
    let mut given: Vec<Vec<u8>> = Vec::new();
    let mut written: Vec<Vec<u8>> = Vec::new();
    let mut renamed = 0;
    for src in &sources {
        let d = resolve(src, EntryKind::File, true, &entries, &given, Some(ConflictPolicy::KeepBoth));
        let target = match d {
            ConflictDecision::Write => src.clone(),
            ConflictDecision::KeepBoth(n) => {
                renamed += 1;
                n
            }
            other => panic!("unexpected {:?}", other),
        };
        given.push(target.clone());
        written.push(target);
    }
    assert_eq!(written, names(&["one", "two (2)", "three"]));
    assert_eq!(renamed, 1);
    assert_eq!(walk_totals(&sizes), Some(10 * mb));
    let outcomes: Vec<ItemOutcome> = sizes.iter().map(|s| ItemOutcome::Succeeded(*s)).collect();
    let s = summarize(&written, &outcomes);
    assert_eq!(s.succeeded, 3);
    assert_eq!(s.failures.len(), 0);
    assert_eq!(s.bytes, 10 * mb);
    assert_eq!(s.status(), Status::Success);
}

#[test]
fn copy_runs_in_chunks() {
    let mut job = FileCopy::new(10, 4);
    let mut offsets = Vec::new();
    loop {
        match job.next_action(false) {
            CopyAction::WriteChunk { offset, len } => {
                offsets.push((offset, len));
                job.chunk_written(len);
            }
            CopyAction::Finalize => break,
            CopyAction::RemovePartial => panic!("not cancelled"),
        }
    }
    assert_eq!(offsets, vec![(0, 4), (4, 4), (8, 2)]);
    assert_eq!(job.written, 10);
}

#[test]
fn cancel_removes_partial_file() {
    let mut job = FileCopy::new(10, 4);
    job.chunk_written(4);
    assert_eq!(job.next_action(true), CopyAction::RemovePartial);
    job.chunk_written(6);
    assert_eq!(job.next_action(true), CopyAction::RemovePartial);
    assert_eq!(job.next_action(false), CopyAction::Finalize);
}

#[test]
fn cancelled_copy_is_not_counted_complete() {
    let mut job = FileCopy::new(10, 4);
    assert_eq!(job.outcome(false), None);
    job.chunk_written(4);
    assert_eq!(job.outcome(true), Some(ItemOutcome::Cancelled));
    let s = summarize(&names(&["f"]), &vec![job.outcome(true).unwrap()]);
    assert_eq!(s.succeeded, 0);
    assert_eq!(s.cancelled, 1);
    assert_eq!(s.failures.len(), 0);
    assert_eq!(s.bytes, 0);
    job.chunk_written(6);
    assert_eq!(job.outcome(false), Some(ItemOutcome::Succeeded(10)));
}

#[test]
fn move_rules() {
    assert_eq!(move_strategy(3, 3), MoveStrategy::Rename);
    assert_eq!(move_strategy(3, 4), MoveStrategy::CopyThenDelete);
    assert!(may_remove_source(10, 10, true));
    assert!(!may_remove_source(10, 9, true));
    assert!(!may_remove_source(10, 10, false));
}

#[test]
fn walk_totals_overflow() {
    assert_eq!(walk_totals(&vec![u64::MAX, 1]), None);
    assert_eq!(walk_totals(&Vec::new()), Some(0));
}

#[test]
fn restore_goes_back_or_asks() {
    let entries = vec![
        TrashEntry { id: 1, original: path(&["home", "u", "a.txt"]), deleted_at: 100 },
        TrashEntry { id: 2, original: path(&["gone", "b.txt"]), deleted_at: 200 },
    ];
    let plan = restore_plan(&entries, &vec![true, false]);
    assert_eq!(plan.len(), 2);
    match &plan[0] {
        RestoreOutcome::Restore(p) => assert_eq!(*p, path(&["home", "u", "a.txt"])),
        other => panic!("unexpected {:?}", other),
    }
    assert!(matches!(plan[1], RestoreOutcome::NeedsDestination));
    assert_eq!(parent_path(&entries[0].original), path(&["home", "u"]));
}

#[test]
fn home_and_desktop_fallbacks() {
    assert_eq!(home_dir_or_root(None), b("/"));
    assert_eq!(home_dir_or_root(Some(b("/home/u"))), b("/home/u"));
    assert_eq!(home_dir_or_root(Some(Vec::new())), b("/"));
    assert_eq!(desktop_dir_or_fallback(None, &b("/home/u")), b("/home/u/Desktop"));
    assert_eq!(desktop_dir_or_fallback(None, &b("/")), b("/Desktop"));
    assert_eq!(desktop_dir_or_fallback(Some(b("/d")), &b("/home/u")), b("/d"));
    assert_eq!(join_path(&b("a/"), &b("b")), b("a/b"));
    assert_eq!(desktop_dir(Some(b("/d"))), b("/d"));
    let fallback = desktop_dir(None);
    assert!(fallback.ends_with(&b("Desktop")));
    assert!(fallback.len() > b("Desktop").len());
}

fn request(kind: OperationKind, sources: Vec<Vec<Vec<u8>>>, destination: Option<Vec<Vec<u8>>>) -> OperationRequest {
    OperationRequest { kind, sources, destination, policy: None }
}

#[test]
fn requests_checked_before_io() {
    let all = FormatSupport { bzip2: true, xz: true };
    let none = FormatSupport { bzip2: false, xz: false };
    let src = vec![path(&["home", "a"])];
    assert_eq!(validate(&request(OperationKind::Copy, src.clone(), Some(path(&["tmp"]))), all), Ok(()));
    assert_eq!(validate(&request(OperationKind::Copy, Vec::new(), Some(path(&["tmp"]))), all), Err(ErrorKind::InvalidRequest));
    assert_eq!(validate(&request(OperationKind::Move, src.clone(), None), all), Err(ErrorKind::InvalidRequest));
    assert_eq!(validate(&request(OperationKind::Move, src.clone(), Some(path(&["home", "a"]))), all), Err(ErrorKind::InvalidRequest));
    assert_eq!(validate(&request(OperationKind::NewFolder, Vec::new(), Some(path(&["home", "n"]))), all), Ok(()));
    assert_eq!(validate(&request(OperationKind::EmptyTrash, Vec::new(), None), all), Ok(()));
    assert_eq!(
        validate(&request(OperationKind::Compress(ArchiveFormat::TarXz), src.clone(), Some(path(&["a.tar.xz"]))), none),
        Err(ErrorKind::UnsupportedFormat)
    );
    assert_eq!(
        validate(&request(OperationKind::Compress(ArchiveFormat::Zip), src, Some(path(&["a.zip"]))), none),
        Ok(())
    );
}

#[test]
fn progress_reported_per_operation() {
    let mut s = Scheduler::new(2, 4);
    let a = s.enqueue(OperationKind::Copy, path(&["dst"]));
    assert_eq!(s.report(a, ProgressUpdate::Advance { bytes: 5, items: 1 }), Err(ErrorKind::InvalidRequest));
    assert_eq!(s.start_next(), Some(a));
    s.report(a, ProgressUpdate::Totals { bytes: 100, items: 2 }).unwrap();
    let p = s.report(a, ProgressUpdate::Advance { bytes: 40, items: 1 }).unwrap();
    assert_eq!(p.bytes_done, 40);
    assert_eq!(p.bytes_total, Some(100));
    let p = s.report(a, ProgressUpdate::Advance { bytes: 80, items: 1 }).unwrap();
    assert_eq!(p.bytes_done, 120);
    assert_eq!(p.bytes_total, Some(120));
    assert_eq!(s.progress_of(a), Some(p));
    assert_eq!(s.report(a + 7, ProgressUpdate::Advance { bytes: 1, items: 0 }), Err(ErrorKind::NotFound));
    assert_eq!(s.apply(a, Event::Finish), Ok(OperationState::Completed));
    assert_eq!(s.report(a, ProgressUpdate::Advance { bytes: 1, items: 0 }), Err(ErrorKind::InvalidRequest));
    assert_eq!(s.progress_of(a), Some(p));
}

#[test]
fn flags_are_recognised() {
    assert!(matches!(start_arg("--no-daemon"), StartArg::NoDaemon));
    assert!(matches!(start_arg("--trash"), StartArg::Trash));
    assert!(matches!(classify_arg(&b("--trash"), UrlPath::File(b("/x"))), StartArg::Trash));
}

#[test]
fn file_urls_become_paths() {
    match start_arg("file:///tmp/a%20b") {
        StartArg::Location(p) => assert_eq!(p, b("/tmp/a b")),
        other => panic!("unexpected {:?}", other),
    }
    assert!(matches!(start_arg("https://example.com/x"), StartArg::Invalid));
}

#[test]
fn plain_arguments_are_paths() {
    match start_arg("docs/report.txt") {
        StartArg::Location(p) => assert_eq!(p, b("docs/report.txt")),
        other => panic!("unexpected {:?}", other),
    }
    match classify_arg(&b("x"), UrlPath::NotUrl) {
        StartArg::Location(p) => assert_eq!(p, b("x")),
        other => panic!("unexpected {:?}", other),
    }
    assert!(matches!(classify_arg(&b("x"), UrlPath::NotFile), StartArg::Invalid));
}
