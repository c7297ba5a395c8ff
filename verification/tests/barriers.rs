//! The barriers between watches, and what is remembered of watched paths.

use std::sync::{Arc, Mutex};

use notify_poll::error::{Error, ErrorKind};
use notify_poll::filter::WatchFilter;
use notify_poll::path::FilePath;
use notify_poll::paths::{
    absolute_path, check_overlap_barrier, check_watch_barriers, filter_allows_event_under,
    filter_keeps_walk_entry, is_preserved_watch_root, needs_resolution, preserved_watch_mode,
    preserved_watch_roots, recursive_user_watch_ancestor, reported_path, walkdir_descended_into,
    LinkTarget, Probe, WalkEntry, WatchMetadata, WatchPath, WatchSummary,
};

type Predicate = Box<dyn Fn(&FilePath) -> bool + Send + Sync>;
type Filter = WatchFilter<Predicate>;

fn path(text: &str) -> FilePath {
    FilePath::new(text.as_bytes().to_vec())
}

fn text(path: &FilePath) -> String {
    String::from_utf8(path.as_bytes().to_vec()).unwrap()
}

fn texts(paths: &[FilePath]) -> Vec<String> {
    paths.iter().map(text).collect()
}

fn accept_all() -> Filter {
    WatchFilter::accept_all()
}

/// Rejects the directories with this name.
fn reject_name(name: &'static str) -> Filter {
    let predicate: Predicate = Box::new(move |p: &FilePath| {
        text(p).split('/').filter(|part| !part.is_empty()).last() != Some(name)
    });
    WatchFilter::with_filter(predicate)
}

/// Rejects the directory at this path.
fn reject_path(rejected: &FilePath) -> Filter {
    let rejected = rejected.clone();
    let predicate: Predicate = Box::new(move |p: &FilePath| *p != rejected);
    WatchFilter::with_filter(predicate)
}

/// A registered watch: its path, whether it is a directory, whether it is recursive, its filter,
/// and what its path resolves to.
struct Existing(FilePath, bool, bool, Filter, Option<FilePath>);

fn existing(at: &str, is_dir: bool, is_recursive: bool, filter: Filter) -> Existing {
    Existing(path(at), is_dir, is_recursive, filter, Some(path(at)))
}

fn dir_at(at: &str) -> Probe {
    Probe { is_dir: true, link_target: None, resolved: Some(path(at)) }
}

fn check(
    absolute: &FilePath,
    probe: &Probe,
    is_recursive: bool,
    watch_filter: &Filter,
    user_watches: &[Existing],
) -> Result<(), Error> {
    let summaries: Vec<WatchSummary<Predicate>> = user_watches
        .iter()
        .map(|Existing(path, is_dir, is_recursive, filter, resolved)| WatchSummary {
            path,
            is_dir: *is_dir,
            is_recursive: *is_recursive,
            filter,
            resolved: resolved.as_ref(),
        })
        .collect();
    check_watch_barriers(absolute, absolute, probe, is_recursive, watch_filter, &summaries)
}

#[test]
fn rejects_filtered_directory_root() {
    let dir = tempfile::tempdir().unwrap();
    let root = path(dir.path().to_str().unwrap());
    let filter = reject_path(&root);

    let result = check(&root, &dir_at(&text(&root)), true, &filter, &[]);

    assert!(
        matches!(&result, Err(error) if matches!(error.kind, ErrorKind::PathExcluded)),
        "watching a rejected directory root must fail with PathExcluded: {result:?}"
    );
    assert_eq!(result.unwrap_err().paths, vec![root]);
}

#[test]
fn does_not_reject_file_roots() {
    let file = path("/tmp/dir/watched.txt");
    let filter = reject_path(&file);
    let probe = Probe { is_dir: false, link_target: None, resolved: Some(file.clone()) };

    check(&file, &probe, false, &filter, &[]).expect("file roots are never filtered");
}

#[test]
fn allows_accept_all_overlaps_and_same_path_rewatch() {
    let root = path("/tmp/dir");
    let child = path("/tmp/dir/child");
    let filtered = reject_name("excluded");

    let accept_all_watch = [existing("/tmp/dir", true, true, accept_all())];
    check(&child, &dir_at("/tmp/dir/child"), true, &accept_all(), &accept_all_watch)
        .expect("accept-all directory watches may overlap");

    let same_path_watch = [existing("/tmp/dir", true, true, filtered.clone())];
    check(&root, &dir_at("/tmp/dir"), true, &filtered, &same_path_watch)
        .expect("rewatching the same path is replacement, not overlap");
}

#[test]
fn rejects_filtered_overlap_in_both_directions() {
    let child = path("/tmp/dir/child");
    let probe = dir_at("/tmp/dir/child");
    let filter = reject_name("excluded");

    let recursive_root = [existing("/tmp/dir", true, true, accept_all())];
    let result = check(&child, &probe, true, &filter, &recursive_root);
    assert!(
        matches!(&result, Err(error) if matches!(error.kind, ErrorKind::WatchOverlap)),
        "a filtered watch nested under a recursive directory watch must be refused: {result:?}"
    );
    assert_eq!(
        texts(&result.unwrap_err().paths),
        vec!["/tmp/dir/child", "/tmp/dir"],
        "the error must name both the requested path and the one it conflicts with"
    );

    let filtered_root = [existing("/tmp/dir", true, true, filter.clone())];
    assert!(
        check(&child, &probe, false, &accept_all(), &filtered_root).is_err(),
        "a directory watch inside a filtered recursive watch must be refused"
    );

    let nested_directory = [existing("/tmp/dir/child/grandchild", true, false, accept_all())];
    assert!(
        check(&child, &probe, true, &filter, &nested_directory).is_err(),
        "a filtered recursive watch over an existing directory watch must be refused"
    );
}

#[test]
fn walk_entry_gates_a_symlinked_root_that_is_not_followed() {
    let root = WalkEntry {
        path: path("/tmp/dir/link"),
        depth: 0,
        is_dir: false,
        link: Some(LinkTarget { is_dir: true, resolved: Some(path("/tmp/dir/excluded")) }),
    };
    assert!(
        !filter_keeps_walk_entry(&reject_name("excluded"), &root),
        "a symlinked root resolving to an excluded directory must be pruned"
    );
}

#[test]
fn unnormalized_sibling_is_not_an_overlap() {
    let filtered_x = [existing("/tmp/dir/x", true, true, reject_name("excluded"))];

    let unnormalized = path("/tmp/dir/x").join(&path("..")).join(&path("y"));
    check(&unnormalized, &dir_at("/tmp/dir/y"), true, &accept_all(), &filtered_x)
        .expect("a sibling reached through `..` must not count as an overlap");
}

#[test]
fn ignores_file_watch_overlap() {
    let root = path("/tmp/dir");
    let file_watch = [existing("/tmp/dir/file.txt", false, false, accept_all())];

    check(&root, &dir_at("/tmp/dir"), true, &reject_name("excluded"), &file_watch)
        .expect("file watches never conflict with filtered directory watches");
}

#[test]
fn detects_symlink_alias_overlap() {
    let real_watch = [existing("/tmp/dir/real", true, true, accept_all())];
    let alias = path("/tmp/dir/alias");
    let probe = Probe {
        is_dir: true,
        link_target: Some(path("/tmp/dir/real")),
        resolved: Some(path("/tmp/dir/real")),
    };

    assert!(
        check(&alias, &probe, true, &reject_name("excluded"), &real_watch).is_err(),
        "resolved aliases must not bypass filtered overlap checks"
    );
}

#[test]
fn deleted_directory_watch_reserves_its_region_behind_a_symlink() {
    // Watched through the link, then deleted, so it no longer resolves.
    let stale = [Existing(path("/tmp/dir/link/nested"), true, true, accept_all(), None)];
    let link = path("/tmp/dir/link");
    let probe = Probe {
        is_dir: true,
        link_target: Some(path("/tmp/dir/real")),
        resolved: Some(path("/tmp/dir/real")),
    };

    assert!(
        check(&link, &probe, true, &reject_name("excluded"), &stale).is_err(),
        "a stale watch behind a symlinked prefix must still reserve its region"
    );
}

#[test]
fn watch_metadata_preserves_a_user_watch_filter_on_non_user_merge() {
    let watched = WatchPath::from_parts(path("/root/child"), path("child"));
    let user_filter = reject_name("excluded");
    let existing = WatchMetadata::new(&watched, true, false, true, None, user_filter);

    // A recursive walk from an accept-all ancestor merges a non-user entry over the explicit child
    // watch. The child's own filter must survive.
    let merged = WatchMetadata::new(&watched, true, true, false, Some(&existing), accept_all());

    assert!(merged.is_user_watch, "the user watch must survive the merge");
    assert!(
        !merged.watch_filter.allows_dir(&path("/root/child/excluded"), None),
        "the user watch's filter must not be replaced by the walk's filter"
    );

    // A user rewatch does replace the filter.
    let replaced = WatchMetadata::new(&watched, true, true, true, Some(&merged), accept_all());
    assert!(replaced.watch_filter.is_accept_all());
}

#[test]
fn allows_event_under_gates_on_ancestor_directories() {
    let root = path("/watch/root");
    let filter = reject_name("excluded");
    let allows = |at: &str| filter_allows_event_under(&filter, &root, &path(at));

    // Files directly under the root are always allowed.
    assert!(allows("/watch/root/file.txt"));
    // An event on the rejected directory itself is delivered (its parent is watched), matching
    // the walk-based backends.
    assert!(allows("/watch/root/excluded"));
    // Events beneath a rejected directory are suppressed, at any depth.
    assert!(!allows("/watch/root/excluded/file.txt"));
    assert!(!allows("/watch/root/excluded/deep/file.txt"));
    assert!(allows("/watch/root/ok/file.txt"));
    // An event on the watch root itself has no gating ancestors.
    assert!(filter_allows_event_under(&filter, &root, &root));
    // The accept-all fast path never rejects.
    assert!(filter_allows_event_under(
        &accept_all(),
        &root,
        &path("/watch/root/excluded/file.txt")
    ));
}

#[test]
fn deleted_directory_watch_still_reserves_its_region() {
    let dir = tempfile::tempdir().unwrap();
    let root = path(dir.path().to_str().unwrap());
    let nested = root.join(&path("nested"));

    // `nested` was watched and has since been deleted, so it no longer resolves.
    let stale = [Existing(nested, true, true, accept_all(), None)];

    assert!(
        check(&root, &dir_at(&text(&root)), true, &reject_name("excluded"), &stale).is_err(),
        "a stale watch keeps reserving its region until it is unwatched"
    );
}

/// A filter that accepts everything, and the paths that it was asked about.
fn recorder() -> (Filter, Arc<Mutex<Vec<String>>>) {
    let asked = Arc::new(Mutex::new(Vec::new()));
    let record = Arc::clone(&asked);
    let predicate: Predicate = Box::new(move |p: &FilePath| {
        record.lock().unwrap().push(text(p));
        true
    });
    (WatchFilter::with_filter(predicate), asked)
}

#[test]
fn events_ask_only_about_directories_in_between() {
    let (filter, asked) = recorder();
    let root = path("/watch/root");
    assert!(filter_allows_event_under(&filter, &root, &path("/watch/root/a/b/file.txt")));
    let mut between: Vec<String> = asked.lock().unwrap().drain(..).collect();
    between.sort();
    assert_eq!(between, vec!["/watch/root/a", "/watch/root/a/b"]);
    for elsewhere in ["/watch/root", "/watch/root/file.txt", "/watch/other/a/b", "/"] {
        assert!(filter_allows_event_under(&filter, &root, &path(elsewhere)));
    }
    assert!(asked.lock().unwrap().is_empty());
}

#[test]
fn files_are_not_asked_about() {
    let (filter, asked) = recorder();
    let file = WalkEntry { path: path("/a/file"), depth: 1, is_dir: false, link: None };
    assert!(filter_keeps_walk_entry(&filter, &file));
    let to_file = LinkTarget { is_dir: false, resolved: Some(path("/b")) };
    let link = WalkEntry { path: path("/a/link"), depth: 1, is_dir: false, link: Some(to_file) };
    assert!(filter_keeps_walk_entry(&filter, &link));
    let probe = Probe { is_dir: false, link_target: None, resolved: None };
    assert!(check(&path("/a/file"), &probe, true, &filter, &[]).is_ok());
    assert!(asked.lock().unwrap().is_empty());

    let to_dir = LinkTarget { is_dir: true, resolved: Some(path("/b")) };
    let link = WalkEntry { path: path("/a/link"), depth: 1, is_dir: false, link: Some(to_dir) };
    assert!(filter_keeps_walk_entry(&filter, &link));
    assert_eq!(*asked.lock().unwrap(), vec!["/a/link", "/b"]);
}

#[test]
fn events_outside_the_root_are_not_gated() {
    let root = path("/watch/root");
    let filter = reject_name("excluded");
    assert!(filter_allows_event_under(&filter, &root, &path("/other/excluded/file.txt")));
    assert!(filter_allows_event_under(&filter, &root, &path("/watch")));
    assert!(filter_allows_event_under(&filter, &root, &path("/")));
    assert!(filter_allows_event_under(&filter, &root, &path("")));
}

#[test]
fn excluded_root_comes_before_overlap() {
    let root = path("/tmp/dir");
    let above = [existing("/tmp", true, true, accept_all())];
    let result = check(&root, &dir_at("/tmp/dir"), true, &reject_name("dir"), &above);
    assert!(matches!(result.unwrap_err().kind, ErrorKind::PathExcluded));
}

#[test]
fn symlinked_root_is_checked_under_both_names() {
    let link = path("/tmp/dir/link");
    let probe = Probe {
        is_dir: true,
        link_target: Some(path("/tmp/dir/excluded")),
        resolved: Some(path("/tmp/dir/excluded")),
    };
    let result = check(&link, &probe, true, &reject_name("excluded"), &[]);
    assert!(matches!(result.unwrap_err().kind, ErrorKind::PathExcluded));
    let result = check(&link, &probe, true, &reject_name("link"), &[]);
    assert!(matches!(result.unwrap_err().kind, ErrorKind::PathExcluded));
    assert!(check(&link, &probe, true, &reject_name("other"), &[]).is_ok());
}

#[test]
fn nonrecursive_watches_share_a_region_unless_they_nest() {
    // Two watches that are not recursive do not cover each other.
    let parent = [existing("/tmp/dir", true, false, reject_name("excluded"))];
    let child = path("/tmp/dir/child");
    assert!(check(&child, &dir_at("/tmp/dir/child"), false, &accept_all(), &parent).is_ok());
    // A recursive one below does not cover the one above.
    assert!(check(&child, &dir_at("/tmp/dir/child"), true, &accept_all(), &parent).is_ok());
    // A recursive one above does.
    let top = path("/tmp");
    assert!(check(&top, &dir_at("/tmp"), true, &accept_all(), &parent).is_err());
    assert!(check(&top, &dir_at("/tmp"), false, &accept_all(), &parent).is_ok());
}

#[test]
fn first_conflicting_watch_is_named() {
    let watches = [
        existing("/other", true, true, accept_all()),
        existing("/tmp/dir/a", true, true, accept_all()),
        existing("/tmp/dir/b", true, true, accept_all()),
    ];
    let summaries: Vec<WatchSummary<Predicate>> = watches
        .iter()
        .map(|w| WatchSummary {
            path: &w.0,
            is_dir: w.1,
            is_recursive: w.2,
            filter: &w.3,
            resolved: w.4.as_ref(),
        })
        .collect();
    let error = check_overlap_barrier(
        &path("/tmp/dir"),
        &path("dir"),
        &dir_at("/tmp/dir"),
        true,
        &reject_name("excluded"),
        &summaries,
    )
    .unwrap_err();
    assert!(matches!(error.kind, ErrorKind::WatchOverlap));
    assert_eq!(texts(&error.paths), vec!["dir", "/tmp/dir/a"]);
}

#[test]
fn conflicts_are_mutual_on_both_sides() {
    let filter = reject_name("excluded");
    let a = [existing("/tmp/dir", true, true, filter.clone())];
    let b = [existing("/tmp/dir/child", true, false, accept_all())];
    assert!(
        check(&path("/tmp/dir/child"), &dir_at("/tmp/dir/child"), false, &accept_all(), &a).is_err()
    );
    assert!(check(&path("/tmp/dir"), &dir_at("/tmp/dir"), true, &filter, &b).is_err());
}

#[test]
fn resolution_is_asked_for_only_where_it_matters() {
    let filter = reject_name("excluded");
    let at = path("/tmp/other");
    let summary = |is_dir: bool, filter: &'static Filter| WatchSummary {
        path: Box::leak(Box::new(path("/tmp/dir"))),
        is_dir,
        is_recursive: true,
        filter,
        resolved: None,
    };
    let plain: &'static Filter = Box::leak(Box::new(accept_all()));
    let filtered: &'static Filter = Box::leak(Box::new(reject_name("excluded")));
    assert!(!needs_resolution(&at, true, &accept_all(), &summary(true, plain)));
    assert!(needs_resolution(&at, true, &filter, &summary(true, plain)));
    assert!(needs_resolution(&at, true, &accept_all(), &summary(true, filtered)));
    assert!(!needs_resolution(&at, false, &filter, &summary(true, plain)));
    assert!(!needs_resolution(&at, true, &filter, &summary(false, plain)));
    assert!(!needs_resolution(&path("/tmp//dir/"), true, &filter, &summary(true, plain)));
}

#[test]
fn walk_goes_below_opened_entries_only() {
    let entry = |depth: usize, is_dir: bool, link: Option<LinkTarget>| WalkEntry {
        path: path("/tmp/dir/entry"),
        depth,
        is_dir,
        link,
    };
    let to_dir = || Some(LinkTarget { is_dir: true, resolved: Some(path("/tmp/excluded")) });
    let to_file = || Some(LinkTarget { is_dir: false, resolved: Some(path("/tmp/excluded")) });
    assert!(walkdir_descended_into(&entry(1, true, None)));
    assert!(walkdir_descended_into(&entry(0, false, to_dir())));
    assert!(!walkdir_descended_into(&entry(1, false, to_dir())));

    let filter = reject_name("excluded");
    assert!(filter_keeps_walk_entry(&filter, &entry(1, true, None)));
    assert!(!filter_keeps_walk_entry(&filter, &entry(1, false, to_dir())));
    assert!(filter_keeps_walk_entry(&filter, &entry(1, false, to_file())));
    assert!(filter_keeps_walk_entry(&accept_all(), &entry(1, false, to_dir())));
    // A link that cannot be resolved is asked about under its own name only.
    let lost = Some(LinkTarget { is_dir: true, resolved: None });
    assert!(filter_keeps_walk_entry(&filter, &entry(1, true, lost)));
    // A file is kept whatever its name is.
    let file = WalkEntry { path: path("/tmp/excluded"), depth: 1, is_dir: false, link: None };
    assert!(filter_keeps_walk_entry(&filter, &file));
    let dir = WalkEntry { path: path("/tmp/excluded"), depth: 1, is_dir: true, link: None };
    assert!(!filter_keeps_walk_entry(&filter, &dir));
}

#[test]
fn absolute_paths_come_from_the_current_directory() {
    let cwd = || Ok(path("/home/user"));
    let lost = || Err(std::io::Error::from(std::io::ErrorKind::NotFound));
    assert_eq!(text(&absolute_path(&path("/a/b"), lost()).unwrap()), "/a/b");
    assert_eq!(text(&absolute_path(&path("a/b"), cwd()).unwrap()), "/home/user/a/b");
    let error = absolute_path(&path("a/b"), lost()).unwrap_err();
    assert!(
        matches!(error.kind, ErrorKind::Io(e) if e.kind() == std::io::ErrorKind::NotFound)
    );
    assert!(error.paths.is_empty());

    let watched = WatchPath::new(&path("a/b"), cwd()).unwrap();
    assert_eq!(text(&watched.absolute), "/home/user/a/b");
    assert_eq!(text(&watched.requested), "a/b");
    assert!(WatchPath::new(&path("a/b"), lost()).is_err());
    let copy = watched.clone();
    assert_eq!(text(&copy.absolute), "/home/user/a/b");
    assert_eq!(text(&copy.requested), "a/b");
}

#[test]
fn reported_paths_keep_the_requested_form() {
    let report = |at: &str| text(&reported_path(&path("/home/user/dir"), &path("dir"), &path(at)));
    assert_eq!(report("/home/user/dir"), "dir");
    assert_eq!(report("/home/user/dir/a/b"), "dir/a/b");
    assert_eq!(report("/home/user/dir/./a//b/"), "dir/a//b");

    // An absolute request is reported as it is.
    let root = path("/home/user");
    assert_eq!(text(&reported_path(&root, &root, &path("/home/user/a"))), "/home/user/a");

    // What lies below a child is reported as from the parent.
    let parent = WatchPath::from_parts(path("/home/user/dir"), path("./dir"));
    let child = parent.child(path("/home/user/dir/a"));
    assert_eq!(text(&child.absolute), "/home/user/dir/a");
    assert_eq!(text(&child.requested), "./dir/a");
    let below = path("/home/user/dir/a/b");
    assert_eq!(
        text(&reported_path(&child.absolute, &child.requested, &below)),
        text(&reported_path(&parent.absolute, &parent.requested, &below)),
    );
}

fn metadata(
    requested: &str,
    is_recursive: bool,
    is_user_watch: bool,
) -> WatchMetadata<Predicate> {
    let watched = WatchPath::from_parts(path("/unused"), path(requested));
    WatchMetadata::new(&watched, true, is_recursive, is_user_watch, None, accept_all())
}

#[test]
fn watch_metadata_merges_flags() {
    let watched = WatchPath::from_parts(path("/root/child"), path("child"));
    let user = metadata("mine", false, true);
    let walked = WatchMetadata::new(&watched, true, true, false, Some(&user), accept_all());
    assert!(walked.is_recursive && walked.is_user_watch && !walked.user_is_recursive);
    assert_eq!(text(&walked.reported_path), "mine");

    let again = WatchMetadata::new(&watched, false, false, true, Some(&walked), accept_all());
    assert!(again.is_recursive && again.is_user_watch && !again.user_is_recursive);
    assert!(!again.is_dir);
    assert_eq!(text(&again.reported_path), "child");

    let inherited = metadata("root/child", true, false);
    let merged = WatchMetadata::new(&watched, true, false, false, Some(&inherited), accept_all());
    assert!(merged.is_recursive && !merged.is_user_watch && !merged.user_is_recursive);
    assert_eq!(text(&merged.reported_path), "child");
}

#[test]
fn only_unfiltered_rewatches_are_noops() {
    let watched = WatchPath::from_parts(path("/root/child"), path("child"));
    let plain = WatchMetadata::new(&watched, true, true, true, None, accept_all());
    assert!(plain.rewatch_is_noop(&watched, true, &accept_all()));
    assert!(!plain.rewatch_is_noop(&watched, false, &accept_all()));
    assert!(!plain.rewatch_is_noop(&watched, true, &reject_name("excluded")));
    let elsewhere = WatchPath::from_parts(path("/root/child"), path("./other"));
    assert!(!plain.rewatch_is_noop(&elsewhere, true, &accept_all()));
    let filtered = WatchMetadata::new(&watched, true, true, true, None, reject_name("excluded"));
    assert!(!filtered.rewatch_is_noop(&watched, true, &accept_all()));
}

#[test]
fn summaries_speak_of_what_the_user_asked_for() {
    let watched = WatchPath::from_parts(path("/root/child"), path("child"));
    let user = WatchMetadata::new(&watched, true, false, true, None, accept_all());
    let merged = WatchMetadata::new(&watched, true, true, false, Some(&user), accept_all());
    let resolved = path("/real/child");
    let summary = merged.summary(&watched.absolute, Some(&resolved));
    assert_eq!(text(summary.path), "/root/child");
    assert!(summary.is_dir && !summary.is_recursive);
    assert!(summary.filter.is_accept_all());
    assert_eq!(text(summary.resolved.unwrap()), "/real/child");
}

#[test]
fn preserved_roots_are_the_user_watches_below() {
    let watches = [
        (path("/a"), metadata("a", true, true)),
        (path("/a/b"), metadata("a/b", true, true)),
        (path("/a/c"), metadata("a/c", false, true)),
        (path("/a/d"), metadata("a/d", true, false)),
        (path("/ab"), metadata("ab", true, true)),
    ];
    let roots = preserved_watch_roots(&path("/a"), false, &watches);
    let listed: Vec<(String, bool)> = roots.iter().map(|(p, r)| (text(p), *r)).collect();
    assert_eq!(listed, vec![("/a/b".to_string(), true), ("/a/c".to_string(), false)]);
    assert!(preserved_watch_roots(&path("/a"), true, &watches).is_empty());

    assert_eq!(preserved_watch_mode(&path("/a/b/x"), &roots), Some(true));
    assert_eq!(preserved_watch_mode(&path("/a/c"), &roots), Some(false));
    assert_eq!(preserved_watch_mode(&path("/a/c/x"), &roots), None);
    assert!(is_preserved_watch_root(&path("/a/c/"), &roots));
    assert!(!is_preserved_watch_root(&path("/a/b/x"), &roots));
}

#[test]
fn nearest_recursive_ancestor_wins() {
    let watches = [
        (path("/a/b"), metadata("near", true, true)),
        (path("/a"), metadata("far", true, true)),
        (path("/a/b/c"), metadata("flat", false, true)),
        (path("/a/b/c/d"), metadata("self", true, true)),
        (path("/"), metadata("root", true, false)),
    ];
    let (at, reported) = recursive_user_watch_ancestor(&path("/a/b/c/d"), &watches).unwrap();
    assert_eq!((text(&at), text(&reported)), ("/a/b".to_string(), "near".to_string()));
    assert!(recursive_user_watch_ancestor(&path("/x"), &watches).is_none());

    // What counts is how near the ancestor is, not how long its text is.
    let watches = [
        (path("/a/b"), metadata("near", true, true)),
        (path("/////////a"), metadata("far", true, true)),
    ];
    let (at, _) = recursive_user_watch_ancestor(&path("/a/b/c"), &watches).unwrap();
    assert_eq!(text(&at), "/a/b");
}

#[test]
fn cloned_filters_share_their_predicate() {
    let filter = reject_name("excluded");
    let copy = filter.clone();
    drop(filter);
    assert!(!copy.is_accept_all());
    assert!(!copy.should_watch(&path("/a/excluded")));
    assert!(copy.should_watch(&path("/a/included")));
    assert!(accept_all().clone().is_accept_all());
    assert!(accept_all().should_watch(&path("/a/excluded")));
}

#[test]
fn errors_carry_their_kind_and_paths() {
    let error = Error::generic("went wrong").add_path(path("/a")).add_path(path("b"));
    assert!(matches!(&error.kind, ErrorKind::Generic(message) if message == "went wrong"));
    assert_eq!(texts(&error.paths), vec!["/a", "b"]);
    assert!(matches!(Error::watch_not_found().kind, ErrorKind::WatchNotFound));
    assert!(matches!(Error::watch_overlap().kind, ErrorKind::WatchOverlap));
    assert!(matches!(Error::path_excluded().kind, ErrorKind::PathExcluded));
    assert!(Error::new(ErrorKind::PathExcluded).paths.is_empty());
}
