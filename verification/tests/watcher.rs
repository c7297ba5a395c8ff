//! The polling watcher on a disk that is held in memory.

use std::collections::{BTreeMap, VecDeque};
use std::time::Duration;

use notify_poll::data::{
    system_time_to_seconds, DataBuilder, FileMeta, FileTime, InitialScan, MetaPath, PathData,
    WatchData,
};
use notify_poll::error::{Error, ErrorKind};
use notify_poll::event::{
    CreateKind, DataChange, Event, EventEmitter, EventKind, MetadataKind, ModifyKind, RemoveKind,
};
use notify_poll::filter::{RecursiveMode, WatchFilter};
use notify_poll::handler::{tell_paths, ScanEvent, ScanEventHandler};
use notify_poll::hash::{ContentHasher, ReadEvent, ReadStep};
use notify_poll::path::FilePath;
use notify_poll::paths::{LinkTarget, Probe, WalkEntry, WatchPath};
use notify_poll::poll::{Config, PollWatcher, WatcherKind};
use notify_poll::poll_loop::{PollLoop, PollMessage, Turn};
use notify_poll::scan::{scan_all_path_data, EntryPlan, Met, WalkError, EXCLUDED_DIR_HASH};
use notify_types::event::EventKindMask;

type Predicate = Box<dyn Fn(&FilePath) -> bool + Send + Sync>;
type Filter = WatchFilter<Predicate>;
type Watcher = PollWatcher<Predicate, u32>;

const CREATE: EventKind = EventKind::Create(CreateKind::Any);
const REMOVE: EventKind = EventKind::Remove(RemoveKind::Any);
const MODIFY_DATA: EventKind = EventKind::Modify(ModifyKind::Data(DataChange::Any));
const MODIFY_TIME: EventKind = EventKind::Modify(ModifyKind::Metadata(MetadataKind::WriteTime));

fn path(text: &str) -> FilePath {
    FilePath::new(text.as_bytes().to_vec())
}

fn text(path: &FilePath) -> String {
    String::from_utf8(path.as_bytes().to_vec()).unwrap()
}

fn not_found() -> std::io::Error {
    std::io::Error::from(std::io::ErrorKind::NotFound)
}

fn accept_all() -> Filter {
    WatchFilter::accept_all()
}

/// Rejects the directories with this name.
fn reject_name(name: &'static str) -> Filter {
    let predicate: Predicate = Box::new(move |p: &FilePath| {
        text(p).split('/').filter(|part| !part.is_empty()).last() != Some(name)
    });
    WatchFilter::with_filter(predicate)
}

/// Rejects the directory at this path.
fn reject_path(at: &str) -> Filter {
    let rejected = path(at);
    let predicate: Predicate = Box::new(move |p: &FilePath| *p != rejected);
    WatchFilter::with_filter(predicate)
}

fn manual() -> Config {
    Config {
        compare_contents: false,
        event_kinds: EventKindMask::ALL.bits(),
        poll_interval: None,
        follow_symlinks: true,
    }
}

#[derive(Clone)]
enum Node {
    Dir,
    File(Vec<u8>),
    Link(String),
}

/// A disk: what stands at each absolute path, and when it was last written to.
struct Disk {
    nodes: BTreeMap<String, (Node, u64)>,
    second: u64,
}

impl Disk {
    fn new() -> Self {
        let mut disk = Disk { nodes: BTreeMap::new(), second: 1000 };
        disk.mkdir("/tmp");
        disk.mkdir("/tmp/dir");
        disk
    }

    fn put(&mut self, at: &str, node: Node) {
        let second = self.second;
        if !self.nodes.contains_key(at) {
            let parent = at.rsplit_once('/').unwrap().0;
            if let Some(parent) = self.nodes.get_mut(parent) {
                parent.1 = second;
            }
        }
        self.nodes.insert(at.to_string(), (node, second));
    }

    fn mkdir(&mut self, at: &str) {
        self.put(at, Node::Dir);
    }

    fn write(&mut self, at: &str, data: &str) {
        self.put(at, Node::File(data.as_bytes().to_vec()));
    }

    fn symlink(&mut self, target: &str, at: &str) {
        self.put(at, Node::Link(target.to_string()));
    }

    fn remove(&mut self, at: &str) {
        let below = format!("{at}/");
        self.nodes.retain(|p, _| p != at && !p.starts_with(&below));
        let parent = at.rsplit_once('/').unwrap().0;
        let second = self.second;
        if let Some(parent) = self.nodes.get_mut(parent) {
            parent.1 = second;
        }
    }

    fn set_time(&mut self, at: &str, second: u64) {
        self.nodes.get_mut(at).unwrap().1 = second;
    }

    /// The path with all links resolved.
    fn resolve(&self, at: &str) -> Option<String> {
        let mut done = String::new();
        for part in at.split('/').filter(|part| !part.is_empty() && *part != ".") {
            if part == ".." {
                done.truncate(done.rfind('/')?);
                continue;
            }
            done = format!("{done}/{part}");
            match self.nodes.get(&done)? {
                (Node::Link(target), _) => done = self.resolve(target)?,
                _ => {}
            }
        }
        Some(done)
    }

    /// What stands at the path, or where it leads.
    fn stat(&self, at: &str) -> Option<&(Node, u64)> {
        self.nodes.get(&self.resolve(at)?)
    }

    /// What stands at the path, be it a link.
    fn lstat(&self, at: &str) -> Option<&(Node, u64)> {
        let (parent, name) = at.rsplit_once('/')?;
        self.nodes.get(&format!("{}/{name}", self.resolve(parent)?))
    }

    fn is_dir(&self, at: &str) -> bool {
        matches!(self.stat(at), Some((Node::Dir, _)))
    }

    /// What is listed in a directory, as seen from `at`.
    fn list(&self, at: &str) -> VecDeque<String> {
        let real = format!("{}/", self.resolve(at).unwrap());
        self.nodes
            .keys()
            .filter_map(|p| p.strip_prefix(&real))
            .filter(|name| !name.contains('/'))
            .map(|name| format!("{at}/{name}"))
            .collect()
    }
}

/// That many seconds after the start of 1970.
fn seconds(count: u64) -> FileTime {
    FileTime::After(u128::from(count) * 1_000_000_000)
}

fn meta_of(node: &(Node, u64)) -> FileMeta {
    FileMeta {
        modified: Some(seconds(node.1)),
        is_file: matches!(node.0, Node::File(_)),
    }
}

fn content_hash(data: &[u8]) -> Option<u64> {
    let mut hasher = ContentHasher::new();
    for chunk in data.chunks(3) {
        assert!(matches!(hasher.take_in(ReadEvent::Interrupted), ReadStep::ReadOn));
        assert!(matches!(hasher.take_in(ReadEvent::Chunk(chunk)), ReadStep::ReadOn));
    }
    match hasher.take_in(ReadEvent::Chunk(&[])) {
        ReadStep::Done(hash) => Some(hash),
        _ => None,
    }
}

/// Walks through a tree: lists an opened directory before what is found in it, opens a symlink
/// only where links are followed or where it is the root, and forgets the rest of the directory
/// opened last when it is told to skip it.
fn walk(
    disk: &Disk,
    root: &str,
    max_depth: usize,
    follow: bool,
    filter: &Filter,
    builder: &DataBuilder,
) -> Vec<Met> {
    let mut met = Vec::new();
    let mut stack: Vec<VecDeque<String>> = vec![VecDeque::from([root.to_string()])];
    while let Some(listing) = stack.last_mut() {
        let Some(at) = listing.pop_front() else {
            stack.pop();
            continue;
        };
        let depth = stack.len() - 1;
        let own = match disk.lstat(&at) {
            Some(own) => own,
            None => {
                met.push(Met::Failure(WalkError {
                    io: Some(not_found()),
                    message: "no such file".to_string(),
                    path: Some(path(&at)),
                }));
                continue;
            }
        };
        let is_link = matches!(own.0, Node::Link(_));
        let seen = if is_link && follow { disk.stat(&at).unwrap() } else { own };
        let is_dir = matches!(seen.0, Node::Dir);
        let opened = is_dir || (depth == 0 && disk.is_dir(&at));
        if opened && depth < max_depth {
            stack.push(disk.list(&at));
        }
        let link = is_link.then_some(LinkTarget {
            is_dir: disk.is_dir(&at),
            resolved: disk.resolve(&at).map(|p| path(&p)),
        });
        let plan = EntryPlan::new(filter, WalkEntry { path: path(&at), depth, is_dir, link });
        if plan.skip_current_dir {
            stack.pop();
        }
        let meta = meta_of(seen);
        let hash = if builder.wants_contents(&meta) {
            match &seen.0 {
                Node::File(data) => content_hash(data),
                _ => None,
            }
        } else {
            None
        };
        met.push(Met::Entry(plan, meta, hash));
    }
    met
}

fn depth_of(mode: RecursiveMode) -> usize {
    WatchData::<Predicate>::dir_scan_depth(mode.is_recursive())
}

/// A watcher at work on a disk.
struct Bench {
    disk: Disk,
    watcher: Watcher,
    clock: u64,
    tickets: u32,
    told: Vec<Result<Event, Error>>,
}

type Told = (EventKind, Vec<String>);

impl Bench {
    fn new(config: Config) -> Self {
        let watcher = PollWatcher::new(config, 0).expect("create watcher");
        Bench { disk: Disk::new(), watcher, clock: 0, tickets: 0, told: Vec::new() }
    }

    fn tick(&mut self) {
        self.clock += 1;
        let now = self.clock;
        self.watcher.watch_set.data_builder().update_timestamp(now);
    }

    fn watch_filtered(
        &mut self,
        at: &str,
        mode: RecursiveMode,
        filter: Filter,
    ) -> Result<(), Error> {
        let watch_path = WatchPath::new(&path(at), Ok(path("/tmp")))?;
        let absolute = text(&watch_path.absolute);
        let is_link = matches!(self.disk.lstat(&absolute), Some((Node::Link(_), _)));
        let is_dir = self.disk.is_dir(&absolute);
        let resolved_path = self.disk.resolve(&absolute).map(|p| path(&p));
        let wanted = self.watcher.watch_set.watches_to_resolve(&watch_path, is_dir, &filter);
        let mut resolved = Vec::new();
        for (i, wanted) in wanted.iter().enumerate() {
            let at = text(&self.watcher.watch_set.watch_at(i).0);
            resolved.push(if *wanted { self.disk.resolve(&at).map(|p| path(&p)) } else { None });
        }
        let probe = Probe {
            is_dir,
            link_target: if is_link { resolved_path.clone() } else { None },
            resolved: resolved_path,
        };
        let watch_set = &self.watcher.watch_set;
        let plan = watch_set.watch_filtered(watch_path, mode, filter, &probe, &resolved)?;
        self.tick();
        let probed = match self.disk.stat(&absolute) {
            None => Err(not_found()),
            Some(_) => {
                let depth = depth_of(plan.recursive_mode());
                let follow = self.watcher.watch_set.follow_symlinks();
                let met = walk(
                    &self.disk,
                    &absolute,
                    depth,
                    follow,
                    plan.watch_filter(),
                    self.watcher.watch_set.data_builder(),
                );
                Ok(InitialScan { root_is_dir: is_dir, met })
            }
        };
        self.watcher.watch_set.finish_watch(plan, probed);
        Ok(())
    }

    fn watch(&mut self, at: &str, mode: RecursiveMode) -> Result<(), Error> {
        self.watch_filtered(at, mode, accept_all())
    }

    fn unwatch(&mut self, at: &str) -> Result<(), Error> {
        self.watcher.watch_set.unwatch(&path(at), Ok(path("/tmp")))
    }

    /// One scan of everything that is watched; whoever waited for it is returned.
    fn scan(&mut self, message: Option<PollMessage<u32>>) -> Option<u32> {
        self.clock += 1;
        let watch_set = &mut self.watcher.watch_set;
        let mut cycle = watch_set.begin_cycle(message, self.clock);
        while cycle.place() < watch_set.watch_count() {
            let watch = &watch_set.watch_at(cycle.place()).1;
            let root = text(watch.root());
            let depth = depth_of(watch.recursive_mode());
            let follow = watch.follow_symlinks();
            let filter = watch.watch_filter().clone();
            let met = walk(&self.disk, &root, depth, follow, &filter, watch_set.data_builder());
            watch_set.rescan_next(&mut cycle, met);
        }
        let (told, done) = watch_set.finish_cycle(cycle);
        self.told.extend(told);
        done
    }

    /// One turn of the loop; whoever waited for it is returned.
    fn turn(&mut self) -> Option<u32> {
        match self.watcher.poll_loop.begin() {
            Turn::Scan(message) => self.scan(message),
            turn => panic!("nothing to do: {turn:?}"),
        }
    }

    fn poll_blocking(&mut self) {
        self.tickets += 1;
        let ticket = self.tickets;
        self.watcher.poll_blocking(ticket).expect("poll");
        assert_eq!(self.turn(), Some(ticket));
    }

    /// The events that the user is told, without the failures.
    fn drain(&mut self) -> Vec<Told> {
        self.messages().into_iter().filter_map(|m| m.ok()).map(told).collect()
    }

    fn messages(&mut self) -> Vec<Result<Event, Error>> {
        let mut messages: Vec<Result<Event, Error>> = self.told.drain(..).collect();
        messages.extend(self.watcher.watch_set.data_builder().emitter.take());
        messages
    }

    fn watched(&self) -> Vec<(String, RecursiveMode)> {
        self.watcher.watch_set.watched_paths().iter().map(|(p, mode)| (text(p), *mode)).collect()
    }
}

fn told(event: Event) -> Told {
    (event.kind, event.paths.iter().map(text).collect())
}

fn at(kind: EventKind, path: &str) -> Told {
    (kind, vec![path.to_string()])
}

fn is_modify(told: &Told) -> bool {
    matches!(told.0, EventKind::Modify(_))
}

#[test]
fn poll_watcher_is_send_and_sync() {
    fn check<T: Send + Sync>() {}
    check::<Watcher>();
}

#[test]
fn watched_paths_reflect_watch_and_unwatch() {
    let mut bench = Bench::new(manual());
    bench.disk.mkdir("/tmp/dir/a");
    bench.disk.mkdir("/tmp/dir/b");

    bench.watch("/tmp/dir/a", RecursiveMode::Recursive).expect("watch dir a");
    bench.watch("/tmp/dir/b", RecursiveMode::NonRecursive).expect("watch dir b");

    let watched = bench.watched();
    assert!(watched.contains(&("/tmp/dir/a".to_string(), RecursiveMode::Recursive)));
    assert!(watched.contains(&("/tmp/dir/b".to_string(), RecursiveMode::NonRecursive)));

    bench.unwatch("/tmp/dir/a").expect("unwatch dir a");

    let watched = bench.watched();
    assert!(!watched.contains(&("/tmp/dir/a".to_string(), RecursiveMode::Recursive)));
    assert!(watched.contains(&("/tmp/dir/b".to_string(), RecursiveMode::NonRecursive)));
}

#[test]
fn rewatching_same_path_replaces_recursive_mode() {
    let mut bench = Bench::new(manual());
    let root = "/tmp/dir".to_string();

    bench.watch("/tmp/dir", RecursiveMode::Recursive).expect("watch recursively");
    bench.watch("/tmp/dir", RecursiveMode::NonRecursive).expect("watch non-recursively");

    let watched = bench.watched();
    assert!(watched.contains(&(root.clone(), RecursiveMode::NonRecursive)));
    assert!(!watched.contains(&(root.clone(), RecursiveMode::Recursive)));
    assert_eq!(watched.iter().filter(|(path, _mode)| path == &root).count(), 1);

    bench.unwatch("/tmp/dir").expect("unwatch");
    let watched = bench.watched();
    assert!(!watched.iter().any(|(path, _mode)| path == &root));
}

#[test]
fn create_file() {
    let mut bench = Bench::new(manual());
    bench.watch("/tmp/dir", RecursiveMode::Recursive).unwrap();
    bench.disk.write("/tmp/dir/entry", "");
    bench.poll_blocking();
    assert_eq!(bench.drain(), vec![at(CREATE, "/tmp/dir/entry")]);
}

#[test]
fn create_dir() {
    let mut bench = Bench::new(manual());
    bench.watch("/tmp/dir", RecursiveMode::Recursive).unwrap();
    bench.disk.mkdir("/tmp/dir/entry");
    bench.poll_blocking();
    assert_eq!(bench.drain(), vec![at(CREATE, "/tmp/dir/entry")]);
}

#[test]
fn modify_file() {
    let mut bench = Bench::new(Config { compare_contents: true, ..manual() });
    bench.disk.write("/tmp/dir/entry", "");
    // Dated ahead, so that no later write time can exceed it.
    bench.disk.set_time("/tmp/dir/entry", 4600);
    bench.watch("/tmp/dir", RecursiveMode::Recursive).unwrap();

    bench.disk.write("/tmp/dir/entry", "123");
    bench.poll_blocking();
    assert_eq!(bench.drain(), vec![at(MODIFY_DATA, "/tmp/dir/entry")]);
}

#[test]
fn remove_file() {
    let mut bench = Bench::new(manual());
    bench.disk.write("/tmp/dir/entry", "");
    bench.watch("/tmp/dir", RecursiveMode::Recursive).unwrap();
    bench.disk.remove("/tmp/dir/entry");
    bench.poll_blocking();
    assert_eq!(bench.drain(), vec![at(REMOVE, "/tmp/dir/entry")]);
}

#[test]
fn rename_file() {
    let mut bench = Bench::new(manual());
    bench.disk.write("/tmp/dir/entry", "");
    bench.watch("/tmp/dir", RecursiveMode::Recursive).unwrap();
    bench.disk.second += 1;
    bench.disk.remove("/tmp/dir/entry");
    bench.disk.write("/tmp/dir/new_entry", "");
    bench.poll_blocking();
    assert_eq!(
        bench.drain(),
        vec![
            at(MODIFY_TIME, "/tmp/dir"),
            at(CREATE, "/tmp/dir/new_entry"),
            at(REMOVE, "/tmp/dir/entry"),
        ]
    );
}

#[test]
fn create_write_overwrite() {
    let mut bench = Bench::new(Config { compare_contents: true, ..manual() });
    bench.disk.write("/tmp/dir/overwritten_file", "123");
    bench.disk.set_time("/tmp/dir/overwritten_file", 4600);
    bench.watch("/tmp/dir", RecursiveMode::NonRecursive).unwrap();

    bench.disk.write("/tmp/dir/overwriting_file", "321");
    bench.disk.remove("/tmp/dir/overwriting_file");
    bench.disk.write("/tmp/dir/overwritten_file", "321");
    bench.poll_blocking();
    assert!(bench.drain().contains(&at(MODIFY_DATA, "/tmp/dir/overwritten_file")));
}

#[test]
fn filtered_watch_conflicts_with_deleted_directory_watch() {
    let mut bench = Bench::new(manual());
    bench.disk.mkdir("/tmp/dir/nested");
    bench.watch("/tmp/dir/nested", RecursiveMode::Recursive).expect("watch nested");
    bench.disk.remove("/tmp/dir/nested");

    let result =
        bench.watch_filtered("/tmp/dir", RecursiveMode::Recursive, reject_name("excluded"));
    assert!(
        result.is_err(),
        "a deleted directory watch still reserves its overlap region: {result:?}"
    );
    assert_eq!(
        bench.watched(),
        vec![("/tmp/dir/nested".to_string(), RecursiveMode::Recursive)]
    );
}

#[test]
fn rejected_root_preserves_existing_watch() {
    let mut bench = Bench::new(manual());
    bench.watch("/tmp/dir", RecursiveMode::Recursive).expect("watch");
    let before = bench.watched();

    let result =
        bench.watch_filtered("/tmp/dir", RecursiveMode::Recursive, reject_path("/tmp/dir"));

    assert!(
        matches!(result, Err(ref e) if matches!(e.kind, ErrorKind::PathExcluded)),
        "watching a rejected root must fail with PathExcluded: {result:?}"
    );
    assert_eq!(
        bench.watched(),
        before,
        "a failed rewatch must leave existing watches unchanged"
    );
}

#[test]
fn watch_filter_does_not_apply_to_files() {
    let mut bench = Bench::new(Config { compare_contents: true, ..manual() });
    bench.disk.write("/tmp/dir/seen.txt", "data");
    bench
        .watch_filtered("/tmp/dir", RecursiveMode::Recursive, reject_name("seen.txt"))
        .expect("watch filtered");
    let _ = bench.drain();

    // A file the filter would reject must still be tracked: gating it would pin its recorded
    // state and silence every later change to it.
    bench.disk.write("/tmp/dir/seen.txt", "changed");
    bench.poll_blocking();
    let events = bench.drain();
    assert!(
        events.iter().any(|e| e.1.contains(&"/tmp/dir/seen.txt".to_string())),
        "the filter gates directories only; file events must still be delivered: {events:?}"
    );

    // And a newly created one is reported too.
    bench.disk.write("/tmp/dir/fresh-seen.txt", "data");
    bench.poll_blocking();
    let events = bench.drain();
    assert!(
        events.iter().any(|e| e.1.contains(&"/tmp/dir/fresh-seen.txt".to_string())),
        "a newly created matching file must be reported: {events:?}"
    );
}

#[test]
fn excluded_directory_own_events_are_reported() {
    let mut bench = Bench::new(manual());
    bench
        .watch_filtered("/tmp/dir", RecursiveMode::Recursive, reject_name("excluded"))
        .expect("watch filtered");

    bench.disk.mkdir("/tmp/dir/excluded");
    bench.disk.write("/tmp/dir/excluded/inside.txt", "data");
    bench.poll_blocking();

    let events = bench.drain();
    assert!(
        events.contains(&at(CREATE, "/tmp/dir/excluded")),
        "the excluded directory's own creation must be reported: {events:?}"
    );
    assert!(
        events.iter().all(|e| e.1.iter().all(|p| !p.starts_with("/tmp/dir/excluded/"))),
        "events leaked from inside the excluded directory: {events:?}"
    );

    bench.disk.remove("/tmp/dir/excluded");
    bench.poll_blocking();
    let events = bench.drain();
    assert!(
        events.contains(&at(REMOVE, "/tmp/dir/excluded")),
        "the excluded directory's own removal must be reported: {events:?}"
    );
}

#[test]
fn rewatch_of_a_vanished_path_does_not_keep_the_old_filter() {
    let mut bench = Bench::new(manual());
    bench.disk.mkdir("/tmp/dir/target");
    bench.watch("/tmp/dir/target", RecursiveMode::Recursive).expect("watch accept-all");
    bench.disk.remove("/tmp/dir/target");

    // The path is gone, so no new watch can be built.
    bench
        .watch_filtered("/tmp/dir/target", RecursiveMode::Recursive, reject_name("excluded"))
        .expect("poll reports the IO error through the event stream, not the return value");
    assert!(
        bench.watched().is_empty(),
        "a rewatch that could not be built must not leave the previous watch registered"
    );

    // Recreate the excluded subtree; nothing may be reported for it.
    bench.disk.mkdir("/tmp/dir/target");
    bench.disk.mkdir("/tmp/dir/target/excluded");
    bench.disk.write("/tmp/dir/target/excluded/secret.txt", "x");
    let _ = bench.drain();
    bench.poll_blocking();

    let events = bench.drain();
    assert!(
        events.iter().all(|e| !e.1.iter().any(|p| p.starts_with("/tmp/dir/target/excluded"))),
        "the stale watch kept delivering events from the excluded subtree: {events:?}"
    );
}

#[test]
fn pruning_an_unfollowed_symlink_keeps_its_siblings() {
    let mut bench = Bench::new(Config {
        compare_contents: true,
        follow_symlinks: false,
        ..manual()
    });
    bench.disk.mkdir("/tmp/dir/excluded");
    let siblings: Vec<String> = (0..32).map(|i| format!("/tmp/dir/sib{i:02}.txt")).collect();
    for (i, sibling) in siblings.iter().enumerate() {
        bench.disk.symlink("/tmp/dir/excluded", &format!("/tmp/dir/link{i:02}"));
        bench.disk.write(sibling, "data");
    }
    bench
        .watch_filtered("/tmp/dir", RecursiveMode::Recursive, reject_name("excluded"))
        .expect("watch filtered");
    // The links come first in the listing, so that a sibling is lost if one of them is skipped.
    bench.poll_blocking();
    let _ = bench.drain();

    for sibling in &siblings {
        bench.disk.write(sibling, "changed");
    }
    bench.poll_blocking();

    let events = bench.drain();
    let reported: Vec<_> =
        siblings.iter().filter(|s| events.iter().any(|e| e.1.contains(s))).collect();
    assert_eq!(
        reported.len(),
        siblings.len(),
        "pruning the symlink dropped siblings from the scan; reported {reported:?} of {siblings:?}"
    );
}

#[test]
fn symlink_root_repointed_to_an_excluded_directory_is_pruned() {
    let mut bench = Bench::new(Config { follow_symlinks: false, ..manual() });
    bench.disk.mkdir("/tmp/dir/allowed");
    bench.disk.mkdir("/tmp/dir/excluded");
    bench.disk.symlink("/tmp/dir/allowed", "/tmp/dir/link");
    // Watching through the link is allowed: it resolves to a directory the filter accepts.
    bench
        .watch_filtered("/tmp/dir/link", RecursiveMode::Recursive, reject_name("excluded"))
        .expect("watch filtered");
    let _ = bench.drain();

    // Repoint the link at the excluded directory; the next scan must prune at the root.
    bench.disk.remove("/tmp/dir/link");
    bench.disk.symlink("/tmp/dir/excluded", "/tmp/dir/link");
    bench.disk.write("/tmp/dir/excluded/secret.txt", "x");
    bench.poll_blocking();

    let events = bench.drain();
    assert!(
        events.iter().all(|e| !e.1.iter().any(|p| p.starts_with("/tmp/dir/link/"))),
        "the excluded target was scanned under the link's name: {events:?}"
    );
}

#[test]
fn unfiltered_rewatch_of_a_vanished_path_drops_a_stale_filter() {
    let mut bench = Bench::new(manual());
    bench.disk.mkdir("/tmp/dir/target");
    bench
        .watch_filtered("/tmp/dir/target", RecursiveMode::Recursive, reject_name("excluded"))
        .expect("watch filtered");
    bench.disk.remove("/tmp/dir/target");

    // Unfiltered rewatch of a path that is gone: the previous filtered watch must not survive, or
    // its exclusions would still be in force.
    bench.watch("/tmp/dir/target", RecursiveMode::Recursive).expect("rewatch");
    assert!(
        bench.watched().is_empty(),
        "a stale filtered watch must not survive an unfiltered rewatch"
    );

    bench.disk.mkdir("/tmp/dir/target");
    bench.disk.mkdir("/tmp/dir/target/excluded");
    bench.disk.write("/tmp/dir/target/excluded/seen.txt", "x");
    let _ = bench.drain();
    bench.poll_blocking();
    assert!(bench.drain().is_empty(), "nothing is watched, so nothing may be reported");
}

#[test]
fn unfiltered_rewatch_of_a_vanished_path_keeps_the_watch() {
    let mut bench = Bench::new(manual());
    bench.disk.mkdir("/tmp/dir/target");
    bench.watch("/tmp/dir/target", RecursiveMode::Recursive).expect("watch");
    bench.disk.remove("/tmp/dir/target");

    bench.watch("/tmp/dir/target", RecursiveMode::Recursive).expect("rewatch");
    assert_eq!(
        bench.watched().len(),
        1,
        "an unfiltered rewatch must not destroy a watch just because the path is missing"
    );
}

#[test]
fn file_replaced_by_excluded_directory_is_reported() {
    let mut bench = Bench::new(manual());
    bench.disk.write("/tmp/dir/excluded", "data");
    bench
        .watch_filtered("/tmp/dir", RecursiveMode::Recursive, reject_name("excluded"))
        .expect("watch filtered");
    let _ = bench.drain();

    bench.disk.remove("/tmp/dir/excluded");
    bench.disk.mkdir("/tmp/dir/excluded");
    bench.poll_blocking();

    let events = bench.drain();
    assert!(
        events.iter().any(|e| e.1.contains(&"/tmp/dir/excluded".to_string())),
        "replacing a file with an excluded directory must be reported: {events:?}"
    );
}

#[test]
fn excluded_directory_mtime_changes_are_not_reported() {
    let mut bench = Bench::new(manual());
    bench.disk.mkdir("/tmp/dir/excluded");
    bench
        .watch_filtered("/tmp/dir", RecursiveMode::Recursive, reject_name("excluded"))
        .expect("watch filtered");

    bench.disk.second += 1;
    bench.disk.write("/tmp/dir/excluded/inside.txt", "data");
    bench.disk.write("/tmp/dir/seen.txt", "data");
    bench.poll_blocking();

    let events = bench.drain();
    assert!(
        events
            .iter()
            .all(|e| !is_modify(e) || !e.1.contains(&"/tmp/dir/excluded".to_string())),
        "excluded-subtree activity leaked as a Modify on the excluded directory: {events:?}"
    );
    // Guard against a vacuous pass: prove the watch itself is alive.
    assert!(
        events.iter().any(|e| e.1.iter().any(|p| p.ends_with("/seen.txt"))),
        "expected an event proving the watch is active, got: {events:?}"
    );
}

#[test]
fn symlink_root_to_excluded_directory_watches_nothing() {
    let mut bench = Bench::new(manual());
    bench.disk.mkdir("/tmp/dir/excluded");
    bench.disk.write("/tmp/dir/excluded/inside.txt", "data");
    bench.disk.symlink("/tmp/dir/excluded", "/tmp/dir/link");

    let result =
        bench.watch_filtered("/tmp/dir/link", RecursiveMode::Recursive, reject_name("excluded"));
    assert!(
        matches!(result, Err(ref e) if matches!(e.kind, ErrorKind::PathExcluded)),
        "a symlink root resolving to an excluded directory must be rejected: {result:?}"
    );
    assert!(bench.watched().is_empty());

    bench.disk.write("/tmp/dir/excluded/more.txt", "data");
    bench.poll_blocking();
    let events = bench.drain();
    assert!(
        events.is_empty(),
        "nothing is watched, so nothing may be reported: {events:?}"
    );
}

#[test]
fn file_roots_are_not_filtered() {
    let mut bench = Bench::new(Config { compare_contents: true, ..manual() });
    bench.disk.write("/tmp/dir/watched.txt", "data");
    // The filter gates directories only: even a filter rejecting this exact path must not prevent
    // watching a file.
    bench
        .watch_filtered(
            "/tmp/dir/watched.txt",
            RecursiveMode::NonRecursive,
            reject_path("/tmp/dir/watched.txt"),
        )
        .expect("watch file");

    bench.disk.write("/tmp/dir/watched.txt", "changed");
    bench.poll_blocking();

    let events = bench.drain();
    assert!(
        events.iter().any(|e| e.1.contains(&"/tmp/dir/watched.txt".to_string())),
        "file watches must not be affected by the directory filter: {events:?}"
    );
}

#[test]
fn poll_watcher_respects_event_kind_mask() {
    let mut bench = Bench::new(Config {
        event_kinds: EventKindMask::CREATE.bits(),
        compare_contents: true,
        ..manual()
    });
    bench.watch("/tmp/dir", RecursiveMode::Recursive).expect("watch");

    // Create a file - should generate CREATE event
    bench.disk.write("/tmp/dir/test_file", "initial");
    bench.watcher.poll().expect("poll 1");
    assert_eq!(bench.turn(), None);
    let events = bench.drain();
    assert_eq!(events, vec![at(CREATE, "/tmp/dir/test_file")]);

    // Modify the file - should NOT generate event (filtered by mask)
    bench.disk.write("/tmp/dir/test_file", "modified content");
    bench.watcher.poll().expect("poll 2");
    assert_eq!(bench.turn(), None);
    let remaining = bench.drain();
    assert!(
        !remaining.iter().any(is_modify),
        "Should not receive MODIFY events with CREATE-only mask, got: {remaining:?}"
    );
}

#[test]
fn mask_bits_are_those_of_the_event_types() {
    let admitted = |mask: EventKindMask| {
        let mut emitter = EventEmitter::new(mask.bits());
        for kind in [CREATE, REMOVE, MODIFY_DATA, MODIFY_TIME] {
            emitter.emit_ok(Event::new(kind).add_path(path("/a")));
        }
        emitter.emit_io_err(not_found(), None);
        let messages = emitter.take();
        assert!(emitter.take().is_empty());
        assert!(matches!(&messages.last(), Some(Err(e)) if e.paths.is_empty()));
        messages.into_iter().filter_map(|m| m.ok()).map(|e| e.kind).collect::<Vec<_>>()
    };
    assert_eq!(admitted(EventKindMask::ALL), vec![CREATE, REMOVE, MODIFY_DATA, MODIFY_TIME]);
    assert_eq!(admitted(EventKindMask::CREATE), vec![CREATE]);
    assert_eq!(admitted(EventKindMask::REMOVE), vec![REMOVE]);
    assert_eq!(admitted(EventKindMask::MODIFY_DATA), vec![MODIFY_DATA]);
    assert_eq!(admitted(EventKindMask::MODIFY_META), vec![MODIFY_TIME]);
    assert_eq!(admitted(EventKindMask::empty()), vec![]);
}

#[test]
fn later_write_time_counts_before_contents() {
    let data = |mtime: i64, hash: Option<u64>| PathData { mtime, hash, last_check: 0 };
    let old = data(10, Some(1));
    let kind = |new: PathData| PathData::compare_to_kind(Some(&old), Some(&new));
    assert_eq!(kind(data(11, Some(2))), Some(MODIFY_TIME));
    assert_eq!(kind(data(10, Some(2))), Some(MODIFY_DATA));
    assert_eq!(kind(data(9, None)), Some(MODIFY_DATA));
    assert_eq!(kind(data(9, Some(1))), None);
    assert_eq!(PathData::compare_to_kind(None, Some(&old)), Some(CREATE));
    assert_eq!(PathData::compare_to_kind(Some(&old), None), Some(REMOVE));
    assert_eq!(PathData::compare_to_kind(None, None), None);
}

#[test]
fn rejected_directories_compare_equal_to_each_other_only() {
    let rejected = |now: u64, second: u64| {
        let mut builder = DataBuilder::new(true, false, EventKindMask::ALL.bits(), now);
        let entry = WalkEntry { path: path("/a/excluded"), depth: 1, is_dir: true, link: None };
        let plan = EntryPlan::new(&reject_name("excluded"), entry);
        assert!(plan.excluded && plan.skip_current_dir);
        assert_eq!(text(&plan.path), "/a/excluded");
        let meta = FileMeta { modified: Some(seconds(second)), is_file: false };
        let met = vec![Met::Entry(plan, meta, None)];
        scan_all_path_data(&mut builder, &path("/a"), &path("/a"), met, false).remove(0).1
    };
    let first = rejected(1, 10);
    let second = rejected(2, 20);
    assert_eq!(first, PathData { mtime: 0, hash: Some(EXCLUDED_DIR_HASH), last_check: 1 });
    assert_eq!(PathData::compare_to_kind(Some(&first), Some(&second)), None);
    for hash in [None, Some(0), Some(7)] {
        for mtime in [-5, 0, 5] {
            let other = PathData { mtime, hash, last_check: 0 };
            assert!(PathData::compare_to_kind(Some(&other), Some(&second)).is_some());
            assert!(PathData::compare_to_kind(Some(&first), Some(&other)).is_some());
        }
    }
}

#[test]
fn recorded_times_are_whole_seconds_with_a_sign() {
    let builder = DataBuilder::new(true, false, 0, 42);
    let data = |modified: Option<FileTime>, is_file: bool| {
        let meta = MetaPath::from_parts_unchecked(path("/a"), FileMeta { modified, is_file });
        assert_eq!(text(meta.path()), "/a");
        assert_eq!(meta.metadata().is_file, is_file);
        let data = builder.build_path_data(&meta, Some(9));
        assert_eq!(text(&meta.into_path()), "/a");
        data
    };
    assert_eq!(
        data(Some(seconds(1234)), true),
        PathData { mtime: 1234, hash: Some(9), last_check: 42 }
    );
    assert_eq!(
        data(Some(FileTime::Before(1_234_000_000_000)), false),
        PathData { mtime: -1234, hash: None, last_check: 42 }
    );
    assert_eq!(data(None, false), PathData { mtime: 0, hash: None, last_check: 42 });
    let plain = DataBuilder::new(false, false, 0, 42);
    assert!(!plain.wants_contents(&FileMeta { modified: None, is_file: true }));
    let meta = MetaPath::from_parts_unchecked(
        path("/a"),
        FileMeta { modified: None, is_file: true },
    );
    assert_eq!(plain.build_path_data(&meta, Some(9)).hash, None);
}

#[test]
fn parts_of_a_second_are_dropped_on_both_sides() {
    let after = |millis: u128| system_time_to_seconds(FileTime::After(millis * 1_000_000));
    let before = |millis: u128| system_time_to_seconds(FileTime::Before(millis * 1_000_000));
    assert_eq!(after(1999), 1);
    assert_eq!(after(0), 0);
    assert_eq!(before(500), 0);
    assert_eq!(before(1500), -1);
    assert_eq!(before(2000), -2);
    // What a part of a second changes is not seen.
    assert_eq!(after(1000), after(1999));
}

#[test]
fn cycle_looks_at_every_watch_before_it_answers() {
    let mut bench = Bench::new(manual());
    for dir in ["/tmp/dir/a", "/tmp/dir/b", "/tmp/dir/c"] {
        bench.disk.mkdir(dir);
        bench.watch(dir, RecursiveMode::Recursive).unwrap();
    }
    for file in ["/tmp/dir/a/1", "/tmp/dir/b/2", "/tmp/dir/c/3"] {
        bench.disk.write(file, "");
    }
    bench.poll_blocking();
    let mut events = bench.drain();
    events.sort_by(|a, b| a.1.cmp(&b.1));
    assert_eq!(
        events,
        vec![at(CREATE, "/tmp/dir/a/1"), at(CREATE, "/tmp/dir/b/2"), at(CREATE, "/tmp/dir/c/3")]
    );

    // Without watches a cycle ends at once, and is answered all the same.
    let mut idle = Bench::new(manual());
    idle.poll_blocking();
    assert!(idle.messages().is_empty());
    assert_eq!(idle.scan(None), None);
    assert_eq!(idle.scan(Some(PollMessage::Poll)), None);
}

#[test]
fn rejected_directories_do_not_interfere() {
    let run = |second: u64, inside: &str| {
        let mut bench = Bench::new(manual());
        bench.disk.mkdir("/tmp/dir/excluded");
        bench.disk.write("/tmp/dir/gone", "");
        bench
            .watch_filtered("/tmp/dir", RecursiveMode::Recursive, reject_name("excluded"))
            .unwrap();
        bench.disk.write("/tmp/dir/fresh", "");
        bench.disk.remove("/tmp/dir/gone");
        bench.disk.write(&format!("/tmp/dir/excluded/{inside}"), "");
        bench.disk.set_time("/tmp/dir/excluded", second);
        bench.poll_blocking();
        bench.drain()
    };
    assert_eq!(run(2000, "one"), run(5, "another"));
    assert_eq!(
        run(2000, "one"),
        vec![at(CREATE, "/tmp/dir/fresh"), at(REMOVE, "/tmp/dir/gone")]
    );
}

#[test]
fn order_of_the_listing_does_not_matter() {
    let met = |names: &[&str]| -> Vec<Met> {
        names
            .iter()
            .map(|name| {
                let entry = WalkEntry { path: path(name), depth: 1, is_dir: false, link: None };
                let meta = FileMeta { modified: Some(seconds(7)), is_file: true };
                Met::Entry(EntryPlan::new(&accept_all(), entry), meta, None)
            })
            .collect()
    };
    let mut builder = DataBuilder::new(false, false, EventKindMask::ALL.bits(), 1);
    let first = InitialScan { root_is_dir: true, met: met(&["/a", "/a/x", "/a/y"]) };
    let root = WatchPath::from_parts(path("/a"), path("/a"));
    let mut watch = builder.build_watch_data(root, true, true, accept_all(), Ok(first)).unwrap();
    builder.update_timestamp(2);
    watch.rescan(&mut builder, met(&["/a/y", "/a", "/a/x"]));
    assert!(builder.emitter.take().is_empty());
}

#[test]
fn unchanged_files_are_silent() {
    let mut bench = Bench::new(Config { compare_contents: true, ..manual() });
    bench.disk.write("/tmp/dir/a", "1");
    bench.disk.mkdir("/tmp/dir/b");
    bench.watch("/tmp/dir", RecursiveMode::Recursive).unwrap();
    assert!(bench.messages().is_empty());
    bench.poll_blocking();
    bench.poll_blocking();
    assert!(bench.messages().is_empty());
}

#[test]
fn events_are_told_once() {
    let mut bench = Bench::new(manual());
    bench.watch("/tmp/dir", RecursiveMode::Recursive).unwrap();
    bench.disk.write("/tmp/dir/a", "1");
    bench.poll_blocking();
    assert_eq!(bench.drain(), vec![at(CREATE, "/tmp/dir/a")]);
    bench.poll_blocking();
    assert!(bench.messages().is_empty());
    bench.disk.remove("/tmp/dir/a");
    bench.poll_blocking();
    assert_eq!(bench.drain(), vec![at(REMOVE, "/tmp/dir/a")]);
    bench.poll_blocking();
    assert!(bench.messages().is_empty());
}

#[test]
fn relative_requests_are_told_in_their_own_form() {
    let mut bench = Bench::new(manual());
    bench.watch("dir", RecursiveMode::Recursive).unwrap();
    assert_eq!(bench.watched(), vec![("dir".to_string(), RecursiveMode::Recursive)]);
    bench.disk.mkdir("/tmp/dir/sub");
    bench.disk.write("/tmp/dir/sub/file", "1");
    bench.poll_blocking();
    assert_eq!(bench.drain(), vec![at(CREATE, "dir/sub"), at(CREATE, "dir/sub/file")]);
    bench.unwatch("/tmp/dir").unwrap();
    assert!(bench.watched().is_empty());
}

#[test]
fn nonrecursive_watches_end_at_the_children() {
    let mut bench = Bench::new(manual());
    bench.disk.mkdir("/tmp/dir/sub");
    bench.watch("/tmp/dir", RecursiveMode::NonRecursive).unwrap();
    bench.disk.write("/tmp/dir/sub/file", "1");
    bench.disk.write("/tmp/dir/file", "1");
    bench.poll_blocking();
    assert_eq!(bench.drain(), vec![at(CREATE, "/tmp/dir/file")]);
    assert_eq!(WatchData::<Predicate>::dir_scan_depth(true), usize::MAX);
    assert_eq!(WatchData::<Predicate>::dir_scan_depth(false), 1);
}

#[test]
fn missing_path_is_told_of_and_not_watched() {
    let mut bench = Bench::new(manual());
    bench.watch("lost", RecursiveMode::Recursive).unwrap();
    assert!(bench.watched().is_empty());
    let messages = bench.messages();
    assert_eq!(messages.len(), 1);
    let error = messages.into_iter().next().unwrap().unwrap_err();
    assert!(matches!(&error.kind, ErrorKind::Io(e) if e.kind() == std::io::ErrorKind::NotFound));
    assert_eq!(error.paths.iter().map(text).collect::<Vec<_>>(), vec!["lost"]);
}

#[test]
fn vanished_root_is_told_of_at_each_scan_and_stays_watched() {
    let mut bench = Bench::new(manual());
    bench.disk.write("/tmp/dir/file", "1");
    bench.watch("dir", RecursiveMode::Recursive).unwrap();
    bench.disk.remove("/tmp/dir");
    bench.poll_blocking();
    let messages = bench.messages();
    assert!(matches!(&messages[0], Err(e) if text(&e.paths[0]) == "/tmp/dir"));
    let mut removed: Vec<Told> =
        messages.into_iter().filter_map(|m| m.ok()).map(told).collect();
    removed.sort_by(|a, b| a.1.cmp(&b.1));
    assert_eq!(removed, vec![at(REMOVE, "dir"), at(REMOVE, "dir/file")]);

    bench.disk.mkdir("/tmp/dir");
    bench.poll_blocking();
    assert_eq!(bench.drain(), vec![at(CREATE, "dir")]);
}

#[test]
fn walk_failures_are_told_with_their_path_or_message() {
    let mut builder = DataBuilder::new(false, true, 0, 5);
    let entry = |at: &str| {
        let entry = WalkEntry { path: path(at), depth: 1, is_dir: false, link: None };
        let plan = EntryPlan::new(&accept_all(), entry);
        assert!(!plan.excluded && !plan.skip_current_dir);
        plan
    };
    let failure = |io: Option<std::io::Error>, message: &str, at: Option<&str>| {
        Met::Failure(WalkError { io, message: message.to_string(), path: at.map(path) })
    };
    let meta = FileMeta { modified: Some(seconds(9)), is_file: true };
    let met = vec![
        Met::Entry(entry("/a/x"), meta, Some(1)),
        failure(Some(not_found()), "gone", Some("/a/b")),
        failure(Some(not_found()), "gone", None),
        Met::Entry(entry("/a/y/z"), meta, Some(1)),
        failure(None, "loop", Some("/a/c")),
        Met::Unreadable(entry("/a/d"), not_found()),
    ];
    let scanned = scan_all_path_data(&mut builder, &path("/a"), &path("a"), met, true);
    let found: Vec<(String, PathData)> = scanned.iter().map(|(p, d)| (text(p), *d)).collect();
    let data = PathData { mtime: 9, hash: None, last_check: 5 };
    assert_eq!(found, vec![("/a/x".to_string(), data), ("/a/y/z".to_string(), data)]);
    let events: Vec<String> = builder.scan_events.as_ref().unwrap().iter().map(text).collect();
    assert_eq!(events, vec!["a/x", "a/y/z"]);

    let told: Vec<(bool, Vec<String>)> = builder
        .emitter
        .take()
        .into_iter()
        .map(|m| m.unwrap_err())
        .map(|e| match e.kind {
            ErrorKind::Io(_) => (true, e.paths.iter().map(text).collect()),
            ErrorKind::Generic(message) => (false, vec![message]),
            kind => panic!("unexpected failure {kind:?}"),
        })
        .collect();
    assert_eq!(
        told,
        vec![
            (true, vec!["/a/b".to_string()]),
            (true, vec![]),
            (false, vec!["loop".to_string()]),
            (true, vec!["/a/d".to_string()]),
        ]
    );
}

#[test]
fn unwatching_an_unwatched_path_fails() {
    let mut bench = Bench::new(manual());
    bench.watch("/tmp/dir", RecursiveMode::Recursive).unwrap();
    let error = bench.unwatch("/path/that/is/not/watched").unwrap_err();
    assert!(matches!(error.kind, ErrorKind::WatchNotFound));
    let error = bench.watcher.watch_set.unwatch(&path("dir"), Err(not_found())).unwrap_err();
    assert!(matches!(error.kind, ErrorKind::Io(_)));
    assert_eq!(bench.watched().len(), 1);
    bench.unwatch("/tmp//dir/").unwrap();
    assert!(bench.unwatch("/tmp/dir").is_err());
}

#[test]
fn filtered_watches_stay_disjoint() {
    let mut bench = Bench::new(manual());
    for dir in ["/tmp/dir/a", "/tmp/dir/a/x", "/tmp/dir/b"] {
        bench.disk.mkdir(dir);
    }
    bench
        .watch_filtered("/tmp/dir/a", RecursiveMode::Recursive, reject_name("excluded"))
        .unwrap();
    let error = bench.watch("/tmp/dir/a/x", RecursiveMode::NonRecursive).unwrap_err();
    assert!(matches!(error.kind, ErrorKind::WatchOverlap));
    assert_eq!(
        error.paths.iter().map(text).collect::<Vec<_>>(),
        vec!["/tmp/dir/a/x", "/tmp/dir/a"]
    );
    assert!(bench.watch("/tmp/dir", RecursiveMode::Recursive).is_err());
    bench.watch("/tmp/dir", RecursiveMode::NonRecursive).unwrap();
    bench.watch("/tmp/dir/b", RecursiveMode::Recursive).unwrap();
    // A link into the region is seen through.
    bench.disk.symlink("/tmp/dir/a/x", "/tmp/dir/b/alias");
    assert!(bench.watch("/tmp/dir/b/alias", RecursiveMode::Recursive).is_err());
    assert_eq!(bench.watched().len(), 3);
}

struct Collector(Vec<String>);

impl ScanEventHandler for Collector {
    fn handle_event(&mut self, event: ScanEvent) {
        self.0.push(text(&event.unwrap()));
    }
}

#[test]
fn first_scan_is_told_in_order_and_later_ones_are_not() {
    let watcher = PollWatcher::with_initial_scan(manual(), 0).expect("create watcher");
    let mut bench = Bench { disk: Disk::new(), watcher, clock: 0, tickets: 0, told: Vec::new() };
    bench.disk.write("/tmp/dir/a", "1");
    bench.disk.mkdir("/tmp/dir/b");
    bench.disk.write("/tmp/dir/b/c", "1");
    bench.watch("dir", RecursiveMode::Recursive).unwrap();
    let mut collector = Collector(Vec::new());
    let paths = bench.watcher.watch_set.data_builder().scan_events.as_mut().unwrap();
    tell_paths(&mut collector, paths);
    assert!(paths.is_empty());
    assert_eq!(collector.0, vec!["dir", "dir/a", "dir/b", "dir/b/c"]);

    bench.disk.write("/tmp/dir/d", "1");
    bench.poll_blocking();
    let paths = bench.watcher.watch_set.data_builder().scan_events.as_mut().unwrap();
    assert!(paths.is_empty());
    ().handle_event(Ok(path("/a")));

    let mut silent = Bench::new(manual());
    silent.watch("/tmp/dir", RecursiveMode::Recursive).unwrap();
    assert!(silent.watcher.watch_set.data_builder().scan_events.is_none());
}

#[test]
fn loop_with_a_delay_scans_at_once() {
    let delay = Duration::from_secs(30);
    let mut poll_loop: PollLoop<u32> = PollLoop::new(Some(delay));
    assert_eq!(poll_loop.delay(), Some(delay));
    poll_loop.request(PollMessage::PollAndWait(7)).unwrap();
    assert!(matches!(poll_loop.begin(), Turn::Scan(None)));
    let message = match poll_loop.begin() {
        Turn::Scan(message) => message,
        turn => panic!("{turn:?}"),
    };
    assert!(matches!(message, Some(PollMessage::PollAndWait(7))));
    assert!(matches!(poll_loop.begin(), Turn::Wait));
    assert!(matches!(poll_loop.wake(false), Turn::Wait));
    assert!(matches!(poll_loop.wake(true), Turn::Scan(None)));
}

#[test]
fn loop_without_a_delay_scans_at_requests_only() {
    let mut poll_loop: PollLoop<u32> = PollLoop::new(None);
    assert!(matches!(poll_loop.begin(), Turn::Wait));
    assert!(matches!(poll_loop.wake(true), Turn::Wait));
    poll_loop.request(PollMessage::Poll).unwrap();
    poll_loop.request(PollMessage::PollAndWait(1)).unwrap();
    poll_loop.request(PollMessage::PollAndWait(2)).unwrap();
    let mut answered = Vec::new();
    let mut turn = poll_loop.wake(false);
    while let Turn::Scan(message) = turn {
        answered.push(match message {
            Some(PollMessage::PollAndWait(done)) => Some(done),
            _ => None,
        });
        turn = poll_loop.begin();
    }
    assert!(matches!(turn, Turn::Wait));
    assert_eq!(answered, vec![None, Some(1), Some(2)]);
}

#[test]
fn stopped_loop_ends_and_takes_no_requests() {
    let mut bench = Bench::new(manual());
    bench.watcher.poll().unwrap();
    bench.watcher.poll_loop.stop();
    // A request that was left before is still served if the loop was waiting for one.
    assert!(matches!(
        bench.watcher.poll_loop.wake(false),
        Turn::Scan(Some(PollMessage::Poll))
    ));
    bench.watcher.poll_blocking(1).unwrap();
    assert!(matches!(bench.watcher.poll_loop.begin(), Turn::Exit));
    // The request that was left behind is gone.
    assert!(matches!(bench.watcher.poll_loop.wake(true), Turn::Exit));

    let failed = bench.watcher.poll().unwrap_err();
    assert!(
        matches!(&failed.kind, ErrorKind::Generic(m) if m == "failed to send poll message")
    );
    let failed = bench.watcher.poll_blocking(2).unwrap_err();
    assert!(
        matches!(&failed.kind, ErrorKind::Generic(m) if m == "failed to send poll message")
    );
    assert!(failed.paths.is_empty());
}

#[test]
fn loop_that_broke_down_takes_no_requests() {
    let mut bench = Bench::new(manual());
    bench.watcher.poll_blocking(1).unwrap();
    bench.watcher.poll_loop.ended();
    assert!(bench.watcher.poll().is_err());
    let lost = Watcher::poll_outcome(None).unwrap_err();
    assert!(matches!(&lost.kind, ErrorKind::Generic(m) if m == "poll thread disconnected"));
    assert!(Watcher::poll_outcome(Some(Ok(()))).is_ok());
    let failed = Watcher::poll_outcome(Some(Err(Error::watch_not_found()))).unwrap_err();
    assert!(matches!(failed.kind, ErrorKind::WatchNotFound));
    assert_eq!(Watcher::kind(), WatcherKind::PollWatcher);
}

#[test]
fn hashes_are_those_of_the_whole_contents() {
    let data: Vec<u8> = (0u32..5000).map(|i| (i * 7 % 251) as u8).collect();
    for length in [0, 1, 3, 16, 17, 128, 129, 240, 241, 255, 256, 257, 512, 513, 1024, 5000] {
        let contents = &data[..length];
        assert_eq!(
            content_hash(contents),
            Some(xxhash_rust::xxh3::xxh3_64(contents)),
            "{length} bytes"
        );
    }
    // Published test vector: the hash of nothing.
    assert_eq!(content_hash(b""), Some(0x2d06_8005_38d3_94c2));
    assert_ne!(content_hash(b"123"), content_hash(b"321"));
    let mut hasher = ContentHasher::new();
    assert!(matches!(hasher.take_in(ReadEvent::Chunk(b"12")), ReadStep::ReadOn));
    assert!(matches!(
        hasher.take_in(ReadEvent::Failed(not_found())),
        ReadStep::GiveUp(e) if e.kind() == std::io::ErrorKind::NotFound
    ));
}
