//! What is known of watched files, and what becomes known when they are looked at again.

use vstd::prelude::*;

use crate::error::ErrorKind;
use crate::event::{
    masked_event, CreateKind, DataChange, Event, EventEmitter, EventKind, MetadataKind, ModifyKind,
    RemoveKind, Report,
};
use crate::filter::{RecursiveMode, WatchFilter};
use crate::path::{components, under, FilePath};
use crate::path_map::{entered, PathMap};
use crate::paths::{reported_path, reported_text, WatchPath};
use crate::scan::{
    failures_of, lemma_records_below, met_below, records_of, scan_all_path_data, scan_told, Met,
};

verus! {

/// How many nanoseconds a second has.
pub const NANOS_PER_SECOND: u128 = 1_000_000_000;

/// A time in a file's metadata, in nanoseconds from the start of 1970.
#[derive(Clone, Copy, Debug, PartialEq, Eq, Structural)]
pub enum FileTime {
    /// That many nanoseconds later.
    After(u128),
    /// That many nanoseconds earlier.
    Before(u128),
}

impl FileTime {
    /// The nanoseconds between the time and the start of 1970.
    pub open spec fn nanos(self) -> u128 {
        match self {
            FileTime::After(nanos) => nanos,
            FileTime::Before(nanos) => nanos,
        }
    }

    /// The whole seconds between the time and the start of 1970. A part of a second is dropped, on
    /// either side.
    pub open spec fn whole_seconds(self) -> int {
        self.nanos() as int / NANOS_PER_SECOND as int
    }

    /// The time can be counted in seconds, with a sign: its whole seconds are a number of 64 bits,
    /// and not the one that has no negative. That one lies as far before the start of 1970 as no
    /// file system counts.
    pub open spec fn countable(self) -> bool {
        &&& self.whole_seconds() <= u64::MAX
        &&& self is Before ==> (self.whole_seconds() as u64) as i64 != i64::MIN
    }

    /// The whole seconds from the start of 1970, with a sign.
    pub open spec fn seconds(self) -> int {
        match self {
            FileTime::After(_) => ((self.whole_seconds() as u64) as i64) as int,
            FileTime::Before(_) => -(((self.whole_seconds() as u64) as i64) as int),
        }
    }
}

/// The seconds from the start of 1970, negative before it, rounded toward it.
pub fn system_time_to_seconds(time: FileTime) -> (res: i64)
    requires
        time.countable(),
    ensures
        res == time.seconds(),
        time.whole_seconds() <= i64::MAX ==> match time {
            FileTime::After(nanos) => res == nanos as int / NANOS_PER_SECOND as int,
            FileTime::Before(nanos) => res == -(nanos as int / NANOS_PER_SECOND as int),
        },
{
    match time {
        FileTime::After(nanos) => ((nanos / NANOS_PER_SECOND) as u64) as i64,
        FileTime::Before(nanos) => -(((nanos / NANOS_PER_SECOND) as u64) as i64),
    }
}

/// What the file system says of an entry.
#[derive(Clone, Copy, Debug)]
pub struct FileMeta {
    /// When it was last written to, if that is known.
    pub modified: Option<FileTime>,
    /// It is a file.
    pub is_file: bool,
}

/// A path and what the file system says of it.
#[derive(Debug)]
pub struct MetaPath {
    path: FilePath,
    metadata: FileMeta,
}

impl MetaPath {
    pub closed spec fn spec_path(self) -> FilePath {
        self.path
    }

    pub closed spec fn spec_metadata(self) -> FileMeta {
        self.metadata
    }

    /// Puts the two together. `metadata` has to be that of `path`.
    pub fn from_parts_unchecked(path: FilePath, metadata: FileMeta) -> (res: Self)
        ensures
            res.spec_path() == path,
            res.spec_metadata() == metadata,
    {
        MetaPath { path, metadata }
    }

    /// The path.
    pub fn path(&self) -> (res: &FilePath)
        ensures
            *res == self.spec_path(),
    {
        &self.path
    }

    /// What the file system says of it.
    pub fn metadata(&self) -> (res: &FileMeta)
        ensures
            *res == self.spec_metadata(),
    {
        &self.metadata
    }

    /// The path alone.
    pub fn into_path(self) -> (res: FilePath)
        ensures
            res == self.spec_path(),
    {
        self.path
    }
}

/// What is known of one path.
#[derive(Clone, Copy, Debug, PartialEq, Eq, Structural)]
pub struct PathData {
    /// When it was last written to, in seconds; 0 where that is not known.
    pub mtime: i64,
    /// The hash of its contents, where contents are compared and could be read.
    pub hash: Option<u64>,
    /// The time of the scan that last saw it.
    pub last_check: u64,
}

/// The event that lies between what was known of a path and what is found there.
pub open spec fn kind_between(old: Option<PathData>, new: Option<PathData>) -> Option<EventKind> {
    match (old, new) {
        (Some(old), Some(new)) => if new.mtime > old.mtime {
            Some(EventKind::Modify(ModifyKind::Metadata(MetadataKind::WriteTime)))
        } else if new.hash != old.hash {
            Some(EventKind::Modify(ModifyKind::Data(DataChange::Any)))
        } else {
            None
        },
        (None, Some(_)) => Some(EventKind::Create(CreateKind::Any)),
        (Some(_), None) => Some(EventKind::Remove(RemoveKind::Any)),
        (None, None) => None,
    }
}

/// A value behind a reference that may be missing.
pub open spec fn value_of<T>(value: Option<&T>) -> Option<T> {
    match value {
        Some(v) => Some(*v),
        None => None,
    }
}

/// What a scan that takes place at `now` finds out about an entry.
pub open spec fn found_data(
    metadata: FileMeta,
    content_hash: Option<u64>,
    compare_contents: bool,
    now: u64,
) -> PathData {
    PathData {
        mtime: match metadata.modified {
            Some(time) => time.seconds() as i64,
            None => 0,
        },
        hash: if compare_contents && metadata.is_file {
            content_hash
        } else {
            None
        },
        last_check: now,
    }
}

impl PathData {
    /// What is known of an entry that a scan has just met. `content_hash` is the hash of its
    /// contents, if they could be read; it counts only for files, and only where contents are
    /// compared.
    pub fn new(data_builder: &DataBuilder, meta_path: &MetaPath, content_hash: Option<u64>) -> (res:
        PathData)
        requires
            meta_path.spec_metadata().modified matches Some(time) ==> time.countable(),
        ensures
            res == found_data(
                meta_path.spec_metadata(),
                content_hash,
                data_builder.compare_contents,
                data_builder.now,
            ),
    {
        let metadata = meta_path.metadata();
        PathData {
            mtime: match metadata.modified {
                Some(time) => system_time_to_seconds(time),
                None => 0,
            },
            hash: if data_builder.compare_contents && metadata.is_file {
                content_hash
            } else {
                None
            },
            last_check: data_builder.now,
        }
    }

    /// The event that lies between what was known of a path and what is found there. A later
    /// write time counts before different contents; an earlier one does not count.
    pub fn compare_to_kind(old: Option<&PathData>, new: Option<&PathData>) -> (res: Option<
        EventKind,
    >)
        ensures
            res == kind_between(value_of(old), value_of(new)),
            old is None && new is None ==> res is None,
            old is None && new is Some ==> res == Some(EventKind::Create(CreateKind::Any)),
            old is Some && new is None ==> res == Some(EventKind::Remove(RemoveKind::Any)),
            (old matches Some(o) && new matches Some(n) && n.mtime > o.mtime) ==> res == Some(
                EventKind::Modify(ModifyKind::Metadata(MetadataKind::WriteTime)),
            ),
            (old matches Some(o) && new matches Some(n) && n.mtime <= o.mtime && n.hash != o.hash)
                ==> res == Some(EventKind::Modify(ModifyKind::Data(DataChange::Any))),
            (old matches Some(o) && new matches Some(n) && n.mtime <= o.mtime && n.hash == o.hash)
                ==> res is None,
    {
        match (old, new) {
            (Some(old), Some(new)) => if new.mtime > old.mtime {
                Some(EventKind::Modify(ModifyKind::Metadata(MetadataKind::WriteTime)))
            } else if new.hash != old.hash {
                Some(EventKind::Modify(ModifyKind::Data(DataChange::Any)))
            } else {
                None
            },
            (None, Some(_new)) => Some(EventKind::Create(CreateKind::Any)),
            (Some(_old), None) => Some(EventKind::Remove(RemoveKind::Any)),
            (None, None) => None,
        }
    }
}

/// Builds [`WatchData`] and [`PathData`], and collects what the user is to be told meanwhile.
#[derive(Debug)]
pub struct DataBuilder {
    /// What the user is to be told.
    pub emitter: EventEmitter,
    /// The paths met on first scans, where somebody wants to be told of them.
    pub scan_events: Option<Vec<FilePath>>,
    /// Contents are compared, not only write times.
    pub compare_contents: bool,
    /// The time of the current scan, on a clock that does not run backwards.
    pub now: u64,
}

impl DataBuilder {
    /// A builder that has nothing to tell yet.
    pub fn new(
        compare_content: bool,
        has_scan_handler: bool,
        event_kinds: u32,
        now: u64,
    ) -> (res: Self)
        ensures
            res.emitter.mask() == event_kinds,
            res.emitter.reports() == Seq::<Report>::empty(),
            match res.scan_events {
                Some(paths) => has_scan_handler && paths@ == Seq::<FilePath>::empty(),
                None => !has_scan_handler,
            },
            res.compare_contents == compare_content,
            res.now == now,
    {
        DataBuilder {
            emitter: EventEmitter::new(event_kinds),
            scan_events: if has_scan_handler {
                Some(Vec::new())
            } else {
                None
            },
            compare_contents: compare_content,
            now,
        }
    }

    /// Sets the time of the scan that begins now.
    pub fn update_timestamp(&mut self, now: u64)
        ensures
            *final(self) == (DataBuilder { now, ..*old(self) }),
    {
        self.now = now;
    }

    /// A new watch on `root`; see [`WatchData::new`].
    pub fn build_watch_data<F>(
        &mut self,
        root: WatchPath,
        is_recursive: bool,
        follow_symlinks: bool,
        watch_filter: WatchFilter<F>,
        probed: Result<InitialScan, std::io::Error>,
    ) -> (res: Option<WatchData<F>>)
        requires
            probed matches Ok(first) ==> met_below(first.met@, root.absolute@),
        ensures
            watch_built(
                *old(self),
                root,
                is_recursive,
                follow_symlinks,
                watch_filter@,
                probed,
                *final(self),
                res,
            ),
    {
        WatchData::new(self, root, is_recursive, follow_symlinks, watch_filter, probed)
    }

    /// What is known of an entry that a scan has just met.
    pub fn build_path_data(&self, meta_path: &MetaPath, content_hash: Option<u64>) -> (res:
        PathData)
        requires
            meta_path.spec_metadata().modified matches Some(time) ==> time.countable(),
        ensures
            res == found_data(
                meta_path.spec_metadata(),
                content_hash,
                self.compare_contents,
                self.now,
            ),
    {
        PathData::new(self, meta_path, content_hash)
    }

    /// Whether the contents of an entry have to be read for [`PathData::new`].
    pub fn wants_contents(&self, metadata: &FileMeta) -> (res: bool)
        ensures
            res == (self.compare_contents && metadata.is_file),
    {
        self.compare_contents && metadata.is_file
    }
}

/// What is known of paths: for the key of each, the text under which it became known, and what is
/// known of it.
pub type Known = Map<Seq<Seq<u8>>, (Seq<u8>, PathData)>;

/// What a scan found, in the order in which it was found.
pub open spec fn found_view(scanned: Seq<(FilePath, PathData)>) -> Seq<(Seq<u8>, PathData)> {
    scanned.map_values(|e: (FilePath, PathData)| (e.0@, e.1))
}

/// What is known once a scan's findings are taken over, one after the other.
pub open spec fn absorbed(known: Known, found: Seq<(Seq<u8>, PathData)>) -> Known
    decreases found.len(),
{
    if found.len() == 0 {
        known
    } else {
        entered(absorbed(known, found.drop_last()), found.last().0, found.last().1)
    }
}

/// What is known of a path.
pub open spec fn lookup(known: Known, path: Seq<u8>) -> Option<PathData> {
    if known.dom().contains(components(path)) {
        Some(known[components(path)].1)
    } else {
        None
    }
}

/// How a watch names paths to the user, and which events it tells of.
pub struct Voice {
    pub root: Seq<u8>,
    pub requested_root: Seq<u8>,
    pub mask: u32,
}

impl Voice {
    /// The report of an event at a path, where it is to be told of.
    pub open spec fn tells(self, kind: Option<EventKind>, path: Seq<u8>) -> Seq<Report> {
        match kind {
            Some(kind) => masked_event(
                self.mask,
                kind,
                reported_text(self.root, self.requested_root, path),
            ),
            None => seq![],
        }
    }
}

/// What a scan's findings are reported as: each is compared with what was known of the path just
/// before.
pub open spec fn scan_reports(
    voice: Voice,
    known: Known,
    found: Seq<(Seq<u8>, PathData)>,
) -> Seq<Report>
    decreases found.len(),
{
    if found.len() == 0 {
        seq![]
    } else {
        let (path, data) = found.last();
        let before = absorbed(known, found.drop_last());
        scan_reports(voice, known, found.drop_last()) + voice.tells(
            kind_between(lookup(before, path), Some(data)),
            path,
        )
    }
}

/// The keys of the paths that no scan has seen since `now`.
pub open spec fn vanished(known: Known, now: u64) -> Set<Seq<Seq<u8>>> {
    Set::new(|key: Seq<Seq<u8>>| known.dom().contains(key) && known[key].1.last_check < now)
}

/// What the disappearance of these paths is reported as.
pub open spec fn removal_reports(
    voice: Voice,
    known: Known,
    gone: Seq<Seq<Seq<u8>>>,
) -> Seq<Report>
    decreases gone.len(),
{
    if gone.len() == 0 {
        seq![]
    } else {
        removal_reports(voice, known, gone.drop_last()) + voice.tells(
            kind_between(Some(known[gone.last()].1), None),
            known[gone.last()].0,
        )
    }
}

/// The list names each member of the set, once, in some order.
pub open spec fn lists<A>(list: Seq<A>, set: Set<A>) -> bool {
    &&& list.no_duplicates()
    &&& forall|x: A| #[trigger] set.contains(x) <==> list.contains(x)
}

/// What a scan at `now` makes of what was known, and what it reports: its findings are taken over
/// and reported in order; then the paths that were not seen are forgotten and reported, in an
/// order that is left open.
pub open spec fn rescanned(
    voice: Voice,
    known: Known,
    found: Seq<(Seq<u8>, PathData)>,
    now: u64,
    known_after: Known,
    reports: Seq<Report>,
) -> bool {
    let seen = absorbed(known, found);
    &&& known_after == seen.remove_keys(vanished(seen, now))
    &&& exists|gone: Seq<Seq<Seq<u8>>>| #[trigger]
        lists(gone, vanished(seen, now)) && reports == scan_reports(voice, known, found)
            + removal_reports(voice, seen, gone)
}

/// What the first scan of a root found.
#[derive(Debug)]
pub struct InitialScan {
    /// The root is a directory.
    pub root_is_dir: bool,
    /// What the walk met, in order.
    pub met: Vec<Met>,
}

/// A watch, and what is known of the paths that it covers.
#[derive(Debug)]
pub struct WatchData<F> {
    root: FilePath,
    requested_root: FilePath,
    root_is_dir: bool,
    is_recursive: bool,
    follow_symlinks: bool,
    watch_filter: WatchFilter<F>,
    all_path_data: PathMap<PathData>,
}

/// What does not change of a watch.
pub struct WatchConfig<F> {
    pub root: Seq<u8>,
    pub requested_root: Seq<u8>,
    pub root_is_dir: bool,
    pub is_recursive: bool,
    pub follow_symlinks: bool,
    pub watch_filter: Option<F>,
}

/// What comes of building a watch on `root` that was first looked at with this outcome: a watch
/// that knows what the scan found; or none, and a report of why the root could not be looked at.
pub open spec fn watch_built<F>(
    builder: DataBuilder,
    root: WatchPath,
    is_recursive: bool,
    follow_symlinks: bool,
    watch_filter: Option<F>,
    probed: Result<InitialScan, std::io::Error>,
    builder_after: DataBuilder,
    built: Option<WatchData<F>>,
) -> bool {
    match probed {
        Ok(first) => {
            &&& scan_told(
                builder,
                root.absolute@,
                root.requested@,
                true,
                first.met@,
                builder_after,
            )
            &&& built matches Some(watch)
            &&& watch.wf()
            &&& watch.config() == (WatchConfig {
                root: root.absolute@,
                requested_root: root.requested@,
                root_is_dir: first.root_is_dir,
                is_recursive,
                follow_symlinks,
                watch_filter,
            })
            &&& watch.known() == absorbed(
                Map::empty(),
                records_of(first.met@, builder.compare_contents, builder.now),
            )
        },
        Err(e) => {
            &&& built is None
            &&& builder_after == (DataBuilder { emitter: builder_after.emitter, ..builder })
            &&& builder_after.emitter.mask() == builder.emitter.mask()
            &&& builder_after.emitter.reports() == builder.emitter.reports().push(
                Report::Failure(ErrorKind::Io(e), seq![root.requested@]),
            )
        },
    }
}

/// What a scan at `now` that found this makes of the watch, and what it reports under this mask.
pub open spec fn looked_at<F>(
    watch: WatchData<F>,
    mask: u32,
    found: Seq<(Seq<u8>, PathData)>,
    now: u64,
    watch_after: WatchData<F>,
    reports: Seq<Report>,
) -> bool {
    &&& watch_after.wf()
    &&& watch_after.config() == watch.config()
    &&& rescanned(watch.voice(mask), watch.known(), found, now, watch_after.known(), reports)
}

/// What a scan of a watched root that met this makes of the watch, and of what the user is told:
/// the failures of the scan first, then what lies between what was known and what was found.
pub open spec fn watch_rescanned<F>(
    watch: WatchData<F>,
    builder: DataBuilder,
    met: Seq<Met>,
    watch_after: WatchData<F>,
    builder_after: DataBuilder,
) -> bool {
    &&& builder_after == (DataBuilder { emitter: builder_after.emitter, ..builder })
    &&& builder_after.emitter.mask() == builder.emitter.mask()
    &&& exists|reports: Seq<Report>|
        {
            &&& #[trigger] looked_at(
                watch,
                builder.emitter.mask(),
                records_of(met, builder.compare_contents, builder.now),
                builder.now,
                watch_after,
                reports,
            )
            &&& builder_after.emitter.reports() == builder.emitter.reports() + failures_of(met)
                + reports
        }
}

impl<F> WatchData<F> {
    /// What does not change of the watch.
    pub closed spec fn config(self) -> WatchConfig<F> {
        WatchConfig {
            root: self.root@,
            requested_root: self.requested_root@,
            root_is_dir: self.root_is_dir,
            is_recursive: self.is_recursive,
            follow_symlinks: self.follow_symlinks,
            watch_filter: self.watch_filter@,
        }
    }

    /// What is known of the paths that the watch covers.
    pub closed spec fn known(self) -> Known {
        self.all_path_data@
    }

    /// Every path is known once, and lies at or below the root.
    pub closed spec fn wf(self) -> bool {
        &&& self.all_path_data.wf()
        &&& forall|key: Seq<Seq<u8>>| #[trigger]
            self.all_path_data@.dom().contains(key) ==> components(self.root@).is_prefix_of(key)
    }

    /// How the watch names paths to the user, under this mask.
    pub open spec fn voice(self, mask: u32) -> Voice {
        Voice {
            root: self.config().root,
            requested_root: self.config().requested_root,
            mask,
        }
    }

    /// A new watch on `root`, which knows what the first scan found. Where the root itself could
    /// not be looked at there is no watch, and the failure is reported.
    pub fn new(
        data_builder: &mut DataBuilder,
        root: WatchPath,
        is_recursive: bool,
        follow_symlinks: bool,
        watch_filter: WatchFilter<F>,
        probed: Result<InitialScan, std::io::Error>,
    ) -> (res: Option<Self>)
        requires
            probed matches Ok(first) ==> met_below(first.met@, root.absolute@),
        ensures
            watch_built(
                *old(data_builder),
                root,
                is_recursive,
                follow_symlinks,
                watch_filter@,
                probed,
                *final(data_builder),
                res,
            ),
    {
        let first = match probed {
            Ok(first) => first,
            Err(e) => {
                data_builder.emitter.emit_io_err(e, Some(root.requested));
                return None;
            },
        };
        let scanned = scan_all_path_data(
            data_builder,
            &root.absolute,
            &root.requested,
            first.met,
            true,
        );
        let mut all_path_data: PathMap<PathData> = PathMap::new();
        let ghost found = found_view(scanned@);
        proof {
            lemma_records_below(
                first.met@,
                root.absolute@,
                data_builder.compare_contents,
                data_builder.now,
            );
        }
        let mut i: usize = 0;
        while i < scanned.len()
            invariant
                i <= scanned.len(),
                found == found_view(scanned@),
                forall|k: int|
                    0 <= k < found.len() ==> under((#[trigger] found[k]).0, root.absolute@),
                forall|key: Seq<Seq<u8>>| #[trigger]
                    all_path_data@.dom().contains(key) ==> components(
                        root.absolute@,
                    ).is_prefix_of(key),
                all_path_data.wf(),
                all_path_data@ == absorbed(Map::empty(), found.take(i as int)),
            decreases scanned.len() - i,
        {
            let (path, data) = &scanned[i];
            assert(found[i as int].0 == path@);
            all_path_data.insert(path.clone(), *data);
            assert(found.take(i + 1).drop_last() =~= found.take(i as int));
            i += 1;
        }
        assert(found.take(i as int) =~= found);
        Some(
            WatchData {
                root: root.absolute,
                requested_root: root.requested,
                root_is_dir: first.root_is_dir,
                is_recursive,
                follow_symlinks,
                watch_filter,
                all_path_data,
            },
        )
    }

    /// Takes over what a scan found, forgets what it did not find, and reports both.
    pub fn rescan(&mut self, data_builder: &mut DataBuilder, met: Vec<Met>)
        requires
            old(self).wf(),
            met_below(met@, old(self).config().root),
        ensures
            watch_rescanned(
                *old(self),
                *old(data_builder),
                met@,
                *final(self),
                *final(data_builder),
            ),
    {
        let scanned = scan_all_path_data(
            data_builder,
            &self.root,
            &self.requested_root,
            met,
            false,
        );
        let ghost voice = self.voice(data_builder.emitter.mask());
        let ghost before = self.known();
        let ghost told = data_builder.emitter.reports();
        let ghost found = found_view(scanned@);
        proof {
            lemma_records_below(met@, self.root@, data_builder.compare_contents, data_builder.now);
        }
        let mut i: usize = 0;
        assert(told + scan_reports(voice, before, found.take(0)) =~= told);
        while i < scanned.len()
            invariant
                i <= scanned.len(),
                found == found_view(scanned@),
                forall|k: int|
                    0 <= k < found.len() ==> under((#[trigger] found[k]).0, old(self).root@),
                self.wf(),
                self.config() == old(self).config(),
                voice == old(self).voice(data_builder.emitter.mask()),
                data_builder.emitter.mask() == old(data_builder).emitter.mask(),
                *data_builder == (DataBuilder {
                    emitter: data_builder.emitter,
                    ..*old(data_builder)
                }),
                self.known() == absorbed(before, found.take(i as int)),
                data_builder.emitter.reports() == told + scan_reports(
                    voice,
                    before,
                    found.take(i as int),
                ),
            decreases scanned.len() - i,
        {
            let (path, data) = &scanned[i];
            let ghost then = self.known();
            assert(found[i as int].0 == path@);
            assert(self.config().root == old(self).config().root);
            let kind = PathData::compare_to_kind(self.all_path_data.get(path), Some(data));
            assert(kind == kind_between(lookup(then, path@), Some(*data)));
            self.all_path_data.insert(path.clone(), *data);
            let ghost said = data_builder.emitter.reports();
            if let Some(kind) = kind {
                let event = Event::new(kind).add_path(
                    reported_path(&self.root, &self.requested_root, path),
                );
                data_builder.emitter.emit_ok(event);
            }
            proof {
                assert(data_builder.emitter.reports() =~= said + voice.tells(kind, path@));
                assert(found.take(i + 1).drop_last() =~= found.take(i as int));
                assert(found.take(i + 1).last() == (path@, *data));
                assert(told + (scan_reports(voice, before, found.take(i as int)) + voice.tells(
                    kind,
                    path@,
                )) =~= told + scan_reports(voice, before, found.take(i as int)) + voice.tells(
                    kind,
                    path@,
                ));
            }
            i += 1;
        }
        assert(found.take(i as int) =~= found);
        let ghost seen = self.known();
        let ghost now = data_builder.now;
        let ghost mut gone: Seq<Seq<Seq<u8>>> = seq![];
        let ghost said = data_builder.emitter.reports();
        let mut at: usize = 0;
        proof {
            assert(seen.remove_keys(gone.to_set()) =~= seen);
            assert(said + removal_reports(voice, seen, gone) =~= said);
        }
        while at < self.all_path_data.len()
            invariant
                at <= self.all_path_data.entries().len(),
                self.wf(),
                self.config() == old(self).config(),
                voice == old(self).voice(data_builder.emitter.mask()),
                data_builder.emitter.mask() == old(data_builder).emitter.mask(),
                *data_builder == (DataBuilder {
                    emitter: data_builder.emitter,
                    ..*old(data_builder)
                }),
                now == data_builder.now,
                gone.no_duplicates(),
                forall|key: Seq<Seq<u8>>| #[trigger]
                    gone.contains(key) ==> vanished(seen, now).contains(key),
                self.known() == seen.remove_keys(gone.to_set()),
                forall|j: int|
                    0 <= j < at ==> (#[trigger] self.all_path_data.entries()[j]).1.last_check
                        >= now,
                data_builder.emitter.reports() == said + removal_reports(voice, seen, gone),
            decreases self.all_path_data.entries().len() - at,
        {
            proof {
                self.all_path_data.lemma_entries();
                lemma_entry(self.all_path_data, at as int);
            }
            if self.all_path_data.entry(at).1.last_check < data_builder.now {
                let ghost rest = self.known();
                let (path, data) = self.all_path_data.remove_at(at);
                let ghost key = components(path@);
                let ghost earlier = gone;
                let ghost before_removal = data_builder.emitter.reports();
                if let Some(kind) = PathData::compare_to_kind(Some(&data), None) {
                    let event = Event::new(kind).add_path(
                        reported_path(&self.root, &self.requested_root, &path),
                    );
                    data_builder.emitter.emit_ok(event);
                }
                proof {
                    gone = gone.push(key);
                    assert(seen[key] == (path@, data));
                    assert(gone.drop_last() =~= earlier);
                    assert(data_builder.emitter.reports() =~= before_removal + voice.tells(
                        kind_between(Some(data), None),
                        path@,
                    ));
                    assert(said + (removal_reports(voice, seen, earlier) + voice.tells(
                        kind_between(Some(data), None),
                        path@,
                    )) =~= said + removal_reports(voice, seen, earlier) + voice.tells(
                        kind_between(Some(data), None),
                        path@,
                    ));
                    assert(!earlier.contains(key));
                    assert forall|k: Seq<Seq<u8>>| #[trigger] gone.contains(k) implies vanished(
                        seen,
                        now,
                    ).contains(k) by {
                        if k != key {
                            assert(earlier.contains(k));
                        }
                    }
                    assert forall|k: Seq<Seq<u8>>| #[trigger] gone.to_set().contains(k)
                        == earlier.to_set().insert(key).contains(k) by {
                        if k == key {
                            assert(gone[earlier.len() as int] == k);
                        } else if earlier.contains(k) {
                            assert(gone[earlier.index_of(k)] == k);
                        }
                    }
                    assert(gone.to_set() =~= earlier.to_set().insert(key));
                    assert(rest.remove(key) =~= seen.remove_keys(gone.to_set()));
                }
            } else {
                at += 1;
            }
        }
        proof {
            self.all_path_data.lemma_entries();
            assert forall|key: Seq<Seq<u8>>| #[trigger] vanished(seen, now).contains(
                key,
            ) implies gone.contains(key) by {
                if !gone.contains(key) {
                    assert(self.known().dom().contains(key));
                    let j = lemma_place(self.all_path_data, key);
                    assert(self.all_path_data.entries()[j].1.last_check >= now);
                }
            }
            assert(lists(gone, vanished(seen, now)));
            assert(gone.to_set() =~= vanished(seen, now));
            let reports = scan_reports(voice, before, found) + removal_reports(voice, seen, gone);
            assert(rescanned(voice, before, found, now, self.known(), reports));
            assert(looked_at(*old(self), voice.mask, found, now, *self, reports));
            assert(told + reports =~= told + scan_reports(voice, before, found) + removal_reports(
                voice,
                seen,
                gone,
            ));
        }
    }

    /// How deep a walk goes below its root: all the way, or to the direct children.
    pub fn dir_scan_depth(is_recursive: bool) -> (res: usize)
        ensures
            res == if is_recursive {
                usize::MAX
            } else {
                1usize
            },
    {
        if is_recursive {
            usize::MAX
        } else {
            1
        }
    }

    /// Whether everything below the root is watched.
    pub fn recursive_mode(&self) -> (res: RecursiveMode)
        ensures
            res == if self.config().is_recursive {
                RecursiveMode::Recursive
            } else {
                RecursiveMode::NonRecursive
            },
    {
        if self.is_recursive {
            RecursiveMode::Recursive
        } else {
            RecursiveMode::NonRecursive
        }
    }

    /// The root, from the root of the file system.
    pub fn root(&self) -> (res: &FilePath)
        ensures
            res@ == self.config().root,
    {
        &self.root
    }

    /// The root as the user gave it.
    pub fn requested_root(&self) -> (res: &FilePath)
        ensures
            res@ == self.config().requested_root,
    {
        &self.requested_root
    }

    /// Whether the root was a directory when the watch was made.
    pub fn root_is_dir(&self) -> (res: bool)
        ensures
            res == self.config().root_is_dir,
    {
        self.root_is_dir
    }

    /// Whether walks go through symlinks.
    pub fn follow_symlinks(&self) -> (res: bool)
        ensures
            res == self.config().follow_symlinks,
    {
        self.follow_symlinks
    }

    /// The filter of the watch.
    pub fn watch_filter(&self) -> (res: &WatchFilter<F>)
        ensures
            res@ == self.config().watch_filter,
    {
        &self.watch_filter
    }
}

/// An entry is what the map has at its key.
proof fn lemma_entry(map: PathMap<PathData>, i: int)
    requires
        map.wf(),
        0 <= i < map.entries().len(),
    ensures
        map@.dom().contains(components(map.entries()[i].0@)),
        map@[components(map.entries()[i].0@)] == (map.entries()[i].0@, map.entries()[i].1),
{
    map.lemma_entries();
    crate::path_map::lemma_keyed_at(map.entries(), i);
}

/// Where the entry of a key stands.
proof fn lemma_place(map: PathMap<PathData>, key: Seq<Seq<u8>>) -> (i: int)
    requires
        map.wf(),
        map@.dom().contains(key),
    ensures
        0 <= i < map.entries().len(),
        components(map.entries()[i].0@) == key,
        map@[key] == (map.entries()[i].0@, map.entries()[i].1),
{
    map.lemma_entries();
    let i = crate::path_map::lemma_keyed_place(map.entries(), key);
    crate::path_map::lemma_keyed_at(map.entries(), i);
    i
}

} // verus!
