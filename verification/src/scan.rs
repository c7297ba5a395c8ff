//! Scans: what a walk through the watched files makes known.
//!
//! The walk itself is made elsewhere. [`EntryPlan::new`] decides where it goes on, and
//! [`scan_all_path_data`] what is recorded of what it met, and what the user is told.

use vstd::prelude::*;

use crate::chain::reversed;
use crate::data::{found_data, found_view, DataBuilder, FileMeta, MetaPath, PathData};
use crate::error::{texts, Error, ErrorKind};
use crate::event::Report;
use crate::filter::WatchFilter;
use crate::path::{under, FilePath};
use crate::paths::{
    filter_keeps_walk_entry, may_keep_entry, reported_path, reported_text, text_of,
    walkdir_descended_into, WalkEntry,
};

verus! {

/// Stands in place of the content hash of a directory that the filter rejects. Such directories
/// all compare equal, so nothing is reported while one stays rejected; what was recorded of
/// another entry at the same path differs, so a replacement is reported.
pub const EXCLUDED_DIR_HASH: u64 = 0xffff_ffff_ffff_ffff;

/// A failure met on a walk.
#[derive(Debug)]
pub struct WalkError {
    /// The failure of the file system behind it, if there is one.
    pub io: Option<std::io::Error>,
    /// What the walk says of it.
    pub message: String,
    /// Where it was met, if that is known.
    pub path: Option<FilePath>,
}

/// What is to be done with an entry that the walk has met.
#[derive(Debug)]
pub struct EntryPlan {
    /// The path of the entry.
    pub path: FilePath,
    /// The entry is a directory that the filter rejects.
    pub excluded: bool,
    /// The walk has to leave the directory that it has just opened.
    pub skip_current_dir: bool,
}

impl EntryPlan {
    /// Decides what is to be done with an entry. A directory that the filter rejects is still
    /// recorded, so that its own appearance and disappearance are reported, but the walk does not
    /// go below it. That holds of the root of the walk too.
    pub fn new<F: Fn(&FilePath) -> bool>(watch_filter: &WatchFilter<F>, entry: WalkEntry) -> (res:
        Self)
        requires
            entry.leads_to_dir() ==> watch_filter.can_be_asked_of_dir(entry.path@, entry.target()),
        ensures
            res.path == entry.path,
            may_keep_entry(*watch_filter, entry, !res.excluded),
            res.skip_current_dir == (res.excluded && (entry.is_dir || entry.depth == 0)),
    {
        let excluded = !filter_keeps_walk_entry(watch_filter, &entry);
        let skip_current_dir = excluded && walkdir_descended_into(&entry);
        EntryPlan { path: entry.path, excluded, skip_current_dir }
    }
}

/// What a walk met.
#[derive(Debug)]
pub enum Met {
    /// The walk failed somewhere, and went on.
    Failure(WalkError),
    /// An entry of which the file system says nothing, for this reason.
    Unreadable(EntryPlan, std::io::Error),
    /// An entry, what the file system says of it, and the hash of its contents, if they are wanted
    /// (see [`DataBuilder::wants_contents`]) and could be read.
    Entry(EntryPlan, FileMeta, Option<u64>),
}

/// This may have been met on a walk from `root`: the entries lie at or below it, and their write
/// times can be counted in seconds.
pub open spec fn met_below(met: Seq<Met>, root: Seq<u8>) -> bool {
    forall|i: int|
        0 <= i < met.len() ==> ((#[trigger] met[i]) matches Met::Entry(plan, metadata, _) ==> {
            &&& under(plan.path@, root)
            &&& metadata.modified matches Some(time) ==> time.countable()
        })
}

/// What is recorded of an entry. Of a rejected directory nothing is recorded but that it is there:
/// what happens inside it changes its write time, and that is not to be reported.
pub open spec fn recorded_data(
    excluded: bool,
    metadata: FileMeta,
    content_hash: Option<u64>,
    compare_contents: bool,
    now: u64,
) -> PathData {
    if excluded {
        PathData { mtime: 0, hash: Some(EXCLUDED_DIR_HASH), last_check: now }
    } else {
        found_data(metadata, content_hash, compare_contents, now)
    }
}

/// What a scan at `now` records: every entry of which the file system says something, in order.
pub open spec fn records_of(met: Seq<Met>, compare_contents: bool, now: u64) -> Seq<
    (Seq<u8>, PathData),
>
    decreases met.len(),
{
    if met.len() == 0 {
        seq![]
    } else {
        let before = records_of(met.drop_last(), compare_contents, now);
        match met.last() {
            Met::Entry(plan, metadata, content_hash) => before.push(
                (
                    plan.path@,
                    recorded_data(plan.excluded, metadata, content_hash, compare_contents, now),
                ),
            ),
            _ => before,
        }
    }
}

/// The failures that a scan reports, in order: those of the walk, with their path where the file
/// system is behind them, else by their message alone; and those of entries of which the file
/// system says nothing.
pub open spec fn failures_of(met: Seq<Met>) -> Seq<Report>
    decreases met.len(),
{
    if met.len() == 0 {
        seq![]
    } else {
        let before = failures_of(met.drop_last());
        match met.last() {
            Met::Failure(err) => before.push(
                match err.io {
                    Some(io) => Report::Failure(
                        ErrorKind::Io(io),
                        match text_of(err.path) {
                            Some(path) => seq![path],
                            None => seq![],
                        },
                    ),
                    None => Report::Failure(ErrorKind::Generic(err.message), seq![]),
                },
            ),
            Met::Unreadable(plan, err) => before.push(
                Report::Failure(ErrorKind::Io(err), seq![plan.path@]),
            ),
            Met::Entry(..) => before,
        }
    }
}

/// The recorded paths, in the form that the user knows.
pub open spec fn known_forms(
    root: Seq<u8>,
    requested_root: Seq<u8>,
    found: Seq<(Seq<u8>, PathData)>,
) -> Seq<Seq<u8>> {
    found.map_values(|f: (Seq<u8>, PathData)| reported_text(root, requested_root, f.0))
}

/// The paths to tell of, where anybody wants to be told.
pub open spec fn told_paths(events: Option<Vec<FilePath>>) -> Option<Seq<Seq<u8>>> {
    match events {
        Some(paths) => Some(texts(paths@)),
        None => None,
    }
}

/// What the user is told of a scan before anything is compared: its failures, and, on the first
/// scan of a root, the paths that were recorded, where anybody wants to be told.
pub open spec fn scan_told(
    builder: DataBuilder,
    root: Seq<u8>,
    requested_root: Seq<u8>,
    is_initial: bool,
    met: Seq<Met>,
    builder_after: DataBuilder,
) -> bool {
    let found = records_of(met, builder.compare_contents, builder.now);
    &&& builder_after == (DataBuilder {
        emitter: builder_after.emitter,
        scan_events: builder_after.scan_events,
        ..builder
    })
    &&& builder_after.emitter.mask() == builder.emitter.mask()
    &&& builder_after.emitter.reports() == builder.emitter.reports() + failures_of(met)
    &&& if is_initial {
        told_paths(builder_after.scan_events) == match told_paths(builder.scan_events) {
            Some(paths) => Some(paths + known_forms(root, requested_root, found)),
            None => None,
        }
    } else {
        builder_after.scan_events == builder.scan_events
    }
}

/// Records what a walk met, and tells the user of its failures. On the first scan of a root the
/// paths are told of, too.
pub fn scan_all_path_data(
    data_builder: &mut DataBuilder,
    root: &FilePath,
    requested_root: &FilePath,
    met: Vec<Met>,
    is_initial: bool,
) -> (res: Vec<(FilePath, PathData)>)
    requires
        met_below(met@, root@),
    ensures
        found_view(res@) == records_of(
            met@,
            old(data_builder).compare_contents,
            old(data_builder).now,
        ),
        scan_told(
            *old(data_builder),
            root@,
            requested_root@,
            is_initial,
            met@,
            *final(data_builder),
        ),
{
    let ghost all = met@;
    let ghost compare = data_builder.compare_contents;
    let ghost now = data_builder.now;
    let ghost said = data_builder.emitter.reports();
    let ghost told = told_paths(data_builder.scan_events);
    let mut rest = reversed(met);
    let mut scanned: Vec<(FilePath, PathData)> = Vec::new();
    proof {
        assert(all.take(0) =~= seq![]);
        assert(found_view(scanned@) =~= seq![]);
        assert(said + failures_of(all.take(0)) =~= said);
        if let Some(paths) = told {
            assert(paths + known_forms(root@, requested_root@, seq![]) =~= paths);
        }
    }
    while rest.len() > 0
        invariant
            met_below(all, root@),
            rest@.len() <= all.len(),
            rest@ == all.skip(all.len() - rest@.len()).reverse(),
            compare == old(data_builder).compare_contents,
            now == old(data_builder).now,
            found_view(scanned@) == records_of(all.take(all.len() - rest@.len()), compare, now),
            scan_told(
                *old(data_builder),
                root@,
                requested_root@,
                is_initial,
                all.take(all.len() - rest@.len()),
                *data_builder,
            ),
        decreases rest.len(),
    {
        let ghost done = all.take(all.len() - rest@.len());
        let ghost next = all.take(all.len() - rest@.len() + 1);
        let ghost so_far = scanned@;
        let ghost before = *data_builder;
        if let Some(item) = rest.pop() {
            proof {
                assert(item == all[done.len() as int]);
                assert(next.drop_last() =~= done);
                assert(next.last() == item);
                assert(rest@ =~= all.skip(all.len() - rest@.len()).reverse());
            }
            match item {
                Met::Failure(err) => {
                    match err.io {
                        Some(io) => data_builder.emitter.emit_io_err(io, err.path),
                        None => {
                            let error = Error::new(ErrorKind::Generic(err.message));
                            data_builder.emitter.emit(Err(error));
                        },
                    }
                    proof {
                        lemma_failure_told(
                            old(data_builder).emitter.reports(),
                            done,
                            next,
                            data_builder.emitter.reports().last(),
                        );
                    }
                },
                Met::Unreadable(plan, err) => {
                    data_builder.emitter.emit_io_err(err, Some(plan.path));
                    proof {
                        lemma_failure_told(
                            old(data_builder).emitter.reports(),
                            done,
                            next,
                            data_builder.emitter.reports().last(),
                        );
                    }
                },
                Met::Entry(plan, metadata, content_hash) => {
                    let EntryPlan { path, excluded, skip_current_dir: _ } = plan;
                    let ghost path_text = path@;
                    if is_initial {
                        if let Some(events) = &mut data_builder.scan_events {
                            let ghost earlier = events@;
                            let form = reported_path(root, requested_root, &path);
                            events.push(form);
                            assert(texts(events@) =~= texts(earlier).push(form@));
                        }
                    }
                    let meta_path = MetaPath::from_parts_unchecked(path, metadata);
                    let mut data_path = data_builder.build_path_data(&meta_path, content_hash);
                    if excluded {
                        data_path.mtime = 0;
                        data_path.hash = Some(EXCLUDED_DIR_HASH);
                    }
                    scanned.push((meta_path.into_path(), data_path));
                    proof {
                        assert(found_view(scanned@) =~= found_view(so_far).push(
                            (path_text, data_path),
                        ));
                        let found = records_of(done, compare, now);
                        assert(known_forms(
                            root@,
                            requested_root@,
                            found.push((path_text, data_path)),
                        ) =~= known_forms(root@, requested_root@, found).push(
                            reported_text(root@, requested_root@, path_text),
                        ));
                        if let Some(paths) = told_paths(old(data_builder).scan_events) {
                            let forms = known_forms(root@, requested_root@, found);
                            let form = reported_text(root@, requested_root@, path_text);
                            assert(paths + forms.push(form) =~= (paths + forms).push(form));
                        }
                    }
                },
            }
        }
    }
    assert(all.take(all.len() as int) =~= all);
    scanned
}

/// What is recorded of a walk from `root` lies at or below it.
pub proof fn lemma_records_below(
    met: Seq<Met>,
    root: Seq<u8>,
    compare_contents: bool,
    now: u64,
)
    requires
        met_below(met, root),
    ensures
        forall|i: int|
            0 <= i < records_of(met, compare_contents, now).len() ==> under(
                (#[trigger] records_of(met, compare_contents, now)[i]).0,
                root,
            ),
    decreases met.len(),
{
    if met.len() > 0 {
        let rest = met.drop_last();
        assert(met_below(rest, root)) by {
            assert forall|i: int| 0 <= i < rest.len() implies #[trigger] rest[i] == met[i] by {}
        }
        lemma_records_below(rest, root, compare_contents, now);
        let before = records_of(rest, compare_contents, now);
        let records = records_of(met, compare_contents, now);
        assert(met[met.len() - 1] == met.last());
        assert forall|i: int| 0 <= i < records.len() implies under(
            (#[trigger] records[i]).0,
            root,
        ) by {
            if i < before.len() {
                assert(records[i] == before[i]);
            }
        }
    }
}

/// One report more tells of one failure more.
proof fn lemma_failure_told(said: Seq<Report>, done: Seq<Met>, next: Seq<Met>, report: Report)
    requires
        next.len() > 0,
        next.drop_last() == done,
        failures_of(next) == failures_of(done).push(report),
    ensures
        said + failures_of(next) == (said + failures_of(done)).push(report),
{
    assert(said + failures_of(next) =~= (said + failures_of(done)).push(report));
}

} // verus!
