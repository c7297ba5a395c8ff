//! Laws of the operations themselves: what holds of every argument that a function was called with
//! and of every result that it gave.

use vstd::prelude::*;

use crate::data::{
    system_time_to_seconds, DataBuilder, FileMeta, FileTime, MetaPath, PathData, WatchData,
};
use crate::error::{texts, Error, ErrorKind};
use crate::event::{
    CreateKind, DataChange, Event, EventKind, MetadataKind, ModifyKind, RemoveKind,
};
use crate::filter::{RecursiveMode, WatchFilter};
use crate::path::{components, head_text, same_path, under, FilePath};
use crate::path_laws::{
    law_head_components, law_join_components, law_join_text, law_tail_components,
};
use crate::path_map::PathMap;
use crate::paths::{
    absolute_path, check_overlap_barrier, check_watch_barriers, filter_allows_event_under,
    filter_keeps_walk_entry, is_preserved_watch_root, nearest_above, needs_resolution,
    preserved_watch_mode, preserved_watch_roots, recursive_user_watch_ancestor, reported_path,
    root_covers, roots_view, some_root_covers, some_root_is, some_watch_above, user_watches_below,
    walkdir_descended_into, Probe, WalkEntry, WatchMetadata, WatchPath, WatchSummary,
};
use crate::paths_laws::{
    law_absolute_form, law_nearest_watch_lies_below_the_others, law_reported_components,
    law_reported_text, law_there_is_a_nearest_watch, law_user_watches_below_are_preserved,
};
use crate::poll::{asked_for, watched_view, Config, PollWatcher, WatchPlan, WatchSet};
use crate::poll_laws::law_granted_requests_overlap_no_filtered_watch;
use crate::poll_loop::PollLoop;
use crate::scan::EntryPlan;

verus! {

/// A later write time is told as such, whatever became of the contents; an equal or earlier one
/// leaves it to the contents.
pub proof fn law_comparing_recordings(old: PathData, new: PathData, kind: Option<EventKind>)
    requires
        call_ensures(PathData::compare_to_kind, (Some(&old), Some(&new)), kind),
    ensures
        new.mtime > old.mtime ==> kind == Some(
            EventKind::Modify(ModifyKind::Metadata(MetadataKind::WriteTime)),
        ),
        new.mtime <= old.mtime && new.hash != old.hash ==> kind == Some(
            EventKind::Modify(ModifyKind::Data(DataChange::Any)),
        ),
        new.mtime <= old.mtime && new.hash == old.hash ==> kind is None,
{
}

/// A path that was not known is created, one that is not found is removed, and one that is neither
/// known nor found is nothing.
pub proof fn law_comparing_with_nothing(
    data: PathData,
    appeared: Option<EventKind>,
    disappeared: Option<EventKind>,
    nothing: Option<EventKind>,
)
    requires
        call_ensures(PathData::compare_to_kind, (None, Some(&data)), appeared),
        call_ensures(PathData::compare_to_kind, (Some(&data), None), disappeared),
        call_ensures(PathData::compare_to_kind, (None, None), nothing),
    ensures
        appeared == Some(EventKind::Create(CreateKind::Any)),
        disappeared == Some(EventKind::Remove(RemoveKind::Any)),
        nothing is None,
{
}

/// Times are rounded toward the start of 1970, to whole seconds: as many before it as after it.
pub proof fn law_counting_seconds(nanos: u128, after: i64, before: i64)
    requires
        nanos < 0x7fff_ffff_ffff_ffff * 1_000_000_000,
        call_ensures(system_time_to_seconds, (FileTime::After(nanos),), after),
        call_ensures(system_time_to_seconds, (FileTime::Before(nanos),), before),
    ensures
        after * 1_000_000_000 <= nanos < (after + 1) * 1_000_000_000,
        before == -after,
{
}

/// What is recorded of an entry is dated with the time of the scan, and holds the hash of contents
/// exactly if contents are compared and the entry is a file.
pub proof fn law_recording_an_entry(
    builder: DataBuilder,
    meta_path: MetaPath,
    content_hash: Option<u64>,
    data: PathData,
)
    requires
        meta_path.spec_metadata().modified matches Some(time) ==> time.countable(),
        call_ensures(PathData::new, (&builder, &meta_path, content_hash), data),
    ensures
        data.last_check == builder.now,
        builder.compare_contents && meta_path.spec_metadata().is_file ==> data.hash == content_hash,
        !(builder.compare_contents && meta_path.spec_metadata().is_file) ==> data.hash is None,
        meta_path.spec_metadata().modified is None ==> data.mtime == 0,
        meta_path.spec_metadata().modified matches Some(time) ==> data.mtime == time.seconds(),
{
}

/// Contents are wanted exactly of files, where contents are compared.
pub proof fn law_wanting_contents(builder: DataBuilder, metadata: FileMeta, wanted: bool)
    requires
        call_ensures(DataBuilder::wants_contents, (&builder, &metadata), wanted),
    ensures
        wanted <==> builder.compare_contents && metadata.is_file,
{
}

/// A walk goes all the way down for a recursive watch, and to the direct children for another one.
pub proof fn law_depth_of_walks<F>(is_recursive: bool, depth: usize)
    requires
        call_ensures(WatchData::<F>::dir_scan_depth, (is_recursive,), depth),
    ensures
        is_recursive ==> depth == usize::MAX,
        !is_recursive ==> depth == 1,
{
}

/// A watch says of itself what it was made with.
pub proof fn law_watches_know_what_they_are<F>(
    watch: WatchData<F>,
    mode: RecursiveMode,
    root: &FilePath,
    requested: &FilePath,
    is_dir: bool,
    follow: bool,
    filter: &WatchFilter<F>,
)
    requires
        call_ensures(WatchData::<F>::recursive_mode, (&watch,), mode),
        call_ensures(WatchData::<F>::root, (&watch,), root),
        call_ensures(WatchData::<F>::requested_root, (&watch,), requested),
        call_ensures(WatchData::<F>::root_is_dir, (&watch,), is_dir),
        call_ensures(WatchData::<F>::follow_symlinks, (&watch,), follow),
        call_ensures(WatchData::<F>::watch_filter, (&watch,), filter),
    ensures
        mode is Recursive <==> watch.config().is_recursive,
        root@ == watch.config().root,
        requested@ == watch.config().requested_root,
        is_dir == watch.config().root_is_dir,
        follow == watch.config().follow_symlinks,
        filter@ == watch.config().watch_filter,
{
}

/// An absolute path stays as it is. A relative one is seen from the current directory: it has the
/// components of that, then its own, without a `.` at its start.
pub proof fn law_making_paths_absolute(
    path: FilePath,
    dir: FilePath,
    absolute: Result<FilePath, Error>,
)
    requires
        call_ensures(
            absolute_path,
            (&path, Ok::<FilePath, std::io::Error>(dir)),
            absolute,
        ),
    ensures
        absolute is Ok,
        path@.len() > 0 && path@[0] == 0x2f ==> absolute->Ok_0@ == path@,
        !(path@.len() > 0 && path@[0] == 0x2f) && dir@.len() > 0 ==> components(absolute->Ok_0@)
            == components(dir@) + if components(path@).len() > 0 && components(path@)[0]
            == seq![0x2eu8] {
            components(path@).skip(1)
        } else {
            components(path@)
        },
        !(path@.len() > 0 && path@[0] == 0x2f) && dir@.len() > 0 ==> under(absolute->Ok_0@, dir@),
        !(path@.len() > 0 && path@[0] == 0x2f) ==> {
            &&& absolute->Ok_0@.len() >= dir@.len() + path@.len()
            &&& absolute->Ok_0@.take(dir@.len() as int) == dir@
            &&& absolute->Ok_0@.skip(absolute->Ok_0@.len() - path@.len()) == path@
        },
{
    law_absolute_form(path@, Ok::<FilePath, std::io::Error>(dir));
}

/// Without a current directory an absolute path stays as it is, and a relative one fails for the
/// reason for which the directory is not known.
pub proof fn law_making_paths_absolute_without_a_directory(
    path: FilePath,
    reason: std::io::Error,
    absolute: Result<FilePath, Error>,
)
    requires
        call_ensures(
            absolute_path,
            (&path, Err::<FilePath, std::io::Error>(reason)),
            absolute,
        ),
    ensures
        path@.len() > 0 && path@[0] == 0x2f ==> (absolute matches Ok(same) && same@ == path@),
        !(path@.len() > 0 && path@[0] == 0x2f) ==> (absolute matches Err(error) && error.kind
            == ErrorKind::Io(reason)),
{
}

/// A watched path keeps the form in which it was requested, beside the absolute one.
pub proof fn law_watched_paths_keep_both_forms(
    path: FilePath,
    dir: Result<FilePath, std::io::Error>,
    watched: Result<WatchPath, Error>,
    absolute: Result<FilePath, Error>,
)
    requires
        call_ensures(WatchPath::new, (&path, dir), watched),
        call_ensures(absolute_path, (&path, dir), absolute),
    ensures
        watched is Ok <==> absolute is Ok,
        watched matches Ok(both) ==> both.requested@ == path@ && both.absolute@
            == absolute->Ok_0@,
{
}

/// A path at or below a root is reported with the components of the requested root, then those that
/// it adds to the root; the root itself exactly as requested.
pub proof fn law_reporting_paths(
    root: FilePath,
    requested: FilePath,
    path: FilePath,
    reported: FilePath,
)
    requires
        components(root@).len() > 0,
        under(path@, root@),
        call_ensures(reported_path, (&root, &requested, &path), reported),
    ensures
        components(reported@) == components(requested@) + components(path@).skip(
            components(root@).len() as int,
        ),
        same_path(path@, root@) ==> reported@ == requested@,
        reported@.len() >= requested@.len(),
        reported@.take(requested@.len() as int) == requested@,
{
    law_reported_components(root@, requested@, path@);
    law_reported_text(root@, requested@, path@);
    if same_path(path@, root@) {
        assert(reported@.take(requested@.len() as int) =~= requested@);
    }
}

/// A filtered request is refused for every watch that stands in its way, and a request for which
/// none does passes the overlap barrier.
pub proof fn law_overlapping_watches<'a, F: Fn(&FilePath) -> bool>(
    absolute: FilePath,
    requested: FilePath,
    probe: Probe,
    is_recursive: bool,
    filter: WatchFilter<F>,
    watches: &[WatchSummary<'a, F>],
    decision: Result<(), Error>,
    i: int,
)
    requires
        call_ensures(
            check_overlap_barrier::<F>,
            (&absolute, &requested, &probe, is_recursive, &filter, watches),
            decision,
        ),
        0 <= i < watches@.len(),
        probe.is_dir,
        watches@[i].is_dir,
        filter@ is Some || watches@[i].filter@ is Some,
        components(absolute@) != components(watches@[i].path@),
    ensures
        ({
            let both_resolve = probe.resolved is Some && watches@[i].resolved is Some;
            let new = if both_resolve {
                components(probe.resolved->0@)
            } else {
                components(absolute@)
            };
            let existing = if both_resolve {
                components(watches@[i].resolved->0@)
            } else {
                components(watches@[i].path@)
            };
            &&& watches@[i].is_recursive && existing.is_prefix_of(new) ==> decision is Err
            &&& is_recursive && new.is_prefix_of(existing) ==> decision is Err
        }),
        decision matches Err(error) ==> error.kind == ErrorKind::WatchOverlap && error.paths@.len()
            == 2 && error.paths@[0]@ == requested@,
{
}

/// Watches on files, and watches without a filter, stand in nobody's way.
pub proof fn law_harmless_requests<'a, F: Fn(&FilePath) -> bool>(
    absolute: FilePath,
    requested: FilePath,
    probe: Probe,
    is_recursive: bool,
    filter: WatchFilter<F>,
    watches: &[WatchSummary<'a, F>],
    decision: Result<(), Error>,
)
    requires
        call_ensures(
            check_watch_barriers::<F>,
            (&absolute, &requested, &probe, is_recursive, &filter, watches),
            decision,
        ),
        !probe.is_dir || (filter@ is None && forall|i: int|
            0 <= i < watches@.len() ==> (#[trigger] watches@[i]).filter@ is None
                || !watches@[i].is_dir),
    ensures
        decision is Ok,
{
}

/// A directory that its own filter rejects in any case is refused as excluded, naming it as
/// requested.
pub proof fn law_excluded_requests<'a, F: Fn(&FilePath) -> bool>(
    absolute: FilePath,
    requested: FilePath,
    probe: Probe,
    is_recursive: bool,
    filter: WatchFilter<F>,
    watches: &[WatchSummary<'a, F>],
    decision: Result<(), Error>,
)
    requires
        call_ensures(
            check_watch_barriers::<F>,
            (&absolute, &requested, &probe, is_recursive, &filter, watches),
            decision,
        ),
        probe.is_dir,
        !filter.may_answer(absolute@, true) || (probe.link_target matches Some(target)
            && !filter.may_answer(target@, true)),
    ensures
        decision matches Err(error) && error.kind == ErrorKind::PathExcluded && texts(error.paths@)
            == seq![requested@],
{
}

/// A directory request that stands in the way of a watch, one of the two filtered, does not pass
/// the barriers, whatever its filter says.
pub proof fn law_no_request_passes_an_overlap<'a, F: Fn(&FilePath) -> bool>(
    absolute: FilePath,
    requested: FilePath,
    probe: Probe,
    is_recursive: bool,
    filter: WatchFilter<F>,
    watches: &[WatchSummary<'a, F>],
    decision: Result<(), Error>,
    i: int,
)
    requires
        call_ensures(
            check_watch_barriers::<F>,
            (&absolute, &requested, &probe, is_recursive, &filter, watches),
            decision,
        ),
        0 <= i < watches@.len(),
        probe.is_dir,
        watches@[i].is_dir,
        filter@ is Some || watches@[i].filter@ is Some,
        components(absolute@) != components(watches@[i].path@),
        !(probe.resolved is Some && watches@[i].resolved is Some),
        (watches@[i].is_recursive && components(watches@[i].path@).is_prefix_of(
            components(absolute@),
        )) || (is_recursive && components(absolute@).is_prefix_of(
            components(watches@[i].path@),
        )),
    ensures
        decision is Err,
{
}

/// Paths are resolved exactly where two directories at different paths meet, one of them filtered.
pub proof fn law_resolving_paths<'a, F: Fn(&FilePath) -> bool>(
    absolute: FilePath,
    is_dir: bool,
    filter: WatchFilter<F>,
    watch: WatchSummary<'a, F>,
    needed: bool,
)
    requires
        call_ensures(
            needs_resolution::<F>,
            (&absolute, is_dir, &filter, &watch),
            needed,
        ),
    ensures
        needed <==> {
            &&& is_dir && watch.is_dir
            &&& components(absolute@) != components(watch.path@)
            &&& filter@ is Some || watch.filter@ is Some
        },
{
}

/// An event passes if the filter accepts every directory strictly between root and path, and is
/// held back if it rejects one; other directories do not count.
pub proof fn law_letting_events_pass<F: Fn(&FilePath) -> bool>(
    filter: WatchFilter<F>,
    root: FilePath,
    path: FilePath,
    passes: bool,
)
    requires
        call_ensures(filter_allows_event_under::<F>, (&filter, &root, &path), passes),
    ensures
        !under(path@, root@) ==> passes,
        components(path@).len() <= components(root@).len() + 1 ==> passes,
        (forall|k: int|
            components(root@).len() < k < components(path@).len() ==> !filter.may_answer(
                #[trigger] head_text(path@, k),
                false,
            )) ==> passes,
        filter@ is Some && under(path@, root@) && (exists|k: int|
            components(root@).len() < k < components(path@).len() && !filter.may_answer(
                #[trigger] head_text(path@, k),
                true,
            )) ==> !passes,
{
}

/// A walk keeps what does not lead to a directory. It keeps a directory exactly if the filter
/// accepts it and, where it is a symlink, its target.
pub proof fn law_keeping_entries<F: Fn(&FilePath) -> bool>(
    filter: WatchFilter<F>,
    entry: WalkEntry,
    kept: bool,
)
    requires
        call_ensures(filter_keeps_walk_entry::<F>, (&filter, &entry), kept),
    ensures
        !entry.is_dir && (entry.link matches Some(link) ==> !link.is_dir) ==> kept,
        filter@ is None ==> kept,
        kept && filter@ is Some && (entry.is_dir || (entry.link matches Some(link) && link.is_dir))
            ==> filter.may_answer(entry.path@, true),
        !kept ==> filter.may_answer(entry.path@, false) || (entry.link matches Some(link)
            && link.resolved matches Some(target) && filter.may_answer(target@, false)),
{
}

/// A rejected entry is skipped exactly if the walk has opened it: a directory, or the root.
pub proof fn law_planning_entries<F: Fn(&FilePath) -> bool>(
    filter: WatchFilter<F>,
    entry: WalkEntry,
    plan: EntryPlan,
    opened: bool,
)
    requires
        call_ensures(EntryPlan::new::<F>, (&filter, entry), plan),
        call_ensures(walkdir_descended_into, (&entry,), opened),
    ensures
        plan.path@ == entry.path@,
        opened <==> entry.is_dir || entry.depth == 0,
        plan.skip_current_dir <==> plan.excluded && opened,
        plan.excluded ==> filter@ is Some,
        plan.excluded ==> entry.is_dir || (entry.link matches Some(link) && link.is_dir),
        plan.excluded ==> filter.may_answer(entry.path@, false) || (entry.link matches Some(link)
            && link.resolved matches Some(target) && filter.may_answer(target@, false)),
        !plan.excluded && filter@ is Some && entry.is_dir ==> filter.may_answer(entry.path@, true),
{
}

/// An entry that the user did not ask for leaves alone what the user asked for; one that the user
/// asked for replaces it. Both keep that everything below is watched for another reason.
pub proof fn law_merging_watches<F: Fn(&FilePath) -> bool>(
    path: WatchPath,
    is_dir: bool,
    is_recursive: bool,
    is_user_watch: bool,
    existing: WatchMetadata<F>,
    filter: WatchFilter<F>,
    merged: WatchMetadata<F>,
)
    requires
        call_ensures(
            WatchMetadata::<F>::new,
            (&path, is_dir, is_recursive, is_user_watch, Some(&existing), filter),
            merged,
        ),
    ensures
        merged.is_dir == is_dir,
        merged.is_recursive <==> is_recursive || existing.is_recursive,
        merged.is_user_watch <==> is_user_watch || existing.is_user_watch,
        !is_user_watch && existing.is_user_watch ==> {
            &&& merged.reported_path@ == existing.reported_path@
            &&& merged.watch_filter@ == existing.watch_filter@
        },
        !is_user_watch ==> merged.user_is_recursive == existing.user_is_recursive,
        is_user_watch ==> {
            &&& merged.user_is_recursive == is_recursive
            &&& merged.reported_path@ == path.requested@
            &&& merged.watch_filter@ == filter@
        },
        !is_user_watch && !existing.is_user_watch ==> {
            &&& merged.reported_path@ == path.requested@
            &&& merged.watch_filter@ == filter@
        },
{
}

/// A new entry is what was asked for.
pub proof fn law_first_watches<F: Fn(&FilePath) -> bool>(
    path: WatchPath,
    is_dir: bool,
    is_recursive: bool,
    is_user_watch: bool,
    filter: WatchFilter<F>,
    entry: WatchMetadata<F>,
)
    requires
        call_ensures(
            WatchMetadata::<F>::new,
            (&path, is_dir, is_recursive, is_user_watch, None, filter),
            entry,
        ),
    ensures
        entry.is_dir == is_dir,
        entry.is_recursive == is_recursive,
        entry.is_user_watch == is_user_watch,
        entry.user_is_recursive <==> is_user_watch && is_recursive,
        entry.reported_path@ == path.requested@,
        entry.watch_filter@ == filter@,
{
}

/// Asking again changes nothing only if mode and requested form are the same and no filter is
/// involved on either side.
pub proof fn law_asking_again<F: Fn(&FilePath) -> bool>(
    entry: WatchMetadata<F>,
    path: WatchPath,
    is_recursive: bool,
    filter: WatchFilter<F>,
    unchanged: bool,
)
    requires
        call_ensures(
            WatchMetadata::<F>::rewatch_is_noop,
            (&entry, &path, is_recursive, &filter),
            unchanged,
        ),
    ensures
        unchanged <==> {
            &&& entry.user_is_recursive == is_recursive
            &&& components(entry.reported_path@) == components(path.requested@)
            &&& entry.watch_filter@ is None
            &&& filter@ is None
        },
{
}

/// A summary speaks of the mode that the user asked for, and of the filter of the entry.
pub proof fn law_summing_up<'a, F: Fn(&FilePath) -> bool>(
    entry: &'a WatchMetadata<F>,
    path: &'a FilePath,
    resolved: Option<&'a FilePath>,
    summary: WatchSummary<'a, F>,
)
    requires
        call_ensures(WatchMetadata::<F>::summary, (entry, path, resolved), summary),
    ensures
        summary.path@ == path@,
        summary.is_dir == entry.is_dir,
        summary.is_recursive == entry.user_is_recursive,
        summary.filter@ == entry.watch_filter@,
        summary.resolved == resolved,
{
}

/// The mode is that of the first root that is the path itself, or is recursive and has the path
/// below it; there is none only if no root covers the path.
pub proof fn law_mode_of_preserved_roots(
    path: FilePath,
    roots: &[(FilePath, bool)],
    mode: Option<bool>,
)
    requires
        call_ensures(preserved_watch_mode, (&path, roots), mode),
    ensures
        mode is None <==> forall|i: int|
            0 <= i < roots@.len() ==> {
                &&& components(path@) != components((#[trigger] roots@[i]).0@)
                &&& !(roots@[i].1 && components(roots@[i].0@).is_prefix_of(components(path@)))
            },
        mode matches Some(m) ==> exists|i: int|
            {
                &&& 0 <= i < roots@.len()
                &&& roots@[i].1 == m
                &&& components(path@) == components((#[trigger] roots@[i]).0@) || (roots@[i].1
                    && components(roots@[i].0@).is_prefix_of(components(path@)))
                &&& forall|j: int|
                    0 <= j < i ==> {
                        &&& components(path@) != components((#[trigger] roots@[j]).0@)
                        &&& !(roots@[j].1 && components(roots@[j].0@).is_prefix_of(
                            components(path@),
                        ))
                    }
            },
{
    assert forall|i: int| 0 <= i < roots@.len() implies (root_covers(#[trigger] roots@[i], path@)
        <==> components(path@) == components(roots@[i].0@) || (roots@[i].1 && components(
        roots@[i].0@,
    ).is_prefix_of(components(path@)))) by {}
    if let Some(m) = mode {
        let i = choose|i: int|
            {
                &&& 0 <= i < roots@.len()
                &&& root_covers(#[trigger] roots@[i], path@)
                &&& m == roots@[i].1
                &&& forall|j: int| 0 <= j < i ==> !root_covers(#[trigger] roots@[j], path@)
            };
        assert(root_covers(roots@[i], path@));
    } else {
        assert(!some_root_covers(roots@, components(path@)));
    }
}

/// Nothing is preserved where everything below goes too; else the user's own watches strictly below
/// the path, each with the mode that the user asked for.
pub proof fn law_preserving_watches<F>(
    path: FilePath,
    remove_recursive: bool,
    watches: &[(FilePath, WatchMetadata<F>)],
    roots: Vec<(FilePath, bool)>,
    i: int,
)
    requires
        call_ensures(preserved_watch_roots::<F>, (&path, remove_recursive, watches), roots),
        0 <= i < watches@.len(),
    ensures
        remove_recursive ==> roots@.len() == 0,
        !remove_recursive && watches@[i].1.is_user_watch && components(path@).is_prefix_of(
            components(watches@[i].0@),
        ) && components(path@) != components(watches@[i].0@) ==> exists|j: int|
            0 <= j < roots@.len() && (#[trigger] roots@[j]).0@ == watches@[i].0@ && roots@[j].1
                == watches@[i].1.user_is_recursive,
        roots@.len() <= watches@.len(),
        forall|j: int|
            0 <= j < roots@.len() ==> exists|k: int|
                {
                    &&& 0 <= k < watches@.len()
                    &&& (#[trigger] watches@[k]).0@ == (#[trigger] roots@[j]).0@
                    &&& watches@[k].1.user_is_recursive == roots@[j].1
                    &&& watches@[k].1.is_user_watch
                    &&& components(path@).is_prefix_of(components(watches@[k].0@))
                    &&& components(path@) != components(watches@[k].0@)
                },
{
    let view = roots_view(roots@);
    assert(view.len() == roots@.len());
    if !remove_recursive {
        law_user_watches_below_are_preserved(watches@, path@);
        let below = user_watches_below(watches@, path@);
        let at = choose|at: Seq<int>|
            {
                &&& at.len() == below.len()
                &&& forall|j: int|
                    0 <= j < at.len() ==> 0 <= #[trigger] at[j] < watches@.len() && below[j] == (
                        watches@[at[j]].0@,
                        watches@[at[j]].1.user_is_recursive,
                    )
                &&& forall|j: int, k: int|
                    0 <= j < k < at.len() ==> #[trigger] at[j] < #[trigger] at[k]
                &&& forall|i: int|
                    0 <= i < watches@.len() ==> (#[trigger] at.contains(i) <==> {
                        &&& components(path@).is_prefix_of(components(watches@[i].0@))
                        &&& components(path@) != components(watches@[i].0@)
                        &&& watches@[i].1.is_user_watch
                    })
            };
        if at.contains(i) {
            let j = at.index_of(i);
            assert(view[j] == (roots@[j].0@, roots@[j].1));
        }
        assert forall|j: int| 0 <= j < roots@.len() implies exists|k: int|
            {
                &&& 0 <= k < watches@.len()
                &&& (#[trigger] watches@[k]).0@ == (#[trigger] roots@[j]).0@
                &&& watches@[k].1.user_is_recursive == roots@[j].1
                &&& watches@[k].1.is_user_watch
                &&& components(path@).is_prefix_of(components(watches@[k].0@))
                &&& components(path@) != components(watches@[k].0@)
            } by {
            assert(view[j] == (roots@[j].0@, roots@[j].1));
            assert(at.contains(at[j]));
            assert(watches@[at[j]].0@ == roots@[j].0@);
        }
        lemma_increasing(at, watches@.len() as int);
    }
}

/// A list of places that go up is no longer than what they are places in.
proof fn lemma_increasing(at: Seq<int>, n: int)
    requires
        forall|j: int| 0 <= j < at.len() ==> 0 <= #[trigger] at[j] < n,
        forall|j: int, k: int| 0 <= j < k < at.len() ==> #[trigger] at[j] < #[trigger] at[k],
        0 <= n,
    ensures
        at.len() <= n,
    decreases at.len(),
{
    if at.len() > 0 {
        let last = at.len() - 1;
        let rest = at.drop_last();
        assert forall|j: int| 0 <= j < rest.len() implies 0 <= #[trigger] rest[j] < at[last] by {
            assert(rest[j] == at[j]);
            assert(at[j] < at[last]);
        }
        lemma_increasing(rest, at[last]);
    }
}

/// A path is a preserved root exactly if it has the components of one.
pub proof fn law_being_a_preserved_root(
    path: FilePath,
    roots: &[(FilePath, bool)],
    is_root: bool,
)
    requires
        call_ensures(is_preserved_watch_root, (&path, roots), is_root),
    ensures
        is_root <==> exists|i: int|
            0 <= i < roots@.len() && components(path@) == components((#[trigger] roots@[i]).0@),
{
    assert(is_root == some_root_is(roots@, components(path@)));
}

/// The ancestor that is found is a recursive user watch strictly above the path and at or below all
/// others; none is found only if there is none.
pub proof fn law_finding_the_nearest_ancestor<F>(
    path: FilePath,
    watches: &[(FilePath, WatchMetadata<F>)],
    ancestor: Option<(FilePath, FilePath)>,
    j: int,
)
    requires
        call_ensures(recursive_user_watch_ancestor::<F>, (&path, watches), ancestor),
        0 <= j < watches@.len(),
        watches@[j].1.is_user_watch,
        watches@[j].1.user_is_recursive,
        components(watches@[j].0@).is_prefix_of(components(path@)),
        components(watches@[j].0@) != components(path@),
    ensures
        ancestor matches Some(found) && {
            &&& components(watches@[j].0@).is_prefix_of(components(found.0@))
            &&& components(found.0@).is_prefix_of(components(path@))
            &&& components(found.0@) != components(path@)
            &&& exists|i: int|
                {
                    &&& 0 <= i < watches@.len()
                    &&& found.0@ == (#[trigger] watches@[i]).0@
                    &&& found.1@ == watches@[i].1.reported_path@
                    &&& watches@[i].1.is_user_watch
                    &&& watches@[i].1.user_is_recursive
                }
        },
{
    law_there_is_a_nearest_watch(watches@, path@, j);
    if let Some(found) = ancestor {
        let i = choose|i: int|
            {
                &&& #[trigger] nearest_above(watches@, path@, i)
                &&& found.0@ == watches@[i].0@
                &&& found.1@ == watches@[i].1.reported_path@
            };
        law_nearest_watch_lies_below_the_others(watches@, path@, i, j);
        assert(found.0@ == watches@[i].0@);
    } else {
        assert(some_watch_above(watches@, components(path@)));
    }
}

/// What was joined below a path is left when the path is taken off again.
pub proof fn law_joining_and_stripping(
    base: FilePath,
    relative: FilePath,
    both: FilePath,
    rest: Option<FilePath>,
)
    requires
        base@.len() > 0,
        components(base@).len() > 0,
        !(relative@.len() > 0 && relative@[0] == 0x2f),
        !(components(relative@).len() > 0 && components(relative@)[0] == seq![0x2eu8]),
        call_ensures(FilePath::join, (&base, &relative), both),
        call_ensures(FilePath::strip_prefix, (&both, &base), rest),
    ensures
        components(both@) == components(base@) + components(relative@),
        rest matches Some(left) && components(left@) == components(relative@),
{
    let n = components(base@).len() as int;
    law_join_components(base@, relative@);
    law_tail_components(both@, n);
    assert(components(both@).skip(n) =~= components(relative@));
}

/// A joined path starts with the text of the first, and ends with that of the second.
pub proof fn law_joining_texts(base: FilePath, relative: FilePath, both: FilePath)
    requires
        call_ensures(FilePath::join, (&base, &relative), both),
    ensures
        relative@.len() > 0 && relative@[0] == 0x2f ==> both@ == relative@,
        !(relative@.len() > 0 && relative@[0] == 0x2f) ==> {
            &&& both@.len() >= base@.len() + relative@.len()
            &&& both@.take(base@.len() as int) == base@
            &&& both@.skip(both@.len() - relative@.len()) == relative@
        },
{
    law_join_text(base@, relative@);
    if !(relative@.len() > 0 && relative@[0] == 0x2f) {
        assert(both@.skip(both@.len() - relative@.len()) =~= relative@);
    }
}

/// Paths are compared by their components: one is at or below another if it starts with all of
/// them, and taking off what it starts with leaves the others.
pub proof fn law_comparing_paths(
    path: FilePath,
    base: FilePath,
    below: bool,
    same: bool,
    rest: Option<FilePath>,
    count: usize,
    absolute: bool,
)
    requires
        call_ensures(FilePath::starts_with, (&path, &base), below),
        call_ensures(FilePath::same_as, (&path, &base), same),
        call_ensures(FilePath::strip_prefix, (&path, &base), rest),
        call_ensures(FilePath::component_count, (&path,), count),
        call_ensures(FilePath::is_absolute, (&path,), absolute),
    ensures
        below <==> components(base@).is_prefix_of(components(path@)),
        same <==> components(path@) == components(base@),
        rest is Some <==> below,
        rest matches Some(left) ==> components(left@) == components(path@).skip(
            components(base@).len() as int,
        ),
        count == components(path@).len(),
        absolute <==> path@.len() > 0 && path@[0] == 0x2f,
{
    if under(path@, base@) {
        law_tail_components(path@, components(base@).len() as int);
    }
}

/// The head of a path has its first components, and its text starts with it.
pub proof fn law_taking_heads(path: FilePath, n: usize, head: FilePath)
    requires
        n <= components(path@).len(),
        call_ensures(FilePath::head, (&path, n), head),
    ensures
        components(head@) == components(path@).take(n as int),
        under(path@, head@),
{
    law_head_components(path@, n as int);
    assert(components(head@) =~= components(path@).subrange(0, n as int));
}

/// The filter says of a path what its predicate says of it; without a predicate it accepts it.
pub proof fn law_asking_filters<F: Fn(&FilePath) -> bool>(
    filter: WatchFilter<F>,
    path: FilePath,
    answer: bool,
    plain: bool,
)
    requires
        call_ensures(WatchFilter::<F>::should_watch, (&filter, &path), answer),
        call_ensures(WatchFilter::<F>::is_accept_all, (&filter,), plain),
    ensures
        plain <==> filter@ is None,
        plain ==> answer,
        filter@ matches Some(f) ==> call_ensures(f, (&path,), answer),
{
}

/// A directory is accepted if the predicate accepts it and its target, and rejected if it rejects
/// one of them.
pub proof fn law_asking_about_directories<F: Fn(&FilePath) -> bool>(
    filter: WatchFilter<F>,
    f: F,
    path: FilePath,
    target: FilePath,
    alone: bool,
    linked: bool,
)
    requires
        filter@ == Some(f),
        call_ensures(WatchFilter::<F>::allows_dir, (&filter, &path, None), alone),
        call_ensures(WatchFilter::<F>::allows_dir, (&filter, &path, Some(&target)), linked),
    ensures
        call_ensures(f, (&path,), alone),
        linked ==> call_ensures(f, (&path,), true) && call_ensures(f, (&target,), true),
        !linked ==> call_ensures(f, (&path,), false) || call_ensures(f, (&target,), false),
{
}

/// A mode is recursive or not as it says.
pub proof fn law_modes(recursive: bool, flat: bool)
    requires
        call_ensures(RecursiveMode::is_recursive, (&RecursiveMode::Recursive,), recursive),
        call_ensures(RecursiveMode::is_recursive, (&RecursiveMode::NonRecursive,), flat),
    ensures
        recursive,
        !flat,
{
}

/// Whoever waits for a scan learns what came of it; that the loop is gone is a failure.
pub proof fn law_outcomes_of_scans<F: Fn(&FilePath) -> bool, R>(
    answer: Option<Result<(), Error>>,
    outcome: Result<(), Error>,
)
    requires
        call_ensures(PollWatcher::<F, R>::poll_outcome, (answer,), outcome),
    ensures
        answer matches Some(given) ==> outcome == given,
        answer is None ==> (outcome matches Err(error) && error.is_generic(
            "poll thread disconnected"@,
        )),
{
}

/// A new watcher watches nothing and is set up as it was told; only one made with a handler of
/// first scans tells of them.
pub proof fn law_new_watchers<F: Fn(&FilePath) -> bool, R>(
    config: Config,
    now: u64,
    plain: Result<PollWatcher<F, R>, Error>,
    telling: Result<PollWatcher<F, R>, Error>,
)
    requires
        call_ensures(PollWatcher::<F, R>::new, (config, now), plain),
        call_ensures(PollWatcher::<F, R>::with_initial_scan, (config, now), telling),
    ensures
        plain is Ok,
        telling is Ok,
        plain->Ok_0.watch_set.builder().scan_events is None,
        telling->Ok_0.watch_set.builder().scan_events is Some,
        plain->Ok_0.watch_set.follows_symlinks() == config.follow_symlinks,
        telling->Ok_0.watch_set.follows_symlinks() == config.follow_symlinks,
        plain->Ok_0.watch_set.builder().compare_contents == config.compare_contents,
        telling->Ok_0.watch_set.builder().compare_contents == config.compare_contents,
        plain->Ok_0.watch_set.builder().emitter.mask() == config.event_kinds,
        telling->Ok_0.watch_set.builder().emitter.mask() == config.event_kinds,
        plain->Ok_0.poll_loop@.delay == config.poll_interval,
        telling->Ok_0.poll_loop@.delay == config.poll_interval,
        plain->Ok_0.watch_set.watches().dom() =~= Set::<Seq<Seq<u8>>>::empty(),
        telling->Ok_0.watch_set.watches().dom() =~= Set::<Seq<Seq<u8>>>::empty(),
        plain->Ok_0.poll_loop@.running && plain->Ok_0.poll_loop@.fresh,
        telling->Ok_0.poll_loop@.running && telling->Ok_0.poll_loop@.fresh,
{
}

/// Every watch is listed once, in the form in which it was asked for, and with its mode.
pub proof fn law_listing_watches<F: Fn(&FilePath) -> bool>(
    watch_set: WatchSet<F>,
    watched: Vec<(FilePath, RecursiveMode)>,
    i: int,
)
    requires
        call_ensures(WatchSet::<F>::watched_paths, (&watch_set,), watched),
        0 <= i < watched@.len(),
    ensures
        watched@.len() == watch_set.entries().len(),
        watched@[i].0@ == watch_set.entries()[i].1.config().requested_root,
        watched@[i].1 is Recursive <==> watch_set.entries()[i].1.config().is_recursive,
{
    let listed = watch_set.entries().map_values(
        |e: (FilePath, WatchData<F>)| asked_for(e.1.config()),
    );
    assert(watched_view(watched@) == listed);
    assert(watched_view(watched@).len() == watched@.len());
    assert(watched_view(watched@)[i] == (watched@[i].0@, watched@[i].1));
    assert(listed[i] == asked_for(watch_set.entries()[i].1.config()));
}

/// A watched path is resolved exactly where it and a request meet as directories at different
/// paths, one of them filtered; so without filters nothing is.
pub proof fn law_resolving_watched_paths<F: Fn(&FilePath) -> bool>(
    watch_set: WatchSet<F>,
    path: WatchPath,
    is_dir: bool,
    filter: WatchFilter<F>,
    wanted: Vec<bool>,
    i: int,
)
    requires
        call_ensures(
            WatchSet::<F>::watches_to_resolve,
            (&watch_set, &path, is_dir, &filter),
            wanted,
        ),
        0 <= i < wanted@.len(),
    ensures
        wanted@.len() == watch_set.entries().len(),
        wanted@[i] <==> {
            &&& is_dir
            &&& watch_set.entries()[i].1.config().root_is_dir
            &&& components(path.absolute@) != components(watch_set.entries()[i].0@)
            &&& filter@ is Some || watch_set.entries()[i].1.config().watch_filter is Some
        },
{
    assert(wanted@[i] == {
        let (at, watch) = watch_set.entries()[i];
        &&& is_dir
        &&& watch.config().root_is_dir
        &&& !same_path(path.absolute@, at@)
        &&& !(filter.accepts_all() && watch.config().watch_filter is None)
    });
}

/// A granted request is planned as it was asked for, and overlaps no watch where one of the two has
/// a filter. A request on something that is no directory is always granted.
pub proof fn law_granting_requests<F: Fn(&FilePath) -> bool>(
    watch_set: WatchSet<F>,
    path: WatchPath,
    mode: RecursiveMode,
    filter: WatchFilter<F>,
    probe: Probe,
    resolved: Vec<Option<FilePath>>,
    granted: Result<WatchPlan<F>, Error>,
    i: int,
)
    requires
        resolved@.len() == watch_set.entries().len(),
        call_ensures(
            WatchSet::<F>::watch_filtered,
            (&watch_set, path, mode, filter, &probe, &resolved),
            granted,
        ),
        0 <= i < watch_set.entries().len(),
    ensures
        !probe.is_dir ==> granted is Ok,
        granted matches Ok(plan) ==> {
            &&& plan.spec_path() == path
            &&& plan.spec_mode() == mode
            &&& plan.spec_filter() == filter
        },
        ({
            let config = watch_set.entries()[i].1.config();
            let at = components(watch_set.entries()[i].0@);
            let new = components(path.absolute@);
            granted is Ok && probe.is_dir && config.root_is_dir && at != new && (filter@ is Some
                || config.watch_filter is Some) && !(probe.resolved is Some && resolved@[i] is Some)
                ==> !(config.is_recursive && at.is_prefix_of(new)) && !(mode is Recursive
                && new.is_prefix_of(at))
        }),
        ({
            let config = watch_set.entries()[i].1.config();
            granted is Ok && probe.is_dir && config.root_is_dir && components(path.absolute@)
                != components(watch_set.entries()[i].0@) && (filter@ is Some
                || config.watch_filter is Some) && probe.resolved is Some && resolved@[i] is Some
                ==> {
                let new = components(probe.resolved->0@);
                let at = components(resolved@[i]->0@);
                &&& !(config.is_recursive && at.is_prefix_of(new))
                &&& !(mode is Recursive && new.is_prefix_of(at))
            }
        }),
{
    let config = watch_set.entries()[i].1.config();
    if granted is Ok && probe.is_dir && config.root_is_dir && components(path.absolute@)
        != components(watch_set.entries()[i].0@) && (filter@ is Some || config.watch_filter
        is Some) {
        law_granted_requests_overlap_no_filtered_watch(
            path.absolute@,
            path.requested@,
            probe,
            mode is Recursive && probe.is_dir,
            filter,
            watch_set.entries(),
            resolved@,
            i,
        );
    }
}

/// What lies below a watched path is watched as it is, and requested as it is reported from there.
pub proof fn law_watching_children(parent: WatchPath, path: FilePath, child: WatchPath)
    requires
        components(parent.absolute@).len() > 0,
        under(path@, parent.absolute@),
        call_ensures(WatchPath::child, (&parent, path), child),
    ensures
        child.absolute@ == path@,
        components(child.requested@) == components(parent.requested@) + components(path@).skip(
            components(parent.absolute@).len() as int,
        ),
{
    law_reported_components(parent.absolute@, parent.requested@, path@);
}

/// Errors are of the kind that they are made for and name no path, until one is added behind the
/// others.
pub proof fn law_making_errors(
    message: &str,
    reason: std::io::Error,
    generic: Error,
    io: Error,
    not_found: Error,
    excluded: Error,
    overlap: Error,
)
    requires
        call_ensures(Error::generic, (message,), generic),
        call_ensures(Error::io, (reason,), io),
        call_ensures(Error::watch_not_found, (), not_found),
        call_ensures(Error::path_excluded, (), excluded),
        call_ensures(Error::watch_overlap, (), overlap),
    ensures
        generic.kind matches ErrorKind::Generic(text) && text@ == message@,
        io.kind == ErrorKind::Io(reason),
        not_found.kind == ErrorKind::WatchNotFound,
        excluded.kind == ErrorKind::PathExcluded,
        overlap.kind == ErrorKind::WatchOverlap,
        generic.paths@.len() == 0,
        io.paths@.len() == 0,
        not_found.paths@.len() == 0,
        excluded.paths@.len() == 0,
        overlap.paths@.len() == 0,
{
    assert(texts(generic.paths@).len() == generic.paths@.len());
    assert(texts(io.paths@).len() == io.paths@.len());
    assert(texts(not_found.paths@).len() == not_found.paths@.len());
    assert(texts(excluded.paths@).len() == excluded.paths@.len());
    assert(texts(overlap.paths@).len() == overlap.paths@.len());
}

/// A path that is added to an error or an event comes last; all else stays.
pub proof fn law_adding_paths(
    error: Error,
    event: Event,
    path: FilePath,
    error_after: Error,
    event_after: Event,
)
    requires
        call_ensures(Error::add_path, (error, path), error_after),
        call_ensures(Event::add_path, (event, path), event_after),
    ensures
        error_after.kind == error.kind,
        event_after.kind == event.kind,
        texts(error_after.paths@) == texts(error.paths@).push(path@),
        texts(event_after.paths@) == texts(event.paths@).push(path@),
{
}

/// A new builder has nothing to tell, and tells of first scans exactly if somebody listens.
pub proof fn law_new_builders(
    compare_contents: bool,
    has_scan_handler: bool,
    event_kinds: u32,
    now: u64,
    builder: DataBuilder,
)
    requires
        call_ensures(
            DataBuilder::new,
            (compare_contents, has_scan_handler, event_kinds, now),
            builder,
        ),
    ensures
        builder.emitter.mask() == event_kinds,
        builder.emitter.reports().len() == 0,
        builder.scan_events is Some <==> has_scan_handler,
        builder.compare_contents == compare_contents,
        builder.now == now,
{
}

/// A map gives what stands at the components of a path.
pub proof fn law_looking_up_paths<V>(map: PathMap<V>, path: FilePath, found: Option<&V>)
    requires
        map.wf(),
        call_ensures(PathMap::<V>::get, (&map, &path), found),
    ensures
        found is Some <==> map@.dom().contains(components(path@)),
        found matches Some(value) ==> *value == map@[components(path@)].1,
{
}

/// A new loop has no requests, and waits as long as it was told.
pub proof fn law_new_loops<R>(delay: Option<core::time::Duration>, poll_loop: PollLoop<R>)
    requires
        call_ensures(PollLoop::<R>::new, (delay,), poll_loop),
    ensures
        poll_loop@.delay == delay,
        poll_loop@.requests.len() == 0,
        poll_loop@.fresh,
        poll_loop@.running,
        !poll_loop@.stopping,
{
}

} // verus!
