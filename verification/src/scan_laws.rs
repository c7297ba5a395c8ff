//! Laws of scans: what is recorded, and what of directories that a filter rejects.

use vstd::prelude::*;

use crate::data::{
    absorbed, kind_between, lists, looked_at, removal_reports, scan_reports, vanished,
    watch_rescanned, DataBuilder, FileMeta, Known, PathData, Voice, WatchData,
};
use crate::data_laws::{
    law_order_of_removals_does_not_matter, law_recordings_say_what_was_found,
};
use crate::error::{texts, ErrorKind};
use crate::event::{EventKind, RemoveKind, Report};
use crate::filter::WatchFilter;
use crate::path::{components, FilePath};
use crate::paths::{may_keep_entry, reported_text, WalkEntry};
use crate::scan::{
    failures_of, known_forms, met_below, recorded_data, records_of, scan_told, Met,
    EXCLUDED_DIR_HASH,
};

verus! {

/// Everything that a scan records is dated with the time of the scan, and nothing is recorded that
/// was not met.
pub proof fn law_records_are_dated(met: Seq<Met>, compare_contents: bool, now: u64, i: int)
    requires
        0 <= i < records_of(met, compare_contents, now).len(),
    ensures
        records_of(met, compare_contents, now)[i].1.last_check == now,
        exists|j: int|
            0 <= j < met.len() && ((#[trigger] met[j]) matches Met::Entry(plan, _, _)
                && plan.path@ == records_of(met, compare_contents, now)[i].0),
    decreases met.len(),
{
    let rest = met.drop_last();
    let records = records_of(rest, compare_contents, now);
    if i < records.len() {
        law_records_are_dated(rest, compare_contents, now, i);
        let j = choose|j: int|
            0 <= j < rest.len() && ((#[trigger] rest[j]) matches Met::Entry(plan, _, _)
                && plan.path@ == records[i].0);
        assert(met[j] == rest[j]);
    } else {
        assert(met[met.len() - 1] == met.last());
    }
}

/// Every entry of which the file system says something is recorded.
pub proof fn law_entries_are_recorded(met: Seq<Met>, compare_contents: bool, now: u64, j: int)
    requires
        0 <= j < met.len(),
    ensures
        met[j] matches Met::Entry(plan, metadata, content_hash) ==> records_of(
            met,
            compare_contents,
            now,
        ).contains(
            (
                plan.path@,
                recorded_data(plan.excluded, metadata, content_hash, compare_contents, now),
            ),
        ),
    decreases met.len(),
{
    let rest = met.drop_last();
    let before = records_of(rest, compare_contents, now);
    let records = records_of(met, compare_contents, now);
    if met[j] is Entry {
        let record = (
            met[j]->Entry_0.path@,
            recorded_data(
                met[j]->Entry_0.excluded,
                met[j]->Entry_1,
                met[j]->Entry_2,
                compare_contents,
                now,
            ),
        );
        if j < rest.len() {
            law_entries_are_recorded(rest, compare_contents, now, j);
            assert(rest[j] == met[j]);
            let k = before.index_of(record);
            assert(records[k] == record);
        } else {
            assert(records.last() == record);
        }
    }
}

/// A rejected directory that stays rejected is silent, whatever the file system says of it from
/// one scan to the next.
pub proof fn law_rejected_directories_stay_silent(
    before: FileMeta,
    hash_before: Option<u64>,
    earlier: u64,
    after: FileMeta,
    hash_after: Option<u64>,
    now: u64,
    compare_contents: bool,
)
    ensures
        kind_between(
            Some(recorded_data(true, before, hash_before, compare_contents, earlier)),
            Some(recorded_data(true, after, hash_after, compare_contents, now)),
        ) is None,
{
}

/// Two walks met the same at a place, but for what the file system says of a directory that is
/// rejected.
pub open spec fn alike(a: Met, b: Met) -> bool {
    match (a, b) {
        (Met::Entry(plan_a, metadata_a, hash_a), Met::Entry(plan_b, metadata_b, hash_b)) => {
            &&& plan_a.path@ == plan_b.path@
            &&& plan_a.excluded == plan_b.excluded
            &&& !plan_a.excluded ==> metadata_a == metadata_b && hash_a == hash_b
        },
        (a, b) => a == b,
    }
}

/// Two walks met the same, but for what the file system says of directories that are rejected.
pub open spec fn all_alike(a: Seq<Met>, b: Seq<Met>) -> bool {
    &&& a.len() == b.len()
    &&& forall|i: int| #![trigger a[i]] #![trigger b[i]] 0 <= i < a.len() ==> alike(a[i], b[i])
}

/// What the file system says of rejected directories is neither recorded nor told.
pub proof fn law_rejected_directories_leave_no_trace(
    a: Seq<Met>,
    b: Seq<Met>,
    compare_contents: bool,
    now: u64,
)
    requires
        all_alike(a, b),
    ensures
        records_of(a, compare_contents, now) == records_of(b, compare_contents, now),
        failures_of(a) == failures_of(b),
    decreases a.len(),
{
    if a.len() > 0 {
        let last = a.len() - 1;
        assert(a[last] == a.last() && b[last] == b.last());
        assert(alike(a[last], b[last]));
        assert(all_alike(a.drop_last(), b.drop_last())) by {
            assert forall|i: int|
                #![trigger a.drop_last()[i]]
                #![trigger b.drop_last()[i]]
                0 <= i < last implies alike(a.drop_last()[i], b.drop_last()[i]) by {
                assert(alike(a[i], b[i]));
            }
        }
        law_rejected_directories_leave_no_trace(
            a.drop_last(),
            b.drop_last(),
            compare_contents,
            now,
        );
    }
}

/// Two lists of reports are the same up to the order of the removals, which come last.
pub open spec fn told_alike(a: Seq<Report>, b: Seq<Report>) -> bool {
    exists|n: int|
        {
            &&& 0 <= n <= a.len()
            &&& n <= b.len()
            &&& #[trigger] a.take(n) == b.take(n)
            &&& a.skip(n).to_multiset() == b.skip(n).to_multiset()
            &&& forall|i: int|
                n <= i < a.len() ==> ((#[trigger] a[i]) matches Report::Event(kind, _) && kind
                    == EventKind::Remove(RemoveKind::Any))
        }
}

/// Every report of disappearances is one of a removal.
proof fn lemma_removals_only(voice: Voice, known: Known, gone: Seq<Seq<Seq<u8>>>)
    ensures
        forall|i: int|
            0 <= i < removal_reports(voice, known, gone).len() ==> ((#[trigger] removal_reports(
                voice,
                known,
                gone,
            )[i]) matches Report::Event(kind, _) && kind == EventKind::Remove(RemoveKind::Any)),
    decreases gone.len(),
{
    if gone.len() > 0 {
        let before = removal_reports(voice, known, gone.drop_last());
        let all = removal_reports(voice, known, gone);
        lemma_removals_only(voice, known, gone.drop_last());
        assert forall|i: int| 0 <= i < all.len() implies ((#[trigger] all[i]) matches Report::Event(
            kind,
            _,
        ) && kind == EventKind::Remove(RemoveKind::Any)) by {
            if i < before.len() {
                assert(all[i] == before[i]);
            }
        }
    }
}

/// Rejected directories do not interfere: two scans of equal watches, at the same time, that met
/// the same but for what the file system says of rejected directories, leave the same known and
/// tell the same, up to the order of the removals.
pub proof fn law_rejected_directories_do_not_interfere<F>(
    watch_a: WatchData<F>,
    watch_b: WatchData<F>,
    builder_a: DataBuilder,
    builder_b: DataBuilder,
    met_a: Seq<Met>,
    met_b: Seq<Met>,
    watch_after_a: WatchData<F>,
    watch_after_b: WatchData<F>,
    builder_after_a: DataBuilder,
    builder_after_b: DataBuilder,
)
    requires
        watch_a.config() == watch_b.config(),
        watch_a.known() == watch_b.known(),
        builder_a.now == builder_b.now,
        builder_a.compare_contents == builder_b.compare_contents,
        builder_a.emitter.mask() == builder_b.emitter.mask(),
        all_alike(met_a, met_b),
        watch_rescanned(watch_a, builder_a, met_a, watch_after_a, builder_after_a),
        watch_rescanned(watch_b, builder_b, met_b, watch_after_b, builder_after_b),
    ensures
        watch_after_a.config() == watch_after_b.config(),
        watch_after_a.known() == watch_after_b.known(),
        exists|told_a: Seq<Report>, told_b: Seq<Report>|
            {
                &&& #[trigger] told_alike(told_a, told_b)
                &&& builder_after_a.emitter.reports() == builder_a.emitter.reports() + told_a
                &&& builder_after_b.emitter.reports() == builder_b.emitter.reports() + told_b
            },
{
    let mask = builder_a.emitter.mask();
    let now = builder_a.now;
    let voice = watch_a.voice(mask);
    let known = watch_a.known();
    let found = records_of(met_a, builder_a.compare_contents, now);
    law_rejected_directories_leave_no_trace(met_a, met_b, builder_a.compare_contents, now);
    let failures = failures_of(met_a);
    let reports_a = choose|reports: Seq<Report>|
        {
            &&& #[trigger] looked_at(watch_a, mask, found, now, watch_after_a, reports)
            &&& builder_after_a.emitter.reports() == builder_a.emitter.reports() + failures
                + reports
        };
    let reports_b = choose|reports: Seq<Report>|
        {
            &&& #[trigger] looked_at(watch_b, mask, found, now, watch_after_b, reports)
            &&& builder_after_b.emitter.reports() == builder_b.emitter.reports() + failures
                + reports
        };
    let seen = absorbed(known, found);
    let changes = scan_reports(voice, known, found);
    let gone_a = choose|gone: Seq<Seq<Seq<u8>>>| #[trigger]
        lists(gone, vanished(seen, now)) && reports_a == changes + removal_reports(
            voice,
            seen,
            gone,
        );
    let gone_b = choose|gone: Seq<Seq<Seq<u8>>>| #[trigger]
        lists(gone, vanished(seen, now)) && reports_b == changes + removal_reports(
            voice,
            seen,
            gone,
        );
    law_order_of_removals_does_not_matter(voice, seen, vanished(seen, now), gone_a, gone_b);
    lemma_removals_only(voice, seen, gone_a);
    let removals_a = removal_reports(voice, seen, gone_a);
    let removals_b = removal_reports(voice, seen, gone_b);
    let told_a = failures + reports_a;
    let told_b = failures + reports_b;
    let n = (failures.len() + changes.len()) as int;
    assert(told_a.take(n) =~= failures + changes);
    assert(told_b.take(n) =~= failures + changes);
    assert(told_a.skip(n) =~= removals_a);
    assert(told_b.skip(n) =~= removals_b);
    assert forall|i: int| n <= i < told_a.len() implies (
    (#[trigger] told_a[i]) matches Report::Event(kind, _) && kind == EventKind::Remove(
        RemoveKind::Any,
    )) by {
        assert(told_a[i] == removals_a[i - n]);
    }
    assert(told_alike(told_a, told_b));
    assert(builder_a.emitter.reports() + failures + reports_a =~= builder_a.emitter.reports()
        + told_a);
    assert(builder_b.emitter.reports() + failures + reports_b =~= builder_b.emitter.reports()
        + told_b);
}

/// An entry that is replaced by a rejected directory is reported as changed. That holds unless
/// the entry was recorded with the very hash that stands for rejected directories, and with a
/// write time that is not before the start of 1970.
pub proof fn law_replacement_by_a_rejected_directory_is_seen(
    old: PathData,
    metadata: FileMeta,
    content_hash: Option<u64>,
    compare_contents: bool,
    now: u64,
)
    requires
        !(old.hash == Some(EXCLUDED_DIR_HASH) && old.mtime >= 0),
    ensures
        kind_between(
            Some(old),
            Some(recorded_data(true, metadata, content_hash, compare_contents, now)),
        ) is Some,
{
}

/// A rejected directory that is replaced by something else, or accepted from now on, is reported as
/// changed. That holds unless what is recorded now has the very hash that stands for rejected
/// directories, and a write time that is not after the start of 1970.
pub proof fn law_replacement_of_a_rejected_directory_is_seen(
    new: PathData,
    metadata: FileMeta,
    content_hash: Option<u64>,
    compare_contents: bool,
    earlier: u64,
)
    requires
        !(new.hash == Some(EXCLUDED_DIR_HASH) && new.mtime <= 0),
    ensures
        kind_between(
            Some(recorded_data(true, metadata, content_hash, compare_contents, earlier)),
            Some(new),
        ) is Some,
{
}

/// Filters speak of directories only: an entry that does not lead to a directory is never
/// rejected, and without a filter nothing is.
pub proof fn law_files_are_never_rejected<F: Fn(&FilePath) -> bool>(
    filter: WatchFilter<F>,
    entry: WalkEntry,
)
    requires
        filter.accepts_all() || !entry.leads_to_dir(),
    ensures
        may_keep_entry(filter, entry, true),
        !may_keep_entry(filter, entry, false),
{
}

/// A directory that the filter never accepts is rejected, and so is a symlink to a directory whose
/// target the filter never accepts, whether or not the walk follows links.
pub proof fn law_rejected_targets_are_rejected<F: Fn(&FilePath) -> bool>(
    filter: WatchFilter<F>,
    entry: WalkEntry,
)
    requires
        !filter.accepts_all(),
        entry.leads_to_dir(),
        !filter.may_answer(entry.path@, true) || (entry.target() matches Some(target)
            && !filter.may_answer(target, true)),
    ensures
        !may_keep_entry(filter, entry, true),
{
}

/// Of a rejected directory the same is recorded always: no write time, and a hash that stands for
/// all of them. Of everything else what the file system says is recorded: the write time in
/// seconds, or 0 where it is not known, and the hash of contents where contents of files are
/// compared.
pub proof fn law_records_say_what_was_found(
    excluded: bool,
    metadata: FileMeta,
    content_hash: Option<u64>,
    compare_contents: bool,
    now: u64,
)
    requires
        metadata.modified matches Some(time) ==> time.countable(),
    ensures
        ({
            let data = recorded_data(excluded, metadata, content_hash, compare_contents, now);
            &&& data.last_check == now
            &&& excluded ==> data.mtime == 0 && data.hash == Some(u64::MAX)
            &&& !excluded && metadata.is_file && compare_contents ==> data.hash == content_hash
            &&& !excluded && !(metadata.is_file && compare_contents) ==> data.hash is None
            &&& !excluded && metadata.modified is None ==> data.mtime == 0
            &&& !excluded ==> (metadata.modified matches Some(time) ==> data.mtime
                == time.seconds())
        }),
{
    law_recordings_say_what_was_found(metadata, content_hash, compare_contents, now);
}

/// The records are those of the entries at these places, in order.
pub open spec fn records_from(
    met: Seq<Met>,
    compare_contents: bool,
    now: u64,
    at: Seq<int>,
    records: Seq<(Seq<u8>, PathData)>,
) -> bool {
    &&& records.len() == at.len()
    &&& forall|j: int, k: int| 0 <= j < k < at.len() ==> #[trigger] at[j] < #[trigger] at[k]
    &&& forall|j: int|
        0 <= j < at.len() ==> {
            &&& 0 <= #[trigger] at[j] < met.len()
            &&& met[at[j]] matches Met::Entry(plan, metadata, content_hash)
            &&& records[j].0 == plan.path@
            &&& records[j].1 == recorded_data(
                plan.excluded,
                metadata,
                content_hash,
                compare_contents,
                now,
            )
        }
    &&& forall|i: int| 0 <= i < met.len() && met[i] is Entry ==> #[trigger] at.contains(i)
}

/// A scan records every entry of which the file system says something, once, in the order in which
/// they were met, and nothing else.
pub proof fn law_scan_records_the_entries(met: Seq<Met>, compare_contents: bool, now: u64) -> (at:
    Seq<int>)
    ensures
        records_from(met, compare_contents, now, at, records_of(met, compare_contents, now)),
    decreases met.len(),
{
    if met.len() == 0 {
        Seq::<int>::empty()
    } else {
        let rest = met.drop_last();
        let last = met.len() - 1;
        let at = law_scan_records_the_entries(rest, compare_contents, now);
        let before = records_of(rest, compare_contents, now);
        let all = records_of(met, compare_contents, now);
        assert(met.last() == met[last]);
        let longer = if met[last] is Entry {
            at.push(last)
        } else {
            at
        };
        assert forall|j: int| 0 <= j < longer.len() implies {
            &&& 0 <= #[trigger] longer[j] < met.len()
            &&& met[longer[j]] matches Met::Entry(plan, metadata, content_hash)
            &&& all[j].0 == plan.path@
            &&& all[j].1 == recorded_data(
                plan.excluded,
                metadata,
                content_hash,
                compare_contents,
                now,
            )
        } by {
            if j < at.len() {
                assert(longer[j] == at[j]);
                assert(rest[at[j]] == met[at[j]]);
                assert(all[j] == before[j]);
            }
        }
        assert forall|i: int| 0 <= i < met.len() && met[i] is Entry implies #[trigger]
            longer.contains(i) by {
            if i < last {
                assert(rest[i] == met[i]);
                assert(at.contains(i));
                assert(longer[at.index_of(i)] == i);
            } else {
                assert(longer[at.len() as int] == last);
            }
        }
        assert forall|j: int, k: int| 0 <= j < k < longer.len() implies #[trigger] longer[j]
            < #[trigger] longer[k] by {
            assert(at[j] < rest.len());
        }
        longer
    }
}

/// How a failure that was met is told: one of the file system with the path where it was met, if
/// that is known; another one by its message alone; an entry of which the file system says nothing
/// with its path.
pub open spec fn tells_of(report: Report, met: Met) -> bool {
    match met {
        Met::Failure(err) => match err.io {
            Some(io) => {
                &&& report matches Report::Failure(kind, paths)
                &&& kind == ErrorKind::Io(io)
                &&& err.path matches Some(path) ==> paths == seq![path@]
                &&& err.path is None ==> paths.len() == 0
            },
            None => {
                &&& report matches Report::Failure(kind, paths)
                &&& kind == ErrorKind::Generic(err.message)
                &&& paths.len() == 0
            },
        },
        Met::Unreadable(plan, io) => {
            &&& report matches Report::Failure(kind, paths)
            &&& kind == ErrorKind::Io(io)
            &&& paths == seq![plan.path@]
        },
        Met::Entry(..) => false,
    }
}

/// The reports tell of the failures at these places, in order.
pub open spec fn failures_from(met: Seq<Met>, at: Seq<int>, reports: Seq<Report>) -> bool {
    &&& reports.len() == at.len()
    &&& forall|j: int, k: int| 0 <= j < k < at.len() ==> #[trigger] at[j] < #[trigger] at[k]
    &&& forall|j: int|
        0 <= j < at.len() ==> 0 <= #[trigger] at[j] < met.len() && tells_of(
            reports[j],
            met[at[j]],
        )
    &&& forall|i: int|
        0 <= i < met.len() && !(met[i] is Entry) ==> #[trigger] at.contains(i)
}

/// A scan tells of every failure that was met, once, in order, and of nothing else.
pub proof fn law_scan_tells_of_the_failures(met: Seq<Met>) -> (at: Seq<int>)
    ensures
        failures_from(met, at, failures_of(met)),
    decreases met.len(),
{
    if met.len() == 0 {
        Seq::<int>::empty()
    } else {
        let rest = met.drop_last();
        let last = met.len() - 1;
        let at = law_scan_tells_of_the_failures(rest);
        let before = failures_of(rest);
        let all = failures_of(met);
        assert(met.last() == met[last]);
        let longer = if met[last] is Entry {
            at
        } else {
            at.push(last)
        };
        assert forall|j: int| 0 <= j < longer.len() implies 0 <= #[trigger] longer[j] < met.len()
            && tells_of(all[j], met[longer[j]]) by {
            if j < at.len() {
                assert(longer[j] == at[j]);
                assert(rest[at[j]] == met[at[j]]);
                assert(all[j] == before[j]);
            }
        }
        assert forall|i: int| 0 <= i < met.len() && !(met[i] is Entry) implies #[trigger]
            longer.contains(i) by {
            if i < last {
                assert(rest[i] == met[i]);
                assert(at.contains(i));
                assert(longer[at.index_of(i)] == i);
            } else {
                assert(longer[at.len() as int] == last);
            }
        }
        assert forall|j: int, k: int| 0 <= j < k < longer.len() implies #[trigger] longer[j]
            < #[trigger] longer[k] by {
            assert(at[j] < rest.len());
        }
        longer
    }
}

/// A scan leaves what was to be told, and tells of its failures behind it. On a first scan whoever
/// wants to be told learns of every recorded path, in order and in the form that the user knows;
/// otherwise nobody does.
pub proof fn law_first_scans_are_told_of(
    builder: DataBuilder,
    root: Seq<u8>,
    requested_root: Seq<u8>,
    is_initial: bool,
    met: Seq<Met>,
    builder_after: DataBuilder,
)
    requires
        scan_told(builder, root, requested_root, is_initial, met, builder_after),
    ensures
        builder_after.now == builder.now,
        builder_after.compare_contents == builder.compare_contents,
        builder_after.emitter.mask() == builder.emitter.mask(),
        builder_after.emitter.reports() == builder.emitter.reports() + failures_of(met),
        !is_initial ==> builder_after.scan_events == builder.scan_events,
        builder.scan_events is Some <==> builder_after.scan_events is Some,
        is_initial && builder.scan_events is Some ==> {
            let records = records_of(met, builder.compare_contents, builder.now);
            let before = builder.scan_events->0@;
            let after = builder_after.scan_events->0@;
            &&& after.len() == before.len() + records.len()
            &&& forall|i: int| 0 <= i < before.len() ==> #[trigger] after[i]@ == before[i]@
            &&& forall|i: int|
                0 <= i < records.len() ==> #[trigger] after[before.len() + i]@ == reported_text(
                    root,
                    requested_root,
                    records[i].0,
                )
        },
{
    if is_initial && builder.scan_events is Some {
        let records = records_of(met, builder.compare_contents, builder.now);
        let before = builder.scan_events->0@;
        let after = builder_after.scan_events->0@;
        let forms = known_forms(root, requested_root, records);
        assert(texts(after) == texts(before) + forms);
        assert(texts(after).len() == after.len());
        assert forall|i: int| 0 <= i < before.len() implies #[trigger] after[i]@ == before[i]@ by {
            assert(texts(after)[i] == texts(before)[i]);
        }
        assert forall|i: int| 0 <= i < records.len() implies #[trigger] after[before.len() + i]@
            == reported_text(root, requested_root, records[i].0) by {
            assert(texts(after)[before.len() + i] == forms[i]);
        }
    }
}

/// Whatever a walk from a root meets at or below it can be recorded, if the write times can be
/// counted.
pub proof fn law_walks_can_be_recorded(met: Seq<Met>, root: Seq<u8>)
    requires
        forall|i: int|
            0 <= i < met.len() ==> ((#[trigger] met[i]) matches Met::Entry(plan, metadata, _) ==> {
                &&& components(root).is_prefix_of(components(plan.path@))
                &&& metadata.modified matches Some(time) ==> time.countable()
            }),
    ensures
        met_below(met, root),
{
}

} // verus!
