//! Laws of the polling watcher: what its watches have in common, whatever is asked of it.

use vstd::prelude::*;

use crate::data::{
    rescanned, watch_built, watch_rescanned, DataBuilder, InitialScan, Voice, WatchConfig,
    WatchData,
};
use crate::error::Error;
use crate::event::Report;
use crate::filter::{RecursiveMode, WatchFilter};
use crate::path::{components, same_path, FilePath};
use crate::path_map::{entered, lemma_keyed_at, lemma_keyed_place};
use crate::paths::{barriers_decide, request_claim, text_of, Claim, Probe, WatchPath};
use crate::paths_laws::law_conflicts_by_components;
use crate::poll::{
    asked_for, claim_of, claims_at, looked_at_once, set_rescanned, watched_view, watches_after,
    Config, Cycle, PollWatcher, WatchSet, Watches,
};
use crate::scan::{records_of, Met};

verus! {

/// Every watch stands at the key of its path.
pub open spec fn in_place<F>(watches: Watches<F>) -> bool {
    forall|key: Seq<Seq<u8>>| #[trigger]
        watches.dom().contains(key) ==> components(watches[key].0) == key
}

/// What the watch with this key lays claim to, where `resolve` says what paths resolve to.
pub open spec fn claim_with<F>(
    watches: Watches<F>,
    resolve: spec_fn(Seq<Seq<u8>>) -> Option<Seq<u8>>,
    key: Seq<Seq<u8>>,
) -> Claim {
    claim_of(watches[key].0, watches[key].1.config(), resolve(key))
}

/// No two watches conflict.
pub open spec fn at_peace<F>(
    watches: Watches<F>,
    resolve: spec_fn(Seq<Seq<u8>>) -> Option<Seq<u8>>,
) -> bool {
    forall|a: Seq<Seq<u8>>, b: Seq<Seq<u8>>|
        #![trigger watches.dom().contains(a), watches.dom().contains(b)]
        watches.dom().contains(a) && watches.dom().contains(b) && a != b ==> !claim_with(
            watches,
            resolve,
            a,
        ).conflicts(claim_with(watches, resolve, b))
}

/// Every watch stands at the key of its path.
pub proof fn law_watches_are_in_place<F: Fn(&FilePath) -> bool>(watch_set: WatchSet<F>)
    requires
        watch_set.wf(),
    ensures
        in_place(watch_set.watches()),
{
    watch_set.lemma_entries();
    assert forall|key: Seq<Seq<u8>>| #[trigger] watch_set.watches().dom().contains(
        key,
    ) implies components(watch_set.watches()[key].0) == key by {
        let i = lemma_keyed_place(watch_set.entries(), key);
        lemma_keyed_at(watch_set.entries(), i);
    }
}

/// The watched paths that a watcher lists are those of its watches: each watch is listed once, as
/// the user asked for it, and nothing else is listed.
pub proof fn law_watched_paths_list_the_watches<F: Fn(&FilePath) -> bool>(
    watch_set: WatchSet<F>,
)
    requires
        watch_set.wf(),
    ensures
        ({
            let listed = watch_set.entries().map_values(
                |e: (FilePath, WatchData<F>)| asked_for(e.1.config()),
            );
            let watches = watch_set.watches();
            &&& listed.len() == watch_set.entries().len()
            &&& forall|i: int|
                0 <= i < listed.len() ==> {
                    let key = components((#[trigger] watch_set.entries()[i]).0@);
                    &&& watches.dom().contains(key)
                    &&& listed[i] == asked_for(watches[key].1.config())
                }
            &&& forall|key: Seq<Seq<u8>>| #[trigger]
                watches.dom().contains(key) ==> listed.contains(asked_for(watches[key].1.config()))
        }),
{
    let listed = watch_set.entries().map_values(
        |e: (FilePath, WatchData<F>)| asked_for(e.1.config()),
    );
    let watches = watch_set.watches();
    watch_set.lemma_entries();
    assert forall|i: int| 0 <= i < listed.len() implies {
        let key = components((#[trigger] watch_set.entries()[i]).0@);
        &&& watches.dom().contains(key)
        &&& listed[i] == asked_for(watches[key].1.config())
    } by {
        lemma_keyed_at(watch_set.entries(), i);
    }
    assert forall|key: Seq<Seq<u8>>| #[trigger] watches.dom().contains(
        key,
    ) implies listed.contains(asked_for(watches[key].1.config())) by {
        let i = lemma_keyed_place(watch_set.entries(), key);
        lemma_keyed_at(watch_set.entries(), i);
        assert(listed[i] == asked_for(watches[key].1.config()));
    }
}

/// Two claims at the same places conflict with the same claims.
proof fn lemma_same_place(a: Claim, b: Claim, other: Claim)
    requires
        same_path(a.path, b.path),
        a.resolved == b.resolved,
        a.is_dir == b.is_dir,
        a.is_recursive == b.is_recursive,
        a.filtered == b.filtered,
    ensures
        a.conflicts(other) == b.conflicts(other),
        other.conflicts(a) == other.conflicts(b),
{
}

/// Watches of which one has a filter never overlap: a request that passes the barriers leaves the
/// watches without a conflict if there was none before, whatever comes of its first scan.
/// `resolve` says what paths resolve to; the barriers were told as much of it as they asked for.
pub proof fn law_filtered_watches_stay_disjoint<F: Fn(&FilePath) -> bool>(
    before: WatchSet<F>,
    after: WatchSet<F>,
    absolute: Seq<u8>,
    requested: Seq<u8>,
    probe: Probe,
    recursive_mode: RecursiveMode,
    watch_filter: WatchFilter<F>,
    resolved: Seq<Option<FilePath>>,
    resolve: spec_fn(Seq<Seq<u8>>) -> Option<Seq<u8>>,
    built: Option<WatchData<F>>,
)
    requires
        before.wf(),
        at_peace(before.watches(), resolve),
        resolved.len() == before.entries().len(),
        forall|i: int|
            0 <= i < resolved.len() && request_claim(
                absolute,
                probe,
                recursive_mode is Recursive && probe.is_dir,
                watch_filter,
            ).concerns(claims_at(before.entries(), resolved)[i]) ==> {
                &&& text_of(#[trigger] resolved[i]) == resolve(
                    components(before.entries()[i].0@),
                )
                &&& text_of(probe.resolved) == resolve(components(absolute))
            },
        barriers_decide(
            absolute,
            requested,
            probe,
            recursive_mode is Recursive && probe.is_dir,
            watch_filter,
            claims_at(before.entries(), resolved),
            Ok::<(), Error>(()),
        ),
        built matches Some(watch) ==> {
            &&& watch.config().root_is_dir == probe.is_dir
            &&& watch.config().is_recursive == (recursive_mode is Recursive)
            &&& watch.config().watch_filter == watch_filter@
        },
        after.watches() == watches_after(before.watches(), absolute, watch_filter@, built),
    ensures
        at_peace(after.watches(), resolve),
{
    let old_watches = before.watches();
    let new_watches = after.watches();
    let key = components(absolute);
    law_watches_are_in_place(before);
    before.lemma_entries();
    if built is Some {
        let new = claim_with(new_watches, resolve, key);
        let request = request_claim(
            absolute,
            probe,
            recursive_mode is Recursive && probe.is_dir,
            watch_filter,
        );
        let claims = claims_at(before.entries(), resolved);
        assert(components(new.path) == key);
        assert forall|other: Seq<Seq<u8>>| #[trigger] old_watches.dom().contains(other) && other
            != key implies !new.conflicts(claim_with(old_watches, resolve, other)) by {
            let i = lemma_keyed_place(before.entries(), other);
            lemma_keyed_at(before.entries(), i);
            let claim = claim_with(old_watches, resolve, other);
            assert(claims[i] == (Claim { resolved: text_of(resolved[i]), ..claim }));
            if new.conflicts(claim) {
                assert(request.concerns(claims[i]));
                assert(text_of(resolved[i]) == resolve(components(before.entries()[i].0@)));
                assert(claims[i] == claim);
                lemma_same_place(request, new, claim);
                assert(request.conflicts(claims[i]));
            }
        }
        assert forall|a: Seq<Seq<u8>>, b: Seq<Seq<u8>>|
            #![trigger new_watches.dom().contains(a), new_watches.dom().contains(b)]
            new_watches.dom().contains(a) && new_watches.dom().contains(b) && a
                != b implies !claim_with(new_watches, resolve, a).conflicts(
            claim_with(new_watches, resolve, b),
        ) by {
            if a == key {
                assert(old_watches.dom().contains(b));
                assert(claim_with(new_watches, resolve, b) == claim_with(old_watches, resolve, b));
            } else if b == key {
                assert(old_watches.dom().contains(a));
                assert(claim_with(new_watches, resolve, a) == claim_with(old_watches, resolve, a));
            } else {
                assert(old_watches.dom().contains(a) && old_watches.dom().contains(b));
            }
        }
    } else {
        law_giving_up_a_watch_keeps_the_others_disjoint(old_watches, resolve, key);
    }
}

/// Giving up a watch makes no conflict among the others.
pub proof fn law_giving_up_a_watch_keeps_the_others_disjoint<F>(
    watches: Watches<F>,
    resolve: spec_fn(Seq<Seq<u8>>) -> Option<Seq<u8>>,
    key: Seq<Seq<u8>>,
)
    requires
        at_peace(watches, resolve),
    ensures
        at_peace(watches.remove(key), resolve),
{
    let rest = watches.remove(key);
    assert forall|a: Seq<Seq<u8>>, b: Seq<Seq<u8>>|
        #![trigger rest.dom().contains(a), rest.dom().contains(b)]
        rest.dom().contains(a) && rest.dom().contains(b) && a != b implies !claim_with(
        rest,
        resolve,
        a,
    ).conflicts(claim_with(rest, resolve, b)) by {
        assert(watches.dom().contains(a) && watches.dom().contains(b));
    }
}

/// A scan makes no conflict: it changes what is known, and nothing that a watch lays claim to.
pub proof fn law_scans_keep_watches_disjoint<F>(
    watches: Watches<F>,
    resolve: spec_fn(Seq<Seq<u8>>) -> Option<Seq<u8>>,
    path: Seq<u8>,
    watch: WatchData<F>,
)
    requires
        at_peace(watches, resolve),
        watches.dom().contains(components(path)),
        watch.config() == watches[components(path)].1.config(),
    ensures
        at_peace(entered(watches, path, watch), resolve),
{
    let after = entered(watches, path, watch);
    assert forall|a: Seq<Seq<u8>>, b: Seq<Seq<u8>>|
        #![trigger after.dom().contains(a), after.dom().contains(b)]
        after.dom().contains(a) && after.dom().contains(b) && a != b implies !claim_with(
        after,
        resolve,
        a,
    ).conflicts(claim_with(after, resolve, b)) by {
        assert(watches.dom().contains(a) && watches.dom().contains(b));
    }
}

/// In a cycle every watch is looked at exactly once, at the time of the cycle: when it can be
/// finished, which is before whoever waits for it is told, one scan at that time leads from each
/// watch as it was to the same watch as it is.
pub proof fn law_cycle_looks_at_every_watch_once<F: Fn(&FilePath) -> bool, R>(
    cycle: Cycle<F, R>,
    watch_set: WatchSet<F>,
)
    requires
        cycle.is_under_way(watch_set),
        cycle.done() == watch_set.entries().len(),
    ensures
        watch_set.entries().len() == cycle.begun().len(),
        watch_set.builder().now == cycle.now(),
        forall|i: int|
            0 <= i < cycle.begun().len() ==> {
                &&& (#[trigger] watch_set.entries()[i]).0 == cycle.begun()[i].0
                &&& watch_set.entries()[i].1.config() == cycle.begun()[i].1.config()
                &&& looked_at_once(
                    cycle.begun()[i],
                    cycle.mask(),
                    cycle.compares_contents(),
                    cycle.now(),
                    watch_set.entries()[i],
                )
            },
{
    assert forall|i: int| 0 <= i < cycle.begun().len() implies {
        &&& (#[trigger] watch_set.entries()[i]).0 == cycle.begun()[i].0
        &&& watch_set.entries()[i].1.config() == cycle.begun()[i].1.config()
        &&& looked_at_once(
            cycle.begun()[i],
            cycle.mask(),
            cycle.compares_contents(),
            cycle.now(),
            watch_set.entries()[i],
        )
    } by {
        assert(cycle.is_at(watch_set, i));
    }
}

/// A cycle is under way as long as only what there is to tell is handed over: a watch that was not
/// looked at yet is as it was when the cycle was begun.
pub proof fn law_watches_wait_for_their_turn<F: Fn(&FilePath) -> bool, R>(
    cycle: Cycle<F, R>,
    before: WatchSet<F>,
    after: WatchSet<F>,
)
    requires
        cycle.is_under_way(before),
        after.entries() == before.entries(),
        after.builder() == (DataBuilder { emitter: after.builder().emitter, ..before.builder() }),
        after.builder().emitter.mask() == before.builder().emitter.mask(),
    ensures
        cycle.is_under_way(after),
        forall|i: int|
            cycle.done() <= i < cycle.begun().len() ==> #[trigger] after.entries()[i]
                == cycle.begun()[i],
{
    assert forall|i: int| 0 <= i < after.entries().len() implies #[trigger] cycle.is_at(
        after,
        i,
    ) by {
        assert(cycle.is_at(before, i));
    }
    assert forall|i: int|
        cycle.done() <= i < cycle.begun().len() implies #[trigger] after.entries()[i]
        == cycle.begun()[i] by {
        assert(cycle.is_at(after, i));
    }
}

/// Watching a path again replaces its watch, mode and filter and all; the other watches stay as
/// they were.
pub proof fn law_rewatching_replaces<F>(
    watches: Watches<F>,
    path: Seq<u8>,
    watch_filter: Option<F>,
    watch: WatchData<F>,
)
    ensures
        ({
            let after = watches_after(watches, path, watch_filter, Some(watch));
            &&& after.dom() == watches.dom().insert(components(path))
            &&& after[components(path)].1 == watch
            &&& after.remove(components(path)) == watches.remove(components(path))
        }),
{
    let after = watches_after(watches, path, watch_filter, Some(watch));
    assert(after.dom() =~= watches.dom().insert(components(path)));
    assert(after.remove(components(path)) =~= watches.remove(components(path)));
}

/// A path that could not be looked at is not newly watched; a watch that stands there stays exactly
/// if neither it nor the request has a filter. The other watches stay as they were.
pub proof fn law_failed_rewatch_keeps_no_filter<F>(
    watches: Watches<F>,
    path: Seq<u8>,
    watch_filter: Option<F>,
)
    ensures
        ({
            let key = components(path);
            let after = watches_after(watches, path, watch_filter, None);
            &&& after.dom().contains(key) <==> {
                &&& watches.dom().contains(key)
                &&& watches[key].1.config().watch_filter is None
                &&& watch_filter is None
            }
            &&& after.dom().contains(key) ==> after[key] == watches[key]
            &&& after.remove(key) == watches.remove(key)
        }),
{
    let key = components(path);
    let after = watches_after(watches, path, watch_filter, None);
    assert(after.remove(key) =~= watches.remove(key));
}

/// What a registered watch lays claim to is what it is: the path at which it stands, whether that
/// is a directory, its mode, and whether it has a filter.
pub proof fn law_registered_watches_claim_what_they_are<F>(
    entries: Seq<(FilePath, WatchData<F>)>,
    resolved: Seq<Option<FilePath>>,
    i: int,
)
    requires
        0 <= i < entries.len(),
    ensures
        claims_at(entries, resolved).len() == entries.len(),
        claims_at(entries, resolved)[i].path == entries[i].0@,
        claims_at(entries, resolved)[i].is_dir == entries[i].1.config().root_is_dir,
        claims_at(entries, resolved)[i].is_recursive == entries[i].1.config().is_recursive,
        claims_at(entries, resolved)[i].filtered <==> entries[i].1.config().watch_filter is Some,
        resolved[i] is Some ==> claims_at(entries, resolved)[i].resolved == Some(resolved[i]->0@),
        resolved[i] is None ==> claims_at(entries, resolved)[i].resolved is None,
{
}

/// A request on a directory that passes the barriers stands in nobody's way: no watch on another
/// directory of which one has the other at or below it, where one of the two has a filter.
pub proof fn law_granted_requests_overlap_no_filtered_watch<F: Fn(&FilePath) -> bool>(
    absolute: Seq<u8>,
    requested: Seq<u8>,
    probe: Probe,
    is_recursive: bool,
    watch_filter: WatchFilter<F>,
    entries: Seq<(FilePath, WatchData<F>)>,
    resolved: Seq<Option<FilePath>>,
    i: int,
)
    requires
        barriers_decide(
            absolute,
            requested,
            probe,
            is_recursive,
            watch_filter,
            claims_at(entries, resolved),
            Ok::<(), Error>(()),
        ),
        0 <= i < entries.len(),
        probe.is_dir,
        entries[i].1.config().root_is_dir,
        watch_filter@ is Some || entries[i].1.config().watch_filter is Some,
        components(absolute) != components(entries[i].0@),
    ensures
        probe.resolved is Some && resolved[i] is Some ==> {
            let new = components(probe.resolved->0@);
            let existing = components(resolved[i]->0@);
            &&& entries[i].1.config().is_recursive ==> !existing.is_prefix_of(new)
            &&& is_recursive ==> !new.is_prefix_of(existing)
        },
        !(probe.resolved is Some && resolved[i] is Some) ==> {
            let new = components(absolute);
            let existing = components(entries[i].0@);
            &&& entries[i].1.config().is_recursive ==> !existing.is_prefix_of(new)
            &&& is_recursive ==> !new.is_prefix_of(existing)
        },
{
    let claims = claims_at(entries, resolved);
    let request = request_claim(absolute, probe, is_recursive, watch_filter);
    law_conflicts_by_components(request, claims[i]);
    assert(!request.conflicts(claims[i]));
}

/// A request that passed the barriers, on a path that could be looked at, leaves a watch there with
/// everything that was asked for: the path and its requested form, the mode, the filter, and
/// whether symlinks are gone through. It stands under the text under which the path was first
/// watched. Every other watch stays as it was.
pub proof fn law_registered_watch_is_the_one_asked_for<F>(
    builder: DataBuilder,
    root: WatchPath,
    is_recursive: bool,
    follow_symlinks: bool,
    watch_filter: Option<F>,
    first: InitialScan,
    builder_after: DataBuilder,
    built: Option<WatchData<F>>,
    watches: Watches<F>,
    key: Seq<Seq<u8>>,
)
    requires
        watch_built(
            builder,
            root,
            is_recursive,
            follow_symlinks,
            watch_filter,
            Ok::<InitialScan, std::io::Error>(first),
            builder_after,
            built,
        ),
    ensures
        ({
            let after = watches_after(watches, root.absolute@, watch_filter, built);
            let own = components(root.absolute@);
            let config = after[own].1.config();
            &&& after.dom().contains(own)
            &&& config.root == root.absolute@
            &&& config.requested_root == root.requested@
            &&& config.root_is_dir == first.root_is_dir
            &&& config.is_recursive == is_recursive
            &&& config.follow_symlinks == follow_symlinks
            &&& config.watch_filter == watch_filter
            &&& watches.dom().contains(own) ==> after[own].0 == watches[own].0
            &&& !watches.dom().contains(own) ==> after[own].0 == root.absolute@
            &&& key != own ==> (after.dom().contains(key) <==> watches.dom().contains(key))
            &&& key != own && watches.dom().contains(key) ==> after[key] == watches[key]
        }),
{
}

/// A watch is listed with the path in the form in which it was asked for, and with its mode.
pub proof fn law_watches_are_listed_as_asked_for<F>(
    config: WatchConfig<F>,
    watched: Seq<(FilePath, RecursiveMode)>,
    i: int,
)
    requires
        0 <= i < watched.len(),
    ensures
        asked_for(config).0 == config.requested_root,
        asked_for(config).1 is Recursive <==> config.is_recursive,
        asked_for(config).1 is NonRecursive <==> !config.is_recursive,
        watched_view(watched).len() == watched.len(),
        watched_view(watched)[i] == (watched[i].0@, watched[i].1),
{
}

/// A new watcher watches nothing, has nothing to tell, and is set up as its configuration says.
pub proof fn law_new_watchers_watch_nothing<F: Fn(&FilePath) -> bool, R>(
    watcher: PollWatcher<F, R>,
    config: Config,
    has_scan_handler: bool,
    now: u64,
    key: Seq<Seq<u8>>,
)
    requires
        watcher.starts(config, has_scan_handler, now),
    ensures
        watcher.watch_set.wf(),
        !watcher.watch_set.watches().dom().contains(key),
        watcher.watch_set.follows_symlinks() == config.follow_symlinks,
        watcher.watch_set.builder().emitter.mask() == config.event_kinds,
        watcher.watch_set.builder().emitter.reports().len() == 0,
        watcher.watch_set.builder().compare_contents == config.compare_contents,
        watcher.watch_set.builder().now == now,
        watcher.watch_set.builder().scan_events is Some <==> has_scan_handler,
        watcher.watch_set.builder().scan_events matches Some(paths) ==> paths@.len() == 0,
        watcher.poll_loop@.requests.len() == 0,
        watcher.poll_loop@.delay == config.poll_interval,
        watcher.poll_loop@.fresh,
        !watcher.poll_loop@.stopping,
        watcher.poll_loop@.running,
{
}

/// A scan of one watch leaves all others, and the places of all, as they were, and keeps what was
/// asked for with it.
pub proof fn law_scan_of_one_watch<F: Fn(&FilePath) -> bool>(
    before: WatchSet<F>,
    i: int,
    met: Seq<Met>,
    watch: WatchData<F>,
    after: WatchSet<F>,
    j: int,
)
    requires
        0 <= i < before.entries().len(),
        0 <= j < before.entries().len(),
        set_rescanned(before, i, met, watch, after),
    ensures
        after.entries().len() == before.entries().len(),
        after.entries()[j].0 == before.entries()[j].0,
        j != i ==> after.entries()[j] == before.entries()[j],
        after.entries()[i].1 == watch,
        watch.config() == before.entries()[i].1.config(),
        watch_rescanned(before.entries()[i].1, before.builder(), met, watch, after.builder()),
{
}

/// A watch that was looked at once keeps its path and what was asked for with it, and knows and
/// tells what one scan at that time makes of what it knew before.
pub proof fn law_look_is_one_scan<F>(
    before: (FilePath, WatchData<F>),
    mask: u32,
    compare_contents: bool,
    now: u64,
    after: (FilePath, WatchData<F>),
)
    requires
        looked_at_once(before, mask, compare_contents, now, after),
    ensures
        after.0 == before.0,
        after.1.config() == before.1.config(),
        exists|met: Seq<Met>, reports: Seq<Report>| #[trigger]
            rescanned(
                Voice {
                    root: before.1.config().root,
                    requested_root: before.1.config().requested_root,
                    mask,
                },
                before.1.known(),
                records_of(met, compare_contents, now),
                now,
                after.1.known(),
                reports,
            ),
{
}

/// A cycle is under way exactly as long as the watches before its place were looked at once each,
/// at its time, and the others were not touched.
pub proof fn law_cycle_goes_from_watch_to_watch<F: Fn(&FilePath) -> bool, R>(
    cycle: Cycle<F, R>,
    watch_set: WatchSet<F>,
    i: int,
)
    requires
        cycle.is_under_way(watch_set),
        0 <= i < watch_set.entries().len(),
    ensures
        watch_set.builder().now == cycle.now(),
        watch_set.entries().len() == cycle.begun().len(),
        i < cycle.done() ==> looked_at_once(
            cycle.begun()[i],
            cycle.mask(),
            cycle.compares_contents(),
            cycle.now(),
            watch_set.entries()[i],
        ),
        i >= cycle.done() ==> watch_set.entries()[i] == cycle.begun()[i],
{
    assert(cycle.is_at(watch_set, i));
}

} // verus!
