//! Laws of the operations that change something: what they make of what they are given, for every
//! call.

use vstd::prelude::*;

use crate::data::{
    found_view, rescanned, DataBuilder, InitialScan, PathData, Voice, WatchData,
};
use crate::data_laws::{
    found_once, in_time, law_disappearances_are_reported, law_findings_are_told_by_what_changed,
    law_scan_leaves_what_was_found, law_scans_keep_the_watch, law_watch_is_the_one_asked_for,
    was_found,
};
use crate::error::{texts, Error, ErrorKind};
use crate::event::{
    mask_admits, reports_of, CreateKind, DataChange, Event, EventEmitter, EventKind, MetadataKind,
    ModifyKind, RemoveKind, Report,
};
use crate::event_laws::law_mask_bits;
use crate::filter::WatchFilter;
use crate::hash::{xxh3_hash, ContentHasher, ReadEvent, ReadStep};
use crate::path::{components, joined, FilePath};
use crate::path_map::PathMap;
use crate::paths::{reported_text, WatchPath};
use crate::poll::{looked_at_once, Cycle, WatchPlan, WatchSet};
use crate::poll_laws::law_cycle_looks_at_every_watch_once;
use crate::poll_loop::{PollLoop, PollMessage, Turn};
use crate::scan::{failures_of, records_of, scan_all_path_data, Met};

verus! {

/// A loop that is woken while requests wait serves the oldest one at once, whether or not its delay
/// has passed, and takes that request alone off the queue.
pub proof fn law_waking_a_loop<R>(timed_out: bool)
    ensures
        forall|poll_loop: &mut PollLoop<R>, turn: Turn<R>|
            #[trigger] call_ensures(PollLoop::<R>::wake, (poll_loop, timed_out), turn) ==> {
                let before = (*poll_loop)@;
                let after = (*final(poll_loop))@;
                &&& before.requests.len() > 0 ==> turn == Turn::Scan(Some(before.requests[0]))
                    && after.requests == before.requests.skip(1)
                &&& before.requests.len() == 0 && before.stopping ==> turn is Exit
                    && !after.running
                &&& before.requests.len() == 0 && !before.stopping && timed_out
                    && before.delay is Some ==> turn == Turn::<R>::Scan(None)
                &&& before.requests.len() == 0 && !before.stopping && !(timed_out
                    && before.delay is Some) ==> turn is Wait
                &&& after.delay == before.delay
                &&& after.stopping == before.stopping
            },
{
    assert forall|poll_loop: &mut PollLoop<R>, turn: Turn<R>|
        #[trigger] call_ensures(PollLoop::<R>::wake, (poll_loop, timed_out), turn)
            && (*poll_loop)@.requests.len() > 0 implies (*final(poll_loop))@.requests
        == (*poll_loop)@.requests.skip(1) by {
        assert((*poll_loop)@.requests.drop_first() =~= (*poll_loop)@.requests.skip(1));
    }
}

/// A loop that goes on ends if it was told to; scans by itself the first time, if it has a delay;
/// serves the oldest request, and that alone, if there is one; and waits otherwise.
pub proof fn law_beginning_anew<R>()
    ensures
        forall|poll_loop: &mut PollLoop<R>, turn: Turn<R>|
            #[trigger] call_ensures(PollLoop::<R>::begin, (poll_loop,), turn) ==> {
                let before = (*poll_loop)@;
                let after = (*final(poll_loop))@;
                let first = before.delay is Some && before.fresh;
                &&& before.stopping ==> turn is Exit && !after.running
                &&& !before.stopping && first ==> turn == Turn::<R>::Scan(None) && !after.fresh
                    && after.requests == before.requests
                &&& !before.stopping && !first && before.requests.len() > 0 ==> turn == Turn::Scan(
                    Some(before.requests[0]),
                ) && after.requests == before.requests.skip(1)
                &&& !before.stopping && !first && before.requests.len() == 0 ==> turn is Wait
                    && after == before
            },
{
    assert forall|poll_loop: &mut PollLoop<R>, turn: Turn<R>|
        #[trigger] call_ensures(PollLoop::<R>::begin, (poll_loop,), turn)
            && (*poll_loop)@.requests.len() > 0 implies (*poll_loop)@.requests.drop_first()
        == (*poll_loop)@.requests.skip(1) by {
        assert((*poll_loop)@.requests.drop_first() =~= (*poll_loop)@.requests.skip(1));
    }
}

/// A running loop takes a request, behind the others; one that has ended does not.
pub proof fn law_leaving_requests<R>(message: PollMessage<R>)
    ensures
        forall|poll_loop: &mut PollLoop<R>, outcome: Result<(), Error>|
            #[trigger] call_ensures(PollLoop::<R>::request, (poll_loop, message), outcome) ==> {
                let before = (*poll_loop)@;
                let after = (*final(poll_loop))@;
                &&& outcome is Ok <==> before.running
                &&& before.running ==> after.requests == before.requests.push(message)
                &&& !before.running ==> after.requests == before.requests
                &&& after.running == before.running
                &&& after.stopping == before.stopping
                &&& after.delay == before.delay
                &&& after.fresh == before.fresh
            },
{
}

/// A loop that is told to end stays as it is until its next turn; one that has ended has no
/// requests left and runs no more.
pub proof fn law_ending_loops<R>()
    ensures
        forall|poll_loop: &mut PollLoop<R>|
            #[trigger] call_ensures(PollLoop::<R>::stop, (poll_loop,), ()) ==> {
                &&& (*final(poll_loop))@.stopping
                &&& (*final(poll_loop))@.requests == (*poll_loop)@.requests
                &&& (*final(poll_loop))@.running == (*poll_loop)@.running
            },
        forall|poll_loop: &mut PollLoop<R>|
            #[trigger] call_ensures(PollLoop::<R>::ended, (poll_loop,), ()) ==> {
                &&& !(*final(poll_loop))@.running
                &&& (*final(poll_loop))@.requests.len() == 0
            },
{
}

/// An event is told exactly if the mask has its bit, behind what is told already; a failure always.
pub proof fn law_telling(event: Event, message: Result<Event, Error>)
    ensures
        forall|emitter: &mut EventEmitter|
            #[trigger] call_ensures(EventEmitter::emit_ok, (emitter, event), ()) ==> {
                let before = (*emitter).reports();
                let after = (*final(emitter)).reports();
                let bit: u32 = match event.kind {
                    EventKind::Create(_) => 1,
                    EventKind::Remove(_) => 2,
                    EventKind::Modify(ModifyKind::Data(_)) => 4,
                    EventKind::Modify(ModifyKind::Metadata(_)) => 8,
                };
                &&& (*emitter).mask() & bit != 0 ==> after == before.push(
                    Report::Event(event.kind, texts(event.paths@)),
                )
                &&& (*emitter).mask() & bit == 0 ==> after == before
                &&& (*final(emitter)).mask() == (*emitter).mask()
            },
        forall|emitter: &mut EventEmitter|
            #[trigger] call_ensures(EventEmitter::emit, (emitter, message), ()) ==> {
                let before = (*emitter).reports();
                let after = (*final(emitter)).reports();
                &&& after.len() == before.len() + 1
                &&& after.drop_last() == before
                &&& message matches Ok(e) ==> after.last() == Report::Event(e.kind, texts(e.paths@))
                &&& message matches Err(e) ==> after.last() == Report::Failure(
                    e.kind,
                    texts(e.paths@),
                )
            },
{
    assert forall|emitter: &mut EventEmitter|
        #[trigger] call_ensures(EventEmitter::emit_ok, (emitter, event), ()) implies mask_admits(
        (*emitter).mask(),
        event.kind,
    ) <==> (*emitter).mask() & (match event.kind {
        EventKind::Create(_) => 1u32,
        EventKind::Remove(_) => 2u32,
        EventKind::Modify(ModifyKind::Data(_)) => 4u32,
        EventKind::Modify(ModifyKind::Metadata(_)) => 8u32,
    }) != 0 by {
        law_mask_bits((*emitter).mask());
    }
    assert forall|emitter: &mut EventEmitter|
        #[trigger] call_ensures(EventEmitter::emit, (emitter, message), ()) implies (
    *final(emitter)).reports().drop_last() == (*emitter).reports() by {
        assert((*final(emitter)).reports().drop_last() =~= (*emitter).reports());
    }
}

/// What is handed over is all that there was to tell, once.
pub proof fn law_handing_over()
    ensures
        forall|emitter: &mut EventEmitter, messages: Vec<Result<Event, Error>>|
            #[trigger] call_ensures(EventEmitter::take, (emitter,), messages) ==> {
                &&& reports_of(messages@) == (*emitter).reports()
                &&& (*final(emitter)).reports().len() == 0
                &&& (*final(emitter)).mask() == (*emitter).mask()
            },
{
}

/// The hash is that of all pieces that were read, in order, and comes with the first empty piece;
/// an interruption changes nothing, and a failure ends the reading.
pub proof fn law_reading_contents(chunk: &[u8], reason: std::io::Error)
    ensures
        forall|hasher: &mut ContentHasher, step: ReadStep|
            #[trigger] call_ensures(
                ContentHasher::take_in,
                (hasher, ReadEvent::Chunk(chunk)),
                step,
            ) ==> {
                &&& (*final(hasher)).bytes() == (*hasher).bytes() + chunk@
                &&& chunk@.len() > 0 ==> step is ReadOn
                &&& chunk@.len() == 0 ==> step == ReadStep::Done(xxh3_hash((*hasher).bytes()))
            },
        forall|hasher: &mut ContentHasher, step: ReadStep|
            #[trigger] call_ensures(
                ContentHasher::take_in,
                (hasher, ReadEvent::Interrupted),
                step,
            ) ==> step is ReadOn && (*final(hasher)).bytes() == (*hasher).bytes(),
        forall|hasher: &mut ContentHasher, step: ReadStep|
            #[trigger] call_ensures(
                ContentHasher::take_in,
                (hasher, ReadEvent::Failed(reason)),
                step,
            ) ==> step == ReadStep::GiveUp(reason),
{
}

/// A scan gives one record for every entry that was met, and tells of every failure behind what was
/// told already; on a later scan nobody learns of paths as on a first one.
pub proof fn law_recording_walks(
    root: FilePath,
    requested: FilePath,
    met: Vec<Met>,
    is_initial: bool,
)
    ensures
        forall|builder: &mut DataBuilder, records: Vec<(FilePath, PathData)>|
            #[trigger] call_ensures(
                scan_all_path_data,
                (builder, &root, &requested, met, is_initial),
                records,
            ) ==> {
                let found = records_of(met@, (*builder).compare_contents, (*builder).now);
                &&& records@.len() == found.len()
                &&& forall|i: int|
                    0 <= i < found.len() ==> (#[trigger] records@[i]).0@ == found[i].0
                        && records@[i].1 == found[i].1
                &&& (*final(builder)).emitter.reports() == (*builder).emitter.reports()
                    + failures_of(met@)
                &&& !is_initial ==> (*final(builder)).scan_events == (*builder).scan_events
                &&& (*final(builder)).now == (*builder).now
                &&& (*final(builder)).compare_contents == (*builder).compare_contents
            },
{
    assert forall|builder: &mut DataBuilder, records: Vec<(FilePath, PathData)>|
        #[trigger] call_ensures(
            scan_all_path_data,
            (builder, &root, &requested, met, is_initial),
            records,
        ) implies {
        let found = records_of(met@, (*builder).compare_contents, (*builder).now);
        &&& records@.len() == found.len()
        &&& forall|i: int|
            0 <= i < found.len() ==> (#[trigger] records@[i]).0@ == found[i].0 && records@[i].1
                == found[i].1
    } by {
        let found = records_of(met@, (*builder).compare_contents, (*builder).now);
        assert(found_view(records@) == found);
        assert forall|i: int| 0 <= i < found.len() implies (#[trigger] records@[i]).0@
            == found[i].0 && records@[i].1 == found[i].1 by {
            assert(found_view(records@)[i] == (records@[i].0@, records@[i].1));
        }
    }
}

/// The report of an event at one path, in the form that the user of the watch knows.
pub open spec fn report_at<F>(watch: WatchData<F>, kind: EventKind, path: Seq<u8>) -> Report {
    Report::Event(
        kind,
        seq![reported_text(watch.config().root, watch.config().requested_root, path)],
    )
}

/// A scan of a watched root tells what became of every path: one that it finds for the first time
/// is created; one with a later write time is written to, whatever its contents; one with another
/// hash is changed; one that is not found any more is removed. The watch stays the one that was
/// asked for, and knows the paths that were found.
pub proof fn law_looking_again<F>(met: Vec<Met>, i: int, key: Seq<Seq<u8>>)
    ensures
        forall|watch: &mut WatchData<F>, builder: &mut DataBuilder|
            #[trigger] call_ensures(WatchData::<F>::rescan, (watch, builder, met), ())
                && found_once(records_of(met@, (*builder).compare_contents, (*builder).now)) ==> {
                let found = records_of(met@, (*builder).compare_contents, (*builder).now);
                let known = (*watch).known();
                let after = (*final(watch)).known();
                let told = (*final(builder)).emitter.reports();
                let mask = (*builder).emitter.mask();
                let path = found[i].0;
                let new = found[i].1;
                let old = known[components(path)].1;
                let was_known = known.dom().contains(components(path));
                &&& (*final(watch)).config() == (*watch).config()
                &&& ((*builder).emitter.reports() + failures_of(met@)).is_prefix_of(told)
                &&& 0 <= i < found.len() && !was_known && mask & 1 != 0 ==> told.contains(
                    report_at(*watch, EventKind::Create(CreateKind::Any), path),
                )
                &&& 0 <= i < found.len() && was_known && new.mtime > old.mtime && mask & 8 != 0
                    ==> told.contains(
                    report_at(
                        *watch,
                        EventKind::Modify(ModifyKind::Metadata(MetadataKind::WriteTime)),
                        path,
                    ),
                )
                &&& 0 <= i < found.len() && was_known && new.mtime <= old.mtime && new.hash
                    != old.hash && mask & 4 != 0 ==> told.contains(
                    report_at(*watch, EventKind::Modify(ModifyKind::Data(DataChange::Any)), path),
                )
                &&& known.dom().contains(key) && !was_found(found, key)
                    && known[key].1.last_check < (*builder).now && mask & 2 != 0 ==> told.contains(
                    report_at(*watch, EventKind::Remove(RemoveKind::Any), known[key].0),
                ) && !after.dom().contains(key)
                &&& in_time(known, found, (*builder).now) ==> (after.dom().contains(key)
                    <==> was_found(found, key))
            },
{
    assert forall|watch: &mut WatchData<F>, builder: &mut DataBuilder|
        #[trigger] call_ensures(WatchData::<F>::rescan, (watch, builder, met), ()) && found_once(
            records_of(met@, (*builder).compare_contents, (*builder).now),
        ) implies {
        let found = records_of(met@, (*builder).compare_contents, (*builder).now);
        let known = (*watch).known();
        let after = (*final(watch)).known();
        let told = (*final(builder)).emitter.reports();
        let mask = (*builder).emitter.mask();
        let path = found[i].0;
        let new = found[i].1;
        let old = known[components(path)].1;
        let was_known = known.dom().contains(components(path));
        &&& (*final(watch)).config() == (*watch).config()
        &&& ((*builder).emitter.reports() + failures_of(met@)).is_prefix_of(told)
        &&& 0 <= i < found.len() && !was_known && mask & 1 != 0 ==> told.contains(
            report_at(*watch, EventKind::Create(CreateKind::Any), path),
        )
        &&& 0 <= i < found.len() && was_known && new.mtime > old.mtime && mask & 8 != 0
            ==> told.contains(
            report_at(
                *watch,
                EventKind::Modify(ModifyKind::Metadata(MetadataKind::WriteTime)),
                path,
            ),
        )
        &&& 0 <= i < found.len() && was_known && new.mtime <= old.mtime && new.hash != old.hash
            && mask & 4 != 0 ==> told.contains(
            report_at(*watch, EventKind::Modify(ModifyKind::Data(DataChange::Any)), path),
        )
        &&& known.dom().contains(key) && !was_found(found, key) && known[key].1.last_check
            < (*builder).now && mask & 2 != 0 ==> told.contains(
            report_at(*watch, EventKind::Remove(RemoveKind::Any), known[key].0),
        ) && !after.dom().contains(key)
        &&& in_time(known, found, (*builder).now) ==> (after.dom().contains(key) <==> was_found(
            found,
            key,
        ))
    } by {
        let found = records_of(met@, (*builder).compare_contents, (*builder).now);
        let known = (*watch).known();
        let after = (*final(watch)).known();
        let told = (*final(builder)).emitter.reports();
        let now = (*builder).now;
        let voice = Voice {
            root: (*watch).config().root,
            requested_root: (*watch).config().requested_root,
            mask: (*builder).emitter.mask(),
        };
        law_mask_bits(voice.mask);
        law_scans_keep_the_watch(*watch, *builder, met@, *final(watch), *final(builder));
        let reports = choose|reports: Seq<Report>|
            {
                &&& #[trigger] rescanned(voice, known, found, now, after, reports)
                &&& told == (*builder).emitter.reports() + failures_of(met@) + reports
            };
        let said = (*builder).emitter.reports() + failures_of(met@);
        assert forall|report: Report| #[trigger] reports.contains(report) implies told.contains(
            report,
        ) by {
            let k = reports.index_of(report);
            assert(told[said.len() + k] == report);
        }
        if 0 <= i < found.len() {
            law_findings_are_told_by_what_changed(voice, known, found, now, after, reports, i);
        }
        if known.dom().contains(key) && !was_found(found, key) && known[key].1.last_check < now
            && voice.mask & 2 != 0 {
            law_disappearances_are_reported(voice, known, found, now, after, reports, key);
        }
        if in_time(known, found, now) {
            law_scan_leaves_what_was_found(voice, known, found, now, after, reports);
        }
    }
}

/// A new watch is the one that was asked for, and one on a root that could not be looked at is
/// none.
pub proof fn law_making_watches<F>(
    root: WatchPath,
    is_recursive: bool,
    follow_symlinks: bool,
    filter: WatchFilter<F>,
    probed: Result<InitialScan, std::io::Error>,
)
    ensures
        forall|builder: &mut DataBuilder, built: Option<WatchData<F>>|
            #[trigger] call_ensures(
                WatchData::<F>::new,
                (builder, root, is_recursive, follow_symlinks, filter, probed),
                built,
            ) ==> {
                &&& built is Some <==> probed is Ok
                &&& built matches Some(watch) ==> {
                    &&& watch.config().root == root.absolute@
                    &&& watch.config().requested_root == root.requested@
                    &&& watch.config().root_is_dir == probed->Ok_0.root_is_dir
                    &&& watch.config().is_recursive == is_recursive
                    &&& watch.config().follow_symlinks == follow_symlinks
                    &&& watch.config().watch_filter == filter@
                }
                &&& probed matches Err(e) ==> (*final(builder)).emitter.reports()
                    == (*builder).emitter.reports().push(
                    Report::Failure(ErrorKind::Io(e), seq![root.requested@]),
                )
            },
{
    assert forall|builder: &mut DataBuilder, built: Option<WatchData<F>>|
        #[trigger] call_ensures(
            WatchData::<F>::new,
            (builder, root, is_recursive, follow_symlinks, filter, probed),
            built,
        ) implies {
        &&& built is Some <==> probed is Ok
        &&& built matches Some(watch) ==> {
            &&& watch.config().root == root.absolute@
            &&& watch.config().requested_root == root.requested@
            &&& watch.config().root_is_dir == probed->Ok_0.root_is_dir
            &&& watch.config().is_recursive == is_recursive
            &&& watch.config().follow_symlinks == follow_symlinks
            &&& watch.config().watch_filter == filter@
        }
        &&& probed matches Err(e) ==> (*final(builder)).emitter.reports()
            == (*builder).emitter.reports().push(
            Report::Failure(ErrorKind::Io(e), seq![root.requested@]),
        )
    } by {
        law_watch_is_the_one_asked_for(
            *builder,
            root,
            is_recursive,
            follow_symlinks,
            filter@,
            probed,
            *final(builder),
            built,
        );
    }
}

/// A registered watch is the one that was planned, and goes through symlinks exactly if the watcher
/// does. Where its path could not be looked at, what stood there stays unless a filter is involved.
/// The other watches stay as they were.
pub proof fn law_registering_watches<F: Fn(&FilePath) -> bool>(
    plan: WatchPlan<F>,
    probed: Result<InitialScan, std::io::Error>,
    other: Seq<Seq<u8>>,
)
    ensures
        forall|watch_set: &mut WatchSet<F>|
            #[trigger] call_ensures(
                WatchSet::<F>::finish_watch,
                (watch_set, plan, probed),
                (),
            ) ==> {
                let key = components(plan.spec_path().absolute@);
                let before = (*watch_set).watches();
                let after = (*final(watch_set)).watches();
                let config = after[key].1.config();
                &&& probed is Ok ==> {
                    &&& after.dom().contains(key)
                    &&& config.root == plan.spec_path().absolute@
                    &&& config.requested_root == plan.spec_path().requested@
                    &&& config.root_is_dir == probed->Ok_0.root_is_dir
                    &&& config.is_recursive <==> plan.spec_mode() is Recursive
                    &&& config.follow_symlinks == (*watch_set).follows_symlinks()
                    &&& config.watch_filter == plan.spec_filter()@
                }
                &&& probed is Err ==> {
                    &&& after.dom().contains(key) <==> {
                        &&& before.dom().contains(key)
                        &&& before[key].1.config().watch_filter is None
                        &&& plan.spec_filter()@ is None
                    }
                    &&& after.dom().contains(key) ==> after[key] == before[key]
                }
                &&& other != key ==> {
                    &&& after.dom().contains(other) <==> before.dom().contains(other)
                    &&& after.dom().contains(other) ==> after[other] == before[other]
                }
                &&& (*final(watch_set)).follows_symlinks() == (*watch_set).follows_symlinks()
            },
{
}

/// Giving up a watch takes that watch out, and no other; giving up what is not watched fails and
/// changes nothing.
pub proof fn law_giving_up_watches<F: Fn(&FilePath) -> bool>(
    path: FilePath,
    dir: FilePath,
    other: Seq<Seq<u8>>,
)
    ensures
        forall|watch_set: &mut WatchSet<F>, outcome: Result<(), Error>|
            #[trigger] call_ensures(
                WatchSet::<F>::unwatch,
                (watch_set, &path, Ok::<FilePath, std::io::Error>(dir)),
                outcome,
            ) ==> {
                let absolute = if path@.len() > 0 && path@[0] == 0x2f {
                    path@
                } else {
                    joined(dir@, path@)
                };
                let key = components(absolute);
                let before = (*watch_set).watches();
                let after = (*final(watch_set)).watches();
                &&& outcome is Ok <==> before.dom().contains(key)
                &&& outcome matches Err(error) ==> error.kind == ErrorKind::WatchNotFound
                &&& !after.dom().contains(key)
                &&& other != key ==> {
                    &&& after.dom().contains(other) <==> before.dom().contains(other)
                    &&& after.dom().contains(other) ==> after[other] == before[other]
                }
            },
{
}

/// A cycle that can be finished has looked at every watch once, at its own time; it is answered to
/// whoever asked for it and waits, and to nobody else; and everything left to tell comes with that.
pub proof fn law_finishing_cycles<F: Fn(&FilePath) -> bool, R>(cycle: Cycle<F, R>, i: int)
    ensures
        forall|watch_set: &mut WatchSet<F>, end: (Vec<Result<Event, Error>>, Option<R>)|
            #[trigger] call_ensures(
                WatchSet::<F>::finish_cycle::<R>,
                (watch_set, cycle),
                end,
            ) && cycle.is_under_way(*watch_set) && cycle.done() == (*watch_set).entries().len()
                ==> {
                &&& cycle.message() matches Some(PollMessage::PollAndWait(done)) ==> end.1 == Some(
                    done,
                )
                &&& !(cycle.message() matches Some(PollMessage::PollAndWait(_))) ==> end.1 is None
                &&& reports_of(end.0@) == (*watch_set).builder().emitter.reports()
                &&& (*final(watch_set)).builder().emitter.reports().len() == 0
                &&& (*final(watch_set)).entries().len() == cycle.begun().len()
                &&& 0 <= i < cycle.begun().len() ==> {
                    &&& (*final(watch_set)).entries()[i].0 == cycle.begun()[i].0
                    &&& (*final(watch_set)).entries()[i].1.config() == cycle.begun()[i].1.config()
                    &&& looked_at_once(
                        cycle.begun()[i],
                        cycle.mask(),
                        cycle.compares_contents(),
                        cycle.now(),
                        (*final(watch_set)).entries()[i],
                    )
                }
            },
{
    assert forall|watch_set: &mut WatchSet<F>, end: (Vec<Result<Event, Error>>, Option<R>)|
        #[trigger] call_ensures(WatchSet::<F>::finish_cycle::<R>, (watch_set, cycle), end)
            && cycle.is_under_way(*watch_set) && cycle.done() == (*watch_set).entries().len()
            && 0 <= i < cycle.begun().len() implies {
        &&& (*final(watch_set)).entries()[i].0 == cycle.begun()[i].0
        &&& (*final(watch_set)).entries()[i].1.config() == cycle.begun()[i].1.config()
        &&& looked_at_once(
            cycle.begun()[i],
            cycle.mask(),
            cycle.compares_contents(),
            cycle.now(),
            (*final(watch_set)).entries()[i],
        )
    } by {
        law_cycle_looks_at_every_watch_once(cycle, *watch_set);
        assert((*final(watch_set)).entries()[i] == (*watch_set).entries()[i]);
    }
}

/// A cycle begins with no watch looked at, at the time it is given, which is from then on the time
/// of everything that is recorded.
pub proof fn law_beginning_cycles<F: Fn(&FilePath) -> bool, R>(
    message: Option<PollMessage<R>>,
    now: u64,
)
    ensures
        forall|watch_set: &mut WatchSet<F>, cycle: Cycle<F, R>|
            #[trigger] call_ensures(
                WatchSet::<F>::begin_cycle::<R>,
                (watch_set, message, now),
                cycle,
            ) ==> {
                &&& cycle.message() == message
                &&& cycle.now() == now
                &&& cycle.done() == 0
                &&& cycle.begun() == (*watch_set).entries()
                &&& (*final(watch_set)).entries() == (*watch_set).entries()
                &&& (*final(watch_set)).builder().now == now
                &&& (*final(watch_set)).builder().emitter == (*watch_set).builder().emitter
                &&& (*final(watch_set)).builder().compare_contents
                    == (*watch_set).builder().compare_contents
            },
{
}

/// The next step of a cycle looks at the watch at its place, and at no other.
pub proof fn law_stepping_through_cycles<F: Fn(&FilePath) -> bool, R>(met: Vec<Met>, j: int)
    ensures
        forall|watch_set: &mut WatchSet<F>, cycle: &mut Cycle<F, R>|
            #[trigger] call_ensures(
                WatchSet::<F>::rescan_next::<R>,
                (watch_set, cycle, met),
                (),
            ) && 0 <= (*cycle).done() < (*watch_set).entries().len() ==> {
                let before = (*watch_set).entries();
                let after = (*final(watch_set)).entries();
                let i = (*cycle).done();
                &&& (*final(cycle)).done() == i + 1
                &&& (*final(cycle)).now() == (*cycle).now()
                &&& (*final(cycle)).message() == (*cycle).message()
                &&& after.len() == before.len()
                &&& after[i].0 == before[i].0
                &&& after[i].1.config() == before[i].1.config()
                &&& 0 <= j < before.len() && j != i ==> after[j] == before[j]
                &&& (*final(watch_set)).builder().now == (*watch_set).builder().now
            },
{
}

/// A failure of the file system is told with the path where it was met, if that is known.
pub proof fn law_telling_failures(reason: std::io::Error, path: Option<FilePath>)
    ensures
        forall|emitter: &mut EventEmitter|
            #[trigger] call_ensures(EventEmitter::emit_io_err, (emitter, reason, path), ()) ==> {
                let before = (*emitter).reports();
                let after = (*final(emitter)).reports();
                &&& path matches Some(p) ==> after == before.push(
                    Report::Failure(ErrorKind::Io(reason), seq![p@]),
                )
                &&& path is None ==> after == before.push(
                    Report::Failure(ErrorKind::Io(reason), seq![]),
                )
                &&& (*final(emitter)).mask() == (*emitter).mask()
            },
{
}

/// A value that is entered stands at its path, and what is taken out stands there no more; other
/// paths are left alone.
pub proof fn law_changing_maps<V>(path: FilePath, value: V, other: Seq<Seq<u8>>)
    ensures
        forall|map: &mut PathMap<V>, was: Option<V>|
            #[trigger] call_ensures(PathMap::<V>::insert, (map, path, value), was) && (*map).wf()
                ==> {
                let key = components(path@);
                let before = (*map)@;
                let after = (*final(map))@;
                &&& after.dom().contains(key)
                &&& after[key].1 == value
                &&& was is Some <==> before.dom().contains(key)
                &&& was matches Some(v) ==> v == before[key].1 && after[key].0 == before[key].0
                &&& was is None ==> after[key].0 == path@
                &&& other != key ==> (after.dom().contains(other) <==> before.dom().contains(
                    other,
                ))
                &&& other != key && before.dom().contains(other) ==> after[other] == before[other]
            },
        forall|map: &mut PathMap<V>, was: Option<V>|
            #[trigger] call_ensures(PathMap::<V>::remove, (map, &path), was) && (*map).wf() ==> {
                let key = components(path@);
                let before = (*map)@;
                let after = (*final(map))@;
                &&& !after.dom().contains(key)
                &&& was is Some <==> before.dom().contains(key)
                &&& was matches Some(v) ==> v == before[key].1
                &&& other != key ==> (after.dom().contains(other) <==> before.dom().contains(
                    other,
                ))
                &&& other != key && before.dom().contains(other) ==> after[other] == before[other]
            },
{
}

/// The time of a builder is the one that it is given; nothing else of it changes.
pub proof fn law_setting_the_time(now: u64)
    ensures
        forall|builder: &mut DataBuilder|
            #[trigger] call_ensures(DataBuilder::update_timestamp, (builder, now), ()) ==> {
                &&& (*final(builder)).now == now
                &&& (*final(builder)).emitter == (*builder).emitter
                &&& (*final(builder)).scan_events == (*builder).scan_events
                &&& (*final(builder)).compare_contents == (*builder).compare_contents
            },
{
}

} // verus!
