//! The polling watcher: its watches, and how they are made, renewed, looked at and given up.
//!
//! The watcher never touches the file system. Whoever runs it looks at files, keeps the time, and
//! hands over what came of it.

use core::time::Duration;

use vstd::prelude::*;

use crate::data::{
    looked_at, watch_built, watch_rescanned, DataBuilder, InitialScan, WatchConfig, WatchData,
};
use crate::error::{Error, ErrorKind};
use crate::event::{reports_of, Event, Report};
use crate::filter::{may_be_asked, RecursiveMode, WatchFilter};
use crate::path::{components, same_path, FilePath};
use crate::path_map::{distinct, entered, keyed, lemma_keyed_at, PathMap};
use crate::paths::{
    absolute_path, absolute_text, barriers_decide, check_watch_barriers, claims_of,
    needs_resolution, text_of, Claim, Probe, WatchPath, WatchSummary,
};
use crate::poll_loop::{requested, LoopState, PollLoop, PollMessage};
use crate::scan::{failures_of, met_below, records_of, Met};

verus! {

/// How a watcher works.
#[derive(Clone, Copy, Debug)]
pub struct Config {
    /// Contents are compared, not only write times.
    pub compare_contents: bool,
    /// The bits of the mask that events have to pass.
    pub event_kinds: u32,
    /// How long the watcher waits between scans; without it, it scans only at a request.
    pub poll_interval: Option<Duration>,
    /// Scans go through symlinks.
    pub follow_symlinks: bool,
}

/// The kinds of watchers.
#[derive(Clone, Copy, Debug, PartialEq, Eq, Structural)]
pub enum WatcherKind {
    /// The watcher looks at the files again and again.
    PollWatcher,
}

/// What is watched: for the key of each path, the text under which it was first watched, and the
/// watch.
pub type Watches<F> = Map<Seq<Seq<u8>>, (Seq<u8>, WatchData<F>)>;

/// What a watch lays claim to.
pub open spec fn claim_of<F>(
    path: Seq<u8>,
    config: WatchConfig<F>,
    resolved: Option<Seq<u8>>,
) -> Claim {
    Claim {
        path,
        resolved,
        is_dir: config.root_is_dir,
        is_recursive: config.is_recursive,
        filtered: config.watch_filter is Some,
    }
}

/// What these watches lay claim to, given what their paths resolve to.
pub open spec fn claims_at<F>(
    entries: Seq<(FilePath, WatchData<F>)>,
    resolved: Seq<Option<FilePath>>,
) -> Seq<Claim> {
    Seq::new(
        entries.len(),
        |i: int| claim_of(entries[i].0@, entries[i].1.config(), text_of(resolved[i])),
    )
}

/// What becomes of the watches when a request for `path` has passed the barriers. A watch that
/// could be built replaces the one that stood there. Where none could be built, the one that
/// stands there stays only if neither it nor the request has a filter: the user is not to go on
/// under a filter that was to be replaced.
pub open spec fn watches_after<F>(
    watches: Watches<F>,
    path: Seq<u8>,
    watch_filter: Option<F>,
    built: Option<WatchData<F>>,
) -> Watches<F> {
    let key = components(path);
    match built {
        Some(watch) => entered(watches, path, watch),
        None => if watch_filter is Some || (watches.dom().contains(key)
            && watches[key].1.config().watch_filter is Some) {
            watches.remove(key)
        } else {
            watches
        },
    }
}

/// What stands at a path after a request for it has passed the barriers. If the path could be
/// looked at: a watch with everything that was asked for. If not: what stood there, unless it or
/// the request has a filter.
pub open spec fn registered<F>(
    watches: Watches<F>,
    follow_symlinks: bool,
    path: WatchPath,
    mode: RecursiveMode,
    watch_filter: Option<F>,
    probed: Result<InitialScan, std::io::Error>,
    after: Watches<F>,
) -> bool {
    let key = components(path.absolute@);
    match probed {
        Ok(first) => {
            let config = after[key].1.config();
            &&& after.dom().contains(key)
            &&& config.root == path.absolute@
            &&& config.requested_root == path.requested@
            &&& config.root_is_dir == first.root_is_dir
            &&& config.is_recursive == (mode is Recursive)
            &&& config.follow_symlinks == follow_symlinks
            &&& config.watch_filter == watch_filter
        },
        Err(_) => {
            &&& after.dom().contains(key) <==> {
                &&& watches.dom().contains(key)
                &&& watches[key].1.config().watch_filter is None
                &&& watch_filter is None
            }
            &&& after.dom().contains(key) ==> after[key] == watches[key]
        },
    }
}

/// What the user asked for with a watch: a path, and whether everything below it is watched.
pub open spec fn asked_for<F>(config: WatchConfig<F>) -> (Seq<u8>, RecursiveMode) {
    (
        config.requested_root,
        if config.is_recursive {
            RecursiveMode::Recursive
        } else {
            RecursiveMode::NonRecursive
        },
    )
}

/// The texts of a list of paths, with their modes.
pub open spec fn watched_view(
    watched: Seq<(FilePath, RecursiveMode)>,
) -> Seq<(Seq<u8>, RecursiveMode)> {
    watched.map_values(|w: (FilePath, RecursiveMode)| (w.0@, w.1))
}

/// A request for a watch that has passed the barriers.
#[derive(Debug)]
pub struct WatchPlan<F> {
    watch_path: WatchPath,
    recursive_mode: RecursiveMode,
    watch_filter: WatchFilter<F>,
}

impl<F: Fn(&FilePath) -> bool> WatchPlan<F> {
    pub closed spec fn spec_path(self) -> WatchPath {
        self.watch_path
    }

    pub closed spec fn spec_mode(self) -> RecursiveMode {
        self.recursive_mode
    }

    pub closed spec fn spec_filter(self) -> WatchFilter<F> {
        self.watch_filter
    }

    /// The path to watch.
    pub fn watch_path(&self) -> (res: &WatchPath)
        ensures
            *res == self.spec_path(),
    {
        &self.watch_path
    }

    /// Whether everything below the path is to be watched.
    pub fn recursive_mode(&self) -> (res: RecursiveMode)
        ensures
            res == self.spec_mode(),
    {
        self.recursive_mode
    }

    /// The filter of the watch.
    pub fn watch_filter(&self) -> (res: &WatchFilter<F>)
        ensures
            *res == self.spec_filter(),
    {
        &self.watch_filter
    }
}

/// The watches of a watcher, and what its user is to be told of them.
///
/// `F` is the type of the filters' predicates.
#[derive(Debug)]
pub struct WatchSet<F> {
    watches: PathMap<WatchData<F>>,
    data_builder: DataBuilder,
    follow_symlinks: bool,
}

impl<F: Fn(&FilePath) -> bool> WatchSet<F> {
    /// What is watched.
    pub closed spec fn watches(self) -> Watches<F> {
        self.watches@
    }

    /// The watches, in some order.
    pub closed spec fn entries(self) -> Seq<(FilePath, WatchData<F>)> {
        self.watches.entries()
    }

    /// What builds watches, and what the user is to be told.
    pub closed spec fn builder(self) -> DataBuilder {
        self.data_builder
    }

    /// Scans go through symlinks.
    pub closed spec fn follows_symlinks(self) -> bool {
        self.follow_symlinks
    }

    /// No path is watched twice, every watch knows each of its paths once, is a watch on the path
    /// at which it stands and goes through symlinks if the watcher does, and every filter can be
    /// asked about every path.
    pub closed spec fn wf(self) -> bool {
        &&& self.watches.wf()
        &&& forall|key: Seq<Seq<u8>>|
            #![trigger self.watches@.dom().contains(key)]
            self.watches@.dom().contains(key) ==> {
                &&& self.watches@[key].1.wf()
                &&& components(self.watches@[key].1.config().root) == key
                &&& self.watches@[key].1.config().follow_symlinks == self.follow_symlinks
                &&& may_be_asked(self.watches@[key].1.config().watch_filter)
            }
    }

    /// Every watch is one on the path at which it stands, and goes through symlinks exactly if the
    /// watcher does.
    pub proof fn law_watches_follow_the_watcher(self)
        requires
            self.wf(),
        ensures
            forall|key: Seq<Seq<u8>>| #[trigger]
                self.watches().dom().contains(key) ==> {
                    &&& self.watches()[key].1.config().follow_symlinks == self.follows_symlinks()
                    &&& components(self.watches()[key].1.config().root) == key
                },
    {
    }

    /// The entries make up what is watched, each path once.
    pub proof fn lemma_entries(self)
        requires
            self.wf(),
        ensures
            self.watches() == keyed(self.entries()),
            distinct(self.entries()),
    {
        self.watches.lemma_entries();
    }

    /// Nothing is watched, and there is nothing to tell.
    pub open spec fn starts(self, config: Config, has_scan_handler: bool, now: u64) -> bool {
        &&& self.wf()
        &&& self.watches() == Map::<Seq<Seq<u8>>, (Seq<u8>, WatchData<F>)>::empty()
        &&& self.follows_symlinks() == config.follow_symlinks
        &&& self.builder().emitter.mask() == config.event_kinds
        &&& self.builder().emitter.reports() == Seq::<Report>::empty()
        &&& match self.builder().scan_events {
            Some(paths) => has_scan_handler && paths@ == Seq::<FilePath>::empty(),
            None => !has_scan_handler,
        }
        &&& self.builder().compare_contents == config.compare_contents
        &&& self.builder().now == now
    }

    /// Watches nothing yet.
    pub fn new(config: &Config, has_scan_handler: bool, now: u64) -> (res: Self)
        ensures
            res.starts(*config, has_scan_handler, now),
    {
        WatchSet {
            watches: PathMap::new(),
            data_builder: DataBuilder::new(
                config.compare_contents,
                has_scan_handler,
                config.event_kinds,
                now,
            ),
            follow_symlinks: config.follow_symlinks,
        }
    }

    /// What builds watches, and what the user is to be told.
    pub fn data_builder(&mut self) -> (res: &mut DataBuilder)
        ensures
            *res == old(self).builder(),
            final(self).builder() == *final(res),
            final(self).wf() == old(self).wf(),
            final(self).entries() == old(self).entries(),
            final(self).watches() == old(self).watches(),
            final(self).follows_symlinks() == old(self).follows_symlinks(),
    {
        &mut self.data_builder
    }

    /// Whether scans go through symlinks.
    pub fn follow_symlinks(&self) -> (res: bool)
        ensures
            res == self.follows_symlinks(),
    {
        self.follow_symlinks
    }

    /// How many paths are watched.
    pub fn watch_count(&self) -> (res: usize)
        ensures
            res == self.entries().len(),
    {
        self.watches.len()
    }

    /// The watched path at a place, in the order of [`WatchSet::entries`], and its watch.
    pub fn watch_at(&self, i: usize) -> (res: &(FilePath, WatchData<F>))
        requires
            self.wf(),
            i < self.entries().len(),
        ensures
            *res == self.entries()[i as int],
            res.1.wf(),
            may_be_asked(res.1.config().watch_filter),
            res.1.config().follow_symlinks == self.follows_symlinks(),
            components(res.1.config().root) == components(res.0@),
    {
        proof {
            self.watches.lemma_entries();
            lemma_keyed_at(self.watches.entries(), i as int);
        }
        self.watches.entry(i)
    }

    /// Which of the watched paths have to be resolved before a request for a path is decided, in
    /// the order of [`WatchSet::entries`].
    pub fn watches_to_resolve(
        &self,
        watch_path: &WatchPath,
        is_dir: bool,
        watch_filter: &WatchFilter<F>,
    ) -> (res: Vec<bool>)
        ensures
            res@.len() == self.entries().len(),
            forall|i: int|
                0 <= i < res@.len() ==> #[trigger] res@[i] == {
                    let (path, watch) = self.entries()[i];
                    &&& is_dir
                    &&& watch.config().root_is_dir
                    &&& !same_path(watch_path.absolute@, path@)
                    &&& !(watch_filter.accepts_all() && watch.config().watch_filter is None)
                },
    {
        let mut res: Vec<bool> = Vec::new();
        let mut i: usize = 0;
        while i < self.watches.len()
            invariant
                i <= self.watches.entries().len(),
                res@.len() == i,
                forall|j: int|
                    0 <= j < i ==> #[trigger] res@[j] == {
                        let (path, watch) = self.watches.entries()[j];
                        &&& is_dir
                        &&& watch.config().root_is_dir
                        &&& !same_path(watch_path.absolute@, path@)
                        &&& !(watch_filter.accepts_all() && watch.config().watch_filter is None)
                    },
            decreases self.watches.entries().len() - i,
        {
            let (path, data) = self.watches.entry(i);
            let summary = WatchSummary {
                path,
                is_dir: data.root_is_dir(),
                is_recursive: data.recursive_mode().is_recursive(),
                filter: data.watch_filter(),
                resolved: None,
            };
            res.push(needs_resolution(&watch_path.absolute, is_dir, watch_filter, &summary));
            i += 1;
        }
        res
    }

    /// What the overlap barrier needs to know about the watches.
    fn summaries<'a>(&'a self, resolved: &'a Vec<Option<FilePath>>) -> (res: Vec<
        WatchSummary<'a, F>,
    >)
        requires
            resolved@.len() == self.entries().len(),
        ensures
            claims_of(res@) == claims_at(self.entries(), resolved@),
    {
        let mut res: Vec<WatchSummary<'a, F>> = Vec::new();
        let mut i: usize = 0;
        while i < self.watches.len()
            invariant
                i <= self.watches.entries().len(),
                resolved@.len() == self.watches.entries().len(),
                res@.len() == i,
                forall|j: int|
                    0 <= j < i ==> (#[trigger] res@[j]).claim() == claims_at(
                        self.watches.entries(),
                        resolved@,
                    )[j],
            decreases self.watches.entries().len() - i,
        {
            let (path, data) = self.watches.entry(i);
            let candidate = match &resolved[i] {
                Some(p) => Some(p),
                None => None,
            };
            let summary = WatchSummary {
                path,
                is_dir: data.root_is_dir(),
                is_recursive: data.recursive_mode().is_recursive(),
                filter: data.watch_filter(),
                resolved: candidate,
            };
            res.push(summary);
            i += 1;
        }
        assert(claims_of(res@) =~= claims_at(self.entries(), resolved@));
        res
    }

    /// Holds a request to watch a path against the barriers. `probe` is what the file system says
    /// of the path, `resolved` what the watched paths resolve to, in the order of
    /// [`WatchSet::entries`], as far as [`WatchSet::watches_to_resolve`] asks for it.
    ///
    /// Nothing changes yet, whether the request passes or not. One that passes goes on with a first
    /// scan of the path, and with [`WatchSet::finish_watch`].
    pub fn watch_filtered(
        &self,
        watch_path: WatchPath,
        recursive_mode: RecursiveMode,
        watch_filter: WatchFilter<F>,
        probe: &Probe,
        resolved: &Vec<Option<FilePath>>,
    ) -> (res: Result<WatchPlan<F>, Error>)
        requires
            probe.is_dir ==> watch_filter.can_be_asked_of_dir(
                watch_path.absolute@,
                text_of(probe.link_target),
            ),
            resolved@.len() == self.entries().len(),
        ensures
            barriers_decide(
                watch_path.absolute@,
                watch_path.requested@,
                *probe,
                recursive_mode is Recursive && probe.is_dir,
                watch_filter,
                claims_at(self.entries(), resolved@),
                match res {
                    Ok(_) => Ok(()),
                    Err(error) => Err(error),
                },
            ),
            res matches Ok(plan) ==> {
                &&& plan.spec_path() == watch_path
                &&& plan.spec_mode() == recursive_mode
                &&& plan.spec_filter() == watch_filter
            },
    {
        let summaries = self.summaries(resolved);
        let decision = check_watch_barriers(
            &watch_path.absolute,
            &watch_path.requested,
            probe,
            recursive_mode.is_recursive() && probe.is_dir,
            &watch_filter,
            summaries.as_slice(),
        );
        match decision {
            Ok(()) => Ok(WatchPlan { watch_path, recursive_mode, watch_filter }),
            Err(error) => Err(error),
        }
    }

    /// Registers a watch that has passed the barriers; `probed` is what came of the first scan of
    /// its path. A path that could not be looked at is reported and not watched.
    pub fn finish_watch(
        &mut self,
        plan: WatchPlan<F>,
        probed: Result<InitialScan, std::io::Error>,
    )
        requires
            old(self).wf(),
            plan.spec_filter().callable(),
            probed matches Ok(first) ==> met_below(first.met@, plan.spec_path().absolute@),
        ensures
            final(self).wf(),
            final(self).follows_symlinks() == old(self).follows_symlinks(),
            exists|built: Option<WatchData<F>>|
                {
                    &&& #[trigger] watch_built(
                        old(self).builder(),
                        plan.spec_path(),
                        plan.spec_mode() is Recursive,
                        old(self).follows_symlinks(),
                        plan.spec_filter()@,
                        probed,
                        final(self).builder(),
                        built,
                    )
                    &&& final(self).watches() == watches_after(
                        old(self).watches(),
                        plan.spec_path().absolute@,
                        plan.spec_filter()@,
                        built,
                    )
                },
            registered(
                old(self).watches(),
                old(self).follows_symlinks(),
                plan.spec_path(),
                plan.spec_mode(),
                plan.spec_filter()@,
                probed,
                final(self).watches(),
            ),
            forall|key: Seq<Seq<u8>>|
                key != components(plan.spec_path().absolute@) ==> {
                    &&& #[trigger] final(self).watches().dom().contains(key) <==> old(
                        self,
                    ).watches().dom().contains(key)
                    &&& final(self).watches().dom().contains(key) ==> final(self).watches()[key]
                        == old(self).watches()[key]
                },
    {
        let WatchPlan { watch_path, recursive_mode, watch_filter } = plan;
        let absolute = watch_path.absolute.clone();
        let filter_is_accept_all = watch_filter.is_accept_all();
        let built = self.data_builder.build_watch_data(
            watch_path,
            recursive_mode.is_recursive(),
            self.follow_symlinks,
            watch_filter,
            probed,
        );
        let ghost outcome = built;
        assert(watch_built(
            old(self).builder(),
            plan.spec_path(),
            plan.spec_mode() is Recursive,
            old(self).follows_symlinks(),
            plan.spec_filter()@,
            probed,
            self.builder(),
            outcome,
        ));
        match built {
            Some(watch) => {
                self.watches.insert(absolute, watch);
            },
            None => {
                let stale_filter = !filter_is_accept_all || match self.watches.get(&absolute) {
                    Some(existing) => !existing.watch_filter().is_accept_all(),
                    None => false,
                };
                if stale_filter {
                    self.watches.remove(&absolute);
                }
            },
        }
        assert(self.watches@ == watches_after(
            old(self).watches(),
            plan.spec_path().absolute@,
            plan.spec_filter()@,
            outcome,
        ));
    }

    /// Takes over what a scan of the watch at a place met; see [`WatchData::rescan`]. The other
    /// watches, and the order of all of them, stay as they were.
    fn rescan_watch(&mut self, i: usize, met: Vec<Met>)
        requires
            old(self).wf(),
            i < old(self).entries().len(),
            met_below(met@, old(self).entries()[i as int].1.config().root),
        ensures
            final(self).wf(),
            final(self).follows_symlinks() == old(self).follows_symlinks(),
            exists|watch: WatchData<F>| #[trigger]
                set_rescanned(*old(self), i as int, met@, watch, *final(self)),
    {
        proof {
            self.watches.lemma_entries();
            lemma_keyed_at(self.watches.entries(), i as int);
        }
        let watch = self.watches.value_mut(i);
        watch.rescan(&mut self.data_builder, met);
        assert(set_rescanned(
            *old(self),
            i as int,
            met@,
            self.entries()[i as int].1,
            *self,
        ));
    }

    /// Begins to look at all watches, at this time: at a request, or by itself.
    pub fn begin_cycle<R>(&mut self, message: Option<PollMessage<R>>, now: u64) -> (res: Cycle<
        F,
        R,
    >)
        requires
            old(self).wf(),
        ensures
            final(self).wf(),
            final(self).entries() == old(self).entries(),
            final(self).watches() == old(self).watches(),
            final(self).follows_symlinks() == old(self).follows_symlinks(),
            final(self).builder() == (DataBuilder { now, ..old(self).builder() }),
            res.message() == message,
            res.now() == now,
            res.done() == 0,
            res.begun() == old(self).entries(),
            res.is_under_way(*final(self)),
    {
        self.data_builder.update_timestamp(now);
        Cycle {
            message,
            now,
            place: 0,
            begun: Ghost(self.watches.entries()),
            builder: Ghost(self.data_builder),
        }
    }

    /// Takes over what a scan of the next watch met; see [`WatchData::rescan`]. The other watches,
    /// and the order of all of them, stay as they were.
    pub fn rescan_next<R>(&mut self, cycle: &mut Cycle<F, R>, met: Vec<Met>)
        requires
            old(self).wf(),
            old(cycle).is_under_way(*old(self)),
            old(cycle).done() < old(self).entries().len(),
            met_below(met@, old(self).entries()[old(cycle).done()].1.config().root),
        ensures
            final(self).wf(),
            final(self).follows_symlinks() == old(self).follows_symlinks(),
            exists|watch: WatchData<F>| #[trigger]
                set_rescanned(*old(self), old(cycle).done(), met@, watch, *final(self)),
            final(cycle).message() == old(cycle).message(),
            final(cycle).now() == old(cycle).now(),
            final(cycle).begun() == old(cycle).begun(),
            final(cycle).done() == old(cycle).done() + 1,
            final(cycle).is_under_way(*final(self)),
    {
        self.rescan_watch(cycle.place, met);
        proof {
            let i = cycle.place as int;
            assert(cycle.is_at(*old(self), i));
            old(self).watches.lemma_entries();
            let watch = choose|watch: WatchData<F>| #[trigger]
                set_rescanned(*old(self), i, met@, watch, *self);
            let builder = old(self).builder();
            assert(watch_rescanned(
                old(self).entries()[i].1,
                builder,
                met@,
                watch,
                self.builder(),
            ));
            let reports = choose|reports: Seq<Report>|
                {
                    &&& #[trigger] looked_at(
                        old(self).entries()[i].1,
                        builder.emitter.mask(),
                        records_of(met@, builder.compare_contents, builder.now),
                        builder.now,
                        watch,
                        reports,
                    )
                    &&& self.builder().emitter.reports() == builder.emitter.reports()
                        + failures_of(met@) + reports
                };
            assert(looked_at_with(
                cycle.begun()[i],
                cycle.mask(),
                cycle.compares_contents(),
                cycle.now(),
                self.entries()[i],
                met@,
                reports,
            ));
        }
        cycle.place = cycle.place + 1;
        assert forall|j: int| 0 <= j < self.entries().len() implies #[trigger] cycle.is_at(
            *self,
            j,
        ) by {
            assert(old(cycle).is_at(*old(self), j));
        }
    }

    /// Ends a cycle in which all watches were looked at: what is left to be told of it, and whom to
    /// tell, after that, that it is done.
    pub fn finish_cycle<R>(&mut self, cycle: Cycle<F, R>) -> (res: (
        Vec<Result<Event, Error>>,
        Option<R>,
    ))
        requires
            old(self).wf(),
            cycle.is_under_way(*old(self)),
            cycle.done() == old(self).entries().len(),
        ensures
            final(self).wf(),
            final(self).entries() == old(self).entries(),
            final(self).watches() == old(self).watches(),
            final(self).follows_symlinks() == old(self).follows_symlinks(),
            final(self).builder() == (DataBuilder {
                emitter: final(self).builder().emitter,
                ..old(self).builder()
            }),
            final(self).builder().emitter.mask() == old(self).builder().emitter.mask(),
            final(self).builder().emitter.reports() == Seq::<Report>::empty(),
            reports_of(res.0@) == old(self).builder().emitter.reports(),
            res.1 == match cycle.message() {
                Some(PollMessage::PollAndWait(done)) => Some(done),
                _ => None,
            },
            final(self).entries().len() == cycle.begun().len(),
            forall|i: int|
                0 <= i < cycle.begun().len() ==> looked_at_once(
                    cycle.begun()[i],
                    cycle.mask(),
                    cycle.compares_contents(),
                    cycle.now(),
                    #[trigger] final(self).entries()[i],
                ),
    {
        proof {
            assert forall|i: int| 0 <= i < cycle.begun().len() implies looked_at_once(
                cycle.begun()[i],
                cycle.mask(),
                cycle.compares_contents(),
                cycle.now(),
                #[trigger] self.entries()[i],
            ) by {
                assert(cycle.is_at(*self, i));
            }
        }
        let messages = self.data_builder.emitter.take();
        let done = match cycle.message {
            Some(PollMessage::PollAndWait(done)) => Some(done),
            _ => None,
        };
        (messages, done)
    }

    /// Gives up the watch on a path. Fails where the path is not watched, and where it is relative
    /// and the current directory is not known.
    pub fn unwatch(
        &mut self,
        path: &FilePath,
        current_dir: Result<FilePath, std::io::Error>,
    ) -> (res: Result<(), Error>)
        requires
            old(self).wf(),
        ensures
            final(self).wf(),
            final(self).follows_symlinks() == old(self).follows_symlinks(),
            final(self).builder() == old(self).builder(),
            match absolute_text(path@, current_dir) {
                Ok(absolute) => if old(self).watches().dom().contains(components(absolute)) {
                    &&& res is Ok
                    &&& final(self).watches() == old(self).watches().remove(components(absolute))
                } else {
                    &&& res matches Err(error) && error.is(ErrorKind::WatchNotFound, seq![])
                    &&& final(self).watches() == old(self).watches()
                },
                Err(e) => {
                    &&& res matches Err(error) && error.is(ErrorKind::Io(e), seq![])
                    &&& final(self).watches() == old(self).watches()
                },
            },
    {
        let absolute = match absolute_path(path, current_dir) {
            Ok(absolute) => absolute,
            Err(error) => return Err(error),
        };
        match self.watches.remove(&absolute) {
            Some(_) => Ok(()),
            None => {
                assert(self.watches@ =~= old(self).watches@);
                Err(Error::watch_not_found())
            },
        }
    }

    /// What is watched, as the user asked for it: the paths, each with its mode, in the order of
    /// [`WatchSet::entries`].
    pub fn watched_paths(&self) -> (res: Vec<(FilePath, RecursiveMode)>)
        ensures
            watched_view(res@) == self.entries().map_values(
                |e: (FilePath, WatchData<F>)| asked_for(e.1.config()),
            ),
    {
        let mut res: Vec<(FilePath, RecursiveMode)> = Vec::new();
        let mut i: usize = 0;
        while i < self.watches.len()
            invariant
                i <= self.watches.entries().len(),
                res@.len() == i,
                forall|j: int|
                    0 <= j < i ==> ((#[trigger] res@[j]).0@, res@[j].1) == asked_for(
                        self.watches.entries()[j].1.config(),
                    ),
            decreases self.watches.entries().len() - i,
        {
            let watch = &self.watches.entry(i).1;
            res.push((watch.requested_root().clone(), watch.recursive_mode()));
            i += 1;
        }
        assert(watched_view(res@) =~= self.entries().map_values(
            |e: (FilePath, WatchData<F>)| asked_for(e.1.config()),
        ));
        res
    }
}

/// A scan with these findings leads from one watch to the other: the same path, in the same place,
/// looked at once.
pub open spec fn looked_at_with<F>(
    before: (FilePath, WatchData<F>),
    mask: u32,
    compare_contents: bool,
    now: u64,
    after: (FilePath, WatchData<F>),
    met: Seq<Met>,
    reports: Seq<Report>,
) -> bool {
    &&& after.0 == before.0
    &&& looked_at(
        before.1,
        mask,
        records_of(met, compare_contents, now),
        now,
        after.1,
        reports,
    )
}

/// One scan at this time, whatever it met, leads from one watch to the other.
pub open spec fn looked_at_once<F>(
    before: (FilePath, WatchData<F>),
    mask: u32,
    compare_contents: bool,
    now: u64,
    after: (FilePath, WatchData<F>),
) -> bool {
    exists|met: Seq<Met>, reports: Seq<Report>| #[trigger]
        looked_at_with(before, mask, compare_contents, now, after, met, reports)
}

/// What a scan of the watch at `i` makes of the watches, with `watch` in its place afterwards: the
/// others stay as they were.
pub open spec fn set_rescanned<F: Fn(&FilePath) -> bool>(
    before: WatchSet<F>,
    i: int,
    met: Seq<Met>,
    watch: WatchData<F>,
    after: WatchSet<F>,
) -> bool {
    let path = before.entries()[i].0;
    &&& watch_rescanned(before.entries()[i].1, before.builder(), met, watch, after.builder())
    &&& after.entries() == before.entries().update(i, (path, watch))
    &&& after.watches() == entered(before.watches(), path@, watch)
}

/// A look at all watches, one after the other, that is under way.
///
/// `R` is the type of those who wait for it to be done.
pub struct Cycle<F, R> {
    message: Option<PollMessage<R>>,
    now: u64,
    place: usize,
    begun: Ghost<Seq<(FilePath, WatchData<F>)>>,
    builder: Ghost<DataBuilder>,
}

impl<F: Fn(&FilePath) -> bool, R> Cycle<F, R> {
    /// The request that it was begun at, if it was begun at one.
    pub closed spec fn message(self) -> Option<PollMessage<R>> {
        self.message
    }

    /// The time at which it takes place.
    pub closed spec fn now(self) -> u64 {
        self.now
    }

    /// How many watches were looked at.
    pub closed spec fn done(self) -> int {
        self.place as int
    }

    /// The watches as they were when it was begun.
    pub closed spec fn begun(self) -> Seq<(FilePath, WatchData<F>)> {
        self.begun@
    }

    /// The mask that events have to pass.
    pub closed spec fn mask(self) -> u32 {
        self.builder@.emitter.mask()
    }

    /// Contents are compared.
    pub closed spec fn compares_contents(self) -> bool {
        self.builder@.compare_contents
    }

    /// The watch at `i` was looked at once, or not yet.
    pub open spec fn is_at(self, watch_set: WatchSet<F>, i: int) -> bool {
        if i < self.done() {
            looked_at_once(
                self.begun()[i],
                self.mask(),
                self.compares_contents(),
                self.now(),
                watch_set.entries()[i],
            )
        } else {
            watch_set.entries()[i] == self.begun()[i]
        }
    }

    /// The watches that were looked at were looked at once, at the time of the cycle; the others
    /// are as they were when it was begun.
    pub open spec fn is_under_way(self, watch_set: WatchSet<F>) -> bool {
        &&& watch_set.builder().now == self.now()
        &&& watch_set.builder().compare_contents == self.compares_contents()
        &&& watch_set.builder().emitter.mask() == self.mask()
        &&& watch_set.entries().len() == self.begun().len()
        &&& 0 <= self.done() <= watch_set.entries().len()
        &&& forall|i: int|
            0 <= i < watch_set.entries().len() ==> #[trigger] self.is_at(watch_set, i)
    }

    /// How many watches were looked at: the place of the one that is next.
    pub fn place(&self) -> (res: usize)
        ensures
            res == self.done(),
    {
        self.place
    }
}

/// A watcher that looks at the watched files again and again, and compares what it finds with
/// what it found before: write times, and contents if it is told to.
///
/// `F` is the type of the filters' predicates, `R` that of those who wait for a scan to be done.
/// The two parts can be held apart, so that a scan can be asked for while another is under way.
#[derive(Debug)]
pub struct PollWatcher<F, R> {
    /// What is watched.
    pub watch_set: WatchSet<F>,
    /// When it is looked at.
    pub poll_loop: PollLoop<R>,
}

impl<F: Fn(&FilePath) -> bool, R> PollWatcher<F, R> {
    /// The watcher watches nothing and has nothing to tell, and its loop is about to run.
    pub open spec fn starts(self, config: Config, has_scan_handler: bool, now: u64) -> bool {
        &&& self.watch_set.starts(config, has_scan_handler, now)
        &&& self.poll_loop@ == (LoopState {
            requests: Seq::<PollMessage<R>>::empty(),
            delay: config.poll_interval,
            fresh: true,
            stopping: false,
            running: true,
        })
    }

    /// A watcher without watches. Nobody is told of the paths met on first scans.
    pub fn new(config: Config, now: u64) -> (res: Result<Self, Error>)
        ensures
            res matches Ok(watcher) && watcher.starts(config, false, now),
    {
        Self::with_opt(config, false, now)
    }

    /// A watcher without watches. The paths met on first scans are to be told of.
    pub fn with_initial_scan(config: Config, now: u64) -> (res: Result<Self, Error>)
        ensures
            res matches Ok(watcher) && watcher.starts(config, true, now),
    {
        Self::with_opt(config, true, now)
    }

    /// A watcher without watches. Its loop is about to run.
    pub fn with_opt(config: Config, has_scan_handler: bool, now: u64) -> (res: Result<Self, Error>)
        ensures
            res matches Ok(watcher) && watcher.starts(config, has_scan_handler, now),
    {
        Ok(
            PollWatcher {
                watch_set: WatchSet::new(&config, has_scan_handler, now),
                poll_loop: PollLoop::new(config.poll_interval),
            },
        )
    }

    /// Asks for a scan; see [`PollLoop::request`].
    pub fn poll(&mut self) -> (res: Result<(), Error>)
        ensures
            final(self).watch_set == old(self).watch_set,
            requested(old(self).poll_loop@, PollMessage::Poll, final(self).poll_loop@, res),
    {
        self.poll_loop.request(PollMessage::Poll)
    }

    /// Asks for a scan; see [`PollLoop::request`]. `done` is told when the cycle at this request
    /// has ended, which is after every watch was looked at; see [`WatchSet::finish_cycle`]. The
    /// caller waits for that and goes on with [`PollWatcher::poll_outcome`].
    pub fn poll_blocking(&mut self, done: R) -> (res: Result<(), Error>)
        ensures
            final(self).watch_set == old(self).watch_set,
            requested(
                old(self).poll_loop@,
                PollMessage::PollAndWait(done),
                final(self).poll_loop@,
                res,
            ),
    {
        self.poll_loop.request(PollMessage::PollAndWait(done))
    }

    /// What came of a scan that somebody waited for; `None` where the loop ended without an
    /// answer.
    pub fn poll_outcome(answer: Option<Result<(), Error>>) -> (res: Result<(), Error>)
        ensures
            match answer {
                Some(outcome) => res == outcome,
                None => res matches Err(error) && error.is_generic("poll thread disconnected"@),
            },
    {
        match answer {
            Some(outcome) => outcome,
            None => Err(Error::generic("poll thread disconnected")),
        }
    }

    /// The kind of this watcher.
    pub fn kind() -> (res: WatcherKind)
        ensures
            res == WatcherKind::PollWatcher,
    {
        WatcherKind::PollWatcher
    }
}

} // verus!
