//! Watched paths: how they are named in reports, and which watches may stand side by side.

use vstd::prelude::*;

use crate::error::{Error, ErrorKind};
use crate::filter::WatchFilter;
use crate::path::{
    components, head_text, is_rooted, joined, same_path, tail_text, under, FilePath,
};

verus! {

/// A path to watch, as it was asked for and as it stands in the file system.
#[derive(Debug)]
pub struct WatchPath {
    /// The path from the root of the file system.
    pub absolute: FilePath,
    /// The path as the user gave it.
    pub requested: FilePath,
}

/// How a path at or below a watched root is reported: below the root as the user gave it, and the
/// root itself as the user gave it.
pub open spec fn reported_text(
    root_absolute: Seq<u8>,
    root_requested: Seq<u8>,
    path: Seq<u8>,
) -> Seq<u8> {
    let rest = tail_text(path, components(root_absolute).len() as int);
    if under(path, root_absolute) && rest.len() > 0 {
        joined(root_requested, rest)
    } else {
        root_requested
    }
}

/// The path from the root of the file system, where it can be told.
pub open spec fn absolute_text(
    path: Seq<u8>,
    current_dir: Result<FilePath, std::io::Error>,
) -> Result<Seq<u8>, std::io::Error> {
    if is_rooted(path) {
        Ok(path)
    } else {
        match current_dir {
            Ok(dir) => Ok(joined(dir@, path)),
            Err(e) => Err(e),
        }
    }
}

/// The path from the root of the file system. `current_dir` is asked for only where `path` does
/// not start there.
pub fn absolute_path(
    path: &FilePath,
    current_dir: Result<FilePath, std::io::Error>,
) -> (res: Result<FilePath, Error>)
    ensures
        match absolute_text(path@, current_dir) {
            Ok(text) => res matches Ok(absolute) && absolute@ == text,
            Err(e) => res matches Err(error) && error.is(ErrorKind::Io(e), seq![]),
        },
        (path@.len() > 0 && path@[0] == 0x2f) ==> (res matches Ok(absolute) && absolute@ == path@),
        (!(path@.len() > 0 && path@[0] == 0x2f) && current_dir is Ok) ==> (
        res matches Ok(absolute) && absolute@ == joined(current_dir->Ok_0@, path@)),
        (!(path@.len() > 0 && path@[0] == 0x2f) && current_dir is Err) ==> (
        res matches Err(error) && error.kind == ErrorKind::Io(current_dir->Err_0)),
{
    if path.is_absolute() {
        Ok(path.clone())
    } else {
        match current_dir {
            Ok(dir) => Ok(dir.join(path)),
            Err(e) => Err(Error::io(e)),
        }
    }
}

/// How `path`, which lies at or below a watched root, is reported to the user.
pub fn reported_path(
    root_absolute: &FilePath,
    root_requested: &FilePath,
    path: &FilePath,
) -> (res: FilePath)
    requires
        under(path@, root_absolute@),
    ensures
        res@ == reported_text(root_absolute@, root_requested@, path@),
{
    match path.strip_prefix(root_absolute) {
        Some(relative) => if relative.as_bytes().len() > 0 {
            root_requested.join(&relative)
        } else {
            root_requested.clone()
        },
        None => root_requested.clone(),
    }
}

impl Clone for WatchPath {
    fn clone(&self) -> (res: Self)
        ensures
            res.absolute@ == self.absolute@,
            res.requested@ == self.requested@,
    {
        WatchPath { absolute: self.absolute.clone(), requested: self.requested.clone() }
    }
}

impl WatchPath {
    /// The watched path for a request; fails where the path is relative and the current
    /// directory is not known.
    pub fn new(path: &FilePath, current_dir: Result<FilePath, std::io::Error>) -> (res: Result<
        Self,
        Error,
    >)
        ensures
            match absolute_text(path@, current_dir) {
                Ok(text) => res matches Ok(watch) && watch.absolute@ == text && watch.requested@
                    == path@,
                Err(e) => res matches Err(error) && error.is(ErrorKind::Io(e), seq![]),
            },
    {
        match absolute_path(path, current_dir) {
            Ok(absolute) => Ok(WatchPath { absolute, requested: path.clone() }),
            Err(error) => Err(error),
        }
    }

    /// The watched path with these two forms.
    pub fn from_parts(absolute: FilePath, requested: FilePath) -> (res: Self)
        ensures
            res.absolute == absolute,
            res.requested == requested,
    {
        WatchPath { absolute, requested }
    }

    /// A path below this one, which is reported below this one's requested form.
    pub fn child(&self, path: FilePath) -> (res: Self)
        requires
            under(path@, self.absolute@),
        ensures
            res.absolute == path,
            res.requested@ == reported_text(self.absolute@, self.requested@, path@),
    {
        let requested = reported_path(&self.absolute, &self.requested, &path);
        Self::from_parts(path, requested)
    }
}

/// What a backend remembers of one watched path.
#[derive(Debug)]
pub struct WatchMetadata<F> {
    /// The path is a directory.
    pub is_dir: bool,
    /// Everything below the path is watched too, for whatever reason.
    pub is_recursive: bool,
    /// The form in which the path is reported.
    pub reported_path: FilePath,
    /// The user asked for this very path.
    pub is_user_watch: bool,
    /// The user asked for everything below the path.
    pub user_is_recursive: bool,
    /// The filter governing this entry: the one the user asked for, or that of the root whose
    /// walk added the entry. Filtered watches are kept disjoint, so one filter is enough.
    pub watch_filter: WatchFilter<F>,
}

/// What the file system says about a path that is to be watched.
#[derive(Debug)]
pub struct Probe {
    /// The path leads to a directory.
    pub is_dir: bool,
    /// Where the path leads, if it is a symlink that leads anywhere.
    pub link_target: Option<FilePath>,
    /// The path with every symlink and every `..` resolved, if it can be resolved.
    pub resolved: Option<FilePath>,
}

/// The text of a path that may be missing.
pub open spec fn text_of(path: Option<FilePath>) -> Option<Seq<u8>> {
    match path {
        Some(p) => Some(p@),
        None => None,
    }
}

/// The region of the file system that a user watch lays claim to.
pub struct Claim {
    pub path: Seq<u8>,
    pub resolved: Option<Seq<u8>>,
    pub is_dir: bool,
    pub is_recursive: bool,
    pub filtered: bool,
}

impl Claim {
    /// The two paths by which two claims are compared: the resolved ones where both resolve, else
    /// both as they are written.
    pub open spec fn compared(self, other: Claim) -> (Seq<u8>, Seq<u8>) {
        match (self.resolved, other.resolved) {
            (Some(a), Some(b)) => (a, b),
            _ => (self.path, other.path),
        }
    }

    /// One of the two covers the other: it is recursive and the other lies at or below it.
    pub open spec fn overlaps(self, other: Claim) -> bool {
        let (a, b) = self.compared(other);
        (other.is_recursive && under(a, b)) || (self.is_recursive && under(b, a))
    }

    /// Whether one of the two covers the other has to be known: both are directories, a filter is
    /// involved, and the one is not a renewal of the other.
    pub open spec fn concerns(self, other: Claim) -> bool {
        &&& self.is_dir
        &&& other.is_dir
        &&& !same_path(self.path, other.path)
        &&& (self.filtered || other.filtered)
    }

    /// The two cannot both be granted.
    pub open spec fn conflicts(self, other: Claim) -> bool {
        self.concerns(other) && self.overlaps(other)
    }
}

/// What the overlap barrier needs to know about a user watch that is already registered.
#[derive(Debug)]
pub struct WatchSummary<'a, F> {
    /// The watched path.
    pub path: &'a FilePath,
    /// The path is a directory.
    pub is_dir: bool,
    /// Everything below the path is watched.
    pub is_recursive: bool,
    /// The filter of the watch.
    pub filter: &'a WatchFilter<F>,
    /// What the path resolves to, if it can be resolved.
    pub resolved: Option<&'a FilePath>,
}

impl<'a, F: Fn(&FilePath) -> bool> WatchSummary<'a, F> {
    /// What the watch lays claim to.
    pub open spec fn claim(self) -> Claim {
        Claim {
            path: self.path@,
            resolved: match self.resolved {
                Some(p) => Some(p@),
                None => None,
            },
            is_dir: self.is_dir,
            is_recursive: self.is_recursive,
            filtered: !self.filter.accepts_all(),
        }
    }
}

impl<F: Fn(&FilePath) -> bool> WatchMetadata<F> {
    /// What the overlap barrier needs to know about this entry, which stands at `path`.
    pub fn summary<'a>(
        &'a self,
        path: &'a FilePath,
        resolved: Option<&'a FilePath>,
    ) -> (res: WatchSummary<'a, F>)
        ensures
            res.path == path,
            res.is_dir == self.is_dir,
            res.is_recursive == self.user_is_recursive,
            *res.filter == self.watch_filter,
            res.resolved == resolved,
    {
        WatchSummary {
            path,
            is_dir: self.is_dir,
            is_recursive: self.user_is_recursive,
            filter: &self.watch_filter,
            resolved,
        }
    }

    /// The entry for `path`, merged with the one that stands there already. What the user asked
    /// for is not disturbed by an entry that the user did not ask for.
    pub fn new(
        path: &WatchPath,
        is_dir: bool,
        is_recursive: bool,
        is_user_watch: bool,
        existing_watch: Option<&Self>,
        watch_filter: WatchFilter<F>,
    ) -> (res: Self)
        ensures
            res.is_dir == is_dir,
            res.is_recursive == (is_recursive || (existing_watch matches Some(w)
                && w.is_recursive)),
            res.is_user_watch == (is_user_watch || (existing_watch matches Some(w)
                && w.is_user_watch)),
            res.user_is_recursive == if is_user_watch {
                is_recursive
            } else {
                existing_watch matches Some(w) && w.user_is_recursive
            },
            match existing_watch {
                Some(w) if !is_user_watch && w.is_user_watch => {
                    res.reported_path@ == w.reported_path@ && res.watch_filter@ == w.watch_filter@
                },
                _ => res.reported_path@ == path.requested@ && res.watch_filter@ == watch_filter@,
            },
    {
        let mut was_recursive = false;
        let mut was_user_watch = false;
        let mut was_user_recursive = false;
        let mut reported_path = path.requested.clone();
        let mut filter = watch_filter;
        match existing_watch {
            Some(existing) => {
                was_recursive = existing.is_recursive;
                was_user_watch = existing.is_user_watch;
                was_user_recursive = existing.user_is_recursive;
                if !is_user_watch && existing.is_user_watch {
                    reported_path = existing.reported_path.clone();
                    filter = existing.watch_filter.clone();
                }
            },
            None => {},
        }
        WatchMetadata {
            is_dir,
            is_recursive: is_recursive || was_recursive,
            reported_path,
            is_user_watch: is_user_watch || was_user_watch,
            user_is_recursive: if is_user_watch {
                is_recursive
            } else {
                was_user_recursive
            },
            watch_filter: filter,
        }
    }

    /// Whether a user who asks for the path again, in this way, asks for exactly what stands
    /// there already. Two predicates cannot be compared, so a watch with a filter is never taken
    /// for unchanged.
    pub fn rewatch_is_noop(
        &self,
        path: &WatchPath,
        requested_is_recursive: bool,
        watch_filter: &WatchFilter<F>,
    ) -> (res: bool)
        ensures
            res == {
                &&& self.user_is_recursive == requested_is_recursive
                &&& same_path(self.reported_path@, path.requested@)
                &&& self.watch_filter.accepts_all()
                &&& watch_filter.accepts_all()
            },
    {
        self.user_is_recursive == requested_is_recursive && self.reported_path.same_as(
            &path.requested,
        ) && self.watch_filter.is_accept_all() && watch_filter.is_accept_all()
    }
}

/// Whether the barrier has to know what the paths of a request and of a registered watch resolve
/// to. It does not for a file, for a renewal of the same watch, or between two watches without a
/// filter, so a watcher whose watches are all unfiltered never resolves anything.
pub fn needs_resolution<'a, F: Fn(&FilePath) -> bool>(
    absolute: &FilePath,
    is_dir: bool,
    watch_filter: &WatchFilter<F>,
    candidate: &WatchSummary<'a, F>,
) -> (res: bool)
    ensures
        res == {
            &&& is_dir
            &&& candidate.is_dir
            &&& !same_path(absolute@, candidate.path@)
            &&& !(watch_filter.accepts_all() && candidate.filter.accepts_all())
        },
{
    is_dir && candidate.is_dir && !absolute.same_as(candidate.path) && !(
    watch_filter.is_accept_all() && candidate.filter.is_accept_all())
}

/// What a request lays claim to.
pub open spec fn request_claim<F: Fn(&FilePath) -> bool>(
    absolute: Seq<u8>,
    probe: Probe,
    is_recursive: bool,
    watch_filter: WatchFilter<F>,
) -> Claim {
    Claim {
        path: absolute,
        resolved: text_of(probe.resolved),
        is_dir: probe.is_dir,
        is_recursive,
        filtered: !watch_filter.accepts_all(),
    }
}

/// What a list of watches lays claim to.
pub open spec fn claims_of<F: Fn(&FilePath) -> bool>(watches: Seq<WatchSummary<F>>) -> Seq<Claim> {
    watches.map_values(|w: WatchSummary<F>| w.claim())
}

/// The claim at `i` is the first that the request conflicts with.
pub open spec fn first_conflict(request: Claim, claims: Seq<Claim>, i: int) -> bool {
    &&& 0 <= i < claims.len()
    &&& request.conflicts(claims[i])
    &&& forall|j: int| 0 <= j < i ==> !request.conflicts(#[trigger] claims[j])
}

/// What the overlap barrier decides: a request is refused for the first claim that it conflicts
/// with, naming both paths, and passes if there is none.
pub open spec fn overlap_decides(
    request: Claim,
    requested: Seq<u8>,
    claims: Seq<Claim>,
    decision: Result<(), Error>,
) -> bool {
    match decision {
        Ok(()) => forall|i: int|
            0 <= i < claims.len() ==> !request.conflicts(#[trigger] claims[i]),
        Err(error) => exists|i: int|
            #[trigger] first_conflict(request, claims, i) && error.is(
                ErrorKind::WatchOverlap,
                seq![requested, claims[i].path],
            ),
    }
}

/// The watch stands in the way of a request: both are directories, at different paths; one of them
/// has a filter; and one of them is recursive and has the other at or below it.
pub open spec fn stands_in_the_way<F: Fn(&FilePath) -> bool>(
    absolute: Seq<u8>,
    probe: Probe,
    is_recursive: bool,
    filtered: bool,
    watch: WatchSummary<F>,
) -> bool {
    let both_resolve = probe.resolved is Some && watch.resolved is Some;
    let new = if both_resolve {
        components(probe.resolved->0@)
    } else {
        components(absolute)
    };
    let existing = if both_resolve {
        components(watch.resolved->0@)
    } else {
        components(watch.path@)
    };
    &&& probe.is_dir
    &&& watch.is_dir
    &&& components(absolute) != components(watch.path@)
    &&& filtered || watch.filter@ is Some
    &&& (watch.is_recursive && existing.is_prefix_of(new)) || (is_recursive
        && new.is_prefix_of(existing))
}

/// Refuses a directory watch that overlaps a registered directory watch, in either direction,
/// where one of the two has a filter: filters are never merged across watches. Watches without a
/// filter may overlap, and a watch on a file never conflicts.
///
/// Resolved paths are compared, so that two names of one directory count as one. Where one of the
/// two does not resolve, as a watched directory that was deleted does not, the paths are compared
/// as they are written, so that a watch keeps its region until it is given up.
pub fn check_overlap_barrier<'a, F: Fn(&FilePath) -> bool>(
    absolute: &FilePath,
    requested: &FilePath,
    probe: &Probe,
    is_recursive: bool,
    watch_filter: &WatchFilter<F>,
    user_watches: &[WatchSummary<'a, F>],
) -> (res: Result<(), Error>)
    ensures
        overlap_decides(
            request_claim(absolute@, *probe, is_recursive, *watch_filter),
            requested@,
            claims_of(user_watches@),
            res,
        ),
        res is Err <==> exists|i: int|
            0 <= i < user_watches@.len() && stands_in_the_way(
                absolute@,
                *probe,
                is_recursive,
                watch_filter@ is Some,
                #[trigger] user_watches@[i],
            ),
        res matches Err(error) ==> error.kind == ErrorKind::WatchOverlap && error.paths@.len() == 2
            && error.paths@[0]@ == requested@,
{
    let ghost request = request_claim(absolute@, *probe, is_recursive, *watch_filter);
    let ghost claims = claims_of(user_watches@);
    let mut i: usize = 0;
    while i < user_watches.len()
        invariant
            i <= user_watches.len(),
            request == request_claim(absolute@, *probe, is_recursive, *watch_filter),
            claims == claims_of(user_watches@),
            forall|j: int| 0 <= j < i ==> !request.conflicts(#[trigger] claims[j]),
        decreases user_watches.len() - i,
    {
        let candidate = &user_watches[i];
        if needs_resolution(absolute, probe.is_dir, watch_filter, candidate) {
            let (new, existing) = match (&probe.resolved, candidate.resolved) {
                (Some(new), Some(existing)) => (new, existing),
                _ => (absolute, candidate.path),
            };
            assert(claims[i as int] == candidate.claim());
            assert((new@, existing@) == request.compared(candidate.claim()));
            if (candidate.is_recursive && new.starts_with(existing)) || (is_recursive
                && existing.starts_with(new)) {
                let error = Error::watch_overlap().add_path(requested.clone()).add_path(
                    candidate.path.clone(),
                );
                assert(first_conflict(request, claims, i as int));
                assert(Seq::<Seq<u8>>::empty().push(requested@).push(candidate.path@) =~= seq![
                    requested@,
                    candidate.path@,
                ]);
                assert(error.is(ErrorKind::WatchOverlap, seq![requested@, claims[i as int].path]));
                return Err(error);
            }
        }
        i += 1;
    }
    proof {
        assert forall|j: int| 0 <= j < user_watches@.len() implies !stands_in_the_way(
            absolute@,
            *probe,
            is_recursive,
            watch_filter@ is Some,
            #[trigger] user_watches@[j],
        ) by {
            assert(claims[j] == user_watches@[j].claim());
        }
    }
    Ok(())
}

/// Holds a user's request to watch a path against both barriers, before anything is changed: a
/// directory that the request's own filter rejects is refused, and so is a filtered directory
/// watch that overlaps another one.
pub fn check_watch_barriers<'a, F: Fn(&FilePath) -> bool>(
    absolute: &FilePath,
    requested: &FilePath,
    probe: &Probe,
    is_recursive: bool,
    watch_filter: &WatchFilter<F>,
    user_watches: &[WatchSummary<'a, F>],
) -> (res: Result<(), Error>)
    requires
        probe.is_dir ==> watch_filter.can_be_asked_of_dir(absolute@, text_of(probe.link_target)),
    ensures
        barriers_decide(
            absolute@,
            requested@,
            *probe,
            is_recursive,
            *watch_filter,
            claims_of(user_watches@),
            res,
        ),
        !probe.is_dir ==> res is Ok,
        probe.is_dir && (exists|i: int|
            0 <= i < user_watches@.len() && stands_in_the_way(
                absolute@,
                *probe,
                is_recursive,
                watch_filter@ is Some,
                #[trigger] user_watches@[i],
            )) ==> res is Err,
        watch_filter@ is None && !(exists|i: int|
            0 <= i < user_watches@.len() && stands_in_the_way(
                absolute@,
                *probe,
                is_recursive,
                watch_filter@ is Some,
                #[trigger] user_watches@[i],
            )) ==> res is Ok,
{
    if !probe.is_dir {
        return Ok(());
    }
    let target = match &probe.link_target {
        Some(target) => Some(target),
        None => None,
    };
    if !watch_filter.allows_dir(absolute, target) {
        let error = Error::path_excluded().add_path(requested.clone());
        assert(seq![requested@] =~= Seq::<Seq<u8>>::empty().push(requested@));
        return Err(error);
    }
    check_overlap_barrier(absolute, requested, probe, is_recursive, watch_filter, user_watches)
}

/// The barriers may decide a request in this way. A file passes. A directory that the filter may
/// reject may be refused as excluded, naming the requested path; one that the filter may accept is
/// left to the overlap barrier.
pub open spec fn barriers_decide<F: Fn(&FilePath) -> bool>(
    absolute: Seq<u8>,
    requested: Seq<u8>,
    probe: Probe,
    is_recursive: bool,
    watch_filter: WatchFilter<F>,
    claims: Seq<Claim>,
    decision: Result<(), Error>,
) -> bool {
    let request = request_claim(absolute, probe, is_recursive, watch_filter);
    let target = text_of(probe.link_target);
    if probe.is_dir {
        ||| {
            &&& watch_filter.may_decide_dir(absolute, target, false)
            &&& decision matches Err(error) && error.is(ErrorKind::PathExcluded, seq![requested])
        }
        ||| {
            &&& watch_filter.may_decide_dir(absolute, target, true)
            &&& overlap_decides(request, requested, claims, decision)
        }
    } else {
        decision is Ok
    }
}

/// The filter may allow (or hold back) an event at `path` under the watched `root`: every
/// directory strictly between the two may be accepted (or one of them may be rejected). A path
/// that is not below the root has no such directory.
pub open spec fn may_allow_event<F: Fn(&FilePath) -> bool>(
    filter: WatchFilter<F>,
    root: Seq<u8>,
    path: Seq<u8>,
    answer: bool,
) -> bool {
    let from = components(root).len() as int;
    let to = components(path).len() as int;
    if answer {
        filter.accepts_all() || !under(path, root) || forall|k: int|
            from < k < to ==> filter.may_answer(#[trigger] head_text(path, k), true)
    } else {
        !filter.accepts_all() && under(path, root) && exists|k: int|
            from < k < to && filter.may_answer(#[trigger] head_text(path, k), false)
    }
}

/// The filter can be asked about every directory strictly between the watched `root` and `path`. A
/// path that is not below the root has no such directory.
pub open spec fn can_be_asked_between<F: Fn(&FilePath) -> bool>(
    filter: WatchFilter<F>,
    root: Seq<u8>,
    path: Seq<u8>,
) -> bool {
    under(path, root) ==> forall|k: int|
        components(root).len() < k < components(path).len() ==> filter.can_be_asked(
            #[trigger] head_text(path, k),
        )
}

/// The filter at the time of an event, for backends that cannot leave directories out when they
/// watch: an event is allowed unless a directory between the root and the path is rejected. An
/// event on a rejected directory itself is allowed.
///
/// The filter is asked about the directories strictly between the two, and about nothing else.
pub fn filter_allows_event_under<F: Fn(&FilePath) -> bool>(
    filter: &WatchFilter<F>,
    root: &FilePath,
    path: &FilePath,
) -> (res: bool)
    requires
        can_be_asked_between(*filter, root@, path@),
    ensures
        may_allow_event(*filter, root@, path@, res),
{
    if filter.is_accept_all() || !path.starts_with(root) {
        return true;
    }
    let from: usize = root.component_count();
    let to: usize = path.component_count();
    let mut k: usize = to;
    while k > from && k - 1 > from
        invariant
            from <= k <= to,
            from == components(root@).len(),
            to == components(path@).len(),
            can_be_asked_between(*filter, root@, path@),
            !filter.accepts_all(),
            under(path@, root@),
            forall|j: int| k <= j < to ==> filter.may_answer(#[trigger] head_text(path@, j), true),
        decreases k,
    {
        k -= 1;
        let ancestor = path.head(k);
        assert(filter.can_be_asked(head_text(path@, k as int)));
        if !filter.should_watch(&ancestor) {
            assert(filter.may_answer(head_text(path@, k as int), false));
            return false;
        }
    }
    true
}

/// Where a symlink met on a walk leads.
#[derive(Debug)]
pub struct LinkTarget {
    /// To a directory.
    pub is_dir: bool,
    /// To this path, if the link can be resolved.
    pub resolved: Option<FilePath>,
}

/// An entry met on a walk through a directory tree.
#[derive(Debug)]
pub struct WalkEntry {
    /// The path of the entry.
    pub path: FilePath,
    /// How far below the root of the walk it lies.
    pub depth: usize,
    /// The walk takes the entry for a directory. A symlink that is not followed is none.
    pub is_dir: bool,
    /// Where the entry leads, if it is a symlink.
    pub link: Option<LinkTarget>,
}

impl WalkEntry {
    /// The entry is a directory, or a symlink that leads to one.
    pub open spec fn leads_to_dir(self) -> bool {
        self.is_dir || (self.link matches Some(link) && link.is_dir)
    }

    /// What the entry resolves to, if it is a symlink.
    pub open spec fn target(self) -> Option<Seq<u8>> {
        match self.link {
            Some(link) => text_of(link.resolved),
            None => None,
        }
    }
}

/// Whether the walk has opened the entry, so that what it will list next lies below it. It opens
/// directories, and the root of the walk even where that is a symlink that is not followed.
/// Skipping on an entry that was not opened would lose the rest of its parent instead.
pub fn walkdir_descended_into(entry: &WalkEntry) -> (res: bool)
    ensures
        res == (entry.is_dir || entry.depth == 0),
{
    entry.is_dir || entry.depth == 0
}

/// The filter may keep (or drop) an entry of a walk: it is asked only about what leads to a
/// directory.
pub open spec fn may_keep_entry<F: Fn(&FilePath) -> bool>(
    filter: WatchFilter<F>,
    entry: WalkEntry,
    answer: bool,
) -> bool {
    if filter.accepts_all() || !entry.leads_to_dir() {
        answer
    } else {
        filter.may_decide_dir(entry.path@, entry.target(), answer)
    }
}

/// Whether a walk goes on below the entry: files always pass, and directories pass where the
/// filter accepts them. A symlink that leads to a directory counts as one even where it is not
/// followed, since the walk opens such a link if it is the root. The filter is asked about nothing
/// that does not lead to a directory.
pub fn filter_keeps_walk_entry<F: Fn(&FilePath) -> bool>(
    filter: &WatchFilter<F>,
    entry: &WalkEntry,
) -> (res: bool)
    requires
        entry.leads_to_dir() ==> filter.can_be_asked_of_dir(entry.path@, entry.target()),
    ensures
        may_keep_entry(*filter, *entry, res),
{
    if filter.is_accept_all() {
        return true;
    }
    match &entry.link {
        Some(link) => if entry.is_dir || link.is_dir {
            match &link.resolved {
                Some(resolved) => filter.allows_dir(&entry.path, Some(resolved)),
                None => filter.allows_dir(&entry.path, None),
            }
        } else {
            true
        },
        None => !entry.is_dir || filter.allows_dir(&entry.path, None),
    }
}

/// The root, with its mode, covers the path.
pub open spec fn root_covers(root: (FilePath, bool), path: Seq<u8>) -> bool {
    same_path(path, root.0@) || (root.1 && under(path, root.0@))
}

/// One of the roots is the path with these components, or is recursive and has it below.
pub open spec fn some_root_covers(roots: Seq<(FilePath, bool)>, key: Seq<Seq<u8>>) -> bool {
    exists|i: int|
        0 <= i < roots.len() && (components((#[trigger] roots[i]).0@) == key || (roots[i].1
            && components(roots[i].0@).is_prefix_of(key)))
}

/// The mode of the first preserved root that covers `path`.
pub fn preserved_watch_mode(path: &FilePath, preserved_roots: &[(FilePath, bool)]) -> (res: Option<
    bool,
>)
    ensures
        match res {
            Some(mode) => exists|i: int|
                {
                    &&& 0 <= i < preserved_roots@.len()
                    &&& root_covers(#[trigger] preserved_roots@[i], path@)
                    &&& mode == preserved_roots@[i].1
                    &&& forall|j: int|
                        0 <= j < i ==> !root_covers(#[trigger] preserved_roots@[j], path@)
                },
            None => forall|i: int|
                0 <= i < preserved_roots@.len() ==> !root_covers(
                    #[trigger] preserved_roots@[i],
                    path@,
                ),
        },
        res is Some <==> some_root_covers(preserved_roots@, components(path@)),
{
    let mut i: usize = 0;
    while i < preserved_roots.len()
        invariant
            i <= preserved_roots.len(),
            forall|j: int| 0 <= j < i ==> !root_covers(#[trigger] preserved_roots@[j], path@),
        decreases preserved_roots.len() - i,
    {
        let root = &preserved_roots[i];
        if path.same_as(&root.0) || (root.1 && path.starts_with(&root.0)) {
            assert(root_covers(preserved_roots@[i as int], path@));
            assert(components(preserved_roots@[i as int].0@) == components(path@) || (
            preserved_roots@[i as int].1 && components(
                preserved_roots@[i as int].0@,
            ).is_prefix_of(components(path@))));
            return Some(root.1);
        }
        i += 1;
    }
    assert forall|j: int| 0 <= j < preserved_roots@.len() implies !(components(
        (#[trigger] preserved_roots@[j]).0@,
    ) == components(path@) || (preserved_roots@[j].1 && components(
        preserved_roots@[j].0@,
    ).is_prefix_of(components(path@)))) by {
        assert(!root_covers(preserved_roots@[j], path@));
    }
    None
}

/// A user watch strictly below `path`.
pub open spec fn user_watch_below<F>(watch: (FilePath, WatchMetadata<F>), path: Seq<u8>) -> bool {
    &&& !same_path(watch.0@, path)
    &&& under(watch.0@, path)
    &&& watch.1.is_user_watch
}

/// The texts of a list of roots, with their modes.
pub open spec fn roots_view(roots: Seq<(FilePath, bool)>) -> Seq<(Seq<u8>, bool)> {
    roots.map_values(|r: (FilePath, bool)| (r.0@, r.1))
}

/// The user watches strictly below `path`, in order, each with the mode that the user asked for.
pub open spec fn user_watches_below<F>(
    watches: Seq<(FilePath, WatchMetadata<F>)>,
    path: Seq<u8>,
) -> Seq<(Seq<u8>, bool)> {
    watches.filter(|w: (FilePath, WatchMetadata<F>)| user_watch_below(w, path)).map_values(
        |w: (FilePath, WatchMetadata<F>)| (w.0@, w.1.user_is_recursive),
    )
}

/// The user watches that stay when the watch at `path` is removed: none if everything below it
/// goes too, else those strictly below it.
pub fn preserved_watch_roots<F>(
    path: &FilePath,
    remove_recursive: bool,
    watches: &[(FilePath, WatchMetadata<F>)],
) -> (res: Vec<(FilePath, bool)>)
    ensures
        roots_view(res@) == if remove_recursive {
            seq![]
        } else {
            user_watches_below(watches@, path@)
        },
{
    let mut res: Vec<(FilePath, bool)> = Vec::new();
    if remove_recursive {
        assert(roots_view(res@) =~= seq![]);
        return res;
    }
    let ghost below = |w: (FilePath, WatchMetadata<F>)| user_watch_below(w, path@);
    let ghost entry = |w: (FilePath, WatchMetadata<F>)| (w.0@, w.1.user_is_recursive);
    let mut i: usize = 0;
    assert(roots_view(res@) =~= watches@.take(0).filter(below).map_values(entry)) by {
        reveal(Seq::filter);
    }
    while i < watches.len()
        invariant
            i <= watches.len(),
            below == (|w: (FilePath, WatchMetadata<F>)| user_watch_below(w, path@)),
            entry == (|w: (FilePath, WatchMetadata<F>)| (w.0@, w.1.user_is_recursive)),
            roots_view(res@) == watches@.take(i as int).filter(below).map_values(entry),
        decreases watches.len() - i,
    {
        let watch = &watches[i];
        let ghost before = res@;
        if !watch.0.same_as(path) && watch.0.starts_with(path) && watch.1.is_user_watch {
            res.push((watch.0.clone(), watch.1.user_is_recursive));
            assert(roots_view(res@) =~= roots_view(before).push(entry(*watch)));
        }
        proof {
            reveal(Seq::filter);
            assert(watches@.take(i + 1).drop_last() =~= watches@.take(i as int));
            assert(roots_view(res@) =~= watches@.take(i + 1).filter(below).map_values(entry));
        }
        i += 1;
    }
    assert(watches@.take(i as int) =~= watches@);
    res
}

/// One of the roots has these components.
pub open spec fn some_root_is(roots: Seq<(FilePath, bool)>, key: Seq<Seq<u8>>) -> bool {
    exists|i: int| 0 <= i < roots.len() && components((#[trigger] roots[i]).0@) == key
}

/// Whether `path` is one of the preserved roots.
pub fn is_preserved_watch_root(path: &FilePath, preserved_roots: &[(FilePath, bool)]) -> (res: bool)
    ensures
        res == exists|i: int|
            0 <= i < preserved_roots@.len() && same_path(
                path@,
                (#[trigger] preserved_roots@[i]).0@,
            ),
        res == some_root_is(preserved_roots@, components(path@)),
{
    let mut i: usize = 0;
    while i < preserved_roots.len()
        invariant
            i <= preserved_roots.len(),
            forall|j: int|
                0 <= j < i ==> !same_path(path@, (#[trigger] preserved_roots@[j]).0@),
        decreases preserved_roots.len() - i,
    {
        if path.same_as(&preserved_roots[i].0) {
            assert(same_path(path@, preserved_roots@[i as int].0@));
            assert(components(preserved_roots@[i as int].0@) == components(path@));
            return true;
        }
        i += 1;
    }
    false
}

/// A recursive user watch strictly above `path`.
pub open spec fn recursive_watch_above<F>(
    watch: (FilePath, WatchMetadata<F>),
    path: Seq<u8>,
) -> bool {
    &&& !same_path(watch.0@, path)
    &&& under(path, watch.0@)
    &&& watch.1.is_user_watch
    &&& watch.1.user_is_recursive
}

/// The watch at `i` is the nearest recursive user watch above `path`: no other has more
/// components, and no later one has as many.
pub open spec fn nearest_above<F>(
    watches: Seq<(FilePath, WatchMetadata<F>)>,
    path: Seq<u8>,
    i: int,
) -> bool {
    &&& 0 <= i < watches.len()
    &&& recursive_watch_above(watches[i], path)
    &&& forall|j: int|
        #![trigger watches[j]]
        0 <= j < watches.len() && recursive_watch_above(watches[j], path) ==> {
            &&& components(watches[j].0@).len() <= components(watches[i].0@).len()
            &&& j > i ==> components(watches[j].0@).len() < components(watches[i].0@).len()
        }
}

/// There is a recursive user watch strictly above the path with these components.
pub open spec fn some_watch_above<F>(
    watches: Seq<(FilePath, WatchMetadata<F>)>,
    key: Seq<Seq<u8>>,
) -> bool {
    exists|i: int|
        {
            &&& 0 <= i < watches.len()
            &&& components((#[trigger] watches[i]).0@).is_prefix_of(key)
            &&& components(watches[i].0@) != key
            &&& watches[i].1.is_user_watch
            &&& watches[i].1.user_is_recursive
        }
}

/// Finds the nearest recursive user watch that covers `path` from above: its path, and the form
/// in which it is reported.
///
/// Backends need it when they replace a watch that an ancestor covers too: what the ancestor
/// covers is rebuilt with the paths that the user expects of the ancestor.
pub fn recursive_user_watch_ancestor<F>(
    path: &FilePath,
    watches: &[(FilePath, WatchMetadata<F>)],
) -> (res: Option<(FilePath, FilePath)>)
    ensures
        match res {
            Some((ancestor, reported)) => exists|i: int|
                {
                    &&& #[trigger] nearest_above(watches@, path@, i)
                    &&& ancestor@ == watches@[i].0@
                    &&& reported@ == watches@[i].1.reported_path@
                },
            None => forall|i: int|
                0 <= i < watches@.len() ==> !recursive_watch_above(#[trigger] watches@[i], path@),
        },
        res is Some <==> some_watch_above(watches@, components(path@)),
{
    let mut best: Option<usize> = None;
    let mut depth: usize = 0;
    let mut i: usize = 0;
    while i < watches.len()
        invariant
            i <= watches.len(),
            match best {
                Some(b) => {
                    &&& b < i
                    &&& nearest_above(watches@.take(i as int), path@, b as int)
                    &&& depth == components(watches@[b as int].0@).len()
                },
                None => forall|j: int|
                    0 <= j < i ==> !recursive_watch_above(#[trigger] watches@[j], path@),
            },
        decreases watches.len() - i,
    {
        let watch = &watches[i];
        let ghost seen = watches@.take(i as int);
        let ghost now = watches@.take(i + 1);
        proof {
            assert forall|j: int| 0 <= j < i implies #[trigger] now[j] == seen[j] by {}
            assert(now[i as int] == watches@[i as int]);
        }
        if !watch.0.same_as(path) && path.starts_with(&watch.0) && watch.1.is_user_watch
            && watch.1.user_is_recursive {
            let d: usize = watch.0.component_count();
            if best.is_none() || d >= depth {
                best = Some(i);
                depth = d;
            }
        }
        i += 1;
    }
    match best {
        Some(b) => {
            assert(watches@.take(i as int) =~= watches@);
            assert(recursive_watch_above(watches@[b as int], path@));
            Some((watches[b].0.clone(), watches[b].1.reported_path.clone()))
        },
        None => {
            assert forall|j: int| 0 <= j < watches@.len() implies !({
                &&& components((#[trigger] watches@[j]).0@).is_prefix_of(components(path@))
                &&& components(watches@[j].0@) != components(path@)
                &&& watches@[j].1.is_user_watch
                &&& watches@[j].1.user_is_recursive
            }) by {
                assert(!recursive_watch_above(watches@[j], path@));
            }
            None
        },
    }
}

} // verus!
