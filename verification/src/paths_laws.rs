//! Laws of watched paths: how they are reported, which watches conflict, and what a filter lets
//! through.

use vstd::prelude::*;

use crate::error::{texts, Error, ErrorKind};
use crate::filter::WatchFilter;
use crate::path::{
    components, head_text, is_rooted, joined, same_path, tail_text, under, FilePath, DOT,
    SEPARATOR,
};
use crate::path_laws::{
    law_components_are_names, law_dot_comes_first, law_join_components, law_join_text,
    law_root_component, law_tail_components, law_tail_text,
};
use crate::paths::{
    absolute_text, barriers_decide, claims_of, first_conflict, may_allow_event, may_keep_entry,
    nearest_above, overlap_decides, recursive_watch_above, reported_text, request_claim,
    root_covers, user_watch_below, user_watches_below, Claim, Probe, WalkEntry, WatchMetadata,
    WatchSummary,
};

verus! {

/// A path that was made absolute starts at the root of the file system, where the current
/// directory does.
pub proof fn law_absolute_paths_are_rooted(
    path: Seq<u8>,
    current_dir: Result<FilePath, std::io::Error>,
)
    requires
        current_dir matches Ok(dir) ==> is_rooted(dir@),
    ensures
        absolute_text(path, current_dir) matches Ok(text) ==> is_rooted(text),
{
}

/// Paths are reported in the form in which the root was asked for: the components of a reported
/// path are those of the requested root, then those by which the path goes on below the root.
pub proof fn law_reported_components(
    root_absolute: Seq<u8>,
    root_requested: Seq<u8>,
    path: Seq<u8>,
)
    requires
        components(root_absolute).len() > 0,
        under(path, root_absolute),
    ensures
        components(reported_text(root_absolute, root_requested, path)) == components(root_requested)
            + components(path).skip(components(root_absolute).len() as int),
{
    let n = components(root_absolute).len() as int;
    let rest = tail_text(path, n);
    law_tail_components(path, n);
    law_join_components(root_requested, rest);
    if rest.len() > 0 {
        if components(rest).len() > 0 {
            assert(components(rest)[0] == components(path)[n]);
            law_dot_comes_first(path, n);
        }
        if root_requested.len() == 0 {
            assert(components(root_requested) =~= seq![]);
            assert(components(root_requested) + components(rest) =~= components(rest));
        }
    } else {
        assert(components(rest) =~= seq![]);
        assert(components(root_requested) + components(path).skip(n) =~= components(
            root_requested,
        ));
    }
}

/// Every reported path lies at or below the root as it was asked for.
pub proof fn law_reported_below_request(
    root_absolute: Seq<u8>,
    root_requested: Seq<u8>,
    path: Seq<u8>,
)
    requires
        components(root_absolute).len() > 0,
    ensures
        under(reported_text(root_absolute, root_requested, path), root_requested),
{
    if under(path, root_absolute) {
        law_reported_components(root_absolute, root_requested, path);
    }
}

/// Below a root that was asked for in its absolute form, paths are reported as they are.
pub proof fn law_absolute_request_reports_paths_unchanged(root: Seq<u8>, path: Seq<u8>)
    requires
        components(root).len() > 0,
        under(path, root),
    ensures
        same_path(reported_text(root, root, path), path),
{
    law_reported_components(root, root, path);
    let n = components(root).len() as int;
    assert(components(root) + components(path).skip(n) =~= components(path));
}

/// What lies below a child is reported alike, whether it is seen from the child or from the root.
pub proof fn law_child_reports_alike(
    root_absolute: Seq<u8>,
    root_requested: Seq<u8>,
    child: Seq<u8>,
    path: Seq<u8>,
)
    requires
        under(child, root_absolute),
        under(path, child),
    ensures
        same_path(
            reported_text(child, reported_text(root_absolute, root_requested, child), path),
            reported_text(root_absolute, root_requested, path),
        ),
{
    let n = components(root_absolute).len() as int;
    let m = components(child).len() as int;
    let reported_child = reported_text(root_absolute, root_requested, child);
    assert(components(root_absolute) =~= components(path).take(n)) by {
        assert(components(child) =~= components(path).take(m));
        assert forall|i: int| 0 <= i < n implies components(root_absolute)[i] == components(
            path,
        )[i] by {
            assert(components(root_absolute)[i] == components(child)[i]);
        }
    }
    assert(under(path, root_absolute));
    if n > 0 {
        law_reported_components(root_absolute, root_requested, child);
        law_reported_components(child, reported_child, path);
        law_reported_components(root_absolute, root_requested, path);
        assert(components(child).skip(n) + components(path).skip(m) =~= components(path).skip(n));
        assert(components(root_requested) + components(child).skip(n) + components(path).skip(m)
            =~= components(root_requested) + components(path).skip(n));
    } else if m > 0 {
        lemma_reported_from_nowhere(root_absolute, root_requested, child);
        lemma_reported_from_nowhere(root_absolute, root_requested, path);
        law_reported_components(child, reported_child, path);
        assert(components(child)[0] == components(path)[0]);
        assert(components(child) + components(path).skip(m) =~= components(path));
        assert(components(root_requested) + components(child) + components(path).skip(m)
            =~= components(root_requested) + components(path));
        assert(components(child).skip(1) + components(path).skip(m) =~= components(path).skip(1));
        assert(components(root_requested) + components(child).skip(1) + components(path).skip(m)
            =~= components(root_requested) + components(path).skip(1));
    }
}

/// What is reported below a root without components: the path alone where it starts at the root of
/// the file system or nothing was requested, else the path below the request.
proof fn lemma_reported_from_nowhere(
    root_absolute: Seq<u8>,
    root_requested: Seq<u8>,
    path: Seq<u8>,
)
    requires
        components(root_absolute).len() == 0,
        components(path).len() > 0,
    ensures
        components(reported_text(root_absolute, root_requested, path)) == if components(path)[0]
            == seq![SEPARATOR] || root_requested.len() == 0 {
            components(path)
        } else if components(path)[0] == seq![DOT] {
            components(root_requested) + components(path).skip(1)
        } else {
            components(root_requested) + components(path)
        },
{
    let rest = tail_text(path, 0);
    law_tail_components(path, 0);
    law_join_components(root_requested, rest);
    assert(components(path).skip(0) =~= components(path));
    assert(rest.len() > 0) by {
        if rest.len() == 0 {
            assert(components(rest) =~= seq![]);
        }
    }
    law_root_component(rest);
}

/// Of two watches, neither can be registered before the other where they conflict: a conflict is
/// mutual.
pub proof fn law_conflicts_are_mutual(a: Claim, b: Claim)
    ensures
        a.conflicts(b) == b.conflicts(a),
{
}

/// Watches on files, two watches without a filter, and two requests for the same path never
/// conflict.
pub proof fn law_harmless_pairs(a: Claim, b: Claim)
    requires
        !a.is_dir || !b.is_dir || same_path(a.path, b.path) || (!a.filtered && !b.filtered),
    ensures
        !a.conflicts(b),
{
}

/// What the paths of two watches resolve to does not matter where no conflict is possible.
pub proof fn law_resolution_is_needed_only_between_concerned_watches(
    a: Claim,
    b: Claim,
    resolved_a: Option<Seq<u8>>,
    resolved_b: Option<Seq<u8>>,
)
    requires
        !a.concerns(b),
    ensures
        !(Claim { resolved: resolved_a, ..a }).conflicts((Claim { resolved: resolved_b, ..b })),
{
}

/// A watch keeps its region while its path does not resolve: a recursive request above it (or one
/// below a recursive watch) conflicts with it as the paths are written.
pub proof fn law_unresolved_watch_keeps_its_region(request: Claim, watch: Claim)
    requires
        request.concerns(watch),
        request.resolved is None || watch.resolved is None,
        (request.is_recursive && under(watch.path, request.path)) || (watch.is_recursive && under(
            request.path,
            watch.path,
        )),
    ensures
        request.conflicts(watch),
{
}

/// An event on the root, or on an entry directly in it, is never held back.
pub proof fn law_direct_entries_are_allowed<F: Fn(&FilePath) -> bool>(
    filter: WatchFilter<F>,
    root: Seq<u8>,
    path: Seq<u8>,
)
    requires
        components(path).len() <= components(root).len() + 1,
    ensures
        !may_allow_event(filter, root, path, false),
{
}

/// Nothing leaks from a rejected directory: an event below one that the filter never accepts is
/// held back, at any depth.
pub proof fn law_rejected_directories_are_silent<F: Fn(&FilePath) -> bool>(
    filter: WatchFilter<F>,
    root: Seq<u8>,
    path: Seq<u8>,
    k: int,
)
    requires
        !filter.accepts_all(),
        under(path, root),
        components(root).len() < k < components(path).len(),
        !filter.may_answer(head_text(path, k), true),
    ensures
        !may_allow_event(filter, root, path, true),
{
}

/// Events are held back where walks end: an event below the root may be allowed exactly if a walk
/// may go on below each of the directories that lead to it. (`dirs` are those
/// directories, from the one in the root to the one that holds the path.)
pub proof fn law_events_are_held_back_where_walks_end<F: Fn(&FilePath) -> bool>(
    filter: WatchFilter<F>,
    root: Seq<u8>,
    path: Seq<u8>,
    dirs: Seq<WalkEntry>,
)
    requires
        under(path, root),
        dirs.len() == if components(path).len() > components(root).len() {
            components(path).len() - components(root).len() - 1
        } else {
            0
        },
        forall|i: int|
            0 <= i < dirs.len() ==> {
                &&& (#[trigger] dirs[i]).is_dir
                &&& dirs[i].link is None
                &&& dirs[i].path@ == head_text(path, components(root).len() + 1 + i)
            },
    ensures
        may_allow_event(filter, root, path, true) <==> forall|i: int|
            0 <= i < dirs.len() ==> may_keep_entry(filter, #[trigger] dirs[i], true),
{
    let from = components(root).len() as int;
    let to = components(path).len() as int;
    if !filter.accepts_all() {
        if may_allow_event(filter, root, path, true) {
            assert forall|i: int| 0 <= i < dirs.len() implies may_keep_entry(
                filter,
                #[trigger] dirs[i],
                true,
            ) by {
                assert(filter.may_answer(head_text(path, from + 1 + i), true));
            }
        }
        if forall|i: int|
            0 <= i < dirs.len() ==> may_keep_entry(filter, #[trigger] dirs[i], true) {
            assert forall|k: int| from < k < to implies filter.may_answer(
                #[trigger] head_text(path, k),
                true,
            ) by {
                assert(may_keep_entry(filter, dirs[k - from - 1], true));
            }
        }
    }
}

/// An absolute path stays as it is, whatever the current directory. The absolute form of a relative
/// path has the components of the current directory, then those of the path, without a `.` at its
/// start. It is not known where the current directory is not.
pub proof fn law_absolute_form(path: Seq<u8>, current_dir: Result<FilePath, std::io::Error>)
    ensures
        path.len() > 0 && path[0] == 0x2f ==> absolute_text(path, current_dir) == Ok::<
            Seq<u8>,
            std::io::Error,
        >(path),
        !(path.len() > 0 && path[0] == 0x2f) ==> match current_dir {
            Ok(dir) => {
                &&& absolute_text(path, current_dir) matches Ok(text)
                &&& dir@.len() > 0 ==> components(text) == components(dir@) + if components(
                    path,
                ).len() > 0 && components(path)[0] == seq![0x2eu8] {
                    components(path).skip(1)
                } else {
                    components(path)
                }
                &&& dir@.len() == 0 ==> text == path
                &&& text.len() >= dir@.len() + path.len()
                &&& text.take(dir@.len() as int) == dir@
                &&& text.skip(text.len() - path.len()) == path
            },
            Err(e) => absolute_text(path, current_dir) == Err::<Seq<u8>, std::io::Error>(e),
        },
{
    if !(path.len() > 0 && path[0] == 0x2f) {
        if let Ok(dir) = current_dir {
            law_join_components(dir@, path);
            law_join_text(dir@, path);
            let text = joined(dir@, path);
            assert(text.take(dir@.len() as int) =~= dir@);
            assert(text.skip(text.len() - path.len()) =~= path);
            if dir@.len() == 0 {
                assert(text =~= path);
            }
        }
    }
}

/// The root is reported exactly as it was asked for. A path below it is reported as that text, and
/// behind it what the path adds to the root, with one separator in between.
pub proof fn law_reported_text(root_absolute: Seq<u8>, root_requested: Seq<u8>, path: Seq<u8>)
    requires
        components(root_absolute).len() > 0,
        under(path, root_absolute),
    ensures
        same_path(path, root_absolute) ==> reported_text(root_absolute, root_requested, path)
            == root_requested,
        !same_path(path, root_absolute) ==> {
            let rest = tail_text(path, components(root_absolute).len() as int);
            let reported = reported_text(root_absolute, root_requested, path);
            let gap: int = if root_requested.len() > 0 && root_requested.last() != 0x2f {
                1
            } else {
                0
            };
            &&& reported.len() == root_requested.len() + gap + rest.len()
            &&& reported.take(root_requested.len() as int) == root_requested
            &&& reported.skip(root_requested.len() + gap) == rest
            &&& gap == 1 ==> reported[root_requested.len() as int] == 0x2f
        },
{
    let n = components(root_absolute).len() as int;
    let rest = tail_text(path, n);
    law_tail_components(path, n);
    law_join_text(root_requested, rest);
    if same_path(path, root_absolute) {
        assert(rest.len() == 0);
    } else {
        if components(path).len() == n {
            assert(components(path) =~= components(root_absolute));
        }
        law_tail_text(path, n);
        law_components_are_names(path, n);
        assert(rest.len() > 0);
        assert(!is_rooted(rest));
    }
}

/// Two claims conflict exactly if both are on directories, at different paths; at least one of them
/// has a filter; and one of them is recursive and has the other at or below it. Where both paths
/// resolve, what they resolve to is compared, else the paths as they are written.
pub proof fn law_conflicts_by_components(a: Claim, b: Claim)
    ensures
        ({
            let both_resolve = a.resolved is Some && b.resolved is Some;
            let at_a = if both_resolve {
                components(a.resolved->0)
            } else {
                components(a.path)
            };
            let at_b = if both_resolve {
                components(b.resolved->0)
            } else {
                components(b.path)
            };
            a.conflicts(b) <==> {
                &&& a.is_dir && b.is_dir
                &&& components(a.path) != components(b.path)
                &&& a.filtered || b.filtered
                &&& (b.is_recursive && at_b.is_prefix_of(at_a)) || (a.is_recursive
                    && at_a.is_prefix_of(at_b))
            }
        }),
{
}

/// What a request and a registered watch lay claim to is what they are: their path and what it
/// resolves to, whether it is a directory, their mode, and whether they have a filter.
pub proof fn law_claims_say_what_is_asked_for<'a, F: Fn(&FilePath) -> bool>(
    absolute: Seq<u8>,
    probe: Probe,
    is_recursive: bool,
    watch_filter: WatchFilter<F>,
    watches: Seq<WatchSummary<'a, F>>,
    i: int,
)
    requires
        0 <= i < watches.len(),
    ensures
        ({
            let request = request_claim(absolute, probe, is_recursive, watch_filter);
            let claim = claims_of(watches)[i];
            &&& request.path == absolute
            &&& request.resolved is Some <==> probe.resolved is Some
            &&& probe.resolved matches Some(p) ==> request.resolved == Some(p@)
            &&& request.is_dir == probe.is_dir
            &&& request.is_recursive == is_recursive
            &&& request.filtered <==> watch_filter@ is Some
            &&& claims_of(watches).len() == watches.len()
            &&& claim.path == watches[i].path@
            &&& claim.resolved is Some <==> watches[i].resolved is Some
            &&& watches[i].resolved matches Some(p) ==> claim.resolved == Some(p@)
            &&& claim.is_dir == watches[i].is_dir
            &&& claim.is_recursive == watches[i].is_recursive
            &&& claim.filtered <==> watches[i].filter@ is Some
        }),
{
}

/// A request is refused for an overlap exactly if it conflicts with a claim. It is then refused for
/// the first such claim, naming the path as requested and the path of the claim.
pub proof fn law_overlaps_are_refused(
    request: Claim,
    requested: Seq<u8>,
    claims: Seq<Claim>,
    decision: Result<(), Error>,
)
    requires
        overlap_decides(request, requested, claims, decision),
    ensures
        decision is Err <==> exists|i: int|
            0 <= i < claims.len() && request.conflicts(#[trigger] claims[i]),
        decision matches Err(error) ==> {
            &&& error.kind == ErrorKind::WatchOverlap
            &&& exists|i: int|
                {
                    &&& 0 <= i < claims.len()
                    &&& request.conflicts(#[trigger] claims[i])
                    &&& forall|j: int| 0 <= j < i ==> !request.conflicts(#[trigger] claims[j])
                    &&& texts(error.paths@) == seq![requested, claims[i].path]
                }
        },
{
    if decision is Err {
        let i = choose|i: int| #[trigger]
            first_conflict(request, claims, i) && decision->Err_0.is(
                ErrorKind::WatchOverlap,
                seq![requested, claims[i].path],
            );
        assert(request.conflicts(claims[i]));
    }
}

/// A path that is no directory passes the barriers. A directory that its own filter never accepts
/// is refused as excluded, naming the path as requested; one that its filter never rejects is left
/// to the overlap barrier.
pub proof fn law_barriers_ask_the_filter_first<F: Fn(&FilePath) -> bool>(
    absolute: Seq<u8>,
    requested: Seq<u8>,
    probe: Probe,
    is_recursive: bool,
    watch_filter: WatchFilter<F>,
    claims: Seq<Claim>,
    decision: Result<(), Error>,
)
    requires
        barriers_decide(
            absolute,
            requested,
            probe,
            is_recursive,
            watch_filter,
            claims,
            decision,
        ),
    ensures
        !probe.is_dir ==> decision is Ok,
        ({
            let target = match probe.link_target {
                Some(t) => Some(t@),
                None => None,
            };
            &&& probe.is_dir && !watch_filter.may_decide_dir(absolute, target, true) ==> (
            decision matches Err(error) && error.kind == ErrorKind::PathExcluded && texts(
                error.paths@,
            ) == seq![requested])
            &&& probe.is_dir && !watch_filter.may_decide_dir(absolute, target, false)
                ==> overlap_decides(
                request_claim(absolute, probe, is_recursive, watch_filter),
                requested,
                claims,
                decision,
            )
            &&& probe.is_dir && decision is Ok ==> watch_filter.may_decide_dir(
                absolute,
                target,
                true,
            )
        }),
        probe.is_dir && (exists|i: int|
            0 <= i < claims.len() && request_claim(
                absolute,
                probe,
                is_recursive,
                watch_filter,
            ).conflicts(#[trigger] claims[i])) ==> decision is Err,
{
    let request = request_claim(absolute, probe, is_recursive, watch_filter);
    if probe.is_dir && overlap_decides(request, requested, claims, decision) {
        law_overlaps_are_refused(request, requested, claims, decision);
    }
}

/// An event is allowed unless the filter rejects a directory strictly between the root and the
/// path; where it rejects one, the event is held back. A path that is not below the root, and a
/// filter that accepts everything, hold nothing back.
pub proof fn law_events_go_by_the_directories_between<F: Fn(&FilePath) -> bool>(
    filter: WatchFilter<F>,
    root: Seq<u8>,
    path: Seq<u8>,
)
    ensures
        filter@ is None || !under(path, root) ==> may_allow_event(filter, root, path, true)
            && !may_allow_event(filter, root, path, false),
        filter@ is Some && under(path, root) ==> {
            let from = components(root).len();
            let to = components(path).len();
            &&& may_allow_event(filter, root, path, true) <==> forall|k: int|
                from < k < to ==> filter.may_answer(#[trigger] head_text(path, k), true)
            &&& may_allow_event(filter, root, path, false) <==> exists|k: int|
                from < k < to && filter.may_answer(#[trigger] head_text(path, k), false)
        },
{
}

/// On a walk the filter decides about directories, and about symlinks that lead to one; everything
/// else, and everything where there is no predicate, is kept.
pub proof fn law_walks_ask_about_directories_only<F: Fn(&FilePath) -> bool>(
    filter: WatchFilter<F>,
    entry: WalkEntry,
    answer: bool,
)
    ensures
        entry.leads_to_dir() <==> entry.is_dir || (entry.link matches Some(link) && link.is_dir),
        entry.link is None ==> entry.target() is None,
        entry.link matches Some(link) ==> (link.resolved is None ==> entry.target() is None) && (
        link.resolved matches Some(p) ==> entry.target() == Some(p@)),
        filter@ is None || !(entry.is_dir || (entry.link matches Some(link) && link.is_dir)) ==> (
        may_keep_entry(filter, entry, answer) <==> answer),
        filter@ is Some && (entry.is_dir || (entry.link matches Some(link) && link.is_dir)) ==> (
        may_keep_entry(filter, entry, answer) <==> filter.may_decide_dir(
            entry.path@,
            entry.target(),
            answer,
        )),
{
}

/// A preserved root covers itself, and what lies below it if it is recursive; nothing else.
pub proof fn law_roots_cover_by_their_mode(root: (FilePath, bool), path: Seq<u8>)
    ensures
        root_covers(root, path) <==> components(path) == components(root.0@) || (root.1
            && components(root.0@).is_prefix_of(components(path))),
{
}

/// The watches that are preserved below a path are the user's own, strictly below it, each with the
/// mode that the user asked for, in order and none twice.
pub proof fn law_user_watches_below_are_preserved<F>(
    watches: Seq<(FilePath, WatchMetadata<F>)>,
    path: Seq<u8>,
)
    ensures
        ({
            let below = user_watches_below(watches, path);
            exists|at: Seq<int>|
                {
                    &&& at.len() == below.len()
                    &&& forall|j: int|
                        0 <= j < at.len() ==> 0 <= #[trigger] at[j] < watches.len() && below[j] == (
                            watches[at[j]].0@,
                            watches[at[j]].1.user_is_recursive,
                        )
                    &&& forall|j: int, k: int|
                        0 <= j < k < at.len() ==> #[trigger] at[j] < #[trigger] at[k]
                    &&& forall|i: int|
                        0 <= i < watches.len() ==> (#[trigger] at.contains(i) <==> {
                            &&& components(path).is_prefix_of(components(watches[i].0@))
                            &&& components(path) != components(watches[i].0@)
                            &&& watches[i].1.is_user_watch
                        })
                }
        }),
    decreases watches.len(),
{
    reveal(Seq::filter);
    let keep = |w: (FilePath, WatchMetadata<F>)| user_watch_below(w, path);
    let entry = |w: (FilePath, WatchMetadata<F>)| (w.0@, w.1.user_is_recursive);
    let below = user_watches_below(watches, path);
    assert(below == watches.filter(keep).map_values(entry));
    if watches.len() == 0 {
        let at = Seq::<int>::empty();
        assert(at.len() == below.len());
    } else {
        let rest = watches.drop_last();
        let last = watches.len() - 1;
        law_user_watches_below_are_preserved(rest, path);
        let before = user_watches_below(rest, path);
        assert(before == rest.filter(keep).map_values(entry));
        let at = choose|at: Seq<int>|
            {
                &&& at.len() == before.len()
                &&& forall|j: int|
                    0 <= j < at.len() ==> 0 <= #[trigger] at[j] < rest.len() && before[j] == (
                        rest[at[j]].0@,
                        rest[at[j]].1.user_is_recursive,
                    )
                &&& forall|j: int, k: int|
                    0 <= j < k < at.len() ==> #[trigger] at[j] < #[trigger] at[k]
                &&& forall|i: int|
                    0 <= i < rest.len() ==> (#[trigger] at.contains(i) <==> {
                        &&& components(path).is_prefix_of(components(rest[i].0@))
                        &&& components(path) != components(rest[i].0@)
                        &&& rest[i].1.is_user_watch
                    })
            };
        let longer = if keep(watches[last]) {
            at.push(last)
        } else {
            at
        };
        assert forall|i: int| 0 <= i < watches.len() implies (#[trigger] longer.contains(i) <==> {
            &&& components(path).is_prefix_of(components(watches[i].0@))
            &&& components(path) != components(watches[i].0@)
            &&& watches[i].1.is_user_watch
        }) by {
            if i < last {
                assert(rest[i] == watches[i]);
                assert(at.contains(i) <==> longer.contains(i)) by {
                    if at.contains(i) {
                        assert(longer[at.index_of(i)] == i);
                    }
                    if longer.contains(i) {
                        assert(at[longer.index_of(i)] == i);
                    }
                }
            } else {
                if keep(watches[last]) {
                    assert(longer[at.len() as int] == last);
                } else if at.contains(i) {
                    let j = at.index_of(i);
                    assert(at[j] < rest.len());
                }
            }
        }
        assert(longer.len() == below.len());
        assert forall|j: int| 0 <= j < longer.len() implies 0 <= #[trigger] longer[j]
            < watches.len() && below[j] == (
            watches[longer[j]].0@,
            watches[longer[j]].1.user_is_recursive,
        ) by {
            if j < at.len() {
                assert(longer[j] == at[j]);
                assert(rest[at[j]] == watches[at[j]]);
                assert(below[j] == before[j]);
            }
        }
    }
}

/// The nearest recursive user watch above a path lies strictly above it, is recursive and the
/// user's own, and lies at or below every other such watch.
pub proof fn law_nearest_watch_lies_below_the_others<F>(
    watches: Seq<(FilePath, WatchMetadata<F>)>,
    path: Seq<u8>,
    i: int,
    j: int,
)
    requires
        nearest_above(watches, path, i),
        0 <= j < watches.len(),
    ensures
        0 <= i < watches.len(),
        components(watches[i].0@).is_prefix_of(components(path)),
        components(watches[i].0@) != components(path),
        watches[i].1.is_user_watch,
        watches[i].1.user_is_recursive,
        ({
            &&& components(watches[j].0@).is_prefix_of(components(path))
            &&& components(watches[j].0@) != components(path)
            &&& watches[j].1.is_user_watch
            &&& watches[j].1.user_is_recursive
        }) ==> components(watches[j].0@).is_prefix_of(components(watches[i].0@)) && (j > i
            ==> components(watches[j].0@) != components(watches[i].0@)),
{
    if recursive_watch_above(watches[j], path) {
        let near = components(watches[i].0@);
        let far = components(watches[j].0@);
        assert(far.len() <= near.len());
        assert(far =~= near.subrange(0, far.len() as int)) by {
            assert forall|k: int| 0 <= k < far.len() implies far[k] == near[k] by {
                assert(far[k] == components(path)[k]);
                assert(near[k] == components(path)[k]);
            }
        }
    }
}

/// Where there is a recursive user watch strictly above a path, there is a nearest one.
pub proof fn law_there_is_a_nearest_watch<F>(
    watches: Seq<(FilePath, WatchMetadata<F>)>,
    path: Seq<u8>,
    j: int,
)
    requires
        0 <= j < watches.len(),
        components(watches[j].0@).is_prefix_of(components(path)),
        components(watches[j].0@) != components(path),
        watches[j].1.is_user_watch,
        watches[j].1.user_is_recursive,
    ensures
        recursive_watch_above(watches[j], path),
        exists|i: int| nearest_above(watches, path, i),
    decreases watches.len(),
{
    let rest = watches.drop_last();
    let last = watches.len() - 1;
    let any = exists|k: int| 0 <= k < rest.len() && recursive_watch_above(#[trigger] rest[k], path);
    if any {
        let k = choose|k: int| 0 <= k < rest.len() && recursive_watch_above(
            #[trigger] rest[k],
            path,
        );
        law_there_is_a_nearest_watch(rest, path, k);
        let i = choose|i: int| nearest_above(rest, path, i);
        assert forall|m: int| 0 <= m < last implies #[trigger] watches[m] == rest[m] by {}
        if recursive_watch_above(watches[last], path) && components(watches[last].0@).len()
            >= components(watches[i].0@).len() {
            assert(nearest_above(watches, path, last));
        } else {
            assert(nearest_above(watches, path, i));
        }
    } else {
        assert(j == last) by {
            if j < last {
                assert(recursive_watch_above(rest[j], path));
            }
        }
        assert forall|m: int| 0 <= m < last implies !recursive_watch_above(
            #[trigger] watches[m],
            path,
        ) by {
            assert(watches[m] == rest[m]);
        }
        assert(nearest_above(watches, path, last));
    }
}

} // verus!
