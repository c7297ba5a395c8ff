//! Laws of scanning: what is known after a scan, and what is told of it.

use vstd::prelude::*;

use crate::data::{
    absorbed, found_data, kind_between, lists, looked_at, lookup, removal_reports, rescanned,
    scan_reports, vanished, watch_built, watch_rescanned, DataBuilder, FileMeta, FileTime,
    InitialScan, Known, PathData, Voice, WatchData,
};
use crate::error::ErrorKind;
use crate::event::{
    mask_admits, CreateKind, DataChange, EventKind, MetadataKind, ModifyKind, RemoveKind, Report,
};
use crate::event_laws::law_mask_bits;
use crate::path::components;
use crate::paths::{reported_text, WatchPath};
use crate::scan::{failures_of, records_of, Met};

verus! {

/// The path was found, at this place, and not again behind it.
pub open spec fn last_found(
    found: Seq<(Seq<u8>, PathData)>,
    key: Seq<Seq<u8>>,
    i: int,
) -> bool {
    &&& 0 <= i < found.len()
    &&& components(found[i].0) == key
    &&& forall|j: int| i < j < found.len() ==> components((#[trigger] found[j]).0) != key
}

/// The path was found.
pub open spec fn was_found(found: Seq<(Seq<u8>, PathData)>, key: Seq<Seq<u8>>) -> bool {
    exists|i: int| 0 <= i < found.len() && components((#[trigger] found[i]).0) == key
}

/// No path was found twice.
pub open spec fn found_once(found: Seq<(Seq<u8>, PathData)>) -> bool {
    forall|i: int, j: int|
        0 <= i < found.len() && 0 <= j < found.len() && components((#[trigger] found[i]).0)
            == components((#[trigger] found[j]).0) ==> i == j
}

/// Everything that was found is dated with the time of the scan, and everything that was known is
/// older.
pub open spec fn in_time(known: Known, found: Seq<(Seq<u8>, PathData)>, now: u64) -> bool {
    &&& forall|key: Seq<Seq<u8>>| #[trigger]
        known.dom().contains(key) ==> known[key].1.last_check < now
    &&& forall|i: int| 0 <= i < found.len() ==> (#[trigger] found[i]).1.last_check == now
}

/// Nothing that is known was seen after this time.
pub open spec fn known_by(known: Known, time: u64) -> bool {
    forall|key: Seq<Seq<u8>>| #[trigger]
        known.dom().contains(key) ==> known[key].1.last_check <= time
}

/// A path is known after a scan if it was known before or found now. What was found last is known
/// of it, under the text under which it was known first; what was not found is known as before.
pub proof fn law_findings_are_taken_over(
    known: Known,
    found: Seq<(Seq<u8>, PathData)>,
    key: Seq<Seq<u8>>,
)
    ensures
        absorbed(known, found).dom().contains(key) <==> known.dom().contains(key) || was_found(
            found,
            key,
        ),
        !was_found(found, key) ==> absorbed(known, found)[key] == known[key],
        forall|i: int| #[trigger]
            last_found(found, key, i) ==> absorbed(known, found)[key].1 == found[i].1,
        known.dom().contains(key) ==> absorbed(known, found)[key].0 == known[key].0,
    decreases found.len(),
{
    if found.len() > 0 {
        let rest = found.drop_last();
        let last = found.len() - 1;
        law_findings_are_taken_over(known, rest, key);
        assert forall|i: int| 0 <= i < last implies #[trigger] found[i] == rest[i] by {}
        if components(found[last].0) == key {
            assert(was_found(found, key));
        } else {
            if was_found(rest, key) {
                let i = choose|i: int|
                    0 <= i < rest.len() && components((#[trigger] rest[i]).0) == key;
                assert(components(found[i].0) == key);
            }
            if was_found(found, key) {
                let i = choose|i: int|
                    0 <= i < found.len() && components((#[trigger] found[i]).0) == key;
                assert(components(rest[i].0) == key);
            }
            assert forall|i: int| #[trigger] last_found(found, key, i) implies absorbed(
                known,
                found,
            )[key].1 == found[i].1 by {
                assert(last_found(rest, key, i)) by {
                    assert forall|j: int| i < j < rest.len() implies components(
                        (#[trigger] rest[j]).0,
                    ) != key by {
                        assert(components(found[j].0) != key);
                    }
                }
            }
        }
    }
}

/// Of several findings of a path one is the last.
proof fn lemma_last_found(found: Seq<(Seq<u8>, PathData)>, key: Seq<Seq<u8>>) -> (i: int)
    requires
        was_found(found, key),
    ensures
        last_found(found, key, i),
    decreases found.len(),
{
    let last = found.len() - 1;
    if components(found[last].0) == key {
        last
    } else {
        let rest = found.drop_last();
        let k = choose|i: int| 0 <= i < found.len() && components((#[trigger] found[i]).0) == key;
        assert(components(rest[k].0) == key);
        let i = lemma_last_found(rest, key);
        assert forall|j: int| i < j < found.len() implies components((#[trigger] found[j]).0)
            != key by {
            if j < last {
                assert(found[j] == rest[j]);
            }
        }
        i
    }
}

/// After a scan exactly the paths that it found are known, each with what was found of it.
pub proof fn law_scan_leaves_what_was_found(
    voice: Voice,
    known: Known,
    found: Seq<(Seq<u8>, PathData)>,
    now: u64,
    known_after: Known,
    reports: Seq<Report>,
)
    requires
        in_time(known, found, now),
        rescanned(voice, known, found, now, known_after, reports),
    ensures
        forall|key: Seq<Seq<u8>>| #[trigger]
            known_after.dom().contains(key) <==> was_found(found, key),
        forall|key: Seq<Seq<u8>>, i: int| #[trigger]
            last_found(found, key, i) ==> known_after[key].1 == found[i].1,
{
    let seen = absorbed(known, found);
    assert forall|key: Seq<Seq<u8>>| #[trigger] known_after.dom().contains(key) <==> was_found(
        found,
        key,
    ) by {
        law_findings_are_taken_over(known, found, key);
        if was_found(found, key) {
            let i = lemma_last_found(found, key);
            assert(seen[key].1 == found[i].1);
        }
    }
    assert forall|key: Seq<Seq<u8>>, i: int| #[trigger]
        last_found(found, key, i) implies known_after[key].1 == found[i].1 by {
        law_findings_are_taken_over(known, found, key);
        assert(components(found[i].0) == key);
        assert(was_found(found, key));
        assert(known_after.dom().contains(key));
    }
}

/// On a clock that goes on from scan to scan, every scan is in time: what a scan leaves known was
/// not seen after it, so all of it is older than the findings of a scan at a later time.
pub proof fn law_every_later_scan_is_in_time(
    voice: Voice,
    known: Known,
    found: Seq<(Seq<u8>, PathData)>,
    now: u64,
    known_after: Known,
    reports: Seq<Report>,
    found_later: Seq<(Seq<u8>, PathData)>,
    later: u64,
)
    requires
        known_by(known, now),
        forall|i: int| 0 <= i < found.len() ==> (#[trigger] found[i]).1.last_check == now,
        rescanned(voice, known, found, now, known_after, reports),
        now < later,
        forall|i: int|
            0 <= i < found_later.len() ==> (#[trigger] found_later[i]).1.last_check == later,
    ensures
        known_by(known_after, now),
        in_time(known_after, found_later, later),
{
    assert forall|key: Seq<Seq<u8>>| #[trigger]
        known_after.dom().contains(key) implies known_after[key].1.last_check <= now by {
        law_findings_are_taken_over(known, found, key);
        if was_found(found, key) {
            let i = lemma_last_found(found, key);
            assert(found[i].1.last_check == now);
        }
    }
}

/// What is known from a first scan was not seen after it.
pub proof fn law_first_scan_dates_what_is_known(found: Seq<(Seq<u8>, PathData)>, now: u64)
    requires
        forall|i: int| 0 <= i < found.len() ==> (#[trigger] found[i]).1.last_check == now,
    ensures
        known_by(absorbed(Map::empty(), found), now),
{
    let known: Known = absorbed(Map::empty(), found);
    assert forall|key: Seq<Seq<u8>>| #[trigger] known.dom().contains(
        key,
    ) implies known[key].1.last_check <= now by {
        law_findings_are_taken_over(Map::empty(), found, key);
        let i = lemma_last_found(found, key);
        assert(found[i].1.last_check == now);
    }
}

/// A scan that finds no path twice compares each finding with what was known before the scan.
pub proof fn law_findings_are_compared_with_what_was_known(
    known: Known,
    found: Seq<(Seq<u8>, PathData)>,
    i: int,
)
    requires
        found_once(found),
        0 <= i < found.len(),
    ensures
        lookup(absorbed(known, found.take(i)), found[i].0) == lookup(known, found[i].0),
{
    let key = components(found[i].0);
    law_findings_are_taken_over(known, found.take(i), key);
    if was_found(found.take(i), key) {
        let j = choose|j: int|
            0 <= j < found.take(i).len() && components((#[trigger] found.take(i)[j]).0) == key;
        assert(components(found[j].0) == components(found[i].0));
    }
}

/// What is told of the finding at `i`.
proof fn lemma_finding_is_told(
    voice: Voice,
    known: Known,
    found: Seq<(Seq<u8>, PathData)>,
    i: int,
)
    requires
        0 <= i < found.len(),
    ensures
        forall|r: Report|
            voice.tells(
                kind_between(lookup(absorbed(known, found.take(i)), found[i].0), Some(found[i].1)),
                found[i].0,
            ).contains(r) ==> #[trigger] scan_reports(voice, known, found).contains(r),
    decreases found.len(),
{
    let rest = found.drop_last();
    let last = found.len() - 1;
    let before = scan_reports(voice, known, rest);
    let told = voice.tells(
        kind_between(lookup(absorbed(known, rest), found[last].0), Some(found[last].1)),
        found[last].0,
    );
    assert(scan_reports(voice, known, found) == before + told);
    if i < last {
        lemma_finding_is_told(voice, known, rest, i);
        assert(rest.take(i) =~= found.take(i));
        assert forall|r: Report| before.contains(r) implies #[trigger] scan_reports(
            voice,
            known,
            found,
        ).contains(r) by {
            let j = before.index_of(r);
            assert((before + told)[j] == r);
        }
    } else {
        assert(rest =~= found.take(i));
        assert forall|r: Report| told.contains(r) implies #[trigger] scan_reports(
            voice,
            known,
            found,
        ).contains(r) by {
            let j = told.index_of(r);
            assert((before + told)[before.len() + j] == r);
        }
    }
}

proof fn lemma_removal_is_told(voice: Voice, known: Known, gone: Seq<Seq<Seq<u8>>>, i: int)
    requires
        0 <= i < gone.len(),
    ensures
        forall|r: Report|
            voice.tells(
                kind_between(Some(known[gone[i]].1), None),
                known[gone[i]].0,
            ).contains(r) ==> #[trigger] removal_reports(voice, known, gone).contains(r),
    decreases gone.len(),
{
    let rest = gone.drop_last();
    let last = gone.len() - 1;
    let before = removal_reports(voice, known, rest);
    let told = voice.tells(kind_between(Some(known[gone[last]].1), None), known[gone[last]].0);
    assert(removal_reports(voice, known, gone) == before + told);
    if i < last {
        lemma_removal_is_told(voice, known, rest, i);
        assert forall|r: Report| before.contains(r) implies #[trigger] removal_reports(
            voice,
            known,
            gone,
        ).contains(r) by {
            let j = before.index_of(r);
            assert((before + told)[j] == r);
        }
    } else {
        assert forall|r: Report| told.contains(r) implies #[trigger] removal_reports(
            voice,
            known,
            gone,
        ).contains(r) by {
            let j = told.index_of(r);
            assert((before + told)[before.len() + j] == r);
        }
    }
}

/// Taken out of the list, a path takes its report along.
proof fn lemma_removal_taken_out(voice: Voice, known: Known, gone: Seq<Seq<Seq<u8>>>, k: int)
    requires
        0 <= k < gone.len(),
    ensures
        removal_reports(voice, known, gone).to_multiset() =~= removal_reports(
            voice,
            known,
            gone.remove(k),
        ).to_multiset().add(
            voice.tells(
                kind_between(Some(known[gone[k]].1), None),
                known[gone[k]].0,
            ).to_multiset(),
        ),
    decreases gone.len(),
{
    broadcast use vstd::seq_lib::group_to_multiset_ensures;

    let rest = gone.drop_last();
    let last = gone.len() - 1;
    let before = removal_reports(voice, known, rest);
    let told = voice.tells(kind_between(Some(known[gone[last]].1), None), known[gone[last]].0);
    vstd::seq_lib::lemma_multiset_commutative(before, told);
    if k < last {
        lemma_removal_taken_out(voice, known, rest, k);
        let fewer = gone.remove(k);
        assert(fewer.drop_last() =~= rest.remove(k));
        assert(fewer.last() == gone[last]);
        vstd::seq_lib::lemma_multiset_commutative(
            removal_reports(voice, known, rest.remove(k)),
            told,
        );
    } else {
        assert(gone.remove(k) =~= rest);
    }
}

/// The same disappearances, in whatever order, are told by the same reports.
pub proof fn law_order_of_removals_does_not_matter(
    voice: Voice,
    known: Known,
    gone: Set<Seq<Seq<u8>>>,
    a: Seq<Seq<Seq<u8>>>,
    b: Seq<Seq<Seq<u8>>>,
)
    requires
        lists(a, gone),
        lists(b, gone),
    ensures
        removal_reports(voice, known, a).to_multiset() == removal_reports(
            voice,
            known,
            b,
        ).to_multiset(),
    decreases a.len(),
{
    broadcast use vstd::seq_lib::group_to_multiset_ensures;

    if a.len() == 0 {
        if b.len() > 0 {
            assert(b.contains(b[0]));
            assert(gone.contains(b[0]));
        }
        assert(a =~= b);
    } else {
        let key = a.last();
        assert(a.contains(key)) by {
            assert(a[a.len() - 1] == key);
        }
        assert(gone.contains(key));
        let k = b.index_of(key);
        let fewer_a = a.drop_last();
        let fewer_b = b.remove(k);
        let fewer = gone.remove(key);
        assert(a.remove(a.len() - 1) =~= fewer_a);
        assert(lists(fewer_a, fewer)) by {
            assert forall|x: Seq<Seq<u8>>| #[trigger] fewer.contains(x) <==> fewer_a.contains(
                x,
            ) by {
                assert(gone.contains(x) <==> a.contains(x));
                if a.contains(x) && x != key {
                    let i = a.index_of(x);
                    assert(fewer_a[i] == x);
                }
                if fewer_a.contains(x) {
                    let i = fewer_a.index_of(x);
                    assert(a[i] == x);
                }
            }
        }
        assert(lists(fewer_b, fewer)) by {
            assert forall|i: int, j: int|
                0 <= i < fewer_b.len() && 0 <= j < fewer_b.len() && i != j implies fewer_b[i]
                != fewer_b[j] by {
                let at_i = if i < k {
                    i
                } else {
                    i + 1
                };
                let at_j = if j < k {
                    j
                } else {
                    j + 1
                };
                assert(b[at_i] != b[at_j]);
            }
            assert forall|x: Seq<Seq<u8>>| #[trigger] fewer.contains(x) <==> fewer_b.contains(
                x,
            ) by {
                assert(gone.contains(x) <==> b.contains(x));
                if b.contains(x) && x != key {
                    let i = b.index_of(x);
                    let at = if i < k {
                        i
                    } else {
                        i - 1
                    };
                    assert(fewer_b[at] == x);
                }
                if fewer_b.contains(x) {
                    let i = fewer_b.index_of(x);
                    let at = if i < k {
                        i
                    } else {
                        i + 1
                    };
                    assert(b[at] == x);
                    assert(b[at] != b[k]);
                }
            }
        }
        law_order_of_removals_does_not_matter(voice, known, fewer, fewer_a, fewer_b);
        lemma_removal_taken_out(voice, known, a, a.len() - 1);
        lemma_removal_taken_out(voice, known, b, k);
    }
}

/// A finding that differs from what was known, or that is new, is reported, where the mask lets
/// its kind through.
pub proof fn law_changes_are_reported(
    voice: Voice,
    known: Known,
    found: Seq<(Seq<u8>, PathData)>,
    now: u64,
    known_after: Known,
    reports: Seq<Report>,
    i: int,
    kind: EventKind,
)
    requires
        rescanned(voice, known, found, now, known_after, reports),
        found_once(found),
        0 <= i < found.len(),
        kind_between(lookup(known, found[i].0), Some(found[i].1)) == Some(kind),
        mask_admits(voice.mask, kind),
    ensures
        reports.contains(
            Report::Event(
                kind,
                seq![reported_text(voice.root, voice.requested_root, found[i].0)],
            ),
        ),
{
    law_findings_are_compared_with_what_was_known(known, found, i);
    lemma_finding_is_told(voice, known, found, i);
    let report = Report::Event(
        kind,
        seq![reported_text(voice.root, voice.requested_root, found[i].0)],
    );
    let seen = absorbed(known, found);
    let told = scan_reports(voice, known, found);
    assert(voice.tells(Some(kind), found[i].0) =~= seq![report]);
    assert(voice.tells(Some(kind), found[i].0)[0] == report);
    assert(told.contains(report));
    let gone = choose|gone: Seq<Seq<Seq<u8>>>| #[trigger]
        lists(gone, vanished(seen, now)) && reports == told + removal_reports(voice, seen, gone);
    assert(reports[told.index_of(report)] == report);
}

/// A path that was known and is not found any more is reported as removed, where the mask lets
/// that through.
pub proof fn law_disappearances_are_reported(
    voice: Voice,
    known: Known,
    found: Seq<(Seq<u8>, PathData)>,
    now: u64,
    known_after: Known,
    reports: Seq<Report>,
    key: Seq<Seq<u8>>,
)
    requires
        rescanned(voice, known, found, now, known_after, reports),
        known.dom().contains(key),
        known[key].1.last_check < now,
        !was_found(found, key),
        mask_admits(voice.mask, EventKind::Remove(RemoveKind::Any)),
    ensures
        reports.contains(
            Report::Event(
                EventKind::Remove(RemoveKind::Any),
                seq![reported_text(voice.root, voice.requested_root, known[key].0)],
            ),
        ),
        !known_after.dom().contains(key),
{
    law_findings_are_taken_over(known, found, key);
    let seen = absorbed(known, found);
    let told = scan_reports(voice, known, found);
    let report = Report::Event(
        EventKind::Remove(RemoveKind::Any),
        seq![reported_text(voice.root, voice.requested_root, known[key].0)],
    );
    let gone = choose|gone: Seq<Seq<Seq<u8>>>| #[trigger]
        lists(gone, vanished(seen, now)) && reports == told + removal_reports(voice, seen, gone);
    let removals = removal_reports(voice, seen, gone);
    assert(vanished(seen, now).contains(key));
    let i = gone.index_of(key);
    assert(gone[i] == key);
    lemma_removal_is_told(voice, seen, gone, i);
    let one = voice.tells(kind_between(Some(seen[key].1), None), seen[key].0);
    assert(one[0] == report);
    assert(removals.contains(report));
    assert(reports[told.len() + removals.index_of(report)] == report);
}

/// The finding at `i` accounts for a report: it is of the kind that lies between what was known
/// and what was found, at the path that was found, and the mask lets it through.
pub open spec fn told_of_finding(
    voice: Voice,
    known: Known,
    found: Seq<(Seq<u8>, PathData)>,
    i: int,
    report: Report,
) -> bool {
    &&& 0 <= i < found.len()
    &&& kind_between(
        lookup(absorbed(known, found.take(i)), found[i].0),
        Some(found[i].1),
    ) matches Some(kind) && mask_admits(voice.mask, kind) && report == Report::Event(
        kind,
        seq![reported_text(voice.root, voice.requested_root, found[i].0)],
    )
}

/// The disappearance of the path with this key accounts for a report.
pub open spec fn told_of_removal(
    voice: Voice,
    seen: Known,
    now: u64,
    key: Seq<Seq<u8>>,
    report: Report,
) -> bool {
    &&& vanished(seen, now).contains(key)
    &&& mask_admits(voice.mask, EventKind::Remove(RemoveKind::Any))
    &&& report == Report::Event(
        EventKind::Remove(RemoveKind::Any),
        seq![reported_text(voice.root, voice.requested_root, seen[key].0)],
    )
}

proof fn lemma_told_findings(
    voice: Voice,
    known: Known,
    found: Seq<(Seq<u8>, PathData)>,
    report: Report,
)
    requires
        scan_reports(voice, known, found).contains(report),
    ensures
        exists|i: int| #[trigger] told_of_finding(voice, known, found, i, report),
    decreases found.len(),
{
    if found.len() > 0 {
        let rest = found.drop_last();
        let last = found.len() - 1;
        let before = scan_reports(voice, known, rest);
        let kind = kind_between(
            lookup(absorbed(known, rest), found[last].0),
            Some(found[last].1),
        );
        let told = voice.tells(kind, found[last].0);
        let at = (before + told).index_of(report);
        assert((before + told)[at] == report);
        if at < before.len() {
            assert(before[at] == report);
            lemma_told_findings(voice, known, rest, report);
            let i = choose|i: int| #[trigger] told_of_finding(voice, known, rest, i, report);
            assert(rest.take(i) =~= found.take(i));
            assert(told_of_finding(voice, known, found, i, report));
        } else {
            assert(told[at - before.len()] == report);
            assert(found.take(last) =~= rest);
            assert(told_of_finding(voice, known, found, last, report));
        }
    }
}

proof fn lemma_told_removals(
    voice: Voice,
    seen: Known,
    now: u64,
    gone: Seq<Seq<Seq<u8>>>,
    report: Report,
)
    requires
        removal_reports(voice, seen, gone).contains(report),
        forall|i: int| 0 <= i < gone.len() ==> vanished(seen, now).contains(#[trigger] gone[i]),
    ensures
        exists|key: Seq<Seq<u8>>| #[trigger] told_of_removal(voice, seen, now, key, report),
    decreases gone.len(),
{
    if gone.len() > 0 {
        let rest = gone.drop_last();
        let last = gone.len() - 1;
        let before = removal_reports(voice, seen, rest);
        let told = voice.tells(kind_between(Some(seen[gone[last]].1), None), seen[gone[last]].0);
        let at = (before + told).index_of(report);
        assert((before + told)[at] == report);
        if at < before.len() {
            assert(before[at] == report);
            assert forall|i: int| 0 <= i < rest.len() implies vanished(seen, now).contains(
                #[trigger] rest[i],
            ) by {
                assert(rest[i] == gone[i]);
            }
            lemma_told_removals(voice, seen, now, rest, report);
        } else {
            assert(told[at - before.len()] == report);
            assert(told_of_removal(voice, seen, now, gone[last], report));
        }
    }
}

/// Nothing is made up: every report of a scan is one of an event that the mask lets through, and
/// a finding or a disappearance accounts for it.
pub proof fn law_reports_have_a_reason(
    voice: Voice,
    known: Known,
    found: Seq<(Seq<u8>, PathData)>,
    now: u64,
    known_after: Known,
    reports: Seq<Report>,
    report: Report,
)
    requires
        rescanned(voice, known, found, now, known_after, reports),
        reports.contains(report),
    ensures
        (exists|i: int| #[trigger] told_of_finding(voice, known, found, i, report)) || (exists|
            key: Seq<Seq<u8>>,
        | #[trigger]
            told_of_removal(voice, absorbed(known, found), now, key, report)),
        report matches Report::Event(kind, _) && mask_admits(voice.mask, kind),
{
    let seen = absorbed(known, found);
    let told = scan_reports(voice, known, found);
    let gone = choose|gone: Seq<Seq<Seq<u8>>>| #[trigger]
        lists(gone, vanished(seen, now)) && reports == told + removal_reports(voice, seen, gone);
    let removals = removal_reports(voice, seen, gone);
    let at = reports.index_of(report);
    assert((told + removals)[at] == report);
    if at < told.len() {
        assert(told[at] == report);
        lemma_told_findings(voice, known, found, report);
    } else {
        assert(removals[at - told.len()] == report);
        assert forall|i: int| 0 <= i < gone.len() implies vanished(seen, now).contains(
            #[trigger] gone[i],
        ) by {
            assert(gone.contains(gone[i]));
        }
        lemma_told_removals(voice, seen, now, gone, report);
    }
}

/// The path with these components lies strictly below the directory.
pub open spec fn beneath(key: Seq<Seq<u8>>, dir: Seq<u8>) -> bool {
    components(dir).is_prefix_of(key) && key != components(dir)
}

/// The report is one of an event at this path.
pub open spec fn told_at(voice: Voice, report: Report, path: Seq<u8>) -> bool {
    report matches Report::Event(_, paths) && paths == seq![
        reported_text(voice.root, voice.requested_root, path),
    ]
}

/// The report is one of an event at a path that does not lie strictly below the directory.
pub open spec fn told_from_outside(voice: Voice, report: Report, dir: Seq<u8>) -> bool {
    exists|path: Seq<u8>| #[trigger]
        told_at(voice, report, path) && !beneath(components(path), dir)
}

/// Nothing leaks from below a directory that scans do not enter: where nothing below it is known or
/// found, nothing below it is told of, and nothing below it is known afterwards.
pub proof fn law_nothing_leaks_from_below(
    voice: Voice,
    known: Known,
    found: Seq<(Seq<u8>, PathData)>,
    now: u64,
    known_after: Known,
    reports: Seq<Report>,
    dir: Seq<u8>,
)
    requires
        rescanned(voice, known, found, now, known_after, reports),
        forall|key: Seq<Seq<u8>>| #[trigger]
            known.dom().contains(key) ==> components(known[key].0) == key && !beneath(key, dir),
        forall|i: int|
            0 <= i < found.len() ==> !beneath(components((#[trigger] found[i]).0), dir),
    ensures
        forall|report: Report| #[trigger]
            reports.contains(report) ==> told_from_outside(voice, report, dir),
        forall|key: Seq<Seq<u8>>| #[trigger]
            known_after.dom().contains(key) ==> !beneath(key, dir),
{
    let seen = absorbed(known, found);
    assert forall|key: Seq<Seq<u8>>| #[trigger] seen.dom().contains(key) implies components(
        seen[key].0,
    ) == key && !beneath(key, dir) by {
        law_findings_are_taken_over(known, found, key);
        lemma_texts_match(known, found, key);
        if was_found(found, key) {
            let i = lemma_last_found(found, key);
        }
    }
    assert forall|report: Report| #[trigger] reports.contains(report) implies told_from_outside(
        voice,
        report,
        dir,
    ) by {
        law_reports_have_a_reason(voice, known, found, now, known_after, reports, report);
        if exists|i: int| #[trigger] told_of_finding(voice, known, found, i, report) {
            let i = choose|i: int| #[trigger] told_of_finding(voice, known, found, i, report);
            assert(told_at(voice, report, found[i].0));
        } else {
            let key = choose|key: Seq<Seq<u8>>| #[trigger]
                told_of_removal(voice, seen, now, key, report);
            assert(seen.dom().contains(key));
            assert(told_at(voice, report, seen[key].0));
        }
    }
}

/// The text under which a path is known is one of that path.
proof fn lemma_texts_match(known: Known, found: Seq<(Seq<u8>, PathData)>, key: Seq<Seq<u8>>)
    requires
        known.dom().contains(key) ==> components(known[key].0) == key,
    ensures
        absorbed(known, found).dom().contains(key) ==> components(absorbed(known, found)[key].0)
            == key,
    decreases found.len(),
{
    if found.len() > 0 {
        lemma_texts_match(known, found.drop_last(), key);
    }
}

/// A scan that finds everything as it was tells nothing.
pub proof fn law_unchanged_paths_are_silent(
    voice: Voice,
    known: Known,
    found: Seq<(Seq<u8>, PathData)>,
    now: u64,
    known_after: Known,
    reports: Seq<Report>,
)
    requires
        rescanned(voice, known, found, now, known_after, reports),
        found_once(found),
        forall|i: int|
            0 <= i < found.len() ==> (#[trigger] found[i]).1.last_check >= now && kind_between(
                lookup(known, found[i].0),
                Some(found[i].1),
            ) is None,
        forall|key: Seq<Seq<u8>>| #[trigger] known.dom().contains(key) ==> was_found(found, key),
    ensures
        reports == Seq::<Report>::empty(),
{
    if reports.len() > 0 {
        let report = reports[0];
        let seen = absorbed(known, found);
        law_reports_have_a_reason(voice, known, found, now, known_after, reports, report);
        if exists|i: int| #[trigger] told_of_finding(voice, known, found, i, report) {
            let i = choose|i: int| #[trigger] told_of_finding(voice, known, found, i, report);
            law_findings_are_compared_with_what_was_known(known, found, i);
            assert(kind_between(lookup(known, found[i].0), Some(found[i].1)) is None);
        } else {
            let key = choose|key: Seq<Seq<u8>>| #[trigger]
                told_of_removal(voice, seen, now, key, report);
            law_findings_are_taken_over(known, found, key);
            let i = lemma_last_found(found, key);
            assert(found[i].1.last_check >= now);
        }
    }
    assert(reports =~= Seq::<Report>::empty());
}

/// The finding says of a path what one of these findings says of it, but for the time at which it
/// was seen.
pub open spec fn also_found(
    finding: (Seq<u8>, PathData),
    found: Seq<(Seq<u8>, PathData)>,
) -> bool {
    exists|i: int|
        {
            &&& 0 <= i < found.len()
            &&& components((#[trigger] found[i]).0) == components(finding.0)
            &&& found[i].1.mtime == finding.1.mtime
            &&& found[i].1.hash == finding.1.hash
        }
}

/// Two scans found the same, in whatever order: the same paths, and the same of each but for the
/// time at which it was seen.
pub open spec fn same_findings(
    first: Seq<(Seq<u8>, PathData)>,
    second: Seq<(Seq<u8>, PathData)>,
) -> bool {
    &&& forall|i: int| 0 <= i < first.len() ==> also_found(#[trigger] first[i], second)
    &&& forall|i: int| 0 <= i < second.len() ==> also_found(#[trigger] second[i], first)
}

/// A scan that finds what the scan before it found, and after which exactly that was known, tells
/// nothing.
proof fn lemma_same_again(
    voice: Voice,
    known: Known,
    first: Seq<(Seq<u8>, PathData)>,
    second: Seq<(Seq<u8>, PathData)>,
    now: u64,
    known_after: Known,
    reports: Seq<Report>,
)
    requires
        found_once(first),
        found_once(second),
        same_findings(first, second),
        forall|key: Seq<Seq<u8>>| #[trigger] known.dom().contains(key) <==> was_found(first, key),
        forall|key: Seq<Seq<u8>>, i: int| #[trigger]
            last_found(first, key, i) ==> known[key].1 == first[i].1,
        forall|i: int| 0 <= i < second.len() ==> (#[trigger] second[i]).1.last_check >= now,
        rescanned(voice, known, second, now, known_after, reports),
    ensures
        reports == Seq::<Report>::empty(),
{
    assert forall|i: int| 0 <= i < second.len() implies (#[trigger] second[i]).1.last_check >= now
        && kind_between(lookup(known, second[i].0), Some(second[i].1)) is None by {
        let key = components(second[i].0);
        assert(also_found(second[i], first));
        let k = choose|k: int|
            {
                &&& 0 <= k < first.len()
                &&& components((#[trigger] first[k]).0) == components(second[i].0)
                &&& first[k].1.mtime == second[i].1.mtime
                &&& first[k].1.hash == second[i].1.hash
            };
        assert(was_found(first, key));
        assert(known.dom().contains(key));
        assert(last_found(first, key, k));
    }
    assert forall|key: Seq<Seq<u8>>| #[trigger] known.dom().contains(key) implies was_found(
        second,
        key,
    ) by {
        let i = choose|i: int| 0 <= i < first.len() && components((#[trigger] first[i]).0) == key;
        assert(also_found(first[i], second));
    }
    law_unchanged_paths_are_silent(voice, known, second, now, known_after, reports);
}

/// A change is told once: a scan that finds what the scan before it found, in whatever order, tells
/// nothing, whatever that one had to tell.
pub proof fn law_changes_are_told_once(
    voice: Voice,
    known: Known,
    first: Seq<(Seq<u8>, PathData)>,
    earlier: u64,
    known_between: Known,
    reports_before: Seq<Report>,
    second: Seq<(Seq<u8>, PathData)>,
    now: u64,
    known_after: Known,
    reports: Seq<Report>,
)
    requires
        in_time(known, first, earlier),
        found_once(first),
        rescanned(voice, known, first, earlier, known_between, reports_before),
        found_once(second),
        same_findings(first, second),
        forall|i: int| 0 <= i < second.len() ==> (#[trigger] second[i]).1.last_check >= now,
        rescanned(voice, known_between, second, now, known_after, reports),
    ensures
        reports == Seq::<Report>::empty(),
{
    law_scan_leaves_what_was_found(voice, known, first, earlier, known_between, reports_before);
    lemma_same_again(voice, known_between, first, second, now, known_after, reports);
}

/// What a new watch found on its first scan is not told as created: a scan that finds the same, in
/// whatever order, tells nothing.
pub proof fn law_first_findings_are_not_told(
    voice: Voice,
    first: Seq<(Seq<u8>, PathData)>,
    second: Seq<(Seq<u8>, PathData)>,
    now: u64,
    known_after: Known,
    reports: Seq<Report>,
)
    requires
        found_once(first),
        found_once(second),
        same_findings(first, second),
        forall|i: int| 0 <= i < second.len() ==> (#[trigger] second[i]).1.last_check >= now,
        rescanned(voice, absorbed(Map::empty(), first), second, now, known_after, reports),
    ensures
        reports == Seq::<Report>::empty(),
{
    let known: Known = absorbed(Map::empty(), first);
    assert forall|key: Seq<Seq<u8>>| #[trigger] known.dom().contains(key) <==> was_found(
        first,
        key,
    ) by {
        law_findings_are_taken_over(Map::empty(), first, key);
    }
    assert forall|key: Seq<Seq<u8>>, i: int| #[trigger]
        last_found(first, key, i) implies known[key].1 == first[i].1 by {
        law_findings_are_taken_over(Map::empty(), first, key);
    }
    lemma_same_again(voice, known, first, second, now, known_after, reports);
}

/// Between two recordings of a path lies a change of the write time wherever the new one is later,
/// whatever the hashes are; else a change of contents wherever the hashes differ; else nothing. A
/// path without an earlier recording was created, one without a later recording was removed.
pub proof fn law_events_between_recordings(old: PathData, new: PathData)
    ensures
        new.mtime > old.mtime ==> kind_between(Some(old), Some(new)) == Some(
            EventKind::Modify(ModifyKind::Metadata(MetadataKind::WriteTime)),
        ),
        new.mtime <= old.mtime && new.hash != old.hash ==> kind_between(Some(old), Some(new))
            == Some(EventKind::Modify(ModifyKind::Data(DataChange::Any))),
        new.mtime <= old.mtime && new.hash == old.hash ==> kind_between(Some(old), Some(new))
            is None,
        kind_between(None, Some(new)) == Some(EventKind::Create(CreateKind::Any)),
        kind_between(Some(old), None) == Some(EventKind::Remove(RemoveKind::Any)),
        kind_between(None, None) is None,
{
}

/// Times are counted in whole seconds from the start of 1970, negative before it. A part of a
/// second is dropped on both sides.
pub proof fn law_times_are_whole_seconds(nanos: u128)
    ensures
        nanos as int / 1_000_000_000 <= 0x7fff_ffff_ffff_ffff ==> {
            &&& FileTime::After(nanos).countable()
            &&& FileTime::Before(nanos).countable()
            &&& FileTime::After(nanos).seconds() == nanos as int / 1_000_000_000
            &&& FileTime::Before(nanos).seconds() == -(nanos as int / 1_000_000_000)
        },
        0x7fff_ffff_ffff_ffff < nanos as int / 1_000_000_000 <= 0xffff_ffff_ffff_ffff ==> {
            &&& FileTime::After(nanos).countable()
            &&& FileTime::After(nanos).seconds() == nanos as int / 1_000_000_000
                - 0x1_0000_0000_0000_0000
        },
{
    if 0x7fff_ffff_ffff_ffff < nanos as int / 1_000_000_000 <= 0xffff_ffff_ffff_ffff {
        let secs = (nanos as int / 1_000_000_000) as u64;
        assert((secs as i64) as i128 == (secs as i128) - 0x1_0000_0000_0000_0000i128)
            by (bit_vector)
            requires
                secs > 0x7fff_ffff_ffff_ffffu64,
        ;
    }
}

/// What is recorded of an entry: its write time in seconds, or 0 where it is not known; the hash of
/// its contents if it is a file and contents are compared, else none; and the time of the scan.
pub proof fn law_recordings_say_what_was_found(
    metadata: FileMeta,
    content_hash: Option<u64>,
    compare_contents: bool,
    now: u64,
)
    requires
        metadata.modified matches Some(time) ==> time.countable(),
    ensures
        ({
            let data = found_data(metadata, content_hash, compare_contents, now);
            &&& data.last_check == now
            &&& metadata.is_file && compare_contents ==> data.hash == content_hash
            &&& !(metadata.is_file && compare_contents) ==> data.hash is None
            &&& metadata.modified is None ==> data.mtime == 0
            &&& metadata.modified matches Some(time) ==> data.mtime == time.seconds()
        }),
{
}

/// What is known of a path is what is known under its components.
pub proof fn law_known_by_components(known: Known, path: Seq<u8>)
    ensures
        lookup(known, path) is Some <==> known.dom().contains(components(path)),
        lookup(known, path) matches Some(data) ==> data == known[components(path)].1,
{
}

/// The path was found, at this place, and not before it.
pub open spec fn first_found(
    found: Seq<(Seq<u8>, PathData)>,
    key: Seq<Seq<u8>>,
    i: int,
) -> bool {
    &&& 0 <= i < found.len()
    &&& components(found[i].0) == key
    &&& forall|j: int| 0 <= j < i ==> components((#[trigger] found[j]).0) != key
}

/// A path is known under the text under which it was found first, if it was not known before.
pub proof fn law_first_text_is_kept(
    known: Known,
    found: Seq<(Seq<u8>, PathData)>,
    key: Seq<Seq<u8>>,
    i: int,
)
    requires
        !known.dom().contains(key),
        first_found(found, key, i),
    ensures
        absorbed(known, found).dom().contains(key),
        absorbed(known, found)[key].0 == found[i].0,
    decreases found.len(),
{
    let rest = found.drop_last();
    let last = found.len() - 1;
    law_findings_are_taken_over(known, rest, key);
    if i < last {
        assert(first_found(rest, key, i)) by {
            assert forall|j: int| 0 <= j < i implies components((#[trigger] rest[j]).0) != key by {
                assert(components(found[j].0) != key);
            }
        }
        law_first_text_is_kept(known, rest, key, i);
    } else {
        if was_found(rest, key) {
            let j = choose|j: int|
                0 <= j < rest.len() && components((#[trigger] rest[j]).0) == key;
            assert(components(found[j].0) != key);
        }
    }
}

/// After a scan a path is known exactly if it was found, or known before, with a time that is not
/// before that of the scan. What was found last is known of it, else what was known before; and it
/// goes by the text by which it was known before, else by that under which it was found first.
pub proof fn law_what_a_scan_leaves(
    voice: Voice,
    known: Known,
    found: Seq<(Seq<u8>, PathData)>,
    now: u64,
    known_after: Known,
    reports: Seq<Report>,
    key: Seq<Seq<u8>>,
)
    requires
        rescanned(voice, known, found, now, known_after, reports),
    ensures
        !was_found(found, key) ==> (known_after.dom().contains(key) <==> known.dom().contains(key)
            && known[key].1.last_check >= now),
        !was_found(found, key) && known_after.dom().contains(key) ==> known_after[key]
            == known[key],
        forall|i: int| #[trigger]
            last_found(found, key, i) ==> {
                &&& known_after.dom().contains(key) <==> found[i].1.last_check >= now
                &&& known_after.dom().contains(key) ==> known_after[key].1 == found[i].1
            },
        known.dom().contains(key) && known_after.dom().contains(key) ==> known_after[key].0
            == known[key].0,
        !known.dom().contains(key) && known_after.dom().contains(key) ==> forall|i: int| #[trigger]
            first_found(found, key, i) ==> known_after[key].0 == found[i].0,
{
    law_findings_are_taken_over(known, found, key);
    assert forall|i: int| #[trigger] last_found(found, key, i) implies {
        &&& known_after.dom().contains(key) <==> found[i].1.last_check >= now
        &&& known_after.dom().contains(key) ==> known_after[key].1 == found[i].1
    } by {
        assert(components(found[i].0) == key);
        assert(was_found(found, key));
    }
    if !known.dom().contains(key) {
        assert forall|i: int| #[trigger] first_found(found, key, i) implies absorbed(
            known,
            found,
        )[key].0 == found[i].0 by {
            law_first_text_is_kept(known, found, key, i);
        }
    }
}

/// These reports are those of the findings at these places, in order: all findings that differ from
/// what was known of the path just before, and whose event the mask lets through.
pub open spec fn reports_of_findings(
    voice: Voice,
    known: Known,
    found: Seq<(Seq<u8>, PathData)>,
    at: Seq<int>,
    reports: Seq<Report>,
) -> bool {
    &&& reports.len() == at.len()
    &&& forall|j: int, k: int| 0 <= j < k < at.len() ==> #[trigger] at[j] < #[trigger] at[k]
    &&& forall|j: int|
        0 <= j < at.len() ==> told_of_finding(voice, known, found, #[trigger] at[j], reports[j])
    &&& forall|i: int, report: Report| #[trigger]
        told_of_finding(voice, known, found, i, report) ==> at.contains(i)
}

proof fn lemma_reports_of_findings(
    voice: Voice,
    known: Known,
    found: Seq<(Seq<u8>, PathData)>,
) -> (at: Seq<int>)
    ensures
        reports_of_findings(voice, known, found, at, scan_reports(voice, known, found)),
    decreases found.len(),
{
    if found.len() == 0 {
        Seq::<int>::empty()
    } else {
        let rest = found.drop_last();
        let last = found.len() - 1;
        let at = lemma_reports_of_findings(voice, known, rest);
        let before = scan_reports(voice, known, rest);
        let all = scan_reports(voice, known, found);
        let kind = kind_between(
            lookup(absorbed(known, rest), found[last].0),
            Some(found[last].1),
        );
        assert(found.take(last) =~= rest);
        assert forall|i: int, report: Report|
            i < last implies #[trigger] told_of_finding(voice, known, found, i, report)
            == told_of_finding(voice, known, rest, i, report) by {
            if 0 <= i < last {
                assert(rest.take(i) =~= found.take(i));
            }
        }
        let longer = if kind is Some && mask_admits(voice.mask, kind->0) {
            at.push(last)
        } else {
            at
        };
        assert forall|j: int| 0 <= j < longer.len() implies told_of_finding(
            voice,
            known,
            found,
            #[trigger] longer[j],
            all[j],
        ) by {
            if j < at.len() {
                assert(longer[j] == at[j]);
                assert(told_of_finding(voice, known, rest, at[j], before[j]));
                assert(all[j] == before[j]);
            }
        }
        assert forall|i: int, report: Report| #[trigger]
            told_of_finding(voice, known, found, i, report) implies longer.contains(i) by {
            if i < last {
                assert(told_of_finding(voice, known, rest, i, report));
                assert(longer[at.index_of(i)] == i);
            } else {
                assert(longer[at.len() as int] == last);
            }
        }
        assert forall|j: int, k: int| 0 <= j < k < longer.len() implies #[trigger] longer[j]
            < #[trigger] longer[k] by {
            assert(told_of_finding(voice, known, rest, at[j], before[j]));
        }
        longer
    }
}

/// These reports are those of the disappearance of these paths, in this order, if the mask lets
/// removals through; else there are none.
pub open spec fn reports_of_removals(
    voice: Voice,
    seen: Known,
    gone: Seq<Seq<Seq<u8>>>,
    reports: Seq<Report>,
) -> bool {
    if mask_admits(voice.mask, EventKind::Remove(RemoveKind::Any)) {
        &&& reports.len() == gone.len()
        &&& forall|j: int|
            0 <= j < gone.len() ==> #[trigger] reports[j] == Report::Event(
                EventKind::Remove(RemoveKind::Any),
                seq![reported_text(voice.root, voice.requested_root, seen[gone[j]].0)],
            )
    } else {
        reports.len() == 0
    }
}

proof fn lemma_reports_of_removals(voice: Voice, seen: Known, gone: Seq<Seq<Seq<u8>>>)
    ensures
        reports_of_removals(voice, seen, gone, removal_reports(voice, seen, gone)),
    decreases gone.len(),
{
    if gone.len() > 0 {
        lemma_reports_of_removals(voice, seen, gone.drop_last());
        let before = removal_reports(voice, seen, gone.drop_last());
        let all = removal_reports(voice, seen, gone);
        if mask_admits(voice.mask, EventKind::Remove(RemoveKind::Any)) {
            assert forall|j: int| 0 <= j < gone.len() implies #[trigger] all[j] == Report::Event(
                EventKind::Remove(RemoveKind::Any),
                seq![reported_text(voice.root, voice.requested_root, seen[gone[j]].0)],
            ) by {
                if j < gone.len() - 1 {
                    assert(all[j] == before[j]);
                }
            }
        }
    }
}

/// What a scan tells, and in which order: one report for each finding that differs from what was
/// known, in the order of the findings; then one for each path that was known and is not seen any
/// more, each once; and nothing else. The mask decides about each.
pub proof fn law_what_a_scan_tells(
    voice: Voice,
    known: Known,
    found: Seq<(Seq<u8>, PathData)>,
    now: u64,
    known_after: Known,
    reports: Seq<Report>,
)
    requires
        rescanned(voice, known, found, now, known_after, reports),
    ensures
        exists|at: Seq<int>, gone: Seq<Seq<Seq<u8>>>, n: int|
            {
                &&& 0 <= n <= reports.len()
                &&& #[trigger] reports_of_findings(voice, known, found, at, reports.take(n))
                &&& #[trigger] reports_of_removals(
                    voice,
                    absorbed(known, found),
                    gone,
                    reports.skip(n),
                )
                &&& gone.no_duplicates()
                &&& forall|key: Seq<Seq<u8>>| #[trigger]
                    gone.contains(key) <==> absorbed(known, found).dom().contains(key) && absorbed(
                        known,
                        found,
                    )[key].1.last_check < now
            },
{
    let seen = absorbed(known, found);
    let told = scan_reports(voice, known, found);
    let gone = choose|gone: Seq<Seq<Seq<u8>>>| #[trigger]
        lists(gone, vanished(seen, now)) && reports == told + removal_reports(voice, seen, gone);
    let at = lemma_reports_of_findings(voice, known, found);
    lemma_reports_of_removals(voice, seen, gone);
    let n = told.len() as int;
    assert(reports.take(n) =~= told);
    assert(reports.skip(n) =~= removal_reports(voice, seen, gone));
    assert forall|key: Seq<Seq<u8>>| #[trigger] gone.contains(key) <==> seen.dom().contains(key)
        && seen[key].1.last_check < now by {
        assert(vanished(seen, now).contains(key) <==> gone.contains(key));
    }
    assert(reports_of_findings(voice, known, found, at, reports.take(n)));
    assert(reports_of_removals(voice, seen, gone, reports.skip(n)));
}

/// A path that was not known and is found is told as created; one that was known is told as written
/// to if its write time is later, whatever its contents, and as changed if only its contents
/// differ. The bits of the mask decide: the lowest about creations, the third about contents, the
/// fourth about write times.
pub proof fn law_findings_are_told_by_what_changed(
    voice: Voice,
    known: Known,
    found: Seq<(Seq<u8>, PathData)>,
    now: u64,
    known_after: Known,
    reports: Seq<Report>,
    i: int,
)
    requires
        rescanned(voice, known, found, now, known_after, reports),
        found_once(found),
        0 <= i < found.len(),
    ensures
        ({
            let key = components(found[i].0);
            let paths = seq![reported_text(voice.root, voice.requested_root, found[i].0)];
            let old = known[key].1;
            let new = found[i].1;
            &&& !known.dom().contains(key) && voice.mask & 0b0001 != 0 ==> reports.contains(
                Report::Event(EventKind::Create(CreateKind::Any), paths),
            )
            &&& known.dom().contains(key) && new.mtime > old.mtime && voice.mask & 0b1000 != 0
                ==> reports.contains(
                Report::Event(
                    EventKind::Modify(ModifyKind::Metadata(MetadataKind::WriteTime)),
                    paths,
                ),
            )
            &&& known.dom().contains(key) && new.mtime <= old.mtime && new.hash != old.hash
                && voice.mask & 0b0100 != 0 ==> reports.contains(
                Report::Event(EventKind::Modify(ModifyKind::Data(DataChange::Any)), paths),
            )
        }),
{
    let key = components(found[i].0);
    law_known_by_components(known, found[i].0);
    law_mask_bits(voice.mask);
    let kind = kind_between(lookup(known, found[i].0), Some(found[i].1));
    if known.dom().contains(key) {
        law_events_between_recordings(known[key].1, found[i].1);
    }
    if kind is Some && mask_admits(voice.mask, kind->0) {
        law_changes_are_reported(voice, known, found, now, known_after, reports, i, kind->0);
    }
}

/// A watch that could be built is the one that was asked for: its root and the form in which it was
/// requested, its mode, whether it goes through symlinks, and its filter. It knows the paths that
/// the first scan recorded, and no others. A root that could not be looked at gives no watch, and
/// one failure with the path as requested.
pub proof fn law_watch_is_the_one_asked_for<F>(
    builder: DataBuilder,
    root: WatchPath,
    is_recursive: bool,
    follow_symlinks: bool,
    watch_filter: Option<F>,
    probed: Result<InitialScan, std::io::Error>,
    builder_after: DataBuilder,
    built: Option<WatchData<F>>,
)
    requires
        watch_built(
            builder,
            root,
            is_recursive,
            follow_symlinks,
            watch_filter,
            probed,
            builder_after,
            built,
        ),
    ensures
        built is Some <==> probed is Ok,
        built matches Some(watch) ==> {
            &&& watch.config().root == root.absolute@
            &&& watch.config().requested_root == root.requested@
            &&& watch.config().root_is_dir == probed->Ok_0.root_is_dir
            &&& watch.config().is_recursive == is_recursive
            &&& watch.config().follow_symlinks == follow_symlinks
            &&& watch.config().watch_filter == watch_filter
            &&& forall|key: Seq<Seq<u8>>| #[trigger]
                watch.known().dom().contains(key) <==> was_found(
                    records_of(probed->Ok_0.met@, builder.compare_contents, builder.now),
                    key,
                )
            &&& forall|key: Seq<Seq<u8>>, i: int| #[trigger]
                last_found(
                    records_of(probed->Ok_0.met@, builder.compare_contents, builder.now),
                    key,
                    i,
                ) ==> watch.known()[key].1 == records_of(
                    probed->Ok_0.met@,
                    builder.compare_contents,
                    builder.now,
                )[i].1
            &&& forall|key: Seq<Seq<u8>>, i: int| #[trigger]
                first_found(
                    records_of(probed->Ok_0.met@, builder.compare_contents, builder.now),
                    key,
                    i,
                ) ==> watch.known()[key].0 == records_of(
                    probed->Ok_0.met@,
                    builder.compare_contents,
                    builder.now,
                )[i].0
            &&& builder_after.emitter.reports() == builder.emitter.reports() + failures_of(
                probed->Ok_0.met@,
            )
        },
        probed matches Err(e) ==> builder_after.emitter.reports() == builder.emitter.reports().push(
            Report::Failure(ErrorKind::Io(e), seq![root.requested@]),
        ) && builder_after.scan_events == builder.scan_events,
        builder_after.now == builder.now,
        builder_after.compare_contents == builder.compare_contents,
        builder_after.emitter.mask() == builder.emitter.mask(),
{
    if probed is Ok {
        let found = records_of(probed->Ok_0.met@, builder.compare_contents, builder.now);
        let watch = built->0;
        assert forall|key: Seq<Seq<u8>>| #[trigger] watch.known().dom().contains(key)
            <==> was_found(found, key) by {
            law_findings_are_taken_over(Map::empty(), found, key);
        }
        assert forall|key: Seq<Seq<u8>>, i: int| #[trigger]
            last_found(found, key, i) implies watch.known()[key].1 == found[i].1 by {
            law_findings_are_taken_over(Map::empty(), found, key);
        }
        assert forall|key: Seq<Seq<u8>>, i: int| #[trigger]
            first_found(found, key, i) implies watch.known()[key].0 == found[i].0 by {
            law_first_text_is_kept(Map::empty(), found, key, i);
        }
    }
}

/// A scan changes nothing of what was asked for: the watch keeps its root, mode, symlinks and
/// filter. Nothing that was to be told before is lost; the failures of the scan come next, in
/// order; and nobody is told of paths as on a first scan.
pub proof fn law_scans_keep_the_watch<F>(
    watch: WatchData<F>,
    builder: DataBuilder,
    met: Seq<Met>,
    watch_after: WatchData<F>,
    builder_after: DataBuilder,
)
    requires
        watch_rescanned(watch, builder, met, watch_after, builder_after),
    ensures
        watch_after.config().root == watch.config().root,
        watch_after.config().requested_root == watch.config().requested_root,
        watch_after.config().root_is_dir == watch.config().root_is_dir,
        watch_after.config().is_recursive == watch.config().is_recursive,
        watch_after.config().follow_symlinks == watch.config().follow_symlinks,
        watch_after.config().watch_filter == watch.config().watch_filter,
        builder_after.now == builder.now,
        builder_after.compare_contents == builder.compare_contents,
        builder_after.scan_events == builder.scan_events,
        builder_after.emitter.mask() == builder.emitter.mask(),
        (builder.emitter.reports() + failures_of(met)).is_prefix_of(
            builder_after.emitter.reports(),
        ),
        exists|reports: Seq<Report>|
            {
                &&& #[trigger] rescanned(
                    Voice {
                        root: watch.config().root,
                        requested_root: watch.config().requested_root,
                        mask: builder.emitter.mask(),
                    },
                    watch.known(),
                    records_of(met, builder.compare_contents, builder.now),
                    builder.now,
                    watch_after.known(),
                    reports,
                )
                &&& builder_after.emitter.reports() == builder.emitter.reports() + failures_of(met)
                    + reports
            },
{
    let reports = choose|reports: Seq<Report>|
        {
            &&& #[trigger] looked_at(
                watch,
                builder.emitter.mask(),
                records_of(met, builder.compare_contents, builder.now),
                builder.now,
                watch_after,
                reports,
            )
            &&& builder_after.emitter.reports() == builder.emitter.reports() + failures_of(met)
                + reports
        };
    let said = builder.emitter.reports() + failures_of(met);
    assert(said =~= builder_after.emitter.reports().subrange(0, said.len() as int));
}

} // verus!
