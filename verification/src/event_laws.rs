//! Laws of events: which of them a mask lets through, and what messages tell.

use vstd::prelude::*;

use crate::error::{texts, Error, ErrorKind};
use crate::event::{
    mask_admits, masked_event, report_of, reports_of, CreateKind, DataChange, Event, EventKind,
    MetadataKind, ModifyKind, RemoveKind, Report,
};
use crate::path::FilePath;

verus! {

/// Which bit of a mask lets which events through: the lowest one creations, the next one removals,
/// then changes of contents, then changes of metadata.
pub proof fn law_mask_bits(mask: u32)
    ensures
        mask_admits(mask, EventKind::Create(CreateKind::Any)) <==> mask & 0b0001 != 0,
        mask_admits(mask, EventKind::Remove(RemoveKind::Any)) <==> mask & 0b0010 != 0,
        mask_admits(mask, EventKind::Modify(ModifyKind::Data(DataChange::Any))) <==> mask & 0b0100
            != 0,
        mask_admits(
            mask,
            EventKind::Modify(ModifyKind::Metadata(MetadataKind::WriteTime)),
        ) <==> mask & 0b1000 != 0,
{
}

/// An event at a path is told once where the mask lets it through, and not at all elsewhere.
pub proof fn law_events_are_told_by_the_mask(mask: u32, kind: EventKind, path: Seq<u8>)
    ensures
        mask_admits(mask, kind) ==> masked_event(mask, kind, path).len() == 1 && masked_event(
            mask,
            kind,
            path,
        )[0] == Report::Event(kind, seq![path]),
        !mask_admits(mask, kind) ==> masked_event(mask, kind, path).len() == 0,
{
}

/// Messages tell what they hold, one report each, in order.
pub proof fn law_messages_tell_what_they_hold(messages: Seq<Result<Event, Error>>, i: int)
    requires
        0 <= i < messages.len(),
    ensures
        reports_of(messages).len() == messages.len(),
        messages[i] matches Ok(event) ==> (reports_of(messages)[i] matches Report::Event(
            kind,
            paths,
        ) && kind == event.kind && paths == texts(event.paths@)),
        messages[i] matches Err(error) ==> (reports_of(messages)[i] matches Report::Failure(
            kind,
            paths,
        ) && kind == error.kind && paths == texts(error.paths@)),
        report_of(messages[i]) == reports_of(messages)[i],
{
}

/// The texts of paths are those of each, in order.
pub proof fn law_texts_of_paths(paths: Seq<FilePath>, i: int)
    requires
        0 <= i < paths.len(),
    ensures
        texts(paths).len() == paths.len(),
        texts(paths)[i] == paths[i]@,
{
}

/// An error is of a kind and about some paths exactly if that is its kind and these are the paths
/// it names, in order.
pub proof fn law_errors_name_their_paths(error: Error, kind: ErrorKind, paths: Seq<Seq<u8>>)
    ensures
        error.is(kind, paths) <==> {
            &&& error.kind == kind
            &&& error.paths@.len() == paths.len()
            &&& forall|i: int| 0 <= i < paths.len() ==> #[trigger] error.paths@[i]@ == paths[i]
        },
{
    if error.kind == kind && error.paths@.len() == paths.len() && (forall|i: int|
        0 <= i < paths.len() ==> #[trigger] error.paths@[i]@ == paths[i]) {
        assert(texts(error.paths@) =~= paths);
    }
    if error.is(kind, paths) {
        assert forall|i: int| 0 <= i < paths.len() implies #[trigger] error.paths@[i]@
            == paths[i] by {
            assert(texts(error.paths@)[i] == paths[i]);
        }
    }
}

/// A generic error is one with that message and no path.
pub proof fn law_generic_errors_hold_their_message(error: Error, message: Seq<char>)
    ensures
        error.is_generic(message) <==> {
            &&& error.kind matches ErrorKind::Generic(text) && text@ == message
            &&& error.paths@.len() == 0
        },
{
    if error.paths@.len() == 0 {
        assert(texts(error.paths@) =~= seq![]);
    } else {
        assert(texts(error.paths@).len() > 0);
    }
}

} // verus!
