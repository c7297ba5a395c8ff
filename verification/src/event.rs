//! Events and their way to the user.

use notify_types::event as types;
use vstd::prelude::*;

use crate::error::{texts, Error, ErrorKind};
use crate::path::FilePath;

verus! {

/// How something was created. Polling cannot tell more.
#[derive(Clone, Copy, Debug, PartialEq, Eq, Structural)]
pub enum CreateKind {
    Any,
}

/// How something was removed. Polling cannot tell more.
#[derive(Clone, Copy, Debug, PartialEq, Eq, Structural)]
pub enum RemoveKind {
    Any,
}

/// How contents changed. Polling cannot tell more.
#[derive(Clone, Copy, Debug, PartialEq, Eq, Structural)]
pub enum DataChange {
    Any,
}

/// Which metadata changed. Polling compares the write time alone.
#[derive(Clone, Copy, Debug, PartialEq, Eq, Structural)]
pub enum MetadataKind {
    WriteTime,
}

/// What was modified.
#[derive(Clone, Copy, Debug, PartialEq, Eq, Structural)]
pub enum ModifyKind {
    Data(DataChange),
    Metadata(MetadataKind),
}

/// What happened to a path.
#[derive(Clone, Copy, Debug, PartialEq, Eq, Structural)]
pub enum EventKind {
    Create(CreateKind),
    Modify(ModifyKind),
    Remove(RemoveKind),
}

/// The bit that an event mask has for events of this kind.
pub open spec fn kind_bit(kind: EventKind) -> u32 {
    match kind {
        EventKind::Create(_) => 1,
        EventKind::Remove(_) => 2,
        EventKind::Modify(ModifyKind::Data(_)) => 4,
        EventKind::Modify(ModifyKind::Metadata(_)) => 8,
    }
}

/// A mask with these bits lets events of this kind through.
pub open spec fn mask_admits(mask: u32, kind: EventKind) -> bool {
    mask & kind_bit(kind) != 0
}

/// `notify_types::event::EventKindMask::matches`, on the mask with these bits: it lets an event
/// through where it has the bit of the event's kind.
#[verifier::external_body]
fn mask_matches(mask: u32, kind: EventKind) -> (res: bool)
    ensures
        res == mask_admits(mask, kind),
{
    let kind = match kind {
        EventKind::Create(CreateKind::Any) => types::EventKind::Create(types::CreateKind::Any),
        EventKind::Remove(RemoveKind::Any) => types::EventKind::Remove(types::RemoveKind::Any),
        EventKind::Modify(ModifyKind::Data(DataChange::Any)) => types::EventKind::Modify(
            types::ModifyKind::Data(types::DataChange::Any),
        ),
        EventKind::Modify(ModifyKind::Metadata(MetadataKind::WriteTime)) => {
            let kind = types::ModifyKind::Metadata(types::MetadataKind::WriteTime);
            types::EventKind::Modify(kind)
        },
    };
    types::EventKindMask::from_bits_retain(mask).matches(&kind)
}

/// Something that happened, and the paths that it happened to.
#[derive(Debug)]
pub struct Event {
    /// What happened.
    pub kind: EventKind,
    /// The paths that it happened to.
    pub paths: Vec<FilePath>,
}

impl Event {
    /// An event of the given kind, without paths.
    pub fn new(kind: EventKind) -> (res: Self)
        ensures
            res.kind == kind,
            texts(res.paths@) == Seq::<Seq<u8>>::empty(),
    {
        let res = Event { kind, paths: Vec::new() };
        assert(texts(res.paths@) =~= seq![]);
        res
    }

    /// The same event, concerning one path more.
    pub fn add_path(self, path: FilePath) -> (res: Self)
        ensures
            res.kind == self.kind,
            texts(res.paths@) == texts(self.paths@).push(path@),
    {
        let ghost before = self.paths@;
        let mut res = self;
        res.paths.push(path);
        assert(texts(res.paths@) =~= texts(before).push(path@));
        res
    }
}

/// What a user is told: an event, or a failure.
pub enum Report {
    Event(EventKind, Seq<Seq<u8>>),
    Failure(ErrorKind, Seq<Seq<u8>>),
}

/// What this message tells the user.
pub open spec fn report_of(message: Result<Event, Error>) -> Report {
    match message {
        Ok(event) => Report::Event(event.kind, texts(event.paths@)),
        Err(error) => Report::Failure(error.kind, texts(error.paths@)),
    }
}

/// What these messages tell the user, in order.
pub open spec fn reports_of(messages: Seq<Result<Event, Error>>) -> Seq<Report> {
    messages.map_values(|m: Result<Event, Error>| report_of(m))
}

/// The report of an event at one path, where the mask lets it through.
pub open spec fn masked_event(mask: u32, kind: EventKind, path: Seq<u8>) -> Seq<Report> {
    if mask_admits(mask, kind) {
        seq![Report::Event(kind, seq![path])]
    } else {
        seq![]
    }
}

/// Collects what the user is to be told, until it is handed over.
#[derive(Debug)]
pub struct EventEmitter {
    event_kinds: u32,
    messages: Vec<Result<Event, Error>>,
}

impl EventEmitter {
    /// The bits of the mask that events have to pass.
    pub closed spec fn mask(self) -> u32 {
        self.event_kinds
    }

    /// What the user is to be told.
    pub closed spec fn reports(self) -> Seq<Report> {
        reports_of(self.messages@)
    }

    /// An emitter that has nothing to tell yet. `event_kinds` are the bits of the mask that events
    /// have to pass.
    pub fn new(event_kinds: u32) -> (res: Self)
        ensures
            res.mask() == event_kinds,
            res.reports() == Seq::<Report>::empty(),
    {
        let res = EventEmitter { event_kinds, messages: Vec::new() };
        assert(res.reports() =~= seq![]);
        res
    }

    /// Adds one message. Failures always pass.
    pub fn emit(&mut self, message: Result<Event, Error>)
        ensures
            final(self).mask() == old(self).mask(),
            final(self).reports() == old(self).reports().push(report_of(message)),
    {
        self.messages.push(message);
        assert(self.reports() =~= old(self).reports().push(report_of(message)));
    }

    /// Adds an event, where the mask lets it through.
    pub fn emit_ok(&mut self, event: Event)
        ensures
            final(self).mask() == old(self).mask(),
            final(self).reports() == if mask_admits(old(self).mask(), event.kind) {
                old(self).reports().push(Report::Event(event.kind, texts(event.paths@)))
            } else {
                old(self).reports()
            },
    {
        if mask_matches(self.event_kinds, event.kind) {
            self.emit(Ok(event))
        }
    }

    /// Adds a failure of the file system, at the path where it is known.
    pub fn emit_io_err(&mut self, err: std::io::Error, path: Option<FilePath>)
        ensures
            final(self).mask() == old(self).mask(),
            final(self).reports() == old(self).reports().push(
                Report::Failure(
                    ErrorKind::Io(err),
                    match path {
                        Some(p) => seq![p@],
                        None => seq![],
                    },
                ),
            ),
    {
        let e = Error::io(err);
        match path {
            Some(path) => {
                assert(Seq::<Seq<u8>>::empty().push(path@) =~= seq![path@]);
                self.emit(Err(e.add_path(path)));
            },
            None => self.emit(Err(e)),
        }
    }

    /// Hands over the messages. None is left.
    pub fn take(&mut self) -> (res: Vec<Result<Event, Error>>)
        ensures
            final(self).mask() == old(self).mask(),
            reports_of(res@) == old(self).reports(),
            final(self).reports() == Seq::<Report>::empty(),
    {
        let mut res: Vec<Result<Event, Error>> = Vec::new();
        res.append(&mut self.messages);
        assert(res@ =~= old(self).messages@);
        assert(self.reports() =~= seq![]);
        res
    }
}

} // verus!
