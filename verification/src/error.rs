//! What can go wrong.

use vstd::prelude::*;

use crate::path::FilePath;

verus! {

/// `std::io::Error`, which is carried to whoever handles the failure and never looked into.
#[verifier::external_type_specification]
#[verifier::external_body]
pub struct ExIoError(std::io::Error);

/// The texts of a list of paths.
pub open spec fn texts(paths: Seq<FilePath>) -> Seq<Seq<u8>> {
    paths.map_values(|p: FilePath| p@)
}

/// What kind of failure an [`Error`] reports.
#[derive(Debug)]
pub enum ErrorKind {
    /// A failure that only its message describes.
    Generic(String),
    /// A failure of the file system.
    Io(std::io::Error),
    /// The path is not watched.
    WatchNotFound,
    /// The root of the watch is a directory that its own filter rejects.
    PathExcluded,
    /// The watch overlaps another one, and one of the two is filtered.
    WatchOverlap,
}

/// A failure and the paths that it concerns.
#[derive(Debug)]
pub struct Error {
    /// What went wrong.
    pub kind: ErrorKind,
    /// The paths that the failure concerns.
    pub paths: Vec<FilePath>,
}

impl Error {
    /// The error has this kind and these paths.
    pub open spec fn is(self, kind: ErrorKind, paths: Seq<Seq<u8>>) -> bool {
        self.kind == kind && texts(self.paths@) == paths
    }

    /// The error is one that only this message describes.
    pub open spec fn is_generic(self, message: Seq<char>) -> bool {
        &&& self.kind matches ErrorKind::Generic(text) && text@ == message
        &&& texts(self.paths@) == Seq::<Seq<u8>>::empty()
    }

    /// An error of the given kind that concerns no path yet.
    pub fn new(kind: ErrorKind) -> (res: Self)
        ensures
            res.is(kind, seq![]),
    {
        let res = Error { kind, paths: Vec::new() };
        assert(texts(res.paths@) =~= seq![]);
        res
    }

    /// An error that only `message` describes.
    pub fn generic(message: &str) -> (res: Self)
        ensures
            res.is_generic(message@),
    {
        Error::new(ErrorKind::Generic(message.to_owned()))
    }

    /// A failure of the file system.
    pub fn io(err: std::io::Error) -> (res: Self)
        ensures
            res.is(ErrorKind::Io(err), seq![]),
    {
        Error::new(ErrorKind::Io(err))
    }

    /// The path to unwatch was not watched.
    pub fn watch_not_found() -> (res: Self)
        ensures
            res.is(ErrorKind::WatchNotFound, seq![]),
    {
        Error::new(ErrorKind::WatchNotFound)
    }

    /// The filter of a watch rejects its root.
    pub fn path_excluded() -> (res: Self)
        ensures
            res.is(ErrorKind::PathExcluded, seq![]),
    {
        Error::new(ErrorKind::PathExcluded)
    }

    /// A filtered watch overlaps another watch.
    pub fn watch_overlap() -> (res: Self)
        ensures
            res.is(ErrorKind::WatchOverlap, seq![]),
    {
        Error::new(ErrorKind::WatchOverlap)
    }

    /// The same error, concerning one path more.
    pub fn add_path(self, path: FilePath) -> (res: Self)
        ensures
            res.is(self.kind, texts(self.paths@).push(path@)),
    {
        let ghost before = self.paths@;
        let mut res = self;
        res.paths.push(path);
        assert(texts(res.paths@) =~= texts(before).push(path@));
        res
    }
}

} // verus!
