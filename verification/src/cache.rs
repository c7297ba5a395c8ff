//! Caches of file IDs, by which a file is known again after it was renamed.

use file_id::FileId;
use vstd::prelude::*;

use crate::chain::{leads_to, lemma_no_step, lemma_step};
use crate::filter::{RecursiveMode, WatchFilter};
use crate::path::FilePath;

verus! {

/// `file_id::FileId`, which is carried along and never looked into.
#[verifier::external_type_specification]
#[verifier::external_body]
pub struct ExFileId(FileId);

/// A watched path, with the options that it is watched with.
#[derive(Debug)]
pub struct WatchRoot<F> {
    /// The watched path.
    pub path: FilePath,
    /// Whether everything below the path is watched.
    pub recursive_mode: RecursiveMode,
    /// The filter of the watch.
    pub watch_filter: WatchFilter<F>,
}

impl<F> Clone for WatchRoot<F> {
    fn clone(&self) -> (res: Self)
        ensures
            res.path@ == self.path@,
            res.recursive_mode == self.recursive_mode,
            res.watch_filter@ == self.watch_filter@,
    {
        WatchRoot {
            path: self.path.clone(),
            recursive_mode: self.recursive_mode,
            watch_filter: self.watch_filter.clone(),
        }
    }
}

/// The interface of a cache of file IDs.
///
/// It can be implemented for a cache that holds file IDs already. An implementation may say what
/// it finds (`finds`), and what adding and removing a path does to it (`adds`, `removes`); where
/// it does not say, anything is possible.
pub trait FileIdCache<F>: Sized {
    /// Asked about the path with this text, the cache may give this answer.
    open spec fn finds(&self, path: Seq<u8>, id: Option<FileId>) -> bool {
        true
    }

    /// Adding this path, in this way, may make one cache into the other.
    open spec fn adds(
        before: Self,
        path: FilePath,
        recursive_mode: RecursiveMode,
        watch_filter: WatchFilter<F>,
        after: Self,
    ) -> bool {
        true
    }

    /// Removing the path with this text may make one cache into the other.
    open spec fn removes(before: Self, path: Seq<u8>, after: Self) -> bool {
        true
    }

    /// The ID that is cached for a path. It is not read from disk where it is not cached.
    fn cached_file_id(&self, path: &FilePath) -> (res: Option<FileId>)
        ensures
            self.finds(path@, res),
    ;

    /// Adds a path to the cache, or brings it up to date: a file or directory was made there, or
    /// replaced.
    ///
    /// The cache is not to go below a directory that the filter rejects, since nothing is heard
    /// from there and its entries could not be kept up to date; see [`WatchFilter::allows_dir`].
    /// The ID of the rejected directory itself is to be cached. The filter expects absolute paths,
    /// so that a relative `path` has to be made absolute before the filter is asked.
    fn add_path(
        &mut self,
        path: &FilePath,
        recursive_mode: RecursiveMode,
        watch_filter: &WatchFilter<F>,
    )
        ensures
            Self::adds(*old(self), *path, recursive_mode, *watch_filter, *final(self)),
    ;

    /// Removes a path from the cache: the file or directory there is gone.
    fn remove_path(&mut self, path: &FilePath)
        ensures
            Self::removes(*old(self), path@, *final(self)),
    ;

    /// Looks at all `roots` again, since changes may have been missed. The filter of each root is
    /// to be honoured as by [`FileIdCache::add_path`].
    ///
    /// Unless an implementation knows better, each root is added anew, one after the other.
    fn rescan(&mut self, roots: &[WatchRoot<F>])
        default_ensures
            leads_to(
                |before: Self, root: WatchRoot<F>, after: Self|
                    Self::adds(
                        before,
                        root.path,
                        root.recursive_mode,
                        root.watch_filter,
                        after,
                    ),
                *old(self),
                roots@,
                *final(self),
            ),
    {
        let ghost step = |before: Self, root: WatchRoot<F>, after: Self|
            Self::adds(before, root.path, root.recursive_mode, root.watch_filter, after);
        proof {
            lemma_no_step(step, *self);
            assert(roots@.take(0) =~= seq![]);
        }
        let mut i: usize = 0;
        while i < roots.len()
            invariant
                i <= roots.len(),
                step == (|before: Self, root: WatchRoot<F>, after: Self|
                    Self::adds(before, root.path, root.recursive_mode, root.watch_filter, after)),
                leads_to(step, *old(self), roots@.take(i as int), *self),
            decreases roots.len() - i,
        {
            let root = &roots[i];
            let ghost middle = *self;
            self.add_path(&root.path, root.recursive_mode, &root.watch_filter);
            proof {
                lemma_step(step, *old(self), roots@.take(i as int), middle, *root, *self);
                assert(roots@.take(i as int).push(*root) =~= roots@.take(i + 1));
            }
            i += 1;
        }
        assert(roots@.take(i as int) =~= roots@);
    }
}

/// A cache that holds nothing, for those who do not want files to be tracked by their IDs.
#[derive(Debug)]
pub struct NoCache;

impl Clone for NoCache {
    fn clone(&self) -> (res: Self)
        ensures
            res == *self,
    {
        NoCache
    }
}

impl NoCache {
    /// An empty cache.
    #[must_use]
    pub fn new() -> (res: Self)
        ensures
            res == NoCache,
    {
        Default::default()
    }
}

impl Default for NoCache {
    fn default() -> (res: Self)
        ensures
            res == NoCache,
    {
        NoCache
    }
}

impl<F> FileIdCache<F> for NoCache {
    open spec fn finds(&self, path: Seq<u8>, id: Option<FileId>) -> bool {
        id is None
    }

    open spec fn adds(
        before: Self,
        path: FilePath,
        recursive_mode: RecursiveMode,
        watch_filter: WatchFilter<F>,
        after: Self,
    ) -> bool {
        after == before
    }

    open spec fn removes(before: Self, path: Seq<u8>, after: Self) -> bool {
        after == before
    }

    fn cached_file_id(&self, _path: &FilePath) -> (res: Option<FileId>) {
        None
    }

    fn add_path(
        &mut self,
        _path: &FilePath,
        _recursive_mode: RecursiveMode,
        _watch_filter: &WatchFilter<F>,
    ) {
    }

    fn remove_path(&mut self, _path: &FilePath) {
    }
}

/// A cache that holds nothing finds nothing, and adding or removing paths does not change that.
pub proof fn law_no_cache_finds_nothing<F>(
    cache: NoCache,
    path: FilePath,
    recursive_mode: RecursiveMode,
    watch_filter: WatchFilter<F>,
    after: NoCache,
    other: Seq<u8>,
    id: Option<FileId>,
)
    requires
        <NoCache as FileIdCache<F>>::adds(cache, path, recursive_mode, watch_filter, after)
            || <NoCache as FileIdCache<F>>::removes(cache, path@, after),
        <NoCache as FileIdCache<F>>::finds(&after, other, id),
    ensures
        id is None,
{
}

} // verus!
