//! Caches of file IDs.

use file_id::FileId;
use notify_poll::cache::{FileIdCache, NoCache, WatchRoot};
use notify_poll::filter::{RecursiveMode, WatchFilter};
use notify_poll::path::FilePath;

type Predicate = fn(&FilePath) -> bool;

fn path(text: &str) -> FilePath {
    FilePath::new(text.as_bytes().to_vec())
}

fn root(text: &str, recursive_mode: RecursiveMode) -> WatchRoot<Predicate> {
    WatchRoot { path: path(text), recursive_mode, watch_filter: WatchFilter::accept_all() }
}

#[test]
fn no_cache_holds_nothing() {
    let mut cache: NoCache = NoCache::new();
    let filter: WatchFilter<Predicate> = WatchFilter::accept_all();
    cache.add_path(&path("/a"), RecursiveMode::Recursive, &filter);
    FileIdCache::<Predicate>::remove_path(&mut cache, &path("/b"));
    cache.rescan(&[root("/a", RecursiveMode::Recursive)]);
    assert_eq!(FileIdCache::<Predicate>::cached_file_id(&cache, &path("/a")), None);
    let copy = NoCache::default().clone();
    assert_eq!(FileIdCache::<Predicate>::cached_file_id(&copy, &path("/a")), None);
}

/// Numbers the paths in the order in which they are added.
struct Numbered(Vec<(FilePath, RecursiveMode)>);

impl FileIdCache<Predicate> for Numbered {
    fn cached_file_id(&self, path: &FilePath) -> Option<FileId> {
        let place = self.0.iter().position(|(p, _)| p == path)?;
        Some(FileId::new_inode(1, place as u64))
    }

    fn add_path(
        &mut self,
        path: &FilePath,
        recursive_mode: RecursiveMode,
        _watch_filter: &WatchFilter<Predicate>,
    ) {
        self.0.push((path.clone(), recursive_mode));
    }

    fn remove_path(&mut self, path: &FilePath) {
        self.0.retain(|(p, _)| p != path);
    }
}

#[test]
fn rescan_adds_each_root_in_order() {
    let mut cache = Numbered(Vec::new());
    let roots = [
        root("/b", RecursiveMode::NonRecursive),
        root("/a", RecursiveMode::Recursive).clone(),
    ];
    cache.rescan(&roots);
    assert_eq!(
        cache.0,
        vec![
            (path("/b"), RecursiveMode::NonRecursive),
            (path("/a"), RecursiveMode::Recursive),
        ]
    );
    assert_eq!(cache.cached_file_id(&path("/a")), Some(FileId::new_inode(1, 1)));
    cache.remove_path(&path("/b"));
    assert_eq!(cache.cached_file_id(&path("/b")), None);
}
