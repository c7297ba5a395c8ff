//! Directory filters: which directories a watch covers.

use std::sync::Arc;

use vstd::prelude::*;

use crate::path::FilePath;

verus! {

/// Another handle on the value behind `handle`, by `Arc::clone`: both handles lead to the same
/// value.
#[verifier::external_body]
fn share<T>(handle: &Arc<T>) -> (res: Arc<T>)
    ensures
        res == *handle,
{
    Arc::clone(handle)
}

/// Whether a watch covers what lies below the watched path.
#[derive(Clone, Copy, Debug, PartialEq, Eq, Structural)]
pub enum RecursiveMode {
    /// The path and everything below it.
    Recursive,
    /// The path and its direct children.
    NonRecursive,
}

impl RecursiveMode {
    /// Whether everything below the path is covered.
    pub fn is_recursive(&self) -> (res: bool)
        ensures
            res == (*self is Recursive),
    {
        match self {
            RecursiveMode::Recursive => true,
            RecursiveMode::NonRecursive => false,
        }
    }
}

/// Asked about a path with this text, `predicate` may give this answer.
pub open spec fn may_say<F: Fn(&FilePath) -> bool>(
    predicate: F,
    text: Seq<u8>,
    answer: bool,
) -> bool {
    exists|p: FilePath| p@ == text && #[trigger] call_ensures(predicate, (&p,), answer)
}

/// The predicate, where there is one, can be asked about every path.
pub open spec fn may_be_asked<F: Fn(&FilePath) -> bool>(predicate: Option<F>) -> bool {
    predicate matches Some(f) ==> forall|p: FilePath| #[trigger] call_requires(f, (&p,))
}

/// Decides which directories are watched: all of them, or those that a predicate accepts.
///
/// The filter speaks of directories only. Files are never held back by it, and a rejected
/// directory is still reported by its watched parent; only what lies inside it is not watched.
#[derive(Debug)]
pub struct WatchFilter<F> {
    predicate: Option<Arc<F>>,
}

impl<F> View for WatchFilter<F> {
    type V = Option<F>;

    /// The predicate; `None` where every directory is accepted.
    closed spec fn view(&self) -> Option<F> {
        match self.predicate {
            Some(f) => Some(*f),
            None => None,
        }
    }
}

impl<F: Fn(&FilePath) -> bool> WatchFilter<F> {
    /// Every directory is accepted, and nothing has to be asked.
    pub open spec fn accepts_all(self) -> bool {
        self@ is None
    }

    /// The predicate can be asked about every path.
    pub open spec fn callable(self) -> bool {
        may_be_asked(self@)
    }

    /// The predicate can be asked about a path with this text.
    pub open spec fn can_be_asked(self, text: Seq<u8>) -> bool {
        self@ matches Some(f) ==> forall|p: FilePath|
            p@ == text ==> #[trigger] call_requires(f, (&p,))
    }

    /// The predicate can be asked about a directory, under both its names where it is reached
    /// through a symlink.
    pub open spec fn can_be_asked_of_dir(self, text: Seq<u8>, target: Option<Seq<u8>>) -> bool {
        &&& self.can_be_asked(text)
        &&& target matches Some(t) ==> self.can_be_asked(t)
    }

    /// Asked about a path with this text, the filter may give this answer.
    pub open spec fn may_answer(self, text: Seq<u8>, answer: bool) -> bool {
        match self@ {
            Some(f) => may_say(f, text, answer),
            None => answer,
        }
    }

    /// Asked about a directory, the filter may give this answer. A directory that is reached
    /// through a symlink is asked about under both names, its own and that of its target, and
    /// both must be accepted.
    pub open spec fn may_decide_dir(
        self,
        text: Seq<u8>,
        target: Option<Seq<u8>>,
        answer: bool,
    ) -> bool {
        if answer {
            &&& self.may_answer(text, true)
            &&& target matches Some(t) ==> self.may_answer(t, true)
        } else {
            ||| self.may_answer(text, false)
            ||| (self.may_answer(text, true) && (target matches Some(t) && self.may_answer(
                t,
                false,
            )))
        }
    }

    /// The filter that accepts every directory.
    pub fn accept_all() -> (res: Self)
        ensures
            res@ is None,
    {
        WatchFilter { predicate: None }
    }

    /// The filter that accepts the directories that `predicate` accepts.
    pub fn with_filter(predicate: F) -> (res: Self)
        requires
            forall|p: FilePath| #[trigger] call_requires(predicate, (&p,)),
        ensures
            res@ == Some(predicate),
            res.callable(),
    {
        WatchFilter { predicate: Some(Arc::new(predicate)) }
    }

    /// Whether this is the filter that accepts every directory.
    pub fn is_accept_all(&self) -> (res: bool)
        ensures
            res == self.accepts_all(),
    {
        self.predicate.is_none()
    }

    /// Asks the filter about one path, and about no other.
    pub fn should_watch(&self, path: &FilePath) -> (res: bool)
        requires
            self@ matches Some(f) ==> call_requires(f, (path,)),
        ensures
            self.may_answer(path@, res),
            self@ matches Some(f) ==> call_ensures(f, (path,), res),
            self@ is None ==> res,
    {
        match &self.predicate {
            None => true,
            Some(f) => {
                let f: &F = &**f;
                let ghost asked = self@->0;
                assert(asked == *f);
                assert(call_requires(asked, (path,)));
                f(path)
            },
        }
    }

    /// Asks the filter about a directory; `target` is what it resolves to where it is a symlink. It
    /// is asked about these two paths, and about no other.
    pub fn allows_dir(&self, path: &FilePath, target: Option<&FilePath>) -> (res: bool)
        requires
            self@ matches Some(f) ==> call_requires(f, (path,)),
            self@ matches Some(f) ==> target matches Some(t) ==> call_requires(f, (t,)),
        ensures
            self.may_decide_dir(
                path@,
                match target {
                    Some(t) => Some(t@),
                    None => None,
                },
                res,
            ),
            self@ is None ==> res,
            (self@ matches Some(f) && res) ==> call_ensures(self@->0, (path,), true),
            (self@ matches Some(f) && res && target matches Some(t)) ==> call_ensures(
                self@->0,
                (target->0,),
                true,
            ),
            (self@ matches Some(f) && !res) ==> {
                ||| call_ensures(self@->0, (path,), false)
                ||| target is Some && call_ensures(self@->0, (target->0,), false)
            },
    {
        if !self.should_watch(path) {
            return false;
        }
        match target {
            Some(target) => self.should_watch(target),
            None => true,
        }
    }
}

impl<F> Clone for WatchFilter<F> {
    fn clone(&self) -> (res: Self)
        ensures
            res@ == self@,
    {
        match &self.predicate {
            None => WatchFilter { predicate: None },
            Some(f) => WatchFilter { predicate: Some(share(f)) },
        }
    }
}

} // verus!
