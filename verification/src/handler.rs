//! Handlers of what the first scan of a path meets.

use vstd::prelude::*;

use crate::chain::{leads_to, lemma_no_step, lemma_step, reversed};
use crate::error::Error;
use crate::path::FilePath;

verus! {

/// What a handler is told on the first scan of a path: a path that was met, or a failure.
pub type ScanEvent = Result<FilePath, Error>;

/// Handles what the first scan of a path meets.
///
/// An implementation may say what handling an event does to it (`handles`); where it does not say,
/// anything is possible.
pub trait ScanEventHandler: Send + Sized + 'static {
    /// Handling this event may make one handler into the other.
    open spec fn handles(before: Self, event: ScanEvent, after: Self) -> bool {
        true
    }

    /// Handles an event.
    fn handle_event(&mut self, event: ScanEvent)
        ensures
            Self::handles(*old(self), event, *final(self)),
    ;
}

/// Does nothing.
impl ScanEventHandler for () {
    open spec fn handles(before: Self, event: ScanEvent, after: Self) -> bool {
        after == before
    }

    fn handle_event(&mut self, _event: ScanEvent) {
    }
}

/// Tells a handler of the paths that were met, in order. None is left.
pub fn tell_paths<H: ScanEventHandler>(handler: &mut H, paths: &mut Vec<FilePath>)
    ensures
        leads_to(
            |before: H, path: FilePath, after: H| H::handles(before, Ok(path), after),
            *old(handler),
            old(paths)@,
            *final(handler),
        ),
        final(paths)@ == Seq::<FilePath>::empty(),
{
    let ghost step = |before: H, path: FilePath, after: H| H::handles(before, Ok(path), after);
    let ghost all = paths@;
    let mut met: Vec<FilePath> = Vec::new();
    met.append(paths);
    let mut rest = reversed(met);
    proof {
        assert(met@ =~= all);
        assert(all.skip(0) =~= all);
        lemma_no_step(step, *handler);
        assert(all.take(0) =~= seq![]);
    }
    while rest.len() > 0
        invariant
            all == old(paths)@,
            paths@ == Seq::<FilePath>::empty(),
            rest@.len() <= all.len(),
            rest@ == all.skip(all.len() - rest@.len()).reverse(),
            step == (|before: H, path: FilePath, after: H| H::handles(before, Ok(path), after)),
            leads_to(step, *old(handler), all.take(all.len() - rest@.len()), *handler),
        decreases rest.len(),
    {
        let ghost middle = *handler;
        let ghost done = all.len() - rest@.len();
        if let Some(path) = rest.pop() {
            handler.handle_event(Ok(path));
            proof {
                lemma_step(step, *old(handler), all.take(done), middle, path, *handler);
                assert(all.take(done).push(path) =~= all.take(done + 1));
                assert(rest@ =~= all.skip(done + 1).reverse());
            }
        }
    }
    assert(all.take(all.len() as int) =~= all);
}

} // verus!
