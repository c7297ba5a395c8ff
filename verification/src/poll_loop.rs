//! The loop of a polling watcher: when it scans, whom it answers, and when it ends.

use core::time::Duration;

use vstd::prelude::*;

use crate::error::Error;

verus! {

/// A request to the loop of a polling watcher.
#[derive(Debug)]
pub enum PollMessage<R> {
    /// Scan.
    Poll,
    /// Scan, and say so when it is done, to this receiver.
    PollAndWait(R),
}

/// What the loop does next.
#[derive(Debug)]
pub enum Turn<R> {
    /// It ends.
    Exit,
    /// It waits for a request, or for the delay to pass where there is one.
    Wait,
    /// It scans, at this request or by itself.
    Scan(Option<PollMessage<R>>),
}

/// The state of the loop.
pub struct LoopState<R> {
    /// The requests that wait to be served, the oldest first.
    pub requests: Seq<PollMessage<R>>,
    /// The loop scans by itself, after this delay each time.
    pub delay: Option<Duration>,
    /// The loop has not scanned by itself yet.
    pub fresh: bool,
    /// The loop was told to end.
    pub stopping: bool,
    /// The loop has not ended.
    pub running: bool,
}

impl<R> LoopState<R> {
    /// The loop serves its oldest request.
    pub open spec fn serves(self) -> (LoopState<R>, Turn<R>) {
        (
            LoopState { requests: self.requests.drop_first(), ..self },
            Turn::Scan(Some(self.requests[0])),
        )
    }

    /// The loop has ended. The requests that it leaves behind are dropped, by which those who wait
    /// for an answer learn that there will be none.
    pub open spec fn ended(self) -> LoopState<R> {
        LoopState { requests: seq![], running: false, ..self }
    }

    /// What the loop does when it has finished what it did before.
    pub open spec fn begins(self) -> (LoopState<R>, Turn<R>) {
        if self.stopping {
            (self.ended(), Turn::Exit)
        } else if self.delay is Some && self.fresh {
            (LoopState { fresh: false, ..self }, Turn::Scan(None))
        } else if self.requests.len() > 0 {
            self.serves()
        } else {
            (self, Turn::Wait)
        }
    }

    /// What the loop does when its waiting comes to an end.
    pub open spec fn wakes(self, timed_out: bool) -> (LoopState<R>, Turn<R>) {
        if self.requests.len() > 0 {
            self.serves()
        } else if self.stopping {
            (self.ended(), Turn::Exit)
        } else if timed_out && self.delay is Some {
            (self, Turn::Scan(None))
        } else {
            (self, Turn::Wait)
        }
    }

    /// The state after the loop was begun this many times.
    pub open spec fn after(self, turns: nat) -> LoopState<R>
        decreases turns,
    {
        if turns == 0 {
            self
        } else {
            self.after((turns - 1) as nat).begins().0
        }
    }
}

/// What comes of leaving a request for a loop: a loop that runs has one request more, one that has
/// ended does not take it.
pub open spec fn requested<R>(
    state: LoopState<R>,
    message: PollMessage<R>,
    state_after: LoopState<R>,
    outcome: Result<(), Error>,
) -> bool {
    if state.running {
        &&& outcome is Ok
        &&& state_after == (LoopState { requests: state.requests.push(message), ..state })
    } else {
        &&& outcome matches Err(error) && error.is_generic("failed to send poll message"@)
        &&& state_after == state
    }
}

/// The loop of a polling watcher, between its turns.
#[derive(Debug)]
pub struct PollLoop<R> {
    requests: Vec<PollMessage<R>>,
    delay: Option<Duration>,
    first_auto_scan: bool,
    want_to_stop: bool,
    running: bool,
}

impl<R> View for PollLoop<R> {
    type V = LoopState<R>;

    closed spec fn view(&self) -> LoopState<R> {
        LoopState {
            requests: self.requests@,
            delay: self.delay,
            fresh: self.first_auto_scan,
            stopping: self.want_to_stop,
            running: self.running,
        }
    }
}

impl<R> PollLoop<R> {
    /// A loop that is about to run. With a delay it scans at once, and by itself after each
    /// delay; without one it scans only at a request.
    pub fn new(delay: Option<Duration>) -> (res: Self)
        ensures
            res@ == (LoopState {
                requests: Seq::<PollMessage<R>>::empty(),
                delay,
                fresh: true,
                stopping: false,
                running: true,
            }),
    {
        PollLoop {
            requests: Vec::new(),
            delay,
            first_auto_scan: true,
            want_to_stop: false,
            running: true,
        }
    }

    /// How long the loop waits at most.
    pub fn delay(&self) -> (res: Option<Duration>)
        ensures
            res == self@.delay,
    {
        self.delay
    }

    /// Leaves a request for the loop. That fails once the loop has ended.
    pub fn request(&mut self, message: PollMessage<R>) -> (res: Result<(), Error>)
        ensures
            requested(old(self)@, message, final(self)@, res),
    {
        if self.running {
            self.requests.push(message);
            Ok(())
        } else {
            Err(Error::generic("failed to send poll message"))
        }
    }

    /// What the loop does when it has finished what it did before.
    pub fn begin(&mut self) -> (res: Turn<R>)
        ensures
            (final(self)@, res) == old(self)@.begins(),
            old(self)@.stopping ==> res is Exit,
            !old(self)@.stopping && old(self)@.delay is Some && old(self)@.fresh ==> res
                == Turn::<R>::Scan(None),
            !old(self)@.stopping && !(old(self)@.delay is Some && old(self)@.fresh) ==> res
                == if old(self)@.requests.len() > 0 {
                Turn::Scan(Some(old(self)@.requests[0]))
            } else {
                Turn::Wait
            },
    {
        if self.want_to_stop {
            self.ended();
            return Turn::Exit;
        }
        if self.delay.is_some() && self.first_auto_scan {
            self.first_auto_scan = false;
            return Turn::Scan(None);
        }
        if self.requests.len() > 0 {
            self.serve()
        } else {
            Turn::Wait
        }
    }

    /// What the loop does when its waiting comes to an end, because the delay has passed or
    /// because something has happened meanwhile.
    pub fn wake(&mut self, timed_out: bool) -> (res: Turn<R>)
        ensures
            (final(self)@, res) == old(self)@.wakes(timed_out),
            old(self)@.requests.len() > 0 ==> res == Turn::Scan(Some(old(self)@.requests[0])),
            old(self)@.requests.len() == 0 && old(self)@.stopping ==> res is Exit,
            old(self)@.requests.len() == 0 && !old(self)@.stopping ==> res == if timed_out
                && old(self)@.delay is Some {
                Turn::<R>::Scan(None)
            } else {
                Turn::Wait
            },
    {
        if self.requests.len() > 0 {
            return self.serve();
        }
        if self.want_to_stop {
            self.ended();
            Turn::Exit
        } else if timed_out && self.delay.is_some() {
            Turn::Scan(None)
        } else {
            Turn::Wait
        }
    }

    /// Serves the oldest request.
    fn serve(&mut self) -> (res: Turn<R>)
        requires
            old(self)@.requests.len() > 0,
        ensures
            (final(self)@, res) == old(self)@.serves(),
    {
        let ghost before = self.requests@;
        let message = self.requests.remove(0);
        assert(self.requests@ =~= before.drop_first());
        Turn::Scan(Some(message))
    }

    /// Tells the loop to end.
    pub fn stop(&mut self)
        ensures
            final(self)@ == (LoopState { stopping: true, ..old(self)@ }),
    {
        self.want_to_stop = true;
    }

    /// Notes that the loop has ended, or was never started.
    pub fn ended(&mut self)
        ensures
            final(self)@ == old(self)@.ended(),
    {
        self.requests.clear();
        self.running = false;
        assert(self@ =~= old(self)@.ended());
    }
}

/// Requests are served one by one in the order in which they were left, each by a scan of its own
/// that begins after the request was left.
pub proof fn law_requests_are_served_in_order<R>(state: LoopState<R>, turns: nat)
    requires
        !state.stopping,
        state.delay is None || !state.fresh,
        turns <= state.requests.len(),
    ensures
        state.after(turns) == (LoopState { requests: state.requests.skip(turns as int), ..state }),
        turns < state.requests.len() ==> state.after(turns).begins().1 == Turn::Scan(
            Some(state.requests[turns as int]),
        ),
    decreases turns,
{
    if turns == 0 {
        assert(state.requests.skip(0) =~= state.requests);
    } else {
        law_requests_are_served_in_order(state, (turns - 1) as nat);
        assert(state.requests.skip(turns - 1).drop_first() =~= state.requests.skip(turns as int));
    }
}

/// A loop with a delay scans before it waits for the first time, whatever requests there are.
pub proof fn law_first_scan_is_immediate<R>(state: LoopState<R>)
    requires
        !state.stopping,
        state.fresh,
        state.delay is Some,
    ensures
        state.begins().1 == Turn::<R>::Scan(None),
        !state.begins().0.fresh,
        state.begins().0.requests == state.requests,
{
}

/// A loop without a delay scans only at a request.
pub proof fn law_manual_polling_scans_at_requests_only<R>(state: LoopState<R>, timed_out: bool)
    requires
        state.delay is None,
    ensures
        state.begins().1 matches Turn::Scan(message) ==> message is Some && state.requests.len()
            > 0,
        state.wakes(timed_out).1 matches Turn::Scan(message) ==> message is Some
            && state.requests.len() > 0,
{
}

/// A loop that was told to end scans at most for the requests that it finds when it wakes, and
/// ends as soon as it begins anew.
pub proof fn law_stopped_loop_ends<R>(state: LoopState<R>, timed_out: bool)
    requires
        state.stopping,
    ensures
        state.begins().1 == Turn::<R>::Exit,
        state.begins().0 == state.ended(),
        state.requests.len() == 0 ==> state.wakes(timed_out).1 == Turn::<R>::Exit,
        state.wakes(timed_out).0.stopping,
{
}

/// A waiting loop that is woken while requests wait serves the oldest one at once, with or without
/// a delay, and whether or not the delay has passed. That request alone leaves the queue, and
/// nothing else changes.
pub proof fn law_woken_loop_serves_the_oldest_request<R>(state: LoopState<R>, timed_out: bool)
    requires
        state.requests.len() > 0,
    ensures
        state.wakes(timed_out).1 == Turn::Scan(Some(state.requests[0])),
        state.wakes(timed_out).0.requests.len() == state.requests.len() - 1,
        forall|i: int|
            0 <= i < state.requests.len() - 1 ==> #[trigger] state.wakes(timed_out).0.requests[i]
                == state.requests[i + 1],
        state.wakes(timed_out).0.delay == state.delay,
        state.wakes(timed_out).0.fresh == state.fresh,
        state.wakes(timed_out).0.stopping == state.stopping,
        state.wakes(timed_out).0.running == state.running,
{
}

/// A waiting loop that is woken without a request ends if it was told to; scans by itself if its
/// delay has passed; and waits on otherwise.
pub proof fn law_woken_loop_without_requests<R>(state: LoopState<R>, timed_out: bool)
    requires
        state.requests.len() == 0,
    ensures
        state.stopping ==> state.wakes(timed_out).1 == Turn::<R>::Exit && !state.wakes(
            timed_out,
        ).0.running && state.wakes(timed_out).0.requests.len() == 0,
        !state.stopping && timed_out && state.delay is Some ==> state.wakes(timed_out).1
            == Turn::<R>::Scan(None) && state.wakes(timed_out).0 == state,
        !state.stopping && !(timed_out && state.delay is Some) ==> state.wakes(timed_out).1
            == Turn::<R>::Wait && state.wakes(timed_out).0 == state,
{
}

/// A loop that goes on serves its oldest request at once, except that the first scan of a loop with
/// a delay comes before all requests. It waits only where there is no request.
pub proof fn law_loop_goes_on_with_the_oldest_request<R>(state: LoopState<R>)
    requires
        !state.stopping,
    ensures
        (state.delay is None || !state.fresh) && state.requests.len() > 0 ==> {
            let (after, turn) = state.begins();
            &&& turn == Turn::Scan(Some(state.requests[0]))
            &&& after.requests.len() == state.requests.len() - 1
            &&& forall|i: int|
                0 <= i < state.requests.len() - 1 ==> #[trigger] after.requests[i]
                    == state.requests[i + 1]
            &&& after.delay == state.delay
            &&& after.fresh == state.fresh
            &&& after.stopping == state.stopping
            &&& after.running == state.running
        },
        (state.delay is None || !state.fresh) && state.requests.len() == 0 ==> state.begins().1
            == Turn::<R>::Wait && state.begins().0 == state,
        state.delay is Some && state.fresh ==> {
            let (after, turn) = state.begins();
            &&& turn == Turn::<R>::Scan(None)
            &&& !after.fresh
            &&& after.requests == state.requests
            &&& after.delay == state.delay
            &&& after.stopping == state.stopping
            &&& after.running == state.running
        },
{
}

/// A loop that was told to end leaves no request behind when it ends, and runs no more; what it was
/// told stays.
pub proof fn law_ended_loop_has_no_requests<R>(state: LoopState<R>)
    ensures
        state.ended().requests.len() == 0,
        !state.ended().running,
        state.ended().delay == state.delay,
        state.ended().fresh == state.fresh,
        state.ended().stopping == state.stopping,
        state.stopping ==> state.begins().0.requests.len() == 0 && !state.begins().0.running,
{
}

/// A running loop takes every request, behind those that wait; one that has ended takes none, and
/// says so.
pub proof fn law_requests_wait_at_the_end<R>(
    state: LoopState<R>,
    message: PollMessage<R>,
    state_after: LoopState<R>,
    outcome: Result<(), Error>,
)
    requires
        requested(state, message, state_after, outcome),
    ensures
        outcome is Ok <==> state.running,
        state.running ==> {
            &&& state_after.requests.len() == state.requests.len() + 1
            &&& state_after.requests.last() == message
            &&& forall|i: int|
                0 <= i < state.requests.len() ==> #[trigger] state_after.requests[i]
                    == state.requests[i]
        },
        !state.running ==> state_after.requests == state.requests,
        state_after.delay == state.delay,
        state_after.fresh == state.fresh,
        state_after.stopping == state.stopping,
        state_after.running == state.running,
        outcome matches Err(error) ==> error.is_generic("failed to send poll message"@),
{
}

/// A request that is left while the loop waits is the next that it serves, if none waits already.
pub proof fn law_lone_request_is_served_next<R>(
    state: LoopState<R>,
    message: PollMessage<R>,
    state_after: LoopState<R>,
    outcome: Result<(), Error>,
    timed_out: bool,
)
    requires
        state.running,
        state.requests.len() == 0,
        requested(state, message, state_after, outcome),
    ensures
        outcome is Ok,
        state_after.wakes(timed_out).1 == Turn::Scan(Some(message)),
        state_after.wakes(timed_out).0.requests.len() == 0,
{
}

} // verus!
