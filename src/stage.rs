use vstd::prelude::*;

verus! {

/// The reply of the scheduling callback for one turn of the dispatch loop:
/// how long to wait for work, and whether to keep polling when none comes.
#[derive(Clone, Copy, PartialEq, Eq, Structural, Debug)]
pub struct ScheduleDecision {
    pub timeout_ms: u64,
    pub retry_on_empty: bool,
}

/// What the dispatch loop does after one wait on the stage's shared queue.
#[derive(Clone, Copy, PartialEq, Eq, Structural, Debug)]
pub enum DispatchAction {
    /// Hand the item that arrived to this worker.
    Route(usize),
    /// Nothing arrived; poll again for the next worker.
    Idle,
    /// Nothing arrived and no retry was asked for: the stage shuts down.
    Stop,
}

/// The state of a stage's dispatch loop: which worker is next in the
/// round-robin order, and whether the stage has shut down. Shutdown is final.
pub struct Dispatcher {
    n_workers: usize,
    next: usize,
    stopped: bool,
}

/// The dispatcher's state in the abstract: worker count, next worker,
/// shutdown flag.
pub struct DispatchState {
    pub n_workers: nat,
    pub next: nat,
    pub stopped: bool,
}

/// One turn of the dispatch loop, given the callback's decision and whether an
/// item arrived within the timeout. A stopped stage stays as it is.
pub open spec fn dispatch_step(s: DispatchState, d: ScheduleDecision, arrived: bool) -> (
    DispatchState,
    DispatchAction,
) {
    if s.stopped {
        (s, DispatchAction::Stop)
    } else if arrived {
        (
            DispatchState { next: (s.next + 1) % s.n_workers, ..s },
            DispatchAction::Route(s.next as usize),
        )
    } else if d.retry_on_empty {
        (DispatchState { next: (s.next + 1) % s.n_workers, ..s }, DispatchAction::Idle)
    } else {
        (DispatchState { stopped: true, ..s }, DispatchAction::Stop)
    }
}

/// The state after a run of turns, each a decision and whether an item came.
pub open spec fn dispatch_all(s: DispatchState, turns: Seq<(ScheduleDecision, bool)>) -> DispatchState
    decreases turns.len(),
{
    if turns.len() == 0 {
        s
    } else {
        dispatch_step(dispatch_all(s, turns.drop_last()), turns.last().0, turns.last().1).0
    }
}

/// Some turn found the queue empty for its whole timeout without a retry.
pub open spec fn gives_up_somewhere(turns: Seq<(ScheduleDecision, bool)>) -> bool {
    exists|i: int| 0 <= i < turns.len() && !(#[trigger] turns[i]).1 && !turns[i].0.retry_on_empty
}

proof fn lemma_advance(next: nat, n: nat)
    requires
        next < n,
    ensures
        (next + 1) % n == if next + 1 == n {
            0
        } else {
            next + 1
        },
{
    if next + 1 == n {
        vstd::arithmetic::div_mod::lemma_mod_self_0(n as int);
    } else {
        vstd::arithmetic::div_mod::lemma_small_mod((next + 1) as nat, n);
    }
}

impl Dispatcher {
    pub closed spec fn view(&self) -> DispatchState {
        DispatchState {
            n_workers: self.n_workers as nat,
            next: self.next as nat,
            stopped: self.stopped,
        }
    }

    pub closed spec fn wf(&self) -> bool {
        self.n_workers > 0 && self.next < self.n_workers
    }

    /// A running dispatcher for `n_workers` workers, starting with the first.
    pub fn new(n_workers: usize) -> (r: Dispatcher)
        requires
            n_workers > 0,
        ensures
            r.wf(),
            r.view() == (DispatchState { n_workers: n_workers as nat, next: 0, stopped: false }),
    {
        Dispatcher { n_workers, next: 0, stopped: false }
    }

    pub fn is_stopped(&self) -> (r: bool)
        ensures
            r == self.view().stopped,
    {
        self.stopped
    }

    /// The worker that the next item goes to.
    pub fn next_worker(&self) -> (r: usize)
        requires
            self.wf(),
        ensures
            r == self.view().next,
            r < self.view().n_workers,
    {
        self.next
    }

    /// One turn of the dispatch loop: routes an arrived item to the next worker
    /// and moves on, idles on an empty wait with retry, and stops the stage on
    /// an empty wait without retry.
    pub fn step(&mut self, decision: ScheduleDecision, arrived: bool) -> (r: DispatchAction)
        requires
            old(self).wf(),
        ensures
            final(self).wf(),
            (final(self).view(), r) == dispatch_step(old(self).view(), decision, arrived),
    {
        proof {
            lemma_advance(self.next as nat, self.n_workers as nat);
        }
        if self.stopped {
            DispatchAction::Stop
        } else if arrived {
            let i = self.next;
            self.next = if self.next + 1 == self.n_workers {
                0
            } else {
                self.next + 1
            };
            DispatchAction::Route(i)
        } else if decision.retry_on_empty {
            self.next = if self.next + 1 == self.n_workers {
                0
            } else {
                self.next + 1
            };
            DispatchAction::Idle
        } else {
            self.stopped = true;
            DispatchAction::Stop
        }
    }
}

/// The dispatch loop ends exactly when some turn found the queue empty for
/// its whole timeout and the callback asked for no retry; while every reply
/// asks for a retry it never ends.
pub proof fn lemma_stops_only_when_told(s: DispatchState, turns: Seq<(ScheduleDecision, bool)>)
    requires
        !s.stopped,
    ensures
        dispatch_all(s, turns).stopped <==> gives_up_somewhere(turns),
        (forall|i: int| 0 <= i < turns.len() ==> (#[trigger] turns[i]).0.retry_on_empty)
            ==> !dispatch_all(s, turns).stopped,
    decreases turns.len(),
{
    if turns.len() > 0 {
        let pre = turns.drop_last();
        lemma_stops_only_when_told(s, pre);
        if gives_up_somewhere(pre) {
            let i = choose|i: int|
                0 <= i < pre.len() && !(#[trigger] pre[i]).1 && !pre[i].0.retry_on_empty;
            assert(turns[i] == pre[i]);
        }
        if gives_up_somewhere(turns) && !gives_up_somewhere(pre) {
            let i = choose|i: int|
                0 <= i < turns.len() && !(#[trigger] turns[i]).1 && !turns[i].0.retry_on_empty;
            if i < pre.len() {
                assert(pre[i] == turns[i]);
            }
        }
        if !turns.last().1 && !turns.last().0.retry_on_empty {
            assert(turns[turns.len() - 1] == turns.last());
        }
    }
}

/// What a worker met when it last waited on its private channel.
#[derive(Clone, Copy, PartialEq, Eq, Structural, Debug)]
pub enum WorkerEvent {
    /// An item came and the handler dealt with it.
    Handled,
    /// An item came and the handler failed on it.
    Failed,
    /// The channel is disconnected.
    Disconnected,
}

/// What a worker does next.
#[derive(Clone, Copy, PartialEq, Eq, Structural, Debug)]
pub enum WorkerAction {
    /// Wait for the next item.
    Wait,
    /// Leave for good.
    Exit,
}

/// A worker's decision after one wait: the failure of one item never ends a
/// worker; a disconnected channel ends it only once its stage has shut down.
pub fn worker_next(event: WorkerEvent, shutdown: bool) -> (r: WorkerAction)
    ensures
        r == (if event == WorkerEvent::Disconnected && shutdown {
            WorkerAction::Exit
        } else {
            WorkerAction::Wait
        }),
{
    match event {
        WorkerEvent::Disconnected => if shutdown {
            WorkerAction::Exit
        } else {
            WorkerAction::Wait
        },
        _ => WorkerAction::Wait,
    }
}

} // verus!
