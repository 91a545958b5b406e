//! The session manager: a bounded queue of sessions, the kill signal, and
//! the decision of what its worker does next.

use crate::error::PyroscopeError;
use crate::session::{Session, SessionSignal, SessionView};
use crate::state::AgentState;
use vstd::prelude::*;

verus! {

/// The number of sessions the queue holds at most.
pub const SESSION_QUEUE_CAPACITY: usize = 10;

/// What the session worker does next.
#[derive(Debug)]
pub enum WorkerStep {
    /// Ship this session, then ask again.
    Ship(Session),
    /// Nothing is queued: wait for a push, then ask again.
    Wait,
    /// Leave the loop: the kill signal has come and the queue is shipped.
    Exit,
}

/// The queue of the session worker with its lifecycle flags.
#[derive(Debug)]
pub struct SessionManager {
    queue: Vec<Session>,
    killed: bool,
    exited: bool,
}

/// The views of a sequence of sessions, in the same order.
pub open spec fn session_views(sessions: Seq<Session>) -> Seq<SessionView> {
    Seq::new(sessions.len(), |i: int| sessions[i]@)
}

/// A session manager as contracts see it.
pub struct ManagerView {
    /// The queued sessions, oldest first.
    pub queue: Seq<SessionView>,
    /// Whether the kill signal has come.
    pub killed: bool,
    /// Whether the worker has been told to exit.
    pub exited: bool,
}

/// The error of a push after the worker has exited.
pub open spec fn worker_gone() -> PyroscopeError {
    PyroscopeError::InvalidState { expected: AgentState::Running, actual: AgentState::Stopped }
}

/// The manager after a signal has been pushed and accepted: a session goes
/// behind the others, a kill signal is remembered.
pub open spec fn pushed(m: ManagerView, signal: SessionSignal) -> ManagerView {
    match signal {
        SessionSignal::Session(s) => ManagerView { queue: m.queue.push(s@), ..m },
        SessionSignal::Kill => ManagerView { killed: true, ..m },
    }
}

/// Why a push is refused, if so: the worker has exited, or the signal is a
/// session and the queue is at capacity. A kill signal is accepted whatever
/// the length of the queue.
pub open spec fn push_fault(m: ManagerView, signal: SessionSignal) -> Option<PyroscopeError> {
    if m.exited {
        Some(worker_gone())
    } else if signal is Session && m.queue.len() >= SESSION_QUEUE_CAPACITY {
        Some(PyroscopeError::QueueFull)
    } else {
        None
    }
}

/// The manager after the worker has asked what to do next: the oldest
/// session leaves the queue; with an empty queue a killed worker exits.
pub open spec fn stepped(m: ManagerView) -> ManagerView {
    if m.exited {
        m
    } else if m.queue.len() > 0 {
        ManagerView { queue: m.queue.drop_first(), ..m }
    } else {
        ManagerView { exited: m.killed, ..m }
    }
}

/// The manager after the worker has asked `n` times.
pub open spec fn stepped_times(m: ManagerView, n: nat) -> ManagerView
    decreases n,
{
    if n == 0 {
        m
    } else {
        stepped_times(stepped(m), (n - 1) as nat)
    }
}

/// Once the kill signal has come, the worker ships what is queued, oldest
/// first, and then exits: after asking as often as there are sessions the
/// queue is empty and the worker has not exited yet; asking once more makes
/// it exit, whatever became of the sessions it shipped.
pub proof fn kill_drains_then_exits(m: ManagerView)
    requires
        m.killed,
        !m.exited,
    ensures
        stepped_times(m, m.queue.len()).queue.len() == 0,
        !stepped_times(m, m.queue.len()).exited,
        stepped_times(m, m.queue.len() + 1).exited,
        forall|k: nat|
            k < m.queue.len() ==> (#[trigger] stepped_times(m, k)).queue == m.queue.skip(k as int)
                && !stepped_times(m, k).exited,
    decreases m.queue.len(),
{
    let n = m.queue.len();
    if n == 0 {
        assert(stepped_times(stepped(m), 0) == stepped(m));
    } else {
        let next = stepped(m);
        kill_drains_then_exits(next);
        assert(next.queue.len() == n - 1);
        assert(stepped_times(m, n) == stepped_times(next, (n - 1) as nat));
        assert(stepped_times(m, n + 1) == stepped_times(next, n));
        assert forall|k: nat| k < n implies (#[trigger] stepped_times(m, k)).queue == m.queue.skip(
            k as int,
        ) && !stepped_times(m, k).exited by {
            if k == 0 {
                assert(m.queue.skip(0) =~= m.queue);
            } else {
                assert(stepped_times(m, k) == stepped_times(next, (k - 1) as nat));
                assert(next.queue.skip(k - 1) =~= m.queue.skip(k as int));
            }
        }
    }
}

impl View for SessionManager {
    type V = ManagerView;

    closed spec fn view(&self) -> ManagerView {
        ManagerView {
            queue: session_views(self.queue@),
            killed: self.killed,
            exited: self.exited,
        }
    }
}

impl SessionManager {
    /// The invariant of the manager: the queue is within its capacity.
    pub open spec fn wf(&self) -> bool {
        self@.queue.len() <= SESSION_QUEUE_CAPACITY
    }

    /// A manager with an empty queue whose worker has not been killed.
    pub fn new() -> (m: SessionManager)
        ensures
            m@ == (ManagerView { queue: Seq::empty(), killed: false, exited: false }),
            m.wf(),
    {
        let m = SessionManager { queue: Vec::new(), killed: false, exited: false };
        assert(m@.queue =~= Seq::<SessionView>::empty());
        m
    }

    /// The number of queued sessions.
    pub fn len(&self) -> (n: usize)
        ensures
            n == self@.queue.len(),
    {
        self.queue.len()
    }

    /// Hands a signal to the worker without waiting. A session is queued
    /// behind the others; a kill signal is remembered, whatever the length
    /// of the queue. Fails, dropping the signal and changing nothing, with
    /// `InvalidState` once the worker has exited and with `QueueFull` where
    /// a session finds the queue at capacity.
    pub fn push(&mut self, signal: SessionSignal) -> (r: Result<(), PyroscopeError>)
        requires
            old(self).wf(),
        ensures
            final(self).wf(),
            match push_fault(old(self)@, signal) {
                Some(e) => r == Err::<(), PyroscopeError>(e) && final(self)@ == old(self)@,
                None => r is Ok && final(self)@ == pushed(old(self)@, signal),
            },
    {
        if self.exited {
            return Err(
                PyroscopeError::InvalidState {
                    expected: AgentState::Running,
                    actual: AgentState::Stopped,
                },
            );
        }
        match signal {
            SessionSignal::Kill => {
                self.killed = true;
                Ok(())
            },
            SessionSignal::Session(session) => {
                if self.queue.len() >= SESSION_QUEUE_CAPACITY {
                    Err(PyroscopeError::QueueFull)
                } else {
                    self.queue.push(session);
                    assert(self@.queue =~= old(self)@.queue.push(session@));
                    Ok(())
                }
            },
        }
    }

    /// Decides what the worker does next. The oldest session, if there is
    /// one, is handed out to be shipped: sessions leave in the order they
    /// came, also after the kill signal. With nothing queued the worker
    /// exits if the kill signal has come and waits if not.
    pub fn next(&mut self) -> (step: WorkerStep)
        requires
            old(self).wf(),
        ensures
            final(self).wf(),
            final(self)@ == stepped(old(self)@),
            match step {
                WorkerStep::Ship(session) => !old(self)@.exited && old(self)@.queue.len() > 0
                    && session@ == old(self)@.queue[0],
                WorkerStep::Wait => !old(self)@.exited && old(self)@.queue.len() == 0 && !old(
                    self,
                )@.killed,
                WorkerStep::Exit => old(self)@.exited || (old(self)@.queue.len() == 0 && old(
                    self,
                )@.killed),
            },
    {
        if self.exited {
            WorkerStep::Exit
        } else if self.queue.len() > 0 {
            let session = self.queue.remove(0);
            assert(self@.queue =~= old(self)@.queue.drop_first());
            WorkerStep::Ship(session)
        } else if self.killed {
            self.exited = true;
            WorkerStep::Exit
        } else {
            WorkerStep::Wait
        }
    }
}

} // verus!
