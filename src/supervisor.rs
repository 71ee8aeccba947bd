//! The supervisor: connecting, the rename cycle, and reconnecting after any
//! failure. It decides; the caller performs each action and reports how it
//! went.
use vstd::prelude::*;
use crate::backend::{candidates, connect_order, Backend, EnforceWindowManager};
use crate::config::Config;
use crate::event::{needs_rename, triggers, Event, WindowChange};
use crate::label::{rename_plan, renames_for};
use crate::window::Window;

verus! {

/// How long to wait before connecting again, in milliseconds.
pub const RETRY_DELAY_MS: u64 = 1000;

/// Where the supervisor stands.
#[derive(Debug, Clone, Copy, PartialEq, Eq, Structural)]
pub enum Phase {
    /// Not started yet.
    Idle,
    /// Connecting to the candidate at this position.
    Connecting(usize),
    /// Waiting before the next round of connection attempts.
    Sleeping,
    /// Asking the backend for its workspaces and windows.
    Enumerating,
    /// Renaming; this many renames of the plan have been issued.
    Renaming(usize),
    /// Waiting for the next event.
    Waiting,
}

/// What the caller is to do next.
#[derive(Debug, PartialEq, Eq)]
pub enum Action {
    /// Connect to this backend.
    Connect(Backend),
    /// Wait this many milliseconds.
    Sleep(u64),
    /// Read the configuration and enumerate the workspaces.
    Enumerate,
    /// Rename workspace `.0` to `.1`.
    Rename(String, String),
    /// Wait for the next event of the backend.
    WaitForEvent,
}

/// How the last action went.
#[derive(Debug)]
pub enum Outcome {
    /// The supervisor has just been made; nothing was done yet.
    Started,
    /// The wait is over.
    Slept,
    /// The connection was made.
    Connected,
    /// The action failed: no connection, a failed query, a rejected rename,
    /// the end of the event stream. The kind does not matter.
    Failed,
    /// The configuration and the workspaces with their windows.
    Enumerated(Config, Vec<(String, Vec<Window>)>),
    /// The rename went through.
    Renamed,
    /// An event arrived.
    Event(Event),
}

/// Drives one connection to the window manager after another.
#[derive(Debug)]
pub struct Supervisor {
    pub enforce: Option<EnforceWindowManager>,
    pub phase: Phase,
    /// The renames of the current pass.
    pub plan: Vec<(String, String)>,
}

/// The phase after a failure: the next candidate, or a pause once all were
/// tried or when the failure ends a connection.
pub open spec fn retry_phase(s: Supervisor) -> Phase {
    match s.phase {
        Phase::Connecting(i) => if i + 1 < candidates(s.enforce).len() {
            Phase::Connecting((i + 1) as usize)
        } else {
            Phase::Sleeping
        },
        _ => Phase::Sleeping,
    }
}

/// The phase after outcome `o`; `plan_len` is the length of the plan made
/// from an enumeration. An outcome that does not fit the phase counts as a
/// failure.
pub open spec fn next_phase(s: Supervisor, o: Outcome, plan_len: int) -> Phase {
    match o {
        Outcome::Started => if s.phase is Idle {
            Phase::Connecting(0)
        } else {
            retry_phase(s)
        },
        Outcome::Slept => if s.phase is Sleeping {
            Phase::Connecting(0)
        } else {
            retry_phase(s)
        },
        Outcome::Connected => if s.phase is Connecting {
            Phase::Enumerating
        } else {
            retry_phase(s)
        },
        Outcome::Failed => retry_phase(s),
        Outcome::Enumerated(_, _) => if s.phase is Enumerating {
            if plan_len > 0 {
                Phase::Renaming(1)
            } else {
                Phase::Waiting
            }
        } else {
            retry_phase(s)
        },
        Outcome::Renamed => match s.phase {
            Phase::Renaming(k) => if k < s.plan.len() {
                Phase::Renaming((k + 1) as usize)
            } else {
                Phase::Waiting
            },
            _ => retry_phase(s),
        },
        Outcome::Event(e) => if s.phase is Waiting {
            if triggers(e) {
                Phase::Enumerating
            } else {
                Phase::Waiting
            }
        } else {
            retry_phase(s)
        },
    }
}

/// The action that goes with the state `s` has just reached.
pub open spec fn action_of(s: Supervisor) -> Action {
    match s.phase {
        Phase::Connecting(i) => Action::Connect(candidates(s.enforce)[i as int]),
        Phase::Sleeping => Action::Sleep(RETRY_DELAY_MS),
        Phase::Enumerating => Action::Enumerate,
        Phase::Renaming(k) => Action::Rename(s.plan[k - 1].0, s.plan[k - 1].1),
        _ => Action::WaitForEvent,
    }
}

impl Supervisor {
    /// The positions the phase holds are in range.
    pub open spec fn wf(&self) -> bool {
        match self.phase {
            Phase::Connecting(i) => i < candidates(self.enforce).len(),
            Phase::Renaming(k) => 1 <= k <= self.plan.len(),
            _ => true,
        }
    }

    /// A supervisor that has not started; `enforce` restricts it to one
    /// backend.
    pub fn new(enforce: Option<EnforceWindowManager>) -> (r: Supervisor)
        ensures
            r.wf(),
            r.enforce == enforce,
            r.phase == Phase::Idle,
            r.plan@.len() == 0,
    {
        Supervisor { enforce, phase: Phase::Idle, plan: Vec::new() }
    }

    fn retry(&mut self)
        requires
            old(self).wf(),
        ensures
            final(self).wf(),
            final(self).enforce == old(self).enforce,
            final(self).plan == old(self).plan,
            final(self).phase == retry_phase(*old(self)),
    {
        let n = connect_order(self.enforce).len();
        self.phase = match self.phase {
            Phase::Connecting(i) => if i + 1 < n {
                Phase::Connecting(i + 1)
            } else {
                Phase::Sleeping
            },
            _ => Phase::Sleeping,
        };
    }

    fn action(&self) -> (r: Action)
        requires
            self.wf(),
        ensures
            r == action_of(*self),
    {
        match self.phase {
            Phase::Connecting(i) => {
                let order = connect_order(self.enforce);
                Action::Connect(order[i])
            },
            Phase::Sleeping => Action::Sleep(RETRY_DELAY_MS),
            Phase::Enumerating => Action::Enumerate,
            Phase::Renaming(k) => {
                let entry = &self.plan[k - 1];
                Action::Rename(entry.0.clone(), entry.1.clone())
            },
            _ => Action::WaitForEvent,
        }
    }

    /// Takes in how the last action went and says what to do next.
    ///
    /// An enumeration becomes a plan of one rename per workspace, issued one
    /// at a time; then the supervisor waits for an event, and starts a new
    /// pass when the event calls for one. Any failure abandons the pass:
    /// the next candidate backend is tried, or, once all were tried or a
    /// live connection failed, the supervisor pauses and starts over.
    pub fn step(&mut self, outcome: Outcome) -> (r: Action)
        requires
            old(self).wf(),
        ensures
            final(self).wf(),
            final(self).enforce == old(self).enforce,
            final(self).phase == next_phase(*old(self), outcome, final(self).plan.len() as int),
            match outcome {
                Outcome::Enumerated(c, ws) => if old(self).phase is Enumerating {
                    renames_for(c, ws@, final(self).plan@)
                } else {
                    final(self).plan == old(self).plan
                },
                _ => final(self).plan == old(self).plan,
            },
            r == action_of(*final(self)),
    {
        match outcome {
            Outcome::Started => {
                if let Phase::Idle = self.phase {
                    self.phase = Phase::Connecting(0);
                } else {
                    self.retry();
                }
            },
            Outcome::Slept => {
                if let Phase::Sleeping = self.phase {
                    self.phase = Phase::Connecting(0);
                } else {
                    self.retry();
                }
            },
            Outcome::Connected => {
                if let Phase::Connecting(_) = self.phase {
                    self.phase = Phase::Enumerating;
                } else {
                    self.retry();
                }
            },
            Outcome::Failed => {
                self.retry();
            },
            Outcome::Enumerated(config, workspaces) => {
                if let Phase::Enumerating = self.phase {
                    let plan = rename_plan(&config, &workspaces);
                    self.phase = if plan.len() > 0 {
                        Phase::Renaming(1)
                    } else {
                        Phase::Waiting
                    };
                    self.plan = plan;
                } else {
                    self.retry();
                }
            },
            Outcome::Renamed => {
                if let Phase::Renaming(k) = self.phase {
                    self.phase = if k < self.plan.len() {
                        Phase::Renaming(k + 1)
                    } else {
                        Phase::Waiting
                    };
                } else {
                    self.retry();
                }
            },
            Outcome::Event(e) => {
                if let Phase::Waiting = self.phase {
                    self.phase = if needs_rename(e) {
                        Phase::Enumerating
                    } else {
                        Phase::Waiting
                    };
                } else {
                    self.retry();
                }
            },
        }
        self.action()
    }
}

/// When the event stream of a live connection ends (or anything else fails
/// while connected), the supervisor does not stop: it pauses, then tries to
/// connect again, starting with the first candidate backend.
pub proof fn lemma_stream_end_reconnects(s: Supervisor, plan_len: int)
    requires
        s.wf(),
        s.phase == Phase::Waiting,
    ensures
        ({
            let paused = Supervisor {
                enforce: s.enforce,
                phase: next_phase(s, Outcome::Failed, plan_len),
                plan: s.plan,
            };
            let again = Supervisor {
                enforce: s.enforce,
                phase: next_phase(paused, Outcome::Slept, plan_len),
                plan: s.plan,
            };
            &&& paused.phase == Phase::Sleeping
            &&& action_of(paused) == Action::Sleep(RETRY_DELAY_MS)
            &&& again.phase == Phase::Connecting(0)
            &&& again.wf()
            &&& action_of(again) == Action::Connect(candidates(s.enforce)[0])
        }),
{
}

/// A failure never ends the supervisor: it moves on to the next candidate
/// backend or to a pause, and a pause always ends in a new connection
/// attempt.
pub proof fn lemma_failure_never_stops(s: Supervisor, plan_len: int)
    requires
        s.wf(),
    ensures
        next_phase(s, Outcome::Failed, plan_len) == Phase::Sleeping || (s.phase matches Phase::Connecting(i)
            && next_phase(s, Outcome::Failed, plan_len) == Phase::Connecting((i + 1) as usize)),
        s.phase == Phase::Sleeping ==> next_phase(s, Outcome::Slept, plan_len) == Phase::Connecting(0),
{
}

/// A window taking the focus never starts a rename pass; a new window
/// always does, and the pass renames as soon as there is a workspace.
pub proof fn lemma_focus_ignored_new_window_renames(
    s: Supervisor,
    c: Config,
    ws: Vec<(String, Vec<Window>)>,
    plan: Vec<(String, String)>,
)
    requires
        s.wf(),
        s.phase == Phase::Waiting,
        renames_for(c, ws@, plan@),
    ensures
        next_phase(s, Outcome::Event(Event::Window(WindowChange::Focus)), 0) == Phase::Waiting,
        action_of(s) == Action::WaitForEvent,
        next_phase(s, Outcome::Event(Event::Window(WindowChange::New)), 0) == Phase::Enumerating,
        ({
            let pass = Supervisor { enforce: s.enforce, phase: Phase::Enumerating, plan: s.plan };
            let renaming = Supervisor {
                enforce: s.enforce,
                phase: next_phase(pass, Outcome::Enumerated(c, ws), plan.len() as int),
                plan,
            };
            ws.len() > 0 ==> renaming.phase == Phase::Renaming(1) && action_of(renaming)
                == Action::Rename(plan[0].0, plan[0].1)
        }),
{
}

} // verus!
