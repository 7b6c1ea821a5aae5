//! The protocol by which the phases take turns on the world: the per-phase
//! progress through the groups of a plan, the barrier between groups, and the
//! world lock with its release for a blocking wait.
//!
//! The host performs the work (it invokes the systems of a group and awaits
//! them) and reports what happened; the driver decides what comes next.

use vstd::prelude::*;
use crate::ecs::SystemType;

verus! {

/// Where a phase stands.
#[derive(Clone, Copy, Debug, PartialEq, Eq, Structural)]
pub enum PhaseStatus {
    /// No tick of the phase is in progress.
    Idle,
    /// A tick is in progress and holds the world lock. The number is the group
    /// of the plan that is running.
    Running(usize),
    /// A tick is in progress, in the group of that number, but one of its
    /// systems has released the world lock for a blocking wait. The world must
    /// not be touched until the lock is taken again.
    Suspended(usize),
}

/// What the host does next for a phase.
#[derive(Clone, Copy, Debug, PartialEq, Eq, Structural)]
pub enum Dispatch {
    /// Invoke all systems of the group of this number, then await them all.
    Run(usize),
    /// The tick is complete.
    Done,
    /// Nothing may start now: ask again later.
    Wait,
}

/// The state of the protocol: the status of each phase, the phase that holds
/// the world lock, and whether the Init phase has run.
#[derive(Clone, Copy, Debug, PartialEq, Eq, Structural)]
pub struct Driver {
    pub init: PhaseStatus,
    pub update: PhaseStatus,
    pub fixed_update: PhaseStatus,
    pub holder: Option<SystemType>,
    pub init_done: bool,
}

impl Driver {
    /// The status of a phase.
    pub open spec fn status_of(self, phase: SystemType) -> PhaseStatus {
        match phase {
            SystemType::Init => self.init,
            SystemType::Update => self.update,
            SystemType::FixedUpdate => self.fixed_update,
        }
    }

    /// This state with the status of one phase replaced.
    pub open spec fn with_status(self, phase: SystemType, status: PhaseStatus) -> Driver {
        match phase {
            SystemType::Init => Driver { init: status, ..self },
            SystemType::Update => Driver { update: status, ..self },
            SystemType::FixedUpdate => Driver { fixed_update: status, ..self },
        }
    }

    /// `phase` holds the lock exactly while it is running.
    pub open spec fn holds_while_running(self, phase: SystemType) -> bool {
        (self.holder == Some(phase)) <==> (self.status_of(phase) is Running)
    }

    /// The lock is held by exactly the phase that is running, if any; the
    /// other phases cannot start before Init has run, and Init does not start
    /// again after it.
    pub open spec fn wf(self) -> bool {
        &&& self.holds_while_running(SystemType::Init)
        &&& self.holds_while_running(SystemType::Update)
        &&& self.holds_while_running(SystemType::FixedUpdate)
        &&& !self.init_done ==> self.update is Idle && self.fixed_update is Idle
        &&& self.init_done ==> self.init is Idle
    }

    /// A tick of `phase` may start: no tick of the same phase is in progress,
    /// no phase holds the lock, and Init runs first and only once.
    pub open spec fn may_begin(self, phase: SystemType) -> bool {
        &&& self.status_of(phase) is Idle
        &&& self.holder is None
        &&& (phase == SystemType::Init) != self.init_done
    }

    /// The state after the host asked to start a tick of `phase` whose plan
    /// has `groups` groups.
    pub open spec fn after_begin(self, phase: SystemType, groups: usize) -> Driver {
        if !self.may_begin(phase) {
            self
        } else if groups == 0 {
            Driver { init_done: true, ..self }
        } else {
            Driver { holder: Some(phase), ..self.with_status(phase, PhaseStatus::Running(0)) }
        }
    }

    /// The answer to the host's request to start a tick of `phase`.
    pub open spec fn begin_answer(self, phase: SystemType, groups: usize) -> Dispatch {
        if !self.may_begin(phase) {
            Dispatch::Wait
        } else if groups == 0 {
            Dispatch::Done
        } else {
            Dispatch::Run(0)
        }
    }

    /// The state after the host reported that every system of the running
    /// group of `phase` has completed.
    pub open spec fn after_group(self, phase: SystemType, groups: usize) -> Driver {
        match self.status_of(phase) {
            PhaseStatus::Running(g) => if g + 1 < groups {
                self.with_status(phase, PhaseStatus::Running((g + 1) as usize))
            } else {
                Driver {
                    holder: None,
                    init_done: true,
                    ..self.with_status(phase, PhaseStatus::Idle)
                }
            },
            _ => self,
        }
    }

    /// The answer to the host's report that the running group has completed.
    pub open spec fn group_answer(self, phase: SystemType, groups: usize) -> Dispatch {
        match self.status_of(phase) {
            PhaseStatus::Running(g) => if g + 1 < groups {
                Dispatch::Run((g + 1) as usize)
            } else {
                Dispatch::Done
            },
            _ => Dispatch::Wait,
        }
    }

    /// The state after a system of `phase` released the lock for a blocking
    /// wait.
    pub open spec fn after_release(self, phase: SystemType) -> Driver {
        match self.status_of(phase) {
            PhaseStatus::Running(g) => Driver {
                holder: None,
                ..self.with_status(phase, PhaseStatus::Suspended(g))
            },
            _ => self,
        }
    }

    /// The state after a system of `phase` asked for the lock back.
    pub open spec fn after_reacquire(self, phase: SystemType) -> Driver {
        match self.status_of(phase) {
            PhaseStatus::Suspended(g) => if self.holder is None {
                Driver { holder: Some(phase), ..self.with_status(phase, PhaseStatus::Running(g)) }
            } else {
                self
            },
            _ => self,
        }
    }

    /// The state after the host reported the completion of the running group
    /// of `phase` `k` times in a row.
    pub open spec fn after_barriers(self, phase: SystemType, groups: usize, k: nat) -> Driver
        decreases k,
    {
        if k == 0 {
            self
        } else {
            self.after_barriers(phase, groups, (k - 1) as nat).after_group(phase, groups)
        }
    }

    /// Creates the state in which every phase is idle, the lock is free and
    /// Init has not run.
    pub fn new() -> (driver: Driver)
        ensures
            driver == (Driver {
                init: PhaseStatus::Idle,
                update: PhaseStatus::Idle,
                fixed_update: PhaseStatus::Idle,
                holder: None,
                init_done: false,
            }),
            driver.wf(),
    {
        Driver {
            init: PhaseStatus::Idle,
            update: PhaseStatus::Idle,
            fixed_update: PhaseStatus::Idle,
            holder: None,
            init_done: false,
        }
    }

    /// The status of a phase.
    pub fn status(&self, phase: SystemType) -> (status: PhaseStatus)
        ensures
            status == self.status_of(phase),
    {
        match phase {
            SystemType::Init => self.init,
            SystemType::Update => self.update,
            SystemType::FixedUpdate => self.fixed_update,
        }
    }

    fn set_status(&mut self, phase: SystemType, status: PhaseStatus)
        ensures
            *final(self) == old(self).with_status(phase, status),
    {
        match phase {
            SystemType::Init => self.init = status,
            SystemType::Update => self.update = status,
            SystemType::FixedUpdate => self.fixed_update = status,
        }
    }

    /// Whether the systems of `phase` may touch the world now: a tick of the
    /// phase is running and holds the lock.
    pub fn may_access_world(&self, phase: SystemType) -> (allowed: bool)
        ensures
            allowed == (self.status_of(phase) is Running),
    {
        match self.status(phase) {
            PhaseStatus::Running(_) => true,
            _ => false,
        }
    }

    /// The host asks to start a tick of `phase`, whose plan has `groups`
    /// groups. The tick starts with the first group and takes the lock, unless
    /// a tick of the same phase is still in progress, another phase holds the
    /// lock, Init has not run yet (for the other phases) or has run already
    /// (for Init): then the answer is to wait and nothing changes. A tick
    /// without groups is complete at once.
    pub fn begin_tick(&mut self, phase: SystemType, groups: usize) -> (answer: Dispatch)
        ensures
            *final(self) == old(self).after_begin(phase, groups),
            answer == old(self).begin_answer(phase, groups),
            old(self).wf() ==> final(self).wf(),
    {
        let idle = match self.status(phase) {
            PhaseStatus::Idle => true,
            _ => false,
        };
        let is_init = match phase {
            SystemType::Init => true,
            _ => false,
        };
        if !idle || self.holder.is_some() || is_init == self.init_done {
            return Dispatch::Wait;
        }
        if groups == 0 {
            self.init_done = true;
            return Dispatch::Done;
        }
        self.set_status(phase, PhaseStatus::Running(0));
        self.holder = Some(phase);
        Dispatch::Run(0)
    }

    /// The host reports that every system of the running group of `phase` has
    /// completed: the barrier. The next group of the plan runs, or, after the
    /// last group, the tick is complete, the phase is idle and the lock is
    /// free. If the phase is not running, the answer is to wait and nothing
    /// changes.
    pub fn finish_group(&mut self, phase: SystemType, groups: usize) -> (answer: Dispatch)
        ensures
            *final(self) == old(self).after_group(phase, groups),
            answer == old(self).group_answer(phase, groups),
            old(self).wf() ==> final(self).wf(),
    {
        match self.status(phase) {
            PhaseStatus::Running(g) => {
                if groups > 0 && g < groups - 1 {
                    self.set_status(phase, PhaseStatus::Running(g + 1));
                    Dispatch::Run(g + 1)
                } else {
                    self.set_status(phase, PhaseStatus::Idle);
                    self.holder = None;
                    self.init_done = true;
                    Dispatch::Done
                }
            },
            _ => Dispatch::Wait,
        }
    }

    /// A system of `phase` releases the lock to block on an outside event.
    /// Returns whether the lock was released: it is if the phase was running.
    /// Until the lock is taken again the phase must not touch the world, and
    /// another phase may run its tick.
    pub fn release_for_wait(&mut self, phase: SystemType) -> (released: bool)
        ensures
            *final(self) == old(self).after_release(phase),
            released == (old(self).status_of(phase) is Running),
            old(self).wf() ==> final(self).wf(),
    {
        match self.status(phase) {
            PhaseStatus::Running(g) => {
                self.set_status(phase, PhaseStatus::Suspended(g));
                self.holder = None;
                true
            },
            _ => false,
        }
    }

    /// A system of `phase` that released the lock asks for it back. Returns
    /// whether it got it: it does if the phase is suspended and no phase holds
    /// the lock. The phase then runs again, in the group it was in.
    pub fn reacquire(&mut self, phase: SystemType) -> (acquired: bool)
        ensures
            *final(self) == old(self).after_reacquire(phase),
            acquired == (old(self).status_of(phase) is Suspended && old(self).holder is None),
            old(self).wf() ==> final(self).wf(),
    {
        match self.status(phase) {
            PhaseStatus::Suspended(g) => {
                if self.holder.is_none() {
                    self.set_status(phase, PhaseStatus::Running(g));
                    self.holder = Some(phase);
                    true
                } else {
                    false
                }
            },
            _ => false,
        }
    }
}

/// In a well-formed state at most one phase is running: two phases never hold
/// the world at the same time.
pub proof fn lemma_one_phase_at_a_time(driver: Driver, p: SystemType, q: SystemType)
    requires
        driver.wf(),
        p != q,
    ensures
        !(driver.status_of(p) is Running && driver.status_of(q) is Running),
{
}

/// A tick runs the groups of its plan strictly in order and then ends: while
/// the first group of `phase` runs, `k` barriers later group `k` runs, and
/// after as many barriers as the plan has groups the phase is idle and the
/// lock is free. The other phases stay as they are throughout.
pub proof fn lemma_tick_runs_groups_in_order(
    driver: Driver,
    phase: SystemType,
    groups: usize,
    k: nat,
)
    requires
        driver.status_of(phase) == PhaseStatus::Running(0),
        k <= groups,
    ensures
        k < groups ==> driver.after_barriers(phase, groups, k).status_of(phase)
            == PhaseStatus::Running(k as usize),
        k < groups ==> driver.after_barriers(phase, groups, k).holder == driver.holder,
        k == groups && groups > 0 ==> driver.after_barriers(phase, groups, k).status_of(phase)
            == PhaseStatus::Idle,
        k == groups && groups > 0 ==> driver.after_barriers(phase, groups, k).holder is None,
        forall|other: SystemType|
            other != phase ==> #[trigger] driver.after_barriers(phase, groups, k).status_of(other)
                == driver.status_of(other),
    decreases k,
{
    if k > 0 {
        lemma_tick_runs_groups_in_order(driver, phase, groups, (k - 1) as nat);
        let before = driver.after_barriers(phase, groups, (k - 1) as nat);
        assert(before.status_of(phase) == PhaseStatus::Running((k - 1) as usize));
        let after = before.after_group(phase, groups);
        assert forall|other: SystemType| other != phase implies #[trigger] after.status_of(other)
            == driver.status_of(other) by {
            assert(before.status_of(other) == driver.status_of(other));
        }
    }
}

/// A tick of a phase never starts while a tick of the same phase is in
/// progress.
pub proof fn lemma_no_overlap_with_itself(driver: Driver, phase: SystemType, groups: usize)
    requires
        !(driver.status_of(phase) is Idle),
    ensures
        driver.after_begin(phase, groups) == driver,
        driver.begin_answer(phase, groups) == Dispatch::Wait,
{
}

} // verus!
