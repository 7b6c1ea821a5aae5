//! The scheduler: the systems of each phase, their execution plans, and the
//! clocks of the variable-rate and the fixed-interval loop. Times are whole
//! nanoseconds since the scheduler was created.

use vstd::prelude::*;
use crate::driver::{Dispatch, Driver};
use crate::ecs::{Component, Resource, System, SystemType};
use crate::game_state::GameState;
use crate::plan::{
    footprints, generate_execution_order_for_systems, group_of, lemma_footprints_push,
    lemma_registration_extends_plan, plan_model, plan_of, plan_with,
};

verus! {

/// `tokio::time::Instant`: a reading of the monotonic clock. It is carried as
/// an opaque value; nothing is known of what it holds.
#[verifier::external_type_specification]
#[verifier::external_body]
pub struct ExInstant(tokio::time::Instant);

/// Calls `tokio::time::Instant::now`. The instant depends on the clock, so
/// nothing is claimed of it.
#[verifier::external_body]
fn instant_now() -> (now: tokio::time::Instant) {
    tokio::time::Instant::now()
}

/// Calls `tokio::time::Instant::elapsed` and takes the duration in whole
/// nanoseconds. The value depends on the clock, so nothing is claimed of it.
#[verifier::external_body]
fn elapsed_nanos(since: &tokio::time::Instant) -> (nanos: u128) {
    since.elapsed().as_nanos()
}

/// The systems among the first `k` requests that ask for the phase
/// `system_type`, in the order they were asked for.
pub open spec fn requested_for<S>(
    requests: Seq<(System<S>, SystemType)>,
    system_type: SystemType,
    k: int,
) -> Seq<System<S>>
    decreases k,
{
    if k <= 0 {
        Seq::empty()
    } else if requests[k - 1].1 == system_type {
        requested_for(requests, system_type, k - 1).push(requests[k - 1].0)
    } else {
        requested_for(requests, system_type, k - 1)
    }
}

/// The times handed to the systems of one tick: the time of the tick and the
/// time since the previous tick of the same phase.
#[derive(Clone, Copy, Debug, PartialEq, Eq, Structural)]
pub struct Tick {
    pub time: u128,
    pub dt: u128,
}

/// Owns the systems of the three phases and, for each phase, the execution
/// plan derived from them.
pub struct Scheduler<S> {
    pub init_systems: Vec<System<S>>,
    pub update_systems: Vec<System<S>>,
    pub fixed_update_systems: Vec<System<S>>,
    pub init_execution_order: Vec<Vec<usize>>,
    pub update_execution_order: Vec<Vec<usize>>,
    pub fixed_update_execution_order: Vec<Vec<usize>>,
    /// The simulated time between two FixedUpdate ticks.
    pub fixed_update_interval: u128,
    pub start_time: tokio::time::Instant,
    /// The time of the latest Update tick.
    pub prev_time: u128,
    /// The simulated time that the FixedUpdate ticks have accumulated.
    pub fixed_time: u128,
}

impl<S> Scheduler<S> {
    /// The systems registered into a phase, in registration order.
    pub open spec fn systems_of(&self, system_type: SystemType) -> Seq<System<S>> {
        match system_type {
            SystemType::Init => self.init_systems@,
            SystemType::Update => self.update_systems@,
            SystemType::FixedUpdate => self.fixed_update_systems@,
        }
    }

    /// The execution plan held for a phase.
    pub open spec fn order_of(&self, system_type: SystemType) -> Seq<Seq<int>> {
        match system_type {
            SystemType::Init => plan_model(self.init_execution_order),
            SystemType::Update => plan_model(self.update_execution_order),
            SystemType::FixedUpdate => plan_model(self.fixed_update_execution_order),
        }
    }

    /// Each phase's plan is the first-fit plan of the systems registered into
    /// that phase.
    pub open spec fn plans_current(&self) -> bool {
        forall|system_type: SystemType| #[trigger]
            self.order_of(system_type) == plan_of(footprints(self.systems_of(system_type)))
    }

    /// The clocks and the start instant of two schedulers are the same.
    pub open spec fn same_clocks(&self, other: &Self) -> bool {
        &&& self.fixed_update_interval == other.fixed_update_interval
        &&& self.start_time == other.start_time
        &&& self.prev_time == other.prev_time
        &&& self.fixed_time == other.fixed_time
    }

    /// Creates a scheduler without systems whose clocks start now, at zero.
    pub fn new(fixed_update_interval: u128) -> (scheduler: Self)
        ensures
            scheduler.init_systems@.len() == 0,
            scheduler.update_systems@.len() == 0,
            scheduler.fixed_update_systems@.len() == 0,
            scheduler.init_execution_order@.len() == 0,
            scheduler.update_execution_order@.len() == 0,
            scheduler.fixed_update_execution_order@.len() == 0,
            scheduler.plans_current(),
            scheduler.fixed_update_interval == fixed_update_interval,
            scheduler.prev_time == 0,
            scheduler.fixed_time == 0,
    {
        let scheduler = Scheduler {
            init_systems: Vec::new(),
            update_systems: Vec::new(),
            fixed_update_systems: Vec::new(),
            init_execution_order: Vec::new(),
            update_execution_order: Vec::new(),
            fixed_update_execution_order: Vec::new(),
            fixed_update_interval,
            start_time: instant_now(),
            prev_time: 0,
            fixed_time: 0,
        };
        proof {
            assert forall|system_type: SystemType| #[trigger]
                scheduler.order_of(system_type) == plan_of(
                    footprints(scheduler.systems_of(system_type)),
                ) by {
                assert(scheduler.order_of(system_type) =~= plan_of(
                    footprints(scheduler.systems_of(system_type)),
                ));
            }
        }
        scheduler
    }

    /// Registers `system` as the last system of the phase `system_type` and
    /// derives the plans again. The other phases keep their systems. Where the
    /// plans were current before, the plan of no other phase changes, and in
    /// the plan of this phase every earlier system stays in its group: the new
    /// system joins the first group it fits or opens a new last group.
    pub fn add_system(&mut self, system: System<S>, system_type: SystemType)
        ensures
            final(self).systems_of(system_type) == old(self).systems_of(system_type).push(system),
            forall|other: SystemType|
                other != system_type ==> #[trigger] final(self).systems_of(other) == old(
                    self,
                ).systems_of(other),
            final(self).plans_current(),
            final(self).same_clocks(old(self)),
            old(self).plans_current() ==> {
                let n = old(self).systems_of(system_type).len() as int;
                let c = group_of(footprints(final(self).systems_of(system_type)), n);
                &&& final(self).order_of(system_type) == plan_with(
                    old(self).order_of(system_type),
                    c,
                    n,
                )
                &&& forall|other: SystemType|
                    other != system_type ==> #[trigger] final(self).order_of(other) == old(
                        self,
                    ).order_of(other)
            },
    {
        proof {
            lemma_footprints_push(old(self).systems_of(system_type), system);
            lemma_registration_extends_plan(
                footprints(old(self).systems_of(system_type)),
                system.args@,
            );
        }
        self.register(system, system_type);
    }

    /// Appends `system` to the systems of its phase and derives the plans
    /// again.
    fn register(&mut self, system: System<S>, system_type: SystemType)
        ensures
            final(self).systems_of(system_type) == old(self).systems_of(system_type).push(system),
            forall|other: SystemType|
                other != system_type ==> #[trigger] final(self).systems_of(other) == old(
                    self,
                ).systems_of(other),
            final(self).plans_current(),
            final(self).same_clocks(old(self)),
    {
        match system_type {
            SystemType::Init => self.init_systems.push(system),
            SystemType::Update => self.update_systems.push(system),
            SystemType::FixedUpdate => self.fixed_update_systems.push(system),
        };
        self.generate_execution_order();
    }

    /// Registers the systems that running systems have asked for, in the order
    /// they were asked for, each into its phase, and leaves no request behind.
    /// The rest of the world is not touched.
    pub fn register_requested<C: Component, R: Resource>(&mut self, world: &mut GameState<C, R, S>)
        ensures
            final(world).requested_systems@.len() == 0,
            final(world).entities == old(world).entities,
            final(world).components == old(world).components,
            final(world).resources == old(world).resources,
            final(world).next_entity_id == old(world).next_entity_id,
            forall|system_type: SystemType| #[trigger]
                final(self).systems_of(system_type) == old(self).systems_of(system_type)
                    + requested_for(
                    old(world).requested_systems@,
                    system_type,
                    old(world).requested_systems@.len() as int,
                ),
            old(self).plans_current() || old(world).requested_systems@.len() > 0
                ==> final(self).plans_current(),
            final(self).same_clocks(old(self)),
    {
        let ghost requests = world.requested_systems@;
        let ghost scheduler_before = *self;
        let ghost world_before = *world;
        let ghost mut k: int = 0;
        proof {
            assert forall|system_type: SystemType| #[trigger]
                self.systems_of(system_type) == scheduler_before.systems_of(system_type)
                    + requested_for(requests, system_type, 0) by {
                assert(self.systems_of(system_type) =~= scheduler_before.systems_of(system_type)
                    + requested_for(requests, system_type, 0));
            }
        }
        while world.requested_systems.len() > 0
            invariant
                0 <= k <= requests.len(),
                world.requested_systems@ == requests.subrange(k, requests.len() as int),
                world.entities == world_before.entities,
                world.components == world_before.components,
                world.resources == world_before.resources,
                world.next_entity_id == world_before.next_entity_id,
                forall|system_type: SystemType| #[trigger]
                    self.systems_of(system_type) == scheduler_before.systems_of(system_type)
                        + requested_for(requests, system_type, k),
                self.same_clocks(&scheduler_before),
                scheduler_before.plans_current() || k > 0 ==> self.plans_current(),
            decreases world.requested_systems@.len(),
        {
            let ghost before = *self;
            let (system, system_type) = world.requested_systems.remove(0);
            self.register(system, system_type);
            proof {
                assert(requests[k] == (system, system_type));
                assert(world.requested_systems@ =~= requests.subrange(k + 1, requests.len() as int));
                assert forall|other: SystemType| #[trigger]
                    self.systems_of(other) == scheduler_before.systems_of(other) + requested_for(
                        requests,
                        other,
                        k + 1,
                    ) by {
                    assert(before.systems_of(other) == scheduler_before.systems_of(other)
                        + requested_for(requests, other, k));
                    if other == system_type {
                        assert(self.systems_of(other) =~= scheduler_before.systems_of(other)
                            + requested_for(requests, other, k + 1));
                    } else {
                        assert(self.systems_of(other) == before.systems_of(other));
                    }
                }
                k = k + 1;
            }
        }
        proof {
            assert(k == requests.len());
        }
    }

    /// Derives the plan of every phase from the systems registered into it.
    /// Deriving again without a registration in between changes nothing.
    pub fn generate_execution_order(&mut self)
        ensures
            forall|system_type: SystemType| #[trigger]
                final(self).systems_of(system_type) == old(self).systems_of(system_type),
            final(self).plans_current(),
            final(self).same_clocks(old(self)),
    {
        self.init_execution_order = generate_execution_order_for_systems(&self.init_systems);
        self.update_execution_order = generate_execution_order_for_systems(&self.update_systems);
        self.fixed_update_execution_order = generate_execution_order_for_systems(
            &self.fixed_update_systems,
        );
    }

    /// The execution plan of a phase: its groups in the order they run, each
    /// the indices of its systems in the phase's list.
    pub fn execution_order(&self, system_type: SystemType) -> (order: &Vec<Vec<usize>>)
        ensures
            plan_model(*order) == self.order_of(system_type),
            order.len() == self.groups_of(system_type),
    {
        match system_type {
            SystemType::Init => &self.init_execution_order,
            SystemType::Update => &self.update_execution_order,
            SystemType::FixedUpdate => &self.fixed_update_execution_order,
        }
    }

    /// The number of groups in the plan held for a phase.
    pub open spec fn groups_of(&self, system_type: SystemType) -> usize {
        match system_type {
            SystemType::Init => self.init_execution_order.len(),
            SystemType::Update => self.update_execution_order.len(),
            SystemType::FixedUpdate => self.fixed_update_execution_order.len(),
        }
    }

    /// The systems of group `g` of a phase's plan, as indices into the phase's
    /// list, or nothing if the plan has no such group.
    pub fn group(&self, system_type: SystemType, g: usize) -> (members: Option<&Vec<usize>>)
        ensures
            g < self.groups_of(system_type) ==> members.is_some() && crate::plan::indices(
                members.unwrap()@,
            ) == self.order_of(system_type)[g as int],
            g >= self.groups_of(system_type) ==> members.is_none(),
    {
        let order = self.execution_order(system_type);
        if g < order.len() {
            Some(&order[g])
        } else {
            None
        }
    }

    /// Asks the driver to start a tick of a phase over the plan held for it.
    /// A group that the driver answers with is a group of that plan.
    pub fn begin_tick(&self, driver: &mut Driver, system_type: SystemType) -> (answer: Dispatch)
        ensures
            *final(driver) == old(driver).after_begin(system_type, self.groups_of(system_type)),
            answer == old(driver).begin_answer(system_type, self.groups_of(system_type)),
            old(driver).wf() ==> final(driver).wf(),
            answer matches Dispatch::Run(g) ==> g < self.groups_of(system_type),
    {
        let groups = self.execution_order(system_type).len();
        driver.begin_tick(system_type, groups)
    }

    /// Tells the driver that every system of the running group of a phase has
    /// completed, over the plan held for the phase. A group that the driver
    /// answers with is the next group of that plan.
    pub fn finish_group(&self, driver: &mut Driver, system_type: SystemType) -> (answer: Dispatch)
        ensures
            *final(driver) == old(driver).after_group(system_type, self.groups_of(system_type)),
            answer == old(driver).group_answer(system_type, self.groups_of(system_type)),
            old(driver).wf() ==> final(driver).wf(),
            answer matches Dispatch::Run(g) ==> g < self.groups_of(system_type),
    {
        let groups = self.execution_order(system_type).len();
        driver.finish_group(system_type, groups)
    }

    /// The time since the scheduler was created. It is read from the clock.
    pub fn get_time(&self) -> (time: u128) {
        elapsed_nanos(&self.start_time)
    }

    /// Starts an Update tick at `time`: the tick's delta is the time since the
    /// previous Update tick (zero if the clock went back), and `time` becomes
    /// the previous time. The FixedUpdate clock is not touched.
    pub fn advance_clock(&mut self, time: u128) -> (tick: Tick)
        ensures
            tick.time == time,
            tick.dt == if time >= old(self).prev_time {
                time - old(self).prev_time
            } else {
                0
            },
            final(self).prev_time == time,
            final(self).fixed_time == old(self).fixed_time,
            final(self).fixed_update_interval == old(self).fixed_update_interval,
            final(self).start_time == old(self).start_time,
            final(self).unchanged_systems(old(self)),
    {
        let dt = if time >= self.prev_time {
            time - self.prev_time
        } else {
            0
        };
        self.prev_time = time;
        Tick { time, dt }
    }

    /// Starts an Update tick at the current time: reads the clock and advances
    /// the Update clock to it. Whatever the clock returned, the tick carries
    /// that time and its distance from the previous tick, and the FixedUpdate
    /// clock is not touched.
    pub fn update(&mut self) -> (tick: Tick)
        ensures
            tick.dt == if tick.time >= old(self).prev_time {
                tick.time - old(self).prev_time
            } else {
                0
            },
            final(self).prev_time == tick.time,
            final(self).fixed_time == old(self).fixed_time,
            final(self).fixed_update_interval == old(self).fixed_update_interval,
            final(self).start_time == old(self).start_time,
            final(self).unchanged_systems(old(self)),
    {
        let time = self.get_time();
        self.advance_clock(time)
    }

    /// The systems and the plans of two schedulers are the same.
    pub open spec fn unchanged_systems(&self, other: &Self) -> bool {
        &&& self.init_systems == other.init_systems
        &&& self.update_systems == other.update_systems
        &&& self.fixed_update_systems == other.fixed_update_systems
        &&& self.init_execution_order == other.init_execution_order
        &&& self.update_execution_order == other.update_execution_order
        &&& self.fixed_update_execution_order == other.fixed_update_execution_order
    }

    /// A FixedUpdate tick is due at `now`: one more interval of simulated time
    /// has passed.
    pub open spec fn fixed_tick_due(&self, now: u128) -> bool {
        self.fixed_time + self.fixed_update_interval <= now
    }

    /// The tick that starts at `now`: the one that advances the simulated time
    /// by one interval, if it is due, and none otherwise.
    pub open spec fn fixed_tick_at(&self, now: u128) -> Option<Tick> {
        if self.fixed_tick_due(now) {
            Some(
                Tick {
                    time: (self.fixed_time + self.fixed_update_interval) as u128,
                    dt: self.fixed_update_interval,
                },
            )
        } else {
            None
        }
    }

    /// Starts the next FixedUpdate tick if one is due at `now`. A tick advances
    /// the simulated time by exactly one interval and carries the new simulated
    /// time and the interval as its delta. If none is due, nothing changes.
    /// The Update clock plays no part.
    pub fn begin_fixed_tick(&mut self, now: u128) -> (tick: Option<Tick>)
        ensures
            tick == old(self).fixed_tick_at(now),
            old(self).fixed_tick_due(now) ==> tick == Some(
                (Tick {
                    time: (old(self).fixed_time + old(self).fixed_update_interval) as u128,
                    dt: old(self).fixed_update_interval,
                }),
            ) && final(self).fixed_time == old(self).fixed_time + old(self).fixed_update_interval,
            !old(self).fixed_tick_due(now) ==> tick.is_none() && final(self).fixed_time == old(
                self,
            ).fixed_time,
            final(self).prev_time == old(self).prev_time,
            final(self).fixed_update_interval == old(self).fixed_update_interval,
            final(self).start_time == old(self).start_time,
            final(self).unchanged_systems(old(self)),
    {
        match self.fixed_time.checked_add(self.fixed_update_interval) {
            Some(due) => {
                if due <= now {
                    self.fixed_time = due;
                    Some(Tick { time: due, dt: self.fixed_update_interval })
                } else {
                    None
                }
            },
            None => None,
        }
    }

    /// Starts the next FixedUpdate tick if one is due at the current time,
    /// which is read from the clock: the outcome is that of `begin_fixed_tick`
    /// at some time. A tick, if one is started, advances the simulated time by
    /// exactly one interval. Where the clock has no say, the outcome is fixed:
    /// a tick that is due at time zero is due at every time and is started,
    /// and one that is not due at the last time there is never starts.
    pub fn fixed_update(&mut self) -> (tick: Option<Tick>)
        ensures
            exists|now: u128| tick == #[trigger] old(self).fixed_tick_at(now),
            old(self).fixed_tick_due(0) ==> tick.is_some(),
            !old(self).fixed_tick_due(u128::MAX) ==> tick.is_none(),
            match tick {
                Some(t) => {
                    &&& t.time == old(self).fixed_time + old(self).fixed_update_interval
                    &&& t.dt == old(self).fixed_update_interval
                    &&& final(self).fixed_time == t.time
                },
                None => final(self).fixed_time == old(self).fixed_time,
            },
            final(self).prev_time == old(self).prev_time,
            final(self).fixed_update_interval == old(self).fixed_update_interval,
            final(self).start_time == old(self).start_time,
            final(self).unchanged_systems(old(self)),
    {
        let now = self.get_time();
        self.begin_fixed_tick(now)
    }
}

/// FixedUpdate does not depend on how often Update runs: two schedulers with
/// the same interval and the same accumulated simulated time have a tick due
/// at the same times, whatever their Update clocks hold. An Update tick
/// changes neither of the two.
pub proof fn lemma_fixed_ticks_ignore_update<S>(one: Scheduler<S>, other: Scheduler<S>, now: u128)
    requires
        one.fixed_update_interval == other.fixed_update_interval,
        one.fixed_time == other.fixed_time,
    ensures
        one.fixed_tick_due(now) == other.fixed_tick_due(now),
{
}

/// Counting from zero, the FixedUpdate ticks due by `now` are as many as
/// whole intervals fit into `now`: a scheduler that has run `ticks` of them has
/// another one due exactly when `ticks` is below that quotient. The count
/// depends on the interval and on `now` alone, not on how often Update ran.
pub proof fn lemma_fixed_ticks_by_time<S>(scheduler: Scheduler<S>, ticks: int, now: u128)
    requires
        scheduler.fixed_update_interval > 0,
        ticks >= 0,
        scheduler.fixed_time == ticks * scheduler.fixed_update_interval,
    ensures
        scheduler.fixed_tick_due(now) <==> ticks < now / scheduler.fixed_update_interval,
{
    let interval = scheduler.fixed_update_interval as int;
    let now = now as int;
    vstd::arithmetic::div_mod::lemma_fundamental_div_mod(now, interval);
    vstd::arithmetic::div_mod::lemma_mod_bound(now, interval);
    let q = now / interval;
    assert(ticks * interval + interval == (ticks + 1) * interval) by (nonlinear_arith);
    if ticks < q {
        assert((ticks + 1) * interval <= q * interval) by (nonlinear_arith)
            requires
                ticks + 1 <= q,
                interval > 0,
        ;
        assert(interval * q == q * interval) by (nonlinear_arith);
    } else {
        assert((ticks + 1) * interval >= (q + 1) * interval) by (nonlinear_arith)
            requires
                ticks + 1 >= q + 1,
                interval > 0,
        ;
        assert((q + 1) * interval == interval * q + interval) by (nonlinear_arith);
    }
}

} // verus!
