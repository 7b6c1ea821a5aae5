use ecs_runtime::{
    Component, Dispatch, Driver, GameState, PhaseStatus, Resource, Scheduler, System, SystemType,
    Tick,
};

struct Nothing;

impl Component for Nothing {}

impl Resource for Nothing {
    fn kind(&self) -> usize {
        0
    }
}

fn system(args: &[usize], tag: &'static str) -> System<&'static str> {
    System { args: args.to_vec(), system: tag }
}

#[test]
fn new_scheduler_has_no_systems() {
    let s: Scheduler<&'static str> = Scheduler::new(10_000_000);
    assert!(s.init_systems.is_empty());
    assert!(s.update_systems.is_empty());
    assert!(s.fixed_update_systems.is_empty());
    assert!(s.execution_order(SystemType::Init).is_empty());
    assert!(s.execution_order(SystemType::Update).is_empty());
    assert!(s.execution_order(SystemType::FixedUpdate).is_empty());
    assert_eq!(s.fixed_update_interval, 10_000_000);
    assert_eq!(s.prev_time, 0);
    assert_eq!(s.fixed_time, 0);
}

#[test]
fn add_system_registers_into_its_phase_and_derives_the_plan() {
    let mut s = Scheduler::new(10);
    s.add_system(system(&[0], "render"), SystemType::Update);
    s.add_system(system(&[1], "input"), SystemType::Update);
    s.add_system(system(&[0, 2], "rotate"), SystemType::Update);
    s.add_system(system(&[7], "network"), SystemType::Init);
    s.add_system(system(&[2], "physics"), SystemType::FixedUpdate);
    s.add_system(system(&[2], "collide"), SystemType::FixedUpdate);
    assert_eq!(s.update_systems.len(), 3);
    assert_eq!(s.update_systems[2].system, "rotate");
    assert_eq!(s.init_systems.len(), 1);
    assert_eq!(s.fixed_update_systems.len(), 2);
    assert_eq!(s.execution_order(SystemType::Update), &vec![vec![0, 1], vec![2]]);
    assert_eq!(s.execution_order(SystemType::Init), &vec![vec![0]]);
    assert_eq!(s.execution_order(SystemType::FixedUpdate), &vec![vec![0], vec![1]]);
}

#[test]
fn requested_systems_are_registered_in_order() {
    let mut world: GameState<Nothing, Nothing, &'static str> = GameState::new();
    let mut s = Scheduler::new(10);
    s.add_system(system(&[0], "first"), SystemType::Update);
    assert!(world.requested_systems.is_empty());
    world.request_system(system(&[1], "callbacks"), SystemType::Update);
    world.request_system(system(&[2], "physics"), SystemType::FixedUpdate);
    world.request_system(system(&[0, 1], "late"), SystemType::Update);
    assert_eq!(world.requested_systems.len(), 3);
    world.add_resource(Nothing);
    s.register_requested(&mut world);
    assert!(world.requested_systems.is_empty());
    assert_eq!(world.resources.len(), 1);
    let names: Vec<&str> = s.update_systems.iter().map(|x| x.system).collect();
    assert_eq!(names, vec!["first", "callbacks", "late"]);
    assert_eq!(s.fixed_update_systems.len(), 1);
    assert_eq!(s.fixed_update_systems[0].system, "physics");
    assert!(s.init_systems.is_empty());
    assert_eq!(s.execution_order(SystemType::Update), &vec![vec![0, 1], vec![2]]);
    assert_eq!(s.execution_order(SystemType::FixedUpdate), &vec![vec![0]]);
    s.register_requested(&mut world);
    assert_eq!(s.update_systems.len(), 3);
}

#[test]
fn generate_execution_order_picks_up_direct_changes() {
    let mut s = Scheduler::new(10);
    s.update_systems.push(system(&[0], "a"));
    s.update_systems.push(system(&[1], "b"));
    assert!(s.execution_order(SystemType::Update).is_empty());
    s.generate_execution_order();
    assert_eq!(s.execution_order(SystemType::Update), &vec![vec![0, 1]]);
    s.generate_execution_order();
    assert_eq!(s.execution_order(SystemType::Update), &vec![vec![0, 1]]);
}

#[test]
fn advance_clock_gives_time_and_delta() {
    let mut s: Scheduler<u8> = Scheduler::new(10);
    assert_eq!(s.advance_clock(16), Tick { time: 16, dt: 16 });
    assert_eq!(s.advance_clock(40), Tick { time: 40, dt: 24 });
    assert_eq!(s.advance_clock(40), Tick { time: 40, dt: 0 });
    assert_eq!(s.advance_clock(30), Tick { time: 30, dt: 0 });
    assert_eq!(s.prev_time, 30);
    assert_eq!(s.fixed_time, 0);
}

#[test]
fn update_reads_the_clock() {
    let mut s: Scheduler<u8> = Scheduler::new(10);
    let first = s.update();
    assert_eq!(first.dt, first.time);
    assert_eq!(s.prev_time, first.time);
    let second = s.update();
    assert!(second.time >= first.time);
    assert_eq!(second.dt, second.time - first.time);
    assert!(s.get_time() >= second.time);
    assert_eq!(s.fixed_time, 0);
}

#[test]
fn fixed_ticks_advance_by_one_interval() {
    let mut s: Scheduler<u8> = Scheduler::new(10);
    assert_eq!(s.begin_fixed_tick(9), None);
    assert_eq!(s.fixed_time, 0);
    assert_eq!(s.begin_fixed_tick(10), Some(Tick { time: 10, dt: 10 }));
    assert_eq!(s.begin_fixed_tick(10), None);
    assert_eq!(s.begin_fixed_tick(35), Some(Tick { time: 20, dt: 10 }));
    assert_eq!(s.begin_fixed_tick(35), Some(Tick { time: 30, dt: 10 }));
    assert_eq!(s.begin_fixed_tick(35), None);
    assert_eq!(s.fixed_time, 30);
    assert_eq!(s.prev_time, 0);
}

#[test]
fn fixed_tick_at_the_end_of_time() {
    let mut s: Scheduler<u8> = Scheduler::new(u128::MAX);
    assert_eq!(s.begin_fixed_tick(u128::MAX - 1), None);
    assert_eq!(s.begin_fixed_tick(u128::MAX), Some(Tick { time: u128::MAX, dt: u128::MAX }));
    assert_eq!(s.begin_fixed_tick(u128::MAX), None);
}

fn fixed_ticks_until(s: &mut Scheduler<u8>, now: u128) -> u32 {
    let mut n = 0;
    while s.begin_fixed_tick(now).is_some() {
        n += 1;
    }
    n
}

#[test]
fn fixed_tick_count_does_not_depend_on_update() {
    let second: u128 = 1_000_000_000;
    let mut quiet: Scheduler<u8> = Scheduler::new(10_000_000);
    assert_eq!(fixed_ticks_until(&mut quiet, second), 100);

    let mut busy: Scheduler<u8> = Scheduler::new(10_000_000);
    let mut ticks = 0;
    let mut now = 0;
    while now < second {
        now += 7_000_000;
        let at = if now > second { second } else { now };
        busy.advance_clock(at);
        ticks += fixed_ticks_until(&mut busy, at);
    }
    assert_eq!(ticks, 100);
    assert_eq!(busy.fixed_time, quiet.fixed_time);
    assert_eq!(quiet.fixed_time, second);
}

#[test]
fn fixed_update_reads_the_clock() {
    let mut s: Scheduler<u8> = Scheduler::new(u128::MAX);
    assert_eq!(s.fixed_update(), None);
    let mut s: Scheduler<u8> = Scheduler::new(0);
    assert_eq!(s.fixed_update(), Some(Tick { time: 0, dt: 0 }));
}

#[test]
fn fixed_update_where_the_clock_has_no_say() {
    // Due at time zero: due at every time.
    let mut s: Scheduler<u8> = Scheduler::new(0);
    assert_eq!(s.fixed_update(), Some(Tick { time: 0, dt: 0 }));
    assert_eq!(s.fixed_update(), Some(Tick { time: 0, dt: 0 }));
    assert_eq!(s.fixed_time, 0);
    // The next tick lies beyond the last time there is: never due.
    let mut s: Scheduler<u8> = Scheduler::new(u128::MAX);
    assert!(s.begin_fixed_tick(u128::MAX).is_some());
    assert_eq!(s.fixed_update(), None);
    assert_eq!(s.fixed_time, u128::MAX);
}

#[test]
fn driver_runs_groups_in_plan_order() {
    let mut d = Driver::new();
    assert_eq!(d.begin_tick(SystemType::Init, 1), Dispatch::Run(0));
    assert_eq!(d.finish_group(SystemType::Init, 1), Dispatch::Done);
    assert_eq!(d.begin_tick(SystemType::Update, 3), Dispatch::Run(0));
    assert_eq!(d.status(SystemType::Update), PhaseStatus::Running(0));
    assert!(d.may_access_world(SystemType::Update));
    assert_eq!(d.finish_group(SystemType::Update, 3), Dispatch::Run(1));
    assert_eq!(d.finish_group(SystemType::Update, 3), Dispatch::Run(2));
    assert_eq!(d.finish_group(SystemType::Update, 3), Dispatch::Done);
    assert_eq!(d.status(SystemType::Update), PhaseStatus::Idle);
    assert_eq!(d.holder, None);
    assert_eq!(d.finish_group(SystemType::Update, 3), Dispatch::Wait);
}

#[test]
fn driver_runs_init_first_and_once() {
    let mut d = Driver::new();
    assert_eq!(d.begin_tick(SystemType::Update, 2), Dispatch::Wait);
    assert_eq!(d.begin_tick(SystemType::FixedUpdate, 2), Dispatch::Wait);
    assert_eq!(d, Driver::new());
    assert_eq!(d.begin_tick(SystemType::Init, 0), Dispatch::Done);
    assert!(d.init_done);
    assert_eq!(d.begin_tick(SystemType::Init, 1), Dispatch::Wait);
    assert_eq!(d.begin_tick(SystemType::FixedUpdate, 2), Dispatch::Run(0));
}

#[test]
fn driver_keeps_ticks_apart() {
    let mut d = Driver::new();
    d.begin_tick(SystemType::Init, 0);
    assert_eq!(d.begin_tick(SystemType::Update, 2), Dispatch::Run(0));
    // Not twice at once, and not the other phase while the lock is held.
    assert_eq!(d.begin_tick(SystemType::Update, 2), Dispatch::Wait);
    assert_eq!(d.begin_tick(SystemType::FixedUpdate, 1), Dispatch::Wait);
    assert_eq!(d.holder, Some(SystemType::Update));
    assert!(!d.may_access_world(SystemType::FixedUpdate));
    assert_eq!(d.finish_group(SystemType::Update, 2), Dispatch::Run(1));
    assert_eq!(d.finish_group(SystemType::Update, 2), Dispatch::Done);
    assert_eq!(d.begin_tick(SystemType::FixedUpdate, 1), Dispatch::Run(0));
    assert_eq!(d.begin_tick(SystemType::Update, 0), Dispatch::Wait);
}

#[test]
fn driver_lets_a_waiting_system_step_aside() {
    let mut d = Driver::new();
    d.begin_tick(SystemType::Init, 0);
    assert!(!d.release_for_wait(SystemType::Update));
    assert_eq!(d.begin_tick(SystemType::Update, 2), Dispatch::Run(0));
    assert_eq!(d.finish_group(SystemType::Update, 2), Dispatch::Run(1));
    assert!(d.release_for_wait(SystemType::Update));
    assert_eq!(d.status(SystemType::Update), PhaseStatus::Suspended(1));
    assert!(!d.may_access_world(SystemType::Update));
    assert_eq!(d.holder, None);
    // The suspended tick is still in progress: no second Update tick.
    assert_eq!(d.begin_tick(SystemType::Update, 2), Dispatch::Wait);
    assert_eq!(d.finish_group(SystemType::Update, 2), Dispatch::Wait);
    // The other loop gets its turn meanwhile.
    assert_eq!(d.begin_tick(SystemType::FixedUpdate, 1), Dispatch::Run(0));
    assert!(!d.reacquire(SystemType::Update));
    assert_eq!(d.finish_group(SystemType::FixedUpdate, 1), Dispatch::Done);
    assert!(d.reacquire(SystemType::Update));
    assert_eq!(d.status(SystemType::Update), PhaseStatus::Running(1));
    assert!(!d.reacquire(SystemType::Update));
    assert_eq!(d.finish_group(SystemType::Update, 2), Dispatch::Done);
}

#[test]
fn driver_empty_tick_is_done_at_once() {
    let mut d = Driver::new();
    d.begin_tick(SystemType::Init, 0);
    let before = d;
    assert_eq!(d.begin_tick(SystemType::Update, 0), Dispatch::Done);
    assert_eq!(d, before);
}
