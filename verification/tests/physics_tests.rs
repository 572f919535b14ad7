use my_library::{
    apply_gravity, apply_velocity, physics_clock, physics_step, sum_impulses, ApplyGravity, Body,
    Entity, Impulse, PhysicsPosition, PhysicsTick, PhysicsTimer, Vec2, Vec3, Velocity,
    PHYSICS_TICK_TIME,
};

fn body(entity: u64, velocity: Option<Velocity>, gravity: Option<i64>, at: Option<Vec3>) -> Body {
    Body {
        entity: Entity(entity),
        velocity,
        gravity: gravity.map(ApplyGravity),
        translation: at,
    }
}

fn moving(entity: u64, x: i64, y: i64, z: i64) -> Body {
    body(entity, Some(Velocity::new(x, y, z)), None, Some(Vec3::new(0, 0, 0)))
}

#[test]
fn tick_interval_is_thirty_three_milliseconds() {
    assert_eq!(PHYSICS_TICK_TIME, 33);
}

#[test]
fn clock_below_the_interval_keeps_the_total() {
    let mut clock = PhysicsTimer::new();
    assert_eq!(physics_clock(&mut clock, 20), None);
    assert_eq!(clock.millis(), 20);
    assert_eq!(physics_clock(&mut clock, 12), None);
    assert_eq!(clock.millis(), 32);
}

#[test]
fn clock_fires_when_the_interval_is_reached() {
    let mut clock = PhysicsTimer::new();
    assert_eq!(physics_clock(&mut clock, 33), Some(PhysicsTick));
    assert_eq!(clock.millis(), 0);
}

#[test]
fn clock_carries_the_excess_forward() {
    let mut clock = PhysicsTimer::new();
    assert_eq!(physics_clock(&mut clock, 10), None);
    assert_eq!(physics_clock(&mut clock, 30), Some(PhysicsTick));
    assert_eq!(clock.millis(), 7);
    assert_eq!(physics_clock(&mut clock, 26), Some(PhysicsTick));
    assert_eq!(clock.millis(), 0);
}

#[test]
fn clock_emits_at_most_one_tick_per_call() {
    let mut clock = PhysicsTimer::new();
    assert_eq!(physics_clock(&mut clock, 100), Some(PhysicsTick));
    assert_eq!(clock.millis(), 67);
    assert_eq!(physics_clock(&mut clock, 0), Some(PhysicsTick));
    assert_eq!(clock.millis(), 34);
    assert_eq!(physics_clock(&mut clock, 0), Some(PhysicsTick));
    assert_eq!(clock.millis(), 1);
    assert_eq!(physics_clock(&mut clock, 0), None);
    assert_eq!(clock.millis(), 1);
}

#[test]
fn clock_remainder_matches_modulo_below_two_intervals() {
    for total in 0u128..66 {
        let mut clock = PhysicsTimer::new();
        let tick = physics_clock(&mut clock, total);
        assert_eq!(tick.is_some(), total / 33 >= 1);
        if tick.is_some() {
            assert_eq!(clock.millis(), total % 33);
        } else {
            assert_eq!(clock.millis(), total);
        }
    }
}

#[test]
fn default_timer_and_velocity_are_zero() {
    assert_eq!(PhysicsTimer::default().millis(), 0);
    assert_eq!(Velocity::default(), Velocity(Vec3 { x: 0, y: 0, z: 0 }));
    assert_eq!(Velocity::new(1, -2, 3).0, Vec3::new(1, -2, 3));
    assert_eq!(Vec3::zero(), Vec3::new(0, 0, 0));
}

#[test]
fn physics_position_starts_and_ends_at_the_start() {
    let position = PhysicsPosition::new(Vec2::new(4, -9));
    assert_eq!(position.start_frame, Vec2 { x: 4, y: -9 });
    assert_eq!(position.end_frame, Vec2 { x: 4, y: -9 });
}

#[test]
fn vectors_add_by_component_and_saturate() {
    assert_eq!(Vec3::new(1, 2, 3).saturating_add(Vec3::new(10, -20, 30)), Vec3::new(11, -18, 33));
    assert_eq!(
        Vec3::new(i64::MAX, i64::MIN, 0).saturating_add(Vec3::new(1, -1, 0)),
        Vec3::new(i64::MAX, i64::MIN, 0)
    );
}

#[test]
fn additive_impulse_adds_to_velocity() {
    let mut bodies = vec![moving(7, 2, 0, 0)];
    let impulses =
        vec![Impulse { target: Entity(7), amount: Vec3::new(1, 1, 0), absolute: false }];
    sum_impulses(&impulses, &mut bodies);
    assert_eq!(bodies[0].velocity, Some(Velocity::new(3, 1, 0)));
    assert_eq!(bodies[0].translation, Some(Vec3::new(0, 0, 0)));
}

#[test]
fn absolute_impulse_replaces_velocity() {
    let mut bodies = vec![moving(7, 2, -40, 9)];
    let impulses =
        vec![Impulse { target: Entity(7), amount: Vec3::new(-1, 5, 0), absolute: true }];
    sum_impulses(&impulses, &mut bodies);
    assert_eq!(bodies[0].velocity, Some(Velocity::new(-1, 5, 0)));
}

#[test]
fn first_absolute_impulse_drops_the_rest() {
    let mut bodies = vec![moving(1, 0, 0, 0), moving(2, 0, 0, 0)];
    let impulses = vec![
        Impulse { target: Entity(2), amount: Vec3::new(1, 0, 0), absolute: false },
        Impulse { target: Entity(1), amount: Vec3::new(9, 9, 9), absolute: true },
        Impulse { target: Entity(2), amount: Vec3::new(100, 0, 0), absolute: false },
        Impulse { target: Entity(1), amount: Vec3::new(1, 1, 1), absolute: false },
    ];
    sum_impulses(&impulses, &mut bodies);
    assert_eq!(bodies[0].velocity, Some(Velocity::new(9, 9, 9)));
    assert_eq!(bodies[1].velocity, Some(Velocity::new(1, 0, 0)));
}

#[test]
fn impulse_without_a_target_is_passed_over() {
    let mut bodies = vec![body(1, None, None, None), moving(2, 0, 0, 0)];
    let impulses = vec![
        Impulse { target: Entity(5), amount: Vec3::new(1, 1, 1), absolute: true },
        Impulse { target: Entity(1), amount: Vec3::new(1, 1, 1), absolute: true },
        Impulse { target: Entity(2), amount: Vec3::new(3, 0, 0), absolute: false },
    ];
    sum_impulses(&impulses, &mut bodies);
    assert_eq!(bodies[0].velocity, None);
    assert_eq!(bodies[1].velocity, Some(Velocity::new(3, 0, 0)));
}

#[test]
fn no_impulses_change_nothing() {
    let mut bodies = vec![moving(1, 4, 5, 6)];
    sum_impulses(&Vec::new(), &mut bodies);
    assert_eq!(bodies, vec![moving(1, 4, 5, 6)]);
}

#[test]
fn gravity_lowers_vertical_velocity_once_per_tick() {
    let mut bodies = vec![
        body(1, Some(Velocity::new(1, 10, 2)), Some(3), None),
        body(2, Some(Velocity::new(1, 10, 2)), None, None),
        body(3, None, Some(3), None),
    ];
    apply_gravity(&vec![PhysicsTick], &mut bodies);
    assert_eq!(bodies[0].velocity, Some(Velocity::new(1, 7, 2)));
    assert_eq!(bodies[1].velocity, Some(Velocity::new(1, 10, 2)));
    assert_eq!(bodies[2].velocity, None);
    apply_gravity(&vec![PhysicsTick, PhysicsTick], &mut bodies);
    assert_eq!(bodies[0].velocity, Some(Velocity::new(1, 1, 2)));
}

#[test]
fn gravity_without_a_tick_changes_nothing() {
    let mut bodies = vec![body(1, Some(Velocity::new(0, 0, 0)), Some(3), None)];
    apply_gravity(&Vec::new(), &mut bodies);
    assert_eq!(bodies[0].velocity, Some(Velocity::new(0, 0, 0)));
}

#[test]
fn gravity_stops_at_the_end_of_the_range() {
    let mut bodies = vec![body(1, Some(Velocity::new(0, i64::MIN + 1, 0)), Some(5), None)];
    apply_gravity(&vec![PhysicsTick], &mut bodies);
    assert_eq!(bodies[0].velocity, Some(Velocity::new(0, i64::MIN, 0)));
}

#[test]
fn velocity_moves_bodies_once_per_tick() {
    let mut bodies = vec![
        body(1, Some(Velocity::new(1, -2, 3)), None, Some(Vec3::new(10, 10, 10))),
        body(2, Some(Velocity::new(1, -2, 3)), None, None),
        body(3, None, None, Some(Vec3::new(10, 10, 10))),
    ];
    apply_velocity(&vec![PhysicsTick], &mut bodies);
    assert_eq!(bodies[0].translation, Some(Vec3::new(11, 8, 13)));
    assert_eq!(bodies[1].translation, None);
    assert_eq!(bodies[2].translation, Some(Vec3::new(10, 10, 10)));
    apply_velocity(&Vec::new(), &mut bodies);
    assert_eq!(bodies[0].translation, Some(Vec3::new(11, 8, 13)));
}

#[test]
fn step_runs_gravity_then_impulses_then_integration() {
    let mut clock = PhysicsTimer::new();
    let mut bodies = vec![body(1, Some(Velocity::new(0, 0, 0)), Some(2), Some(Vec3::zero()))];
    let mut impulses =
        vec![Impulse { target: Entity(1), amount: Vec3::new(1, 1, 0), absolute: false }];
    let tick = physics_step(&mut clock, 40, &mut impulses, &mut bodies);
    assert_eq!(tick, Some(PhysicsTick));
    assert_eq!(clock.millis(), 7);
    assert_eq!(bodies[0].velocity, Some(Velocity::new(1, -1, 0)));
    assert_eq!(bodies[0].translation, Some(Vec3::new(1, -1, 0)));
    assert!(impulses.is_empty());
}

#[test]
fn step_lets_an_absolute_impulse_override_gravity() {
    let mut clock = PhysicsTimer::new();
    let mut bodies = vec![body(1, Some(Velocity::new(0, 0, 0)), Some(2), Some(Vec3::zero()))];
    let mut impulses =
        vec![Impulse { target: Entity(1), amount: Vec3::new(5, 5, 0), absolute: true }];
    physics_step(&mut clock, 33, &mut impulses, &mut bodies);
    assert_eq!(bodies[0].velocity, Some(Velocity::new(5, 5, 0)));
    assert_eq!(bodies[0].translation, Some(Vec3::new(5, 5, 0)));
}

#[test]
fn step_without_a_tick_keeps_bodies_and_impulses() {
    let mut clock = PhysicsTimer::new();
    let mut bodies = vec![body(1, Some(Velocity::new(3, 3, 3)), Some(2), Some(Vec3::zero()))];
    let mut impulses =
        vec![Impulse { target: Entity(1), amount: Vec3::new(1, 1, 0), absolute: false }];
    let tick = physics_step(&mut clock, 10, &mut impulses, &mut bodies);
    assert_eq!(tick, None);
    assert_eq!(clock.millis(), 10);
    assert_eq!(bodies[0].velocity, Some(Velocity::new(3, 3, 3)));
    assert_eq!(bodies[0].translation, Some(Vec3::zero()));
    assert_eq!(impulses.len(), 1);
    let tick = physics_step(&mut clock, 23, &mut impulses, &mut bodies);
    assert_eq!(tick, Some(PhysicsTick));
    assert_eq!(bodies[0].velocity, Some(Velocity::new(4, 2, 3)));
    assert!(impulses.is_empty());
}
