//! Fixed-timestep physics: a millisecond accumulator that emits ticks, and the
//! three stages that run on a tick (gravity, impulses, integration).
//!
//! Vectors hold signed 64-bit fixed-point components in a unit of the caller's
//! choosing. Sums that leave the `i64` range stop at its nearest end.

use vstd::prelude::*;

verus! {

/// How frequently the physics tick fires, in milliseconds.
pub const PHYSICS_TICK_TIME: u128 = 33;

/// The value of `v` held to the `i64` range.
pub open spec fn clamp_i64(v: int) -> int {
    if v > i64::MAX {
        i64::MAX as int
    } else if v < i64::MIN {
        i64::MIN as int
    } else {
        v
    }
}

/// `a + b`, stopping at the ends of the `i64` range.
pub fn add_clamped(a: i64, b: i64) -> (r: i64)
    ensures
        r == clamp_i64(a + b),
{
    match a.checked_add(b) {
        Some(sum) => sum,
        None => if b > 0 {
            i64::MAX
        } else {
            i64::MIN
        },
    }
}

/// `a - b`, stopping at the ends of the `i64` range.
pub fn sub_clamped(a: i64, b: i64) -> (r: i64)
    ensures
        r == clamp_i64(a - b),
{
    match a.checked_sub(b) {
        Some(difference) => difference,
        None => if b > 0 {
            i64::MIN
        } else {
            i64::MAX
        },
    }
}

/// A point or displacement in the plane.
#[derive(Clone, Copy, Debug, PartialEq, Eq, Structural)]
pub struct Vec2 {
    pub x: i64,
    pub y: i64,
}

impl Vec2 {
    pub fn new(x: i64, y: i64) -> (r: Self)
        ensures
            r == (Vec2 { x, y }),
    {
        Vec2 { x, y }
    }
}

/// A point or displacement in space.
#[derive(Clone, Copy, Debug, PartialEq, Eq, Structural)]
pub struct Vec3 {
    pub x: i64,
    pub y: i64,
    pub z: i64,
}

impl Vec3 {
    /// The component-wise clamped sum of two vectors.
    pub open spec fn plus(self, other: Vec3) -> Vec3 {
        Vec3 {
            x: clamp_i64(self.x + other.x) as i64,
            y: clamp_i64(self.y + other.y) as i64,
            z: clamp_i64(self.z + other.z) as i64,
        }
    }

    /// Whether the exact sum of the two vectors fits the component type.
    pub open spec fn sum_fits(self, other: Vec3) -> bool {
        &&& i64::MIN <= self.x + other.x <= i64::MAX
        &&& i64::MIN <= self.y + other.y <= i64::MAX
        &&& i64::MIN <= self.z + other.z <= i64::MAX
    }

    pub fn new(x: i64, y: i64, z: i64) -> (r: Self)
        ensures
            r == (Vec3 { x, y, z }),
    {
        Vec3 { x, y, z }
    }

    pub fn zero() -> (r: Self)
        ensures
            r == (Vec3 { x: 0, y: 0, z: 0 }),
    {
        Vec3 { x: 0, y: 0, z: 0 }
    }

    /// The sum of two vectors, each component stopping at the ends of its range.
    pub fn saturating_add(self, other: Vec3) -> (r: Vec3)
        ensures
            r == self.plus(other),
    {
        Vec3 {
            x: add_clamped(self.x, other.x),
            y: add_clamped(self.y, other.y),
            z: add_clamped(self.z, other.z),
        }
    }
}

/// Where an entity stood at the start and at the end of the current frame.
#[derive(Clone, Copy, Debug, PartialEq, Eq, Structural)]
pub struct PhysicsPosition {
    pub start_frame: Vec2,
    pub end_frame: Vec2,
}

impl PhysicsPosition {
    pub fn new(start: Vec2) -> (r: Self)
        ensures
            r.start_frame == start,
            r.end_frame == start,
    {
        Self { start_frame: start, end_frame: start }
    }
}

/// The accumulator of elapsed milliseconds that drives the physics tick.
#[derive(Clone, Copy, Debug, PartialEq, Eq)]
pub struct PhysicsTimer(u128);

impl View for PhysicsTimer {
    type V = nat;

    closed spec fn view(&self) -> nat {
        self.0 as nat
    }
}

impl PhysicsTimer {
    pub fn new() -> (r: Self)
        ensures
            r@ == 0,
    {
        PhysicsTimer(0)
    }

    /// The milliseconds accumulated since the last tick.
    pub fn millis(&self) -> (ms: u128)
        ensures
            ms == self@,
    {
        self.0
    }
}

impl Default for PhysicsTimer {
    fn default() -> (r: Self)
        ensures
            r@ == 0,
    {
        PhysicsTimer(0)
    }
}

/// The event that one fixed physics interval has elapsed.
#[derive(Clone, Copy, Debug, PartialEq, Eq, Structural)]
pub struct PhysicsTick;

/// Whether an accumulator holding `total` milliseconds fires a tick.
pub open spec fn fires(total: nat) -> bool {
    total >= PHYSICS_TICK_TIME
}

/// What an accumulator holding `total` milliseconds keeps after its cycle:
/// one interval less where a tick fired, everything otherwise.
pub open spec fn carried(total: nat) -> nat {
    if fires(total) {
        (total - PHYSICS_TICK_TIME) as nat
    } else {
        total
    }
}

/// How many ticks one cycle emits for `total` accumulated milliseconds.
pub open spec fn ticks_emitted(total: nat) -> nat {
    if fires(total) {
        1
    } else {
        0
    }
}

/// Adds the milliseconds since the last call to the accumulator. Where the
/// total reaches the tick interval, one interval is taken off and a tick is
/// emitted; at most one tick is emitted per call, and what is left carries
/// over to the next call.
pub fn physics_clock(clock: &mut PhysicsTimer, ms_since_last_call: u128) -> (on_tick: Option<
    PhysicsTick,
>)
    requires
        old(clock)@ + ms_since_last_call <= u128::MAX,
    ensures
        on_tick.is_some() == fires(old(clock)@ + ms_since_last_call as nat),
        final(clock)@ == carried(old(clock)@ + ms_since_last_call as nat),
{
    clock.0 = clock.0 + ms_since_last_call;
    if clock.0 >= PHYSICS_TICK_TIME {
        clock.0 = clock.0 - PHYSICS_TICK_TIME;
        Some(PhysicsTick)
    } else {
        None
    }
}

/// The tick count of a cycle is the number of whole intervals accumulated,
/// held to at most one.
pub proof fn lemma_ticks_are_whole_intervals_capped(total: nat)
    ensures
        ticks_emitted(total) == if total / (PHYSICS_TICK_TIME as nat) >= 1 {
            1nat
        } else {
            0nat
        },
{
}

/// With fewer than two intervals accumulated, what the accumulator keeps
/// after a tick is the remainder of the total by the interval, and without a
/// tick it keeps the total.
pub proof fn lemma_carry_is_remainder(total: nat)
    requires
        total < 2 * PHYSICS_TICK_TIME,
    ensures
        ticks_emitted(total) == total / (PHYSICS_TICK_TIME as nat),
        ticks_emitted(total) >= 1 ==> carried(total) == total % (PHYSICS_TICK_TIME as nat),
        ticks_emitted(total) == 0 ==> carried(total) == total,
{
}


/// The identity of an entity of the host engine.
#[derive(Clone, Copy, Debug, PartialEq, Eq, Structural)]
pub struct Entity(pub u64);

/// How far an entity moves in one tick.
#[derive(Clone, Copy, Debug, PartialEq, Eq, Structural)]
pub struct Velocity(pub Vec3);

impl Velocity {
    pub fn new(x: i64, y: i64, z: i64) -> (r: Self)
        ensures
            r == Velocity(Vec3 { x, y, z }),
    {
        Self(Vec3 { x, y, z })
    }
}

impl Default for Velocity {
    fn default() -> (r: Self)
        ensures
            r == Velocity(Vec3 { x: 0, y: 0, z: 0 }),
    {
        Self(Vec3::zero())
    }
}

/// The constant downward acceleration of an entity, per tick.
#[derive(Clone, Copy, Debug, PartialEq, Eq, Structural)]
pub struct ApplyGravity(pub i64);

/// A request to change the velocity of `target`: to replace it with `amount`
/// where `absolute` is set, to add `amount` to it otherwise.
#[derive(Clone, Copy, Debug, PartialEq, Eq, Structural)]
pub struct Impulse {
    pub target: Entity,
    pub amount: Vec3,
    pub absolute: bool,
}

/// The physics components of one entity. A component that the entity lacks
/// is `None`.
#[derive(Clone, Copy, Debug, PartialEq, Eq)]
pub struct Body {
    pub entity: Entity,
    pub velocity: Option<Velocity>,
    pub gravity: Option<ApplyGravity>,
    pub translation: Option<Vec3>,
}

/// A body after one tick of gravity: with both a velocity and a gravity
/// component its vertical velocity drops by the gravity constant.
pub open spec fn gravity_on(b: Body) -> Body {
    match (b.velocity, b.gravity) {
        (Some(v), Some(g)) => Body {
            velocity: Some(
                Velocity(Vec3 { x: v.0.x, y: clamp_i64(v.0.y - g.0) as i64, z: v.0.z }),
            ),
            ..b
        },
        _ => b,
    }
}

/// All bodies after `ticks` ticks of gravity.
pub open spec fn gravity_applied(bodies: Seq<Body>, ticks: nat) -> Seq<Body>
    decreases ticks,
{
    if ticks == 0 {
        bodies
    } else {
        gravity_applied(bodies, (ticks - 1) as nat).map_values(|b: Body| gravity_on(b))
    }
}

/// A body after one tick of integration: with both a velocity and a
/// translation it moves by its velocity.
pub open spec fn velocity_on(b: Body) -> Body {
    match (b.velocity, b.translation) {
        (Some(v), Some(t)) => Body { translation: Some(t.plus(v.0)), ..b },
        _ => b,
    }
}

/// All bodies after `ticks` ticks of integration.
pub open spec fn velocity_applied(bodies: Seq<Body>, ticks: nat) -> Seq<Body>
    decreases ticks,
{
    if ticks == 0 {
        bodies
    } else {
        velocity_applied(bodies, (ticks - 1) as nat).map_values(|b: Body| velocity_on(b))
    }
}

/// Whether an impulse aimed at `target` can reach body `b`.
pub open spec fn accepts(b: Body, target: Entity) -> bool {
    b.entity == target && b.velocity is Some
}

/// Whether `i` is the first body that an impulse aimed at `target` can reach.
pub open spec fn is_target_index(bodies: Seq<Body>, target: Entity, i: int) -> bool {
    &&& 0 <= i < bodies.len()
    &&& accepts(bodies[i], target)
    &&& forall|j: int| 0 <= j < i ==> !accepts(#[trigger] bodies[j], target)
}

/// The body that an impulse aimed at `target` reaches, if any.
pub open spec fn target_index(bodies: Seq<Body>, target: Entity) -> Option<int> {
    if exists|i: int| is_target_index(bodies, target, i) {
        Some(choose|i: int| is_target_index(bodies, target, i))
    } else {
        None
    }
}

/// A body after an impulse that reached it.
pub open spec fn impulse_on(b: Body, impulse: Impulse) -> Body {
    match b.velocity {
        Some(v) => Body {
            velocity: Some(
                if impulse.absolute {
                    Velocity(impulse.amount)
                } else {
                    Velocity(v.0.plus(impulse.amount))
                },
            ),
            ..b
        },
        None => b,
    }
}

/// All bodies after the impulses were taken in order. An impulse whose target
/// is missing is passed over. The first absolute impulse that reaches its
/// target ends the processing: the impulses behind it are dropped.
pub open spec fn impulses_applied(bodies: Seq<Body>, impulses: Seq<Impulse>) -> Seq<Body>
    decreases impulses.len(),
{
    if impulses.len() == 0 {
        bodies
    } else {
        let impulse = impulses[0];
        match target_index(bodies, impulse.target) {
            None => impulses_applied(bodies, impulses.drop_first()),
            Some(i) => {
                let hit = bodies.update(i, impulse_on(bodies[i], impulse));
                if impulse.absolute {
                    hit
                } else {
                    impulses_applied(hit, impulses.drop_first())
                }
            },
        }
    }
}

/// Two positions that both qualify as the first reachable body are the same.
proof fn lemma_target_index_unique(bodies: Seq<Body>, target: Entity, i: int, j: int)
    requires
        is_target_index(bodies, target, i),
        is_target_index(bodies, target, j),
    ensures
        i == j,
{
    if i < j {
        assert(!accepts(bodies[i], target));
    } else if j < i {
        assert(!accepts(bodies[j], target));
    }
}

/// Finds the first body that an impulse aimed at `target` can reach.
fn find_target(bodies: &Vec<Body>, target: Entity) -> (found: Option<usize>)
    ensures
        match found {
            Some(i) => target_index(bodies@, target) == Some(i as int),
            None => target_index(bodies@, target).is_none(),
        },
{
    let mut i: usize = 0;
    while i < bodies.len()
        invariant
            i <= bodies.len(),
            forall|j: int| 0 <= j < i ==> !accepts(#[trigger] bodies@[j], target),
        decreases bodies.len() - i,
    {
        if bodies[i].entity == target && bodies[i].velocity.is_some() {
            proof {
                assert(is_target_index(bodies@, target, i as int));
                let c = choose|c: int| is_target_index(bodies@, target, c);
                lemma_target_index_unique(bodies@, target, i as int, c);
            }
            return Some(i);
        }
        i = i + 1;
    }
    proof {
        assert forall|c: int| !is_target_index(bodies@, target, c) by {
            if 0 <= c < bodies@.len() {
                assert(!accepts(bodies@[c], target));
            }
        }
    }
    None
}

/// For every tick read, takes the gravity constant off the vertical velocity
/// of every body that has both a velocity and a gravity component.
pub fn apply_gravity(tick: &Vec<PhysicsTick>, bodies: &mut Vec<Body>)
    ensures
        final(bodies)@ == gravity_applied(old(bodies)@, tick@.len()),
{
    let mut t: usize = 0;
    while t < tick.len()
        invariant
            t <= tick.len(),
            bodies@ == gravity_applied(old(bodies)@, t as nat),
        decreases tick.len() - t,
    {
        let ghost before = bodies@;
        let mut i: usize = 0;
        while i < bodies.len()
            invariant
                i <= bodies.len(),
                bodies@.len() == before.len(),
                forall|j: int| 0 <= j < i ==> bodies@[j] == gravity_on(#[trigger] before[j]),
                forall|j: int| i <= j < bodies@.len() ==> bodies@[j] == before[j],
            decreases bodies.len() - i,
        {
            let b = bodies[i];
            match (b.velocity, b.gravity) {
                (Some(v), Some(g)) => {
                    let fallen = Velocity(
                        Vec3 { x: v.0.x, y: sub_clamped(v.0.y, g.0), z: v.0.z },
                    );
                    bodies.set(
                        i,
                        Body {
                            entity: b.entity,
                            velocity: Some(fallen),
                            gravity: b.gravity,
                            translation: b.translation,
                        },
                    );
                },
                _ => {},
            }
            i = i + 1;
        }
        assert(bodies@ =~= before.map_values(|b: Body| gravity_on(b)));
        t = t + 1;
    }
}

/// Takes the pending impulses in order and applies each to the velocity of its
/// target: an absolute impulse replaces the velocity and ends the processing,
/// any other is added to it. An impulse whose target has no velocity, or does
/// not exist, is passed over.
pub fn sum_impulses(impulses: &Vec<Impulse>, bodies: &mut Vec<Body>)
    ensures
        final(bodies)@ == impulses_applied(old(bodies)@, impulses@),
{
    let mut k: usize = 0;
    assert(impulses@.skip(0) =~= impulses@);
    while k < impulses.len()
        invariant
            k <= impulses.len(),
            impulses_applied(old(bodies)@, impulses@) == impulses_applied(
                bodies@,
                impulses@.skip(k as int),
            ),
        decreases impulses.len() - k,
    {
        let impulse = impulses[k];
        proof {
            assert(impulses@.skip(k as int)[0] == impulse);
            assert(impulses@.skip(k as int).drop_first() =~= impulses@.skip(k + 1));
        }
        match find_target(bodies, impulse.target) {
            Some(i) => {
                let b = bodies[i];
                match b.velocity {
                    Some(v) => {
                        let changed = if impulse.absolute {
                            Velocity(impulse.amount)
                        } else {
                            Velocity(v.0.saturating_add(impulse.amount))
                        };
                        bodies.set(
                            i,
                            Body {
                                entity: b.entity,
                                velocity: Some(changed),
                                gravity: b.gravity,
                                translation: b.translation,
                            },
                        );
                        if impulse.absolute {
                            return ;
                        }
                    },
                    None => {},
                }
            },
            None => {},
        }
        k = k + 1;
    }
}

/// For every tick read, moves every body that has both a velocity and a
/// translation by its velocity.
pub fn apply_velocity(tick: &Vec<PhysicsTick>, bodies: &mut Vec<Body>)
    ensures
        final(bodies)@ == velocity_applied(old(bodies)@, tick@.len()),
{
    let mut t: usize = 0;
    while t < tick.len()
        invariant
            t <= tick.len(),
            bodies@ == velocity_applied(old(bodies)@, t as nat),
        decreases tick.len() - t,
    {
        let ghost before = bodies@;
        let mut i: usize = 0;
        while i < bodies.len()
            invariant
                i <= bodies.len(),
                bodies@.len() == before.len(),
                forall|j: int| 0 <= j < i ==> bodies@[j] == velocity_on(#[trigger] before[j]),
                forall|j: int| i <= j < bodies@.len() ==> bodies@[j] == before[j],
            decreases bodies.len() - i,
        {
            let b = bodies[i];
            match (b.velocity, b.translation) {
                (Some(v), Some(at)) => {
                    bodies.set(
                        i,
                        Body {
                            entity: b.entity,
                            velocity: b.velocity,
                            gravity: b.gravity,
                            translation: Some(at.saturating_add(v.0)),
                        },
                    );
                },
                _ => {},
            }
            i = i + 1;
        }
        assert(bodies@ =~= before.map_values(|b: Body| velocity_on(b)));
        t = t + 1;
    }
}


/// All bodies after one tick: gravity first, then the impulses, then
/// integration.
pub open spec fn tick_applied(bodies: Seq<Body>, impulses: Seq<Impulse>) -> Seq<Body> {
    velocity_applied(impulses_applied(gravity_applied(bodies, 1), impulses), 1)
}

/// One scheduling cycle of the integrator. The elapsed time goes into the
/// accumulator; where that fires a tick, the three stages run in their fixed
/// order (gravity, impulses, integration) and the impulse queue is emptied.
/// Without a tick the bodies stay as they are and the queue keeps its
/// impulses for the next tick.
pub fn physics_step(
    clock: &mut PhysicsTimer,
    ms_since_last_call: u128,
    impulses: &mut Vec<Impulse>,
    bodies: &mut Vec<Body>,
) -> (on_tick: Option<PhysicsTick>)
    requires
        old(clock)@ + ms_since_last_call <= u128::MAX,
    ensures
        on_tick.is_some() == fires(old(clock)@ + ms_since_last_call as nat),
        final(clock)@ == carried(old(clock)@ + ms_since_last_call as nat),
        on_tick.is_some() ==> final(bodies)@ == tick_applied(old(bodies)@, old(impulses)@)
            && final(impulses)@.len() == 0,
        on_tick.is_none() ==> final(bodies)@ == old(bodies)@ && final(impulses)@ == old(
            impulses,
        )@,
{
    let on_tick = physics_clock(clock, ms_since_last_call);
    match on_tick {
        Some(tick) => {
            let mut ticks: Vec<PhysicsTick> = Vec::new();
            ticks.push(tick);
            apply_gravity(&ticks, bodies);
            sum_impulses(impulses, bodies);
            impulses.clear();
            apply_velocity(&ticks, bodies);
        },
        None => {},
    }
    on_tick
}

/// An absolute impulse that reaches its target sets the target's velocity to
/// the impulse vector, whatever the velocity was before; no other body
/// changes, and the impulses queued behind it have no effect.
pub proof fn lemma_absolute_impulse_sets_velocity(
    bodies: Seq<Body>,
    impulse: Impulse,
    rest: Seq<Impulse>,
    i: int,
)
    requires
        impulse.absolute,
        target_index(bodies, impulse.target) == Some(i),
    ensures
        0 <= i < bodies.len(),
        impulses_applied(bodies, seq![impulse] + rest) == bodies.update(
            i,
            Body { velocity: Some(Velocity(impulse.amount)), ..bodies[i] },
        ),
        impulses_applied(bodies, seq![impulse] + rest)[i].velocity == Some(
            Velocity(impulse.amount),
        ),
{
    let c = choose|c: int| is_target_index(bodies, impulse.target, c);
    assert(is_target_index(bodies, impulse.target, c));
    assert((seq![impulse] + rest)[0] == impulse);
}

/// An additive impulse that reaches its target adds the impulse vector to the
/// target's velocity, component by component where the sums fit the component
/// type; no other body changes.
pub proof fn lemma_additive_impulse_adds(bodies: Seq<Body>, impulse: Impulse, i: int, v: Vec3)
    requires
        !impulse.absolute,
        target_index(bodies, impulse.target) == Some(i),
        bodies[i].velocity == Some(Velocity(v)),
        v.sum_fits(impulse.amount),
    ensures
        0 <= i < bodies.len(),
        impulses_applied(bodies, seq![impulse]) == bodies.update(
            i,
            Body {
                velocity: Some(
                    Velocity(
                        Vec3 {
                            x: (v.x + impulse.amount.x) as i64,
                            y: (v.y + impulse.amount.y) as i64,
                            z: (v.z + impulse.amount.z) as i64,
                        },
                    ),
                ),
                ..bodies[i]
            },
        ),
{
    let c = choose|c: int| is_target_index(bodies, impulse.target, c);
    assert(is_target_index(bodies, impulse.target, c));
    let one = seq![impulse];
    assert(one[0] == impulse);
    assert(one.drop_first().len() == 0);
    let hit = bodies.update(i, impulse_on(bodies[i], impulse));
    assert(impulses_applied(hit, one.drop_first()) == hit);
}

} // verus!
