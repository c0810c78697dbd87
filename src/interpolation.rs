//! Blending between values and the per-entity history of authoritative snapshots.
use vstd::arithmetic::div_mod::{lemma_div_is_ordered, lemma_div_by_multiple};
use vstd::arithmetic::mul::lemma_mul_inequality;
use vstd::prelude::*;

verus! {

/// The fixed-point scale of a blend position: `t == BLEND_ONE` stands for 1.
pub const BLEND_ONE: u64 = 1_000_000;

/// Microseconds in one second; every duration in this crate is counted in microseconds.
pub const MICROS_PER_SECOND: u64 = 1_000_000;

/// A value that can be blended with another value of its type.
pub trait Interpolate: Sized {
    /// The value at position `t / BLEND_ONE` on the way from `self` to `other`.
    spec fn blend(self, other: Self, t: int) -> Self;

    /// Computes the value at position `t / BLEND_ONE` between `self` and `other`.
    /// Callers clamp `t` into `0..=BLEND_ONE`.
    fn interpolate(&self, other: Self, t: u64) -> (r: Self)
        requires
            t <= BLEND_ONE,
        ensures
            r == self.blend(other, t as int),
    ;

    /// Blending two equal values gives that value back, and the two ends of the
    /// window give exactly the two endpoints.
    proof fn lemma_blend_exact(a: Self, b: Self, t: int)
        requires
            0 <= t <= BLEND_ONE,
        ensures
            a.blend(a, t) == a,
            a.blend(b, 0) == a,
            a.blend(b, BLEND_ONE as int) == b,
    ;
}

/// Linear blend of two integers, rounded towards `a`.
pub open spec fn lerp(a: int, b: int, t: int) -> int {
    if a <= b {
        a + (b - a) * t / (BLEND_ONE as int)
    } else {
        a - (a - b) * t / (BLEND_ONE as int)
    }
}

/// A blend step never overshoots the distance between the endpoints.
proof fn lemma_step_bounded(d: int, t: int)
    requires
        0 <= d,
        0 <= t <= BLEND_ONE,
    ensures
        0 <= d * t / (BLEND_ONE as int) <= d,
        t == 0 ==> d * t / (BLEND_ONE as int) == 0,
        t == BLEND_ONE ==> d * t / (BLEND_ONE as int) == d,
{
    let one = BLEND_ONE as int;
    lemma_mul_inequality(t, one, d);
    assert(0 <= d * t) by (nonlinear_arith)
        requires 0 <= d, 0 <= t;
    assert(t * d == d * t) by (nonlinear_arith);
    assert(one * d == d * one) by (nonlinear_arith);
    lemma_div_is_ordered(0, d * t, one);
    lemma_div_is_ordered(d * t, d * one, one);
    lemma_div_by_multiple(d, one);
}

/// The blend of two integers lies between them.
proof fn lemma_lerp_between(a: int, b: int, t: int)
    requires
        0 <= t <= BLEND_ONE,
    ensures
        a <= b ==> a <= lerp(a, b, t) <= b,
        b < a ==> b <= lerp(a, b, t) <= a,
        lerp(a, a, t) == a,
        lerp(a, b, 0) == a,
        lerp(a, b, BLEND_ONE as int) == b,
{
    lemma_step_bounded(0, t);
    if a <= b {
        lemma_step_bounded(b - a, t);
        lemma_step_bounded(b - a, 0);
        lemma_step_bounded(b - a, BLEND_ONE as int);
    } else {
        lemma_step_bounded(a - b, t);
        lemma_step_bounded(a - b, 0);
        lemma_step_bounded(a - b, BLEND_ONE as int);
    }
}

impl Interpolate for i64 {
    open spec fn blend(self, other: i64, t: int) -> i64 {
        lerp(self as int, other as int, t) as i64
    }

    fn interpolate(&self, other: i64, t: u64) -> (r: i64) {
        proof {
            lemma_lerp_between(*self as int, other as int, t as int);
        }
        let a = *self;
        if a <= other {
            let span = (other as i128 - a as i128) as u128;
            proof {
                lemma_step_bounded(span as int, t as int);
                assert(span * t <= span * BLEND_ONE) by (nonlinear_arith)
                    requires t <= BLEND_ONE, 0 <= span;
                assert(span * BLEND_ONE <= 0x1_0000_0000_0000_0000u128 * BLEND_ONE) by (nonlinear_arith)
                    requires span <= 0x1_0000_0000_0000_0000u128;
            }
            let step = span * (t as u128) / (BLEND_ONE as u128);
            (a as i128 + step as i128) as i64
        } else {
            let span = (a as i128 - other as i128) as u128;
            proof {
                lemma_step_bounded(span as int, t as int);
                assert(span * t <= span * BLEND_ONE) by (nonlinear_arith)
                    requires t <= BLEND_ONE, 0 <= span;
                assert(span * BLEND_ONE <= 0x1_0000_0000_0000_0000u128 * BLEND_ONE) by (nonlinear_arith)
                    requires span <= 0x1_0000_0000_0000_0000u128;
            }
            let step = span * (t as u128) / (BLEND_ONE as u128);
            (a as i128 - step as i128) as i64
        }
    }

    proof fn lemma_blend_exact(a: i64, b: i64, t: int) {
        lemma_lerp_between(a as int, b as int, t);
    }
}

impl<A: Interpolate, B: Interpolate> Interpolate for (A, B) {
    open spec fn blend(self, other: (A, B), t: int) -> (A, B) {
        (self.0.blend(other.0, t), self.1.blend(other.1, t))
    }

    fn interpolate(&self, other: (A, B), t: u64) -> (r: (A, B)) {
        let (o0, o1) = other;
        (self.0.interpolate(o0, t), self.1.interpolate(o1, t))
    }

    proof fn lemma_blend_exact(a: (A, B), b: (A, B), t: int) {
        A::lemma_blend_exact(a.0, b.0, t);
        B::lemma_blend_exact(a.1, b.1, t);
    }
}

impl<A: Interpolate, B: Interpolate, C: Interpolate> Interpolate for (A, B, C) {
    open spec fn blend(self, other: (A, B, C), t: int) -> (A, B, C) {
        (self.0.blend(other.0, t), self.1.blend(other.1, t), self.2.blend(other.2, t))
    }

    fn interpolate(&self, other: (A, B, C), t: u64) -> (r: (A, B, C)) {
        let (o0, o1, o2) = other;
        (self.0.interpolate(o0, t), self.1.interpolate(o1, t), self.2.interpolate(o2, t))
    }

    proof fn lemma_blend_exact(a: (A, B, C), b: (A, B, C), t: int) {
        A::lemma_blend_exact(a.0, b.0, t);
        B::lemma_blend_exact(a.1, b.1, t);
        C::lemma_blend_exact(a.2, b.2, t);
    }
}

/// Marks an entity whose values are rendered by blending between snapshots.
pub struct Interpolated;

/// An authoritative value paired with the server tick it was produced at.
pub struct Snapshot<T> {
    pub tick: u32,
    pub value: T,
}

/// The most recent authoritative snapshots of one value of one entity, oldest first.
pub struct SnapshotBuffer<T> {
    pub buffer: Vec<Snapshot<T>>,
    /// Microseconds elapsed since the newest snapshot was inserted.
    pub time_since_last_snapshot: u64,
    pub latest_snapshot_tick: u32,
}

/// How many snapshots a buffer keeps.
pub const SNAPSHOT_CAPACITY: usize = 2;

/// The snapshots kept after `snap` arrives at a buffer holding `s`:
/// the oldest one leaves once the buffer is full.
pub open spec fn window_push<T>(s: Seq<Snapshot<T>>, snap: Snapshot<T>) -> Seq<Snapshot<T>> {
    if s.len() >= SNAPSHOT_CAPACITY {
        s.drop_first().push(snap)
    } else {
        s.push(snap)
    }
}

/// The snapshots kept after each of `arrivals` arrives, in order, at a buffer holding `s`.
pub open spec fn window_push_all<T>(s: Seq<Snapshot<T>>, arrivals: Seq<Snapshot<T>>) -> Seq<Snapshot<T>>
    decreases arrivals.len(),
{
    if arrivals.len() == 0 {
        s
    } else {
        window_push(window_push_all(s, arrivals.drop_last()), arrivals.last())
    }
}

/// However many snapshots arrive, a buffer never holds more than two of them,
/// and after any arrival its newest entry is the one that arrived last.
pub proof fn lemma_window_bounded<T>(s: Seq<Snapshot<T>>, arrivals: Seq<Snapshot<T>>)
    requires
        s.len() <= SNAPSHOT_CAPACITY,
    ensures
        window_push_all(s, arrivals).len() <= SNAPSHOT_CAPACITY,
        arrivals.len() > 0 ==> window_push_all(s, arrivals).last() == arrivals.last(),
    decreases arrivals.len(),
{
    if arrivals.len() > 0 {
        lemma_window_bounded(s, arrivals.drop_last());
    }
}

impl<T> SnapshotBuffer<T> {
    /// At most two snapshots are kept, and the recorded latest tick is that of the newest one.
    pub open spec fn wf(&self) -> bool {
        &&& self.buffer.len() <= SNAPSHOT_CAPACITY
        &&& self.buffer.len() > 0 ==> self.latest_snapshot_tick == self.buffer@.last().tick
    }

    pub fn new() -> (r: Self)
        ensures
            r.wf(),
            r.buffer@.len() == 0,
            r.time_since_last_snapshot == 0,
            r.latest_snapshot_tick == 0,
    {
        SnapshotBuffer { buffer: Vec::new(), time_since_last_snapshot: 0, latest_snapshot_tick: 0 }
    }

    /// Records `element`, produced at server tick `tick`, as the newest snapshot.
    pub fn insert(&mut self, element: T, tick: u32)
        requires
            old(self).wf(),
        ensures
            final(self).wf(),
            final(self).buffer@ == window_push(old(self).buffer@, Snapshot { tick, value: element }),
            final(self).buffer@.len() <= SNAPSHOT_CAPACITY,
            final(self).buffer@.last() == (Snapshot { tick, value: element }),
            final(self).time_since_last_snapshot == 0,
            final(self).latest_snapshot_tick == tick,
    {
        if self.buffer.len() > 1 {
            self.buffer.remove(0);
        }
        self.buffer.push(Snapshot { tick, value: element });
        self.time_since_last_snapshot = 0;
        self.latest_snapshot_tick = tick;
        proof {
            assert(self.buffer@ =~= window_push(old(self).buffer@, Snapshot { tick, value: element }));
        }
    }

    pub fn latest_snapshot_tick(&self) -> (r: u32)
        ensures
            r == self.latest_snapshot_tick,
    {
        self.latest_snapshot_tick
    }

    /// Microseconds since the newest snapshot was inserted.
    pub fn age(&self) -> (r: u64)
        ensures
            r == self.time_since_last_snapshot,
    {
        self.time_since_last_snapshot
    }

    /// Lets `delta_time` microseconds pass; the count stops at `u64::MAX`.
    pub fn tick(&mut self, delta_time: u64)
        ensures
            final(self).buffer@ == old(self).buffer@,
            final(self).latest_snapshot_tick == old(self).latest_snapshot_tick,
            final(self).time_since_last_snapshot == old(self).time_since_last_snapshot.saturating_add(delta_time),
    {
        self.time_since_last_snapshot = self.time_since_last_snapshot.saturating_add(delta_time);
    }

    /// Computes `wf()`, for callers that build a buffer through its public fields.
    pub fn is_well_formed(&self) -> (r: bool)
        ensures
            r == self.wf(),
    {
        let n = self.buffer.len();
        n <= SNAPSHOT_CAPACITY && (n == 0 || self.latest_snapshot_tick == self.buffer[n - 1].tick)
    }
}

impl<T: Copy> SnapshotBuffer<T> {
    /// The newest stored value.
    pub fn latest_snapshot(&self) -> (r: T)
        requires
            self.buffer.len() > 0,
        ensures
            r == self.buffer@.last().value,
    {
        self.buffer[self.buffer.len() - 1].value
    }
}

/// Marks the values whose incoming snapshots are recorded in a buffer.
pub struct RecordSnapshotsMarker;

/// Interpolation settings shared by every entity.
pub struct SnapshotInterpolationConfig {
    /// The rate, in ticks per second, at which the server broadcasts at most.
    pub max_tick_rate: u16,
}

/// Whether the newest snapshot is too old to blend from: more than one server
/// tick (`1 / max_tick_rate` seconds) plus the current frame have passed since it came.
pub open spec fn is_stale(elapsed: u64, delta_time: u64, max_tick_rate: u16) -> bool {
    elapsed * max_tick_rate > MICROS_PER_SECOND + delta_time * max_tick_rate
}

/// How far through the current server tick the render is, as a blend position:
/// `elapsed / (1 / max_tick_rate)`, scaled by `BLEND_ONE` and clamped to `BLEND_ONE`.
pub open spec fn blend_factor(elapsed: u64, max_tick_rate: u16) -> int {
    let t = elapsed * max_tick_rate * BLEND_ONE / (MICROS_PER_SECOND as int);
    if t > BLEND_ONE {
        BLEND_ONE as int
    } else {
        t
    }
}

/// Computes `is_stale(elapsed, delta_time, max_tick_rate)`.
pub fn snapshot_is_stale(elapsed: u64, delta_time: u64, max_tick_rate: u16) -> (r: bool)
    ensures
        r == is_stale(elapsed, delta_time, max_tick_rate),
{
    let rate = max_tick_rate as u128;
    proof {
        assert(elapsed * rate <= 0xffff_ffff_ffff_ffffu128 * 0xffffu128) by (nonlinear_arith)
            requires elapsed <= 0xffff_ffff_ffff_ffffu128, rate <= 0xffffu128;
        assert(delta_time * rate <= 0xffff_ffff_ffff_ffffu128 * 0xffffu128) by (nonlinear_arith)
            requires delta_time <= 0xffff_ffff_ffff_ffffu128, rate <= 0xffffu128;
    }
    elapsed as u128 * rate > MICROS_PER_SECOND as u128 + delta_time as u128 * rate
}

/// Computes `blend_factor(elapsed, max_tick_rate)`.
pub fn snapshot_blend_factor(elapsed: u64, max_tick_rate: u16) -> (r: u64)
    ensures
        r == blend_factor(elapsed, max_tick_rate),
        r <= BLEND_ONE,
{
    let rate = max_tick_rate as u128;
    proof {
        assert(elapsed * rate * BLEND_ONE <= 0xffff_ffff_ffff_ffffu128 * 0xffffu128 * 1_000_000u128)
            by (nonlinear_arith)
            requires elapsed <= 0xffff_ffff_ffff_ffffu128, rate <= 0xffffu128, BLEND_ONE == 1_000_000;
    }
    let t = elapsed as u128 * rate * (BLEND_ONE as u128) / (MICROS_PER_SECOND as u128);
    if t > BLEND_ONE as u128 {
        BLEND_ONE
    } else {
        t as u64
    }
}

/// One interpolation step for one remote entity: with two snapshots at hand
/// and the newest one not stale, `component` becomes the blend between them at
/// the current position in the server tick, and the buffer's clock advances by
/// `delta_time`; otherwise nothing changes.
pub fn snapshot_interpolation_system<T: Interpolate + Copy>(
    component: &mut T,
    snapshot_buffer: &mut SnapshotBuffer<T>,
    delta_time: u64,
    config: &SnapshotInterpolationConfig,
)
    requires
        old(snapshot_buffer).wf(),
    ensures
        final(snapshot_buffer).wf(),
        ({
            let b = *old(snapshot_buffer);
            let elapsed = b.time_since_last_snapshot;
            if b.buffer@.len() < 2 || is_stale(elapsed, delta_time, config.max_tick_rate) {
                &&& *final(component) == *old(component)
                &&& *final(snapshot_buffer) == b
            } else {
                &&& *final(component) == b.buffer@[0].value.blend(
                    b.buffer@[1].value,
                    blend_factor(elapsed, config.max_tick_rate),
                )
                &&& final(snapshot_buffer).buffer@ == b.buffer@
                &&& final(snapshot_buffer).latest_snapshot_tick == b.latest_snapshot_tick
                &&& final(snapshot_buffer).time_since_last_snapshot == elapsed.saturating_add(delta_time)
            }
        }),
{
    if snapshot_buffer.buffer.len() < 2 {
        return;
    }
    let elapsed = snapshot_buffer.time_since_last_snapshot;
    if snapshot_is_stale(elapsed, delta_time, config.max_tick_rate) {
        return;
    }
    let t = snapshot_blend_factor(elapsed, config.max_tick_rate);
    let newer = snapshot_buffer.buffer[1].value;
    *component = snapshot_buffer.buffer[0].value.interpolate(newer, t);
    snapshot_buffer.tick(delta_time);
}

/// Records an incoming authoritative `value` for server tick `tick`: into the
/// entity's buffer where it has one, else into a fresh buffer that starts with it.
pub fn write_snap_component<C>(buffer: &mut Option<SnapshotBuffer<C>>, value: C, tick: u32)
    requires
        *old(buffer) is Some ==> old(buffer).unwrap().wf(),
    ensures
        *final(buffer) is Some,
        final(buffer).unwrap().wf(),
        final(buffer).unwrap().buffer@ == window_push(
            if *old(buffer) is Some { old(buffer).unwrap().buffer@ } else { Seq::empty() },
            Snapshot { tick, value },
        ),
        final(buffer).unwrap().time_since_last_snapshot == 0,
        final(buffer).unwrap().latest_snapshot_tick == tick,
{
    match buffer {
        Some(existing) => {
            existing.insert(value, tick);
        },
        None => {
            let mut fresh = SnapshotBuffer::new();
            fresh.insert(value, tick);
            *buffer = Some(fresh);
        },
    }
}

} // verus!
