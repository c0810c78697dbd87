//! Local input history, replay of unacknowledged inputs, and ownership classification.
use crate::interpolation::{Interpolate, SnapshotBuffer, MICROS_PER_SECOND};
use crate::NetworkOwner;
use vstd::prelude::*;

verus! {

/// How an input event changes a value it is applied to.
pub trait Predict<E, T>: Interpolate {
    /// The value that applying `event` over `delta_time` microseconds, with the
    /// read-only `context`, makes of `self`.
    spec fn applied(self, event: E, delta_time: u64, context: T) -> Self;

    /// Applies `event` to `self` over `delta_time` microseconds.
    fn apply_event(&mut self, event: &E, delta_time: u64, context: &T)
        ensures
            *final(self) == old(self).applied(*event, delta_time, *context),
    ;
}

/// How far a speed of `velocity` units per second carries in `delta_time`
/// microseconds, rounded towards zero.
pub open spec fn displacement(velocity: int, delta_time: int) -> int {
    if velocity >= 0 {
        velocity * delta_time / (MICROS_PER_SECOND as int)
    } else {
        -((-velocity) * delta_time / (MICROS_PER_SECOND as int))
    }
}

/// `x` held to the range of `i64`.
pub open spec fn saturate_i64(x: int) -> i64 {
    if x > i64::MAX {
        i64::MAX
    } else if x < i64::MIN {
        i64::MIN
    } else {
        x as i64
    }
}

/// A coordinate moved by a velocity event, given in units per second; the
/// coordinate stops at the ends of the `i64` range.
impl<T> Predict<i64, T> for i64 {
    open spec fn applied(self, event: i64, delta_time: u64, context: T) -> i64 {
        saturate_i64(self + displacement(event as int, delta_time as int))
    }

    fn apply_event(&mut self, event: &i64, delta_time: u64, context: &T) {
        let velocity = *event;
        let speed: u128 = if velocity >= 0 {
            velocity as u128
        } else {
            (-(velocity as i128)) as u128
        };
        proof {
            assert(speed * delta_time <= 0x8000_0000_0000_0000u128 * 0xffff_ffff_ffff_ffffu128)
                by (nonlinear_arith)
                requires speed <= 0x8000_0000_0000_0000u128, delta_time <= 0xffff_ffff_ffff_ffffu128;
            vstd::arithmetic::div_mod::lemma_div_is_ordered(
                speed * delta_time,
                0x8000_0000_0000_0000u128 * 0xffff_ffff_ffff_ffffu128,
                MICROS_PER_SECOND as int,
            );
            assert(0 <= speed * delta_time) by (nonlinear_arith)
                requires 0 <= speed, 0 <= delta_time;
        }
        let step = speed * (delta_time as u128) / (MICROS_PER_SECOND as u128);
        let moved: i128 = if velocity >= 0 {
            *self as i128 + step as i128
        } else {
            *self as i128 - step as i128
        };
        *self = if moved > i64::MAX as i128 {
            i64::MAX
        } else if moved < i64::MIN as i128 {
            i64::MIN
        } else {
            moved as i64
        };
    }
}

impl<EA, EB, T, A: Predict<EA, T>, B: Predict<EB, T>> Predict<(EA, EB), T> for (A, B) {
    open spec fn applied(self, event: (EA, EB), delta_time: u64, context: T) -> (A, B) {
        (
            self.0.applied(event.0, delta_time, context),
            self.1.applied(event.1, delta_time, context),
        )
    }

    fn apply_event(&mut self, event: &(EA, EB), delta_time: u64, context: &T) {
        self.0.apply_event(&event.0, delta_time, context);
        self.1.apply_event(&event.1, delta_time, context);
    }
}

impl<EA, EB, EC, T, A: Predict<EA, T>, B: Predict<EB, T>, C: Predict<EC, T>> Predict<
    (EA, EB, EC),
    T,
> for (A, B, C) {
    open spec fn applied(self, event: (EA, EB, EC), delta_time: u64, context: T) -> (A, B, C) {
        (
            self.0.applied(event.0, delta_time, context),
            self.1.applied(event.1, delta_time, context),
            self.2.applied(event.2, delta_time, context),
        )
    }

    fn apply_event(&mut self, event: &(EA, EB, EC), delta_time: u64, context: &T) {
        self.0.apply_event(&event.0, delta_time, context);
        self.1.apply_event(&event.1, delta_time, context);
        self.2.apply_event(&event.2, delta_time, context);
    }
}

/// A captured input event, stamped with a tick and the frame time it applies over.
pub struct EventSnapshot<E> {
    pub value: E,
    pub tick: u32,
    /// Microseconds that the event applies over.
    pub delta_time: u64,
}

/// The local input events of one type, in the order they were captured.
pub struct PredictedEventHistory<E>(pub Vec<EventSnapshot<E>>);

/// Marks an entity whose owning client predicts it.
pub struct OwnerPredicted;

/// Marks an entity that this client owns and predicts.
pub struct Predicted;

/// The number of leading entries of `h` whose tick is below `watermark`,
/// up to the first entry at or above it.
pub open spec fn stale_prefix_len<E>(h: Seq<EventSnapshot<E>>, watermark: u32) -> nat
    decreases h.len(),
{
    if h.len() == 0 {
        0
    } else if h[0].tick >= watermark {
        0
    } else {
        1 + stale_prefix_len(h.drop_first(), watermark)
    }
}

/// The entries of `h` kept once the server has acknowledged every tick below `watermark`.
pub open spec fn pending<E>(h: Seq<EventSnapshot<E>>, watermark: u32) -> Seq<EventSnapshot<E>> {
    h.skip(stale_prefix_len(h, watermark) as int)
}

/// Whether the ticks of `h` never decrease.
pub open spec fn ticks_ordered<E>(h: Seq<EventSnapshot<E>>) -> bool {
    forall|i: int, j: int| 0 <= i <= j < h.len() ==> h[i].tick <= h[j].tick
}

/// `stale_prefix_len` is the index of the first entry at or above the watermark.
proof fn lemma_stale_prefix<E>(h: Seq<EventSnapshot<E>>, watermark: u32)
    ensures
        stale_prefix_len(h, watermark) <= h.len(),
        forall|j: int| 0 <= j < stale_prefix_len(h, watermark) ==> h[j].tick < watermark,
        stale_prefix_len(h, watermark) < h.len() ==> h[stale_prefix_len(h, watermark) as int].tick
            >= watermark,
    decreases h.len(),
{
    if h.len() > 0 && h[0].tick < watermark {
        lemma_stale_prefix(h.drop_first(), watermark);
        assert forall|j: int| 0 <= j < stale_prefix_len(h, watermark) implies h[j].tick
            < watermark by {
            if j > 0 {
                assert(h[j] == h.drop_first()[j - 1]);
            }
        }
    }
}

/// A prefix that stops at the first entry at or above the watermark is the stale prefix.
proof fn lemma_stale_prefix_unique<E>(h: Seq<EventSnapshot<E>>, watermark: u32, k: int)
    requires
        0 <= k <= h.len(),
        forall|j: int| 0 <= j < k ==> h[j].tick < watermark,
        k < h.len() ==> h[k].tick >= watermark,
    ensures
        stale_prefix_len(h, watermark) == k,
{
    lemma_stale_prefix(h, watermark);
    let s = stale_prefix_len(h, watermark) as int;
    if s < k {
        assert(h[s].tick < watermark);
    }
    if k < s {
        assert(h[k].tick < watermark);
    }
}

/// Once pruned, a history has nothing more to prune at the same watermark.
pub proof fn lemma_pending_idempotent<E>(h: Seq<EventSnapshot<E>>, watermark: u32)
    ensures
        pending(pending(h, watermark), watermark) == pending(h, watermark),
{
    lemma_stale_prefix(h, watermark);
    let p = pending(h, watermark);
    let s = stale_prefix_len(h, watermark) as int;
    if p.len() > 0 {
        assert(p[0] == h[s]);
    }
    lemma_stale_prefix_unique(p, watermark, 0);
    assert(p.skip(0) =~= p);
}

/// Pruning at a watermark drops only entries below it; over a history whose
/// ticks never decrease, every entry that stays is at or above it.
pub proof fn lemma_pending_split<E>(h: Seq<EventSnapshot<E>>, watermark: u32)
    ensures
        h =~= h.take(stale_prefix_len(h, watermark) as int) + pending(h, watermark),
        forall|j: int|
            0 <= j < stale_prefix_len(h, watermark) ==> #[trigger] h[j].tick < watermark,
        ticks_ordered(h) ==> forall|j: int|
            0 <= j < pending(h, watermark).len() ==> #[trigger] pending(h, watermark)[j].tick
                >= watermark,
{
    lemma_stale_prefix(h, watermark);
    let s = stale_prefix_len(h, watermark) as int;
    if ticks_ordered(h) {
        assert forall|j: int| 0 <= j < pending(h, watermark).len() implies #[trigger] pending(
            h,
            watermark,
        )[j].tick >= watermark by {
            assert(pending(h, watermark)[j] == h[s + j]);
            assert(h[s].tick <= h[s + j].tick);
        }
    }
}

/// The value reached by applying each of `events`, in order, to `start`.
pub open spec fn replay<E, T, C: Predict<E, T>>(
    start: C,
    events: Seq<EventSnapshot<E>>,
    context: T,
) -> C
    decreases events.len(),
{
    if events.len() == 0 {
        start
    } else {
        replay(start, events.drop_last(), context).applied(
            events.last().value,
            events.last().delta_time,
            context,
        )
    }
}

/// The predicted value: the inputs of `history` that the server has not yet
/// acknowledged at `watermark`, replayed on top of the authoritative `snapshot`.
pub open spec fn reconciled<E, T, C: Predict<E, T>>(
    snapshot: C,
    history: Seq<EventSnapshot<E>>,
    watermark: u32,
    context: T,
) -> C {
    replay(snapshot, pending(history, watermark), context)
}

/// Reconciling is repeatable: recomputing from the same snapshot over the
/// history that an earlier reconciliation left gives the same value again.
pub proof fn lemma_reconcile_repeatable<E, T, C: Predict<E, T>>(
    snapshot: C,
    history: Seq<EventSnapshot<E>>,
    watermark: u32,
    context: T,
)
    ensures
        reconciled(snapshot, pending(history, watermark), watermark, context) == reconciled(
            snapshot,
            history,
            watermark,
            context,
        ),
{
    lemma_pending_idempotent(history, watermark);
}

/// `events` stamped with `tick` and `delta_time`, as the history records them.
pub open spec fn stamped<E>(events: Seq<E>, tick: u32, delta_time: u64) -> Seq<EventSnapshot<E>> {
    events.map_values(|e: E| EventSnapshot { value: e, tick, delta_time })
}

impl<E> PredictedEventHistory<E> {
    pub fn new() -> (r: PredictedEventHistory<E>)
        ensures
            r.0@.len() == 0,
    {
        PredictedEventHistory(Vec::new())
    }

    /// Appends `value`, stamped with `tick` and `delta_time`, after every recorded event.
    pub fn insert(&mut self, value: E, tick: u32, delta_time: u64) -> (r: &mut Self)
        ensures
            r.0@ == old(self).0@.push(EventSnapshot { value, tick, delta_time }),
            *final(self) == *final(r),
    {
        self.0.push(EventSnapshot { value, tick, delta_time });
        self
    }

    /// Drops the events that come before the first one stamped at or after
    /// `latest_server_snapshot_tick`; drops them all where there is none.
    pub fn remove_stale(&mut self, latest_server_snapshot_tick: u32) -> (r: &mut Self)
        ensures
            r.0@ == pending(old(self).0@, latest_server_snapshot_tick),
            *final(self) == *final(r),
            forall|j: int|
                0 <= j < old(self).0@.len() - r.0@.len() ==> #[trigger] old(self).0@[j].tick
                    < latest_server_snapshot_tick,
            ticks_ordered(old(self).0@) ==> forall|j: int|
                0 <= j < r.0@.len() ==> #[trigger] r.0@[j].tick >= latest_server_snapshot_tick,
    {
        let n = self.0.len();
        let mut k: usize = 0;
        while k < n && self.0[k].tick < latest_server_snapshot_tick
            invariant
                n == self.0@.len(),
                self.0@ == old(self).0@,
                0 <= k <= n,
                forall|j: int| 0 <= j < k ==> self.0@[j].tick < latest_server_snapshot_tick,
            decreases n - k,
        {
            k = k + 1;
        }
        proof {
            lemma_stale_prefix_unique(self.0@, latest_server_snapshot_tick, k as int);
            lemma_pending_split(self.0@, latest_server_snapshot_tick);
        }
        let kept = self.0.split_off(k);
        self.0 = kept;
        self
    }

    /// Prunes the acknowledged events, as `remove_stale` does, and returns
    /// those that remain, in the order they were captured.
    pub fn predict(&mut self, latest_server_snapshot_tick: u32) -> (r: &[EventSnapshot<E>])
        ensures
            final(self).0@ == pending(old(self).0@, latest_server_snapshot_tick),
            r@ == final(self).0@,
    {
        self.remove_stale(latest_server_snapshot_tick);
        self.0.as_slice()
    }
}

/// Advances the buffer clock of a predicted entity by `delta_time` microseconds.
pub fn predicted_snapshot_system<T>(snapshot_buffer: &mut SnapshotBuffer<T>, delta_time: u64)
    ensures
        final(snapshot_buffer).buffer@ == old(snapshot_buffer).buffer@,
        final(snapshot_buffer).latest_snapshot_tick == old(snapshot_buffer).latest_snapshot_tick,
        final(snapshot_buffer).time_since_last_snapshot
            == old(snapshot_buffer).time_since_last_snapshot.saturating_add(delta_time),
{
    snapshot_buffer.tick(delta_time);
}

/// An input event as the server receives it, with the client that sent it.
pub struct ClientEvent<E> {
    pub client_id: u64,
    pub event: E,
}

/// The value reached by applying to `start`, in order, the events of `events`
/// that were sent by client `owner`.
pub open spec fn applied_from<E, T, C: Predict<E, T>>(
    start: C,
    events: Seq<ClientEvent<E>>,
    owner: u64,
    delta_time: u64,
    context: T,
) -> C
    decreases events.len(),
{
    if events.len() == 0 {
        start
    } else {
        let before = applied_from(start, events.drop_last(), owner, delta_time, context);
        if events.last().client_id == owner {
            before.applied(events.last().event, delta_time, context)
        } else {
            before
        }
    }
}

/// The server's authoritative update of one entity: every event received this
/// frame from the client that owns the entity is applied, in order, over
/// `delta_time` microseconds.
pub fn server_update_system<E, T, C: Predict<E, T>>(
    events: &Vec<ClientEvent<E>>,
    delta_time: u64,
    owner: &NetworkOwner,
    component: &mut C,
    context: &T,
)
    ensures
        *final(component) == applied_from(*old(component), events@, owner.0, delta_time, *context),
{
    let n = events.len();
    let mut i: usize = 0;
    while i < n
        invariant
            n == events@.len(),
            0 <= i <= n,
            *component == applied_from(*old(component), events@.take(i as int), owner.0, delta_time, *context),
        decreases n - i,
    {
        let received = &events[i];
        proof {
            assert(events@.take(i + 1).drop_last() =~= events@.take(i as int));
        }
        if received.client_id == owner.0 {
            component.apply_event(&received.event, delta_time, context);
        }
        i = i + 1;
    }
    proof {
        assert(events@.take(n as int) =~= events@);
    }
}

/// Replays `pending_events`, in order, on top of `start`.
fn replay_events<E, T, C: Predict<E, T>>(
    start: C,
    pending_events: &[EventSnapshot<E>],
    context: &T,
) -> (r: C)
    ensures
        r == replay(start, pending_events@, *context),
{
    let mut corrected = start;
    let n = pending_events.len();
    let mut i: usize = 0;
    while i < n
        invariant
            n == pending_events@.len(),
            0 <= i <= n,
            corrected == replay(start, pending_events@.take(i as int), *context),
        decreases n - i,
    {
        let event_snapshot = &pending_events[i];
        proof {
            assert(pending_events@.take(i + 1).drop_last() =~= pending_events@.take(i as int));
        }
        corrected.apply_event(&event_snapshot.value, event_snapshot.delta_time, context);
        i = i + 1;
    }
    proof {
        assert(pending_events@.take(n as int) =~= pending_events@);
    }
    corrected
}

/// The client's prediction step for one entity that it owns.
///
/// The events captured since the last step are appended to the history,
/// stamped with `confirmed_tick` (the last tick the server confirmed for this
/// entity) and `delta_time`. With a snapshot at hand, the history is pruned at
/// the snapshot's tick and `component` becomes the newest snapshot with the
/// remaining events replayed on top; without one, `component` keeps its value.
pub fn predicted_update_system<E, T, C: Predict<E, T> + Copy>(
    component: &mut C,
    snapshot_buffer: &SnapshotBuffer<C>,
    confirmed_tick: u32,
    context: &T,
    local_events: Vec<E>,
    event_history: &mut PredictedEventHistory<E>,
    delta_time: u64,
)
    requires
        snapshot_buffer.wf(),
    ensures
        ({
            let recorded = old(event_history).0@ + stamped(local_events@, confirmed_tick, delta_time);
            if snapshot_buffer.buffer@.len() == 0 {
                &&& final(event_history).0@ == recorded
                &&& *final(component) == *old(component)
            } else {
                &&& final(event_history).0@ == pending(recorded, snapshot_buffer.latest_snapshot_tick)
                &&& *final(component) == reconciled(
                    snapshot_buffer.buffer@.last().value,
                    recorded,
                    snapshot_buffer.latest_snapshot_tick,
                    *context,
                )
            }
        }),
{
    let ghost captured = local_events@;
    let mut local_events = local_events;
    let total = local_events.len();
    let mut taken: usize = 0;
    while local_events.len() > 0
        invariant
            taken + local_events@.len() == captured.len(),
            captured.len() == total,
            local_events@ == captured.skip(taken as int),
            event_history.0@ == old(event_history).0@ + stamped(captured.take(taken as int), confirmed_tick, delta_time),
        decreases local_events@.len(),
    {
        let event = local_events.remove(0);
        proof {
            assert(event == captured[taken as int]);
            assert(captured.take(taken + 1) =~= captured.take(taken as int).push(event));
            assert(local_events@ =~= captured.skip(taken + 1));
        }
        event_history.insert(event, confirmed_tick, delta_time);
        taken = taken + 1;
        proof {
            assert(stamped(captured.take(taken as int), confirmed_tick, delta_time) =~= stamped(
                captured.take(taken - 1),
                confirmed_tick,
                delta_time,
            ).push(EventSnapshot { value: event, tick: confirmed_tick, delta_time }));
            assert(event_history.0@ =~= old(event_history).0@ + stamped(captured.take(taken as int), confirmed_tick, delta_time));
        }
    }
    proof {
        assert(captured.take(taken as int) =~= captured);
    }
    if snapshot_buffer.buffer.len() == 0 {
        return;
    }
    let latest = snapshot_buffer.latest_snapshot();
    let pending_events = event_history.predict(snapshot_buffer.latest_snapshot_tick());
    *component = replay_events(latest, pending_events, context);
}

/// Whether an entity is predicted by this client or interpolated from snapshots.
#[derive(PartialEq, Eq, Structural, Debug, Clone, Copy)]
pub enum OwnershipTag {
    Predicted,
    Interpolated,
}

/// An entity is predicted exactly when the local client owns it.
pub open spec fn classify(owner_id: u64, local_client_id: u64) -> OwnershipTag {
    if owner_id == local_client_id {
        OwnershipTag::Predicted
    } else {
        OwnershipTag::Interpolated
    }
}

/// Tags an entity once its owner is known: `Predicted` where the local client
/// owns it, else `Interpolated`. A tag once given is never reconsidered.
pub fn owner_prediction_init_system(
    tag: &mut Option<OwnershipTag>,
    owner: &NetworkOwner,
    client_id: u64,
)
    ensures
        *old(tag) is Some ==> *final(tag) == *old(tag),
        *old(tag) is None ==> *final(tag) == Some(classify(owner.0, client_id)),
{
    if tag.is_none() {
        if owner.0 == client_id {
            *tag = Some(OwnershipTag::Predicted);
        } else {
            *tag = Some(OwnershipTag::Interpolated);
        }
    }
}

} // verus!
