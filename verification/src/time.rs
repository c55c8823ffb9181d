//! Points in time and spans of time, in whole nanoseconds.
use vstd::prelude::*;

verus! {

/// A reading of a monotonic clock: nanoseconds since a fixed origin.
#[derive(Clone, Copy, Debug, PartialEq, Eq, PartialOrd, Ord, Hash, Structural)]
pub struct Instant {
    pub nanos: u128,
}

/// A span of time in nanoseconds.
#[derive(Clone, Copy, Debug, PartialEq, Eq, PartialOrd, Ord, Hash, Structural)]
pub struct Duration {
    pub nanos: u128,
}

impl Duration {
    /// The span of `secs` seconds.
    pub fn from_secs(secs: u64) -> (d: Duration)
        ensures
            d.nanos == secs * 1_000_000_000,
    {
        Duration { nanos: secs as u128 * 1_000_000_000 }
    }
}

impl Instant {
    /// Whether the clock can represent the point that lies `d` after this one.
    pub open spec fn can_add(self, d: Duration) -> bool {
        self.nanos + d.nanos <= u128::MAX
    }

    /// The point that lies `d` after this one.
    pub open spec fn plus(self, d: Duration) -> Instant {
        Instant { nanos: (self.nanos + d.nanos) as u128 }
    }

    /// The point that lies `d` after this one.
    pub fn after(self, d: Duration) -> (t: Instant)
        requires
            self.can_add(d),
        ensures
            t == self.plus(d),
    {
        Instant { nanos: self.nanos + d.nanos }
    }
}

/// Whether `r` is the earliest of the given points; it is absent where there are
/// none.
pub open spec fn is_earliest(r: Option<Instant>, times: Set<Instant>) -> bool {
    match r {
        Some(t) => {
            &&& times.contains(t)
            &&& forall|u: Instant| #[trigger] times.contains(u) ==> t.nanos <= u.nanos
        },
        None => forall|u: Instant| !#[trigger] times.contains(u),
    }
}

/// Whether `when` is present and no later than `now`.
pub open spec fn reached(when: Option<Instant>, now: Instant) -> bool {
    when matches Some(t) && t.nanos <= now.nanos
}

/// Whether `when` is present and no later than `now`.
pub fn is_reached(when: Option<Instant>, now: Instant) -> (r: bool)
    ensures
        r == reached(when, now),
{
    match when {
        Some(t) => t.nanos <= now.nanos,
        None => false,
    }
}

/// The earlier of two optional points: the one that is present, where only one
/// is.
pub open spec fn earlier_of(a: Option<Instant>, b: Option<Instant>) -> Option<Instant> {
    match (a, b) {
        (Some(x), Some(y)) => if y.nanos < x.nanos {
            b
        } else {
            a
        },
        (Some(_), None) => a,
        (None, _) => b,
    }
}

/// The earlier of two optional points: the one that is present, where only one
/// is.
pub fn earlier(a: Option<Instant>, b: Option<Instant>) -> (r: Option<Instant>)
    ensures
        r == earlier_of(a, b),
{
    match (a, b) {
        (Some(x), Some(y)) => if y.nanos < x.nanos {
            b
        } else {
            a
        },
        (Some(_), None) => a,
        (None, _) => b,
    }
}

/// The points that `time` gives for the first `n` of `keys`.
pub open spec fn times_of<K>(
    keys: Seq<K>,
    n: int,
    time: spec_fn(K) -> Option<Instant>,
) -> Set<Instant> {
    Set::new(|t: Instant| exists|j: int| 0 <= j < n && time(#[trigger] keys[j]) == Some(t))
}

/// The earliest point for one more key.
pub proof fn lemma_earliest_step<K>(
    keys: Seq<K>,
    n: int,
    time: spec_fn(K) -> Option<Instant>,
    r: Option<Instant>,
)
    requires
        0 <= n < keys.len(),
        is_earliest(r, times_of(keys, n, time)),
    ensures
        is_earliest(earlier_of(r, time(keys[n])), times_of(keys, n + 1, time)),
{
    let before = times_of(keys, n, time);
    let after = times_of(keys, n + 1, time);
    assert forall|t: Instant| #[trigger] after.contains(t) <==> before.contains(t) || time(keys[n])
        == Some(t) by {
        if before.contains(t) {
            let j = choose|j: int| 0 <= j < n && time(#[trigger] keys[j]) == Some(t);
            assert(time(keys[j]) == Some(t));
        }
    }
}

/// Only the points for the first `n` keys count.
pub proof fn lemma_times_same<K>(
    keys: Seq<K>,
    n: int,
    a: spec_fn(K) -> Option<Instant>,
    b: spec_fn(K) -> Option<Instant>,
)
    requires
        forall|j: int| 0 <= j < n ==> a(#[trigger] keys[j]) == b(keys[j]),
    ensures
        times_of(keys, n, a) == times_of(keys, n, b),
{
    assert forall|t: Instant| #[trigger]
        times_of(keys, n, a).contains(t) <==> times_of(keys, n, b).contains(t) by {
        if times_of(keys, n, a).contains(t) {
            let j = choose|j: int| 0 <= j < n && a(#[trigger] keys[j]) == Some(t);
            assert(b(keys[j]) == Some(t));
        }
        if times_of(keys, n, b).contains(t) {
            let j = choose|j: int| 0 <= j < n && b(#[trigger] keys[j]) == Some(t);
            assert(a(keys[j]) == Some(t));
        }
    }
    assert(times_of(keys, n, a) =~= times_of(keys, n, b));
}

/// The earliest of the points for the listed keys is the earliest of any set with
/// the same points.
pub proof fn lemma_earliest_all<K>(
    keys: Seq<K>,
    time: spec_fn(K) -> Option<Instant>,
    r: Option<Instant>,
    times: Set<Instant>,
)
    requires
        is_earliest(r, times_of(keys, keys.len() as int, time)),
        forall|t: Instant| #[trigger]
            times.contains(t) <==> exists|k: K| #[trigger] keys.contains(k) && time(k) == Some(t),
    ensures
        is_earliest(r, times),
{
    let listed = times_of(keys, keys.len() as int, time);
    assert forall|t: Instant| #[trigger] times.contains(t) <==> listed.contains(t) by {
        if listed.contains(t) {
            let j = choose|j: int|
                0 <= j < keys.len() && time(#[trigger] keys[j]) == Some(t);
            assert(keys.contains(keys[j]));
        }
        if times.contains(t) {
            let k = choose|k: K| #[trigger] keys.contains(k) && time(k) == Some(t);
            let j = choose|j: int| 0 <= j < keys.len() && keys[j] == k;
            assert(time(keys[j]) == Some(t));
        }
    }
}

/// A point lies after another by just the span that was added, wherever the clock
/// can represent it.
pub proof fn law_spans_add_up(t: Instant, d: Duration)
    ensures
        t.can_add(d) <==> t.nanos + d.nanos <= u128::MAX,
        t.can_add(d) ==> t.plus(d).nanos == t.nanos + d.nanos,
{
}

} // verus!
