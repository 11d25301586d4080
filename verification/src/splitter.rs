//! The splitter orchestrator: drives every frame through classification,
//! through exactly one shard ring, and out to that shard's backlog, updating
//! the shard's telemetry on the way, then flushes every ring at end of input.

use vstd::prelude::*;

use crate::classify::shard_index;
use crate::classify::spec_shard_of;
use crate::packet::Packet;
use crate::spsc::Buffer;
use crate::stats::Stats;

verus! {

broadcast use vstd::seq_lib::group_filter_ensures;

/// The frames of `frames` that classify to shard `s`, in input order.
pub open spec fn route(frames: Seq<Packet>, n: usize, s: int) -> Seq<Packet> {
    frames.filter(|f: Packet| spec_shard_of(f.bytes@, n) as int == s)
}

/// The smaller of two values.
pub open spec fn spec_min(a: int, b: int) -> int {
    if a < b {
        a
    } else {
        b
    }
}

/// The final value of a shard's free-slot gauge after `m` frames were pushed
/// through its ring of `c` slots: untouched at `c` when nothing was pushed,
/// else the ring's free space right after the last push.
pub open spec fn spec_free_gauge(m: int, c: int) -> int {
    if m == 0 {
        c
    } else {
        c - 1 - spec_min(m, c - 1)
    }
}

/// Routing one more frame extends exactly the routed shard's sequence.
pub proof fn lemma_route_push(frames: Seq<Packet>, f: Packet, n: usize, s: int)
    ensures
        route(frames.push(f), n, s) == (if spec_shard_of(f.bytes@, n) as int == s {
            route(frames, n, s).push(f)
        } else {
            route(frames, n, s)
        }),
{
    reveal(Seq::filter);
    assert(frames.push(f).drop_last() =~= frames);
    assert(frames.push(f).last() == f);
}

/// Routing distributes nothing out of an empty input.
pub proof fn lemma_route_empty(n: usize, s: int)
    ensures
        route(Seq::<Packet>::empty(), n, s) == Seq::<Packet>::empty(),
{
    reveal(Seq::filter);
}

/// Splits `frames` across `n_shards` shards, each fed through a bounded ring
/// of `ring_capacity` slots exactly as the live pipeline feeds its writers:
/// classify, make room if the ring is full, push, publish telemetry; then,
/// at end of input, flush every ring's backlog in FIFO order.
///
/// Returns the per-shard output sequences and the final telemetry. The
/// outputs are exactly the routing of the input: no drops, no duplicates,
/// and per shard the input order is kept.
pub fn split(frames: Vec<Packet>, n_shards: usize, ring_capacity: usize) -> (r: (
    Vec<Vec<Packet>>,
    Vec<Stats>,
))
    requires
        n_shards >= 1,
        ring_capacity >= 2,
    ensures
        r.0@.len() == n_shards,
        r.1@.len() == n_shards,
        forall|s: int| 0 <= s < n_shards ==> (#[trigger] r.0@[s])@ == route(frames@, n_shards, s),
        forall|s: int|
            0 <= s < n_shards ==> (#[trigger] r.1@[s]).rx_frames == route(
                frames@,
                n_shards,
                s,
            ).len(),
        forall|s: int|
            0 <= s < n_shards ==> (#[trigger] r.1@[s]).capacity == spec_free_gauge(
                route(frames@, n_shards, s).len() as int,
                ring_capacity as int,
            ),
{
    let mut rings: Vec<Buffer<Packet>> = Vec::new();
    let mut outputs: Vec<Vec<Packet>> = Vec::new();
    let mut stats: Vec<Stats> = Vec::new();
    let mut i: usize = 0;
    while i < n_shards
        invariant
            ring_capacity >= 2,
            i <= n_shards,
            rings@.len() == i,
            outputs@.len() == i,
            stats@.len() == i,
            forall|s: int| 0 <= s < i ==> (#[trigger] rings@[s]).wf(),
            forall|s: int| 0 <= s < i ==> (#[trigger] rings@[s]).spec_capacity() == ring_capacity,
            forall|s: int| 0 <= s < i ==> (#[trigger] rings@[s])@ == Seq::<Packet>::empty(),
            forall|s: int| 0 <= s < i ==> (#[trigger] outputs@[s])@ == Seq::<Packet>::empty(),
            forall|s: int|
                0 <= s < i ==> (#[trigger] stats@[s]) == (Stats {
                    capacity: ring_capacity,
                    rx_frames: 0,
                }),
        decreases n_shards - i,
    {
        rings.push(Buffer::new(ring_capacity));
        let fresh: Vec<Packet> = Vec::new();
        proof {
            assert(fresh@ =~= Seq::<Packet>::empty());
        }
        outputs.push(fresh);
        stats.push(Stats { capacity: ring_capacity, rx_frames: 0 });
        i = i + 1;
    }

    let mut j: usize = 0;
    while j < frames.len()
        invariant
            n_shards >= 1,
            ring_capacity >= 2,
            j <= frames@.len(),
            rings@.len() == n_shards,
            outputs@.len() == n_shards,
            stats@.len() == n_shards,
            forall|s: int| 0 <= s < n_shards ==> (#[trigger] rings@[s]).wf(),
            forall|s: int|
                0 <= s < n_shards ==> (#[trigger] rings@[s]).spec_capacity() == ring_capacity,
            forall|s: int|
                0 <= s < n_shards ==> (#[trigger] outputs@[s])@ + rings@[s]@ == route(
                    frames@.take(j as int),
                    n_shards,
                    s,
                ),
            forall|s: int|
                0 <= s < n_shards ==> (#[trigger] rings@[s])@.len() == spec_min(
                    route(frames@.take(j as int), n_shards, s).len() as int,
                    ring_capacity - 1,
                ),
            forall|s: int|
                0 <= s < n_shards ==> (#[trigger] stats@[s]).rx_frames == route(
                    frames@.take(j as int),
                    n_shards,
                    s,
                ).len(),
            forall|s: int|
                0 <= s < n_shards ==> (#[trigger] stats@[s]).capacity == spec_free_gauge(
                    route(frames@.take(j as int), n_shards, s).len() as int,
                    ring_capacity as int,
                ),
        decreases frames@.len() - j,
    {
        let ghost prefix = frames@.take(j as int);
        let f = frames[j];
        let ix = shard_index(f.bytes.as_slice(), n_shards);
        proof {
            assert(frames@.take(j as int + 1) =~= prefix.push(frames@[j as int]));
            lemma_route_push(prefix, frames@[j as int], n_shards, ix as int);
            assert forall|s: int| 0 <= s < n_shards && s != ix implies route(
                frames@.take(j as int + 1),
                n_shards,
                s,
            ) == route(prefix, n_shards, s) by {
                lemma_route_push(prefix, frames@[j as int], n_shards, s);
            }
        }
        if !rings[ix].check_push() {
            let popped = rings[ix].pop();
            outputs[ix].push(popped);
        }
        rings[ix].push(f);
        let fs = rings[ix].free_space();
        let rx = stats[ix].rx_frames;
        proof {
            assert(route(prefix, n_shards, ix as int).len() <= prefix.len());
        }
        stats[ix] = Stats { capacity: fs, rx_frames: rx + 1 };
        j = j + 1;
        proof {
            assert forall|s: int| 0 <= s < n_shards implies (#[trigger] outputs@[s])@ + rings@[s]@
                == route(frames@.take(j as int), n_shards, s) by {
                if s != ix {
                    assert(outputs@[s]@ + rings@[s]@ == route(prefix, n_shards, s));
                } else {
                    assert(outputs@[s]@ + rings@[s]@ =~= route(prefix, n_shards, s).push(
                        frames@[j as int - 1],
                    ));
                }
            }
        }
    }

    proof {
        assert(frames@.take(frames@.len() as int) =~= frames@);
    }

    let mut s: usize = 0;
    while s < n_shards
        invariant
            n_shards >= 1,
            ring_capacity >= 2,
            s <= n_shards,
            rings@.len() == n_shards,
            outputs@.len() == n_shards,
            stats@.len() == n_shards,
            forall|t: int| s <= t < n_shards ==> (#[trigger] rings@[t]).wf(),
            forall|t: int|
                s <= t < n_shards ==> (#[trigger] outputs@[t])@ + rings@[t]@ == route(
                    frames@,
                    n_shards,
                    t,
                ),
            forall|t: int|
                0 <= t < s ==> (#[trigger] outputs@[t])@ == route(frames@, n_shards, t),
            forall|t: int|
                0 <= t < n_shards ==> (#[trigger] stats@[t]).rx_frames == route(
                    frames@,
                    n_shards,
                    t,
                ).len(),
            forall|t: int|
                0 <= t < n_shards ==> (#[trigger] stats@[t]).capacity == spec_free_gauge(
                    route(frames@, n_shards, t).len() as int,
                    ring_capacity as int,
                ),
        decreases n_shards - s,
    {
        let mut drained = rings[s].drain();
        outputs[s].append(&mut drained);
        s = s + 1;
    }

    (outputs, stats)
}

/// The total number of frames routed to shards `0..k`.
pub open spec fn spec_routed_total(frames: Seq<Packet>, n: usize, k: int) -> int
    decreases k,
{
    if k <= 0 {
        0
    } else {
        spec_routed_total(frames, n, k - 1) + route(frames, n, k - 1).len()
    }
}

proof fn lemma_total_empty(n: usize, k: int)
    ensures
        spec_routed_total(Seq::<Packet>::empty(), n, k) == 0,
    decreases k,
{
    if k > 0 {
        lemma_total_empty(n, k - 1);
        lemma_route_empty(n, k - 1);
    }
}

proof fn lemma_total_push(frames: Seq<Packet>, f: Packet, n: usize, k: int)
    ensures
        spec_routed_total(frames.push(f), n, k) == spec_routed_total(frames, n, k) + (
        if 0 <= spec_shard_of(f.bytes@, n) < k {
            1int
        } else {
            0int
        }),
    decreases k,
{
    if k > 0 {
        lemma_total_push(frames, f, n, k - 1);
        lemma_route_push(frames, f, n, k - 1);
    }
}

/// Conservation: over all shards together, exactly as many frames are routed
/// out as came in. No frame is dropped and none is duplicated.
pub proof fn lemma_conservation(frames: Seq<Packet>, n: usize)
    requires
        n >= 1,
    ensures
        spec_routed_total(frames, n, n as int) == frames.len(),
    decreases frames.len(),
{
    if frames.len() == 0 {
        assert(frames =~= Seq::<Packet>::empty());
        lemma_total_empty(n, n as int);
    } else {
        let prefix = frames.drop_last();
        let f = frames.last();
        lemma_conservation(prefix, n);
        lemma_total_push(prefix, f, n, n as int);
        assert(prefix.push(f) =~= frames);
        assert(0 <= spec_shard_of(f.bytes@, n) < n);
    }
}

/// Every routed frame is one of the input frames.
proof fn lemma_route_member(frames: Seq<Packet>, n: usize, s: int, i: int)
    requires
        0 <= i < route(frames, n, s).len(),
    ensures
        exists|k: int| 0 <= k < frames.len() && frames[k] == route(frames, n, s)[i],
    decreases frames.len(),
{
    if frames.len() == 0 {
        lemma_route_empty(n, s);
        assert(frames =~= Seq::<Packet>::empty());
    } else {
        let prefix = frames.drop_last();
        let f = frames.last();
        assert(prefix.push(f) =~= frames);
        lemma_route_push(prefix, f, n, s);
        if spec_shard_of(f.bytes@, n) as int == s && i == route(prefix, n, s).len() {
            let k = frames.len() - 1;
            assert(frames[k] == route(frames, n, s)[i]);
        } else {
            assert(route(frames, n, s)[i] == route(prefix, n, s)[i]);
            lemma_route_member(prefix, n, s, i);
            let k = choose|k: int| 0 <= k < prefix.len() && prefix[k] == route(prefix, n, s)[i];
            assert(frames[k] == route(frames, n, s)[i]);
        }
    }
}

/// Order preservation per shard: any two frames routed to the same shard
/// appear in that shard's output in the order they had in the input.
pub proof fn lemma_order_preserved(frames: Seq<Packet>, n: usize, s: int, i: int, j: int)
    requires
        0 <= i < j < route(frames, n, s).len(),
    ensures
        exists|k1: int, k2: int|
            0 <= k1 < k2 < frames.len() && frames[k1] == route(frames, n, s)[i] && frames[k2]
                == route(frames, n, s)[j],
    decreases frames.len(),
{
    if frames.len() == 0 {
        lemma_route_empty(n, s);
        assert(frames =~= Seq::<Packet>::empty());
    } else {
        let prefix = frames.drop_last();
        let f = frames.last();
        assert(prefix.push(f) =~= frames);
        lemma_route_push(prefix, f, n, s);
        if spec_shard_of(f.bytes@, n) as int == s && j == route(prefix, n, s).len() {
            lemma_route_member(prefix, n, s, i);
            let k1 = choose|k: int| 0 <= k < prefix.len() && prefix[k] == route(prefix, n, s)[i];
            let k2 = frames.len() - 1;
            assert(frames[k1] == route(frames, n, s)[i]);
            assert(frames[k2] == route(frames, n, s)[j]);
        } else {
            lemma_order_preserved(prefix, n, s, i, j);
            let (k1, k2) = choose|k1: int, k2: int|
                0 <= k1 < k2 < prefix.len() && prefix[k1] == route(prefix, n, s)[i] && prefix[k2]
                    == route(prefix, n, s)[j];
            assert(route(frames, n, s)[i] == route(prefix, n, s)[i]);
            assert(route(frames, n, s)[j] == route(prefix, n, s)[j]);
            assert(frames[k1] == route(frames, n, s)[i]);
            assert(frames[k2] == route(frames, n, s)[j]);
        }
    }
}

/// Deterministic classification: routing is a pure function of the input
/// frames and the shard count, so two runs over the same input produce the
/// same per-shard sequences.
pub proof fn lemma_deterministic(frames1: Seq<Packet>, frames2: Seq<Packet>, n: usize, s: int)
    requires
        frames1 == frames2,
    ensures
        route(frames1, n, s) == route(frames2, n, s),
{
}

} // verus!
