//! Sliding-window admission.
//!
//! A window is the sequence of the times, in seconds, at which attempts were
//! admitted, oldest first. An attempt first drops the stamps that have left
//! the window, then counts what remains: expired stamps never count against
//! the limit, and an admitted attempt costs exactly one slot.

use vstd::prelude::*;

verus! {

/// Whether a stamp is still inside the window of `width` seconds that ends at
/// `now`. A stamp that lies after `now` has not aged at all and is inside.
pub open spec fn in_window(stamp: u64, now: u64, width: u64) -> bool {
    now - stamp <= width
}

/// The stamps of `stamps` that are still inside the window, in their order.
pub open spec fn pruned(stamps: Seq<u64>, now: u64, width: u64) -> Seq<u64> {
    stamps.filter(|stamp: u64| in_window(stamp, now, width))
}

/// Whether an attempt at `now` is admitted: fewer than `limit` stamps remain
/// after pruning.
pub open spec fn admits(stamps: Seq<u64>, now: u64, width: u64, limit: nat) -> bool {
    pruned(stamps, now, width).len() < limit
}

/// The window after an attempt at `now`: pruned, and stamped with `now` if the
/// attempt was admitted.
pub open spec fn after_attempt(stamps: Seq<u64>, now: u64, width: u64, limit: nat) -> Seq<u64> {
    if admits(stamps, now, width, limit) {
        pruned(stamps, now, width).push(now)
    } else {
        pruned(stamps, now, width)
    }
}

/// Pruning a window extended by one stamp.
pub proof fn lemma_pruned_push(stamps: Seq<u64>, stamp: u64, now: u64, width: u64)
    ensures
        pruned(stamps.push(stamp), now, width) == if in_window(stamp, now, width) {
            pruned(stamps, now, width).push(stamp)
        } else {
            pruned(stamps, now, width)
        },
{
    reveal(Seq::filter);
    assert(stamps.push(stamp).drop_last() =~= stamps);
}

/// Pruning keeps a window whose stamps are all inside.
pub proof fn lemma_pruned_all_inside(stamps: Seq<u64>, now: u64, width: u64)
    requires
        forall|i: int| 0 <= i < stamps.len() ==> in_window(#[trigger] stamps[i], now, width),
    ensures
        pruned(stamps, now, width) == stamps,
    decreases stamps.len(),
{
    if stamps.len() == 0 {
        reveal(Seq::filter);
    } else {
        let front = stamps.drop_last();
        assert(front.push(stamps.last()) =~= stamps);
        lemma_pruned_all_inside(front, now, width);
        lemma_pruned_push(front, stamps.last(), now, width);
    }
}

/// Pruning empties a window whose stamps are all outside.
pub proof fn lemma_pruned_all_outside(stamps: Seq<u64>, now: u64, width: u64)
    requires
        forall|i: int| 0 <= i < stamps.len() ==> !in_window(#[trigger] stamps[i], now, width),
    ensures
        pruned(stamps, now, width) == Seq::<u64>::empty(),
    decreases stamps.len(),
{
    if stamps.len() == 0 {
        reveal(Seq::filter);
    } else {
        let front = stamps.drop_last();
        assert(front.push(stamps.last()) =~= stamps);
        lemma_pruned_all_outside(front, now, width);
        lemma_pruned_push(front, stamps.last(), now, width);
    }
}

/// After an attempt the window holds no stamp that has left it, and a window
/// that held no more than `limit` stamps still holds no more.
pub proof fn lemma_window_after_attempt(stamps: Seq<u64>, now: u64, width: u64, limit: nat)
    ensures
        forall|i: int|
            0 <= i < after_attempt(stamps, now, width, limit).len() ==> in_window(
                #[trigger] after_attempt(stamps, now, width, limit)[i],
                now,
                width,
            ),
        stamps.len() <= limit ==> after_attempt(stamps, now, width, limit).len() <= limit,
{
    let inside = |stamp: u64| in_window(stamp, now, width);
    let kept = pruned(stamps, now, width);
    stamps.lemma_filter_len(inside);
    assert forall|i: int| 0 <= i < kept.len() implies in_window(#[trigger] kept[i], now, width) by {
        stamps.lemma_filter_pred(inside, i);
    }
}

/// The window after a run of attempts, one at each time of `times`, in order.
pub open spec fn after_attempts(stamps: Seq<u64>, times: Seq<u64>, width: u64, limit: nat) -> Seq<
    u64,
>
    decreases times.len(),
{
    if times.len() == 0 {
        stamps
    } else {
        after_attempt(
            after_attempts(stamps, times.drop_last(), width, limit),
            times.last(),
            width,
            limit,
        )
    }
}

/// Whether attempt `k` of a run of attempts is admitted.
pub open spec fn admitted_at(
    stamps: Seq<u64>,
    times: Seq<u64>,
    k: int,
    width: u64,
    limit: nat,
) -> bool {
    admits(after_attempts(stamps, times.take(k), width, limit), times[k], width, limit)
}

/// Whether any two of `times` lie within `width` seconds of each other.
pub open spec fn within_one_window(times: Seq<u64>, width: u64) -> bool {
    forall|i: int, j: int|
        0 <= i < times.len() && 0 <= j < times.len() ==> #[trigger] times[j] - #[trigger] times[i]
            <= width
}

/// The window after a burst into an empty window holds the times of the
/// first `limit` attempts.
pub proof fn lemma_after_burst(times: Seq<u64>, k: int, width: u64, limit: nat)
    requires
        within_one_window(times, width),
        0 <= k <= times.len(),
    ensures
        after_attempts(Seq::empty(), times.take(k), width, limit) == times.take(
            if k <= limit {
                k
            } else {
                limit as int
            },
        ),
    decreases k,
{
    if k == 0 {
        assert(times.take(0) =~= Seq::<u64>::empty());
    } else {
        lemma_after_burst(times, k - 1, width, limit);
        let m = if k - 1 <= limit {
            k - 1
        } else {
            limit as int
        };
        let now = times[k - 1];
        assert(times.take(k).drop_last() =~= times.take(k - 1));
        assert(times.take(k).last() == now);
        assert forall|i: int| 0 <= i < times.take(m).len() implies in_window(
            #[trigger] times.take(m)[i],
            now,
            width,
        ) by {
            assert(times[k - 1] - times[i] <= width);
        }
        lemma_pruned_all_inside(times.take(m), now, width);
        if m < limit {
            assert(times.take(m).push(now) =~= times.take(k));
        }
    }
}

/// A burst exhausts the window. Of any run of attempts that lie within one
/// window width of each other and start on an empty window, the first
/// `limit` are admitted and every later one is rejected.
pub proof fn lemma_burst_is_cut_at_limit(times: Seq<u64>, k: int, width: u64, limit: nat)
    requires
        within_one_window(times, width),
        0 <= k < times.len(),
    ensures
        admitted_at(Seq::empty(), times, k, width, limit) == (k < limit),
{
    lemma_after_burst(times, k, width, limit);
    let m = if k <= limit {
        k
    } else {
        limit as int
    };
    assert forall|i: int| 0 <= i < times.take(m).len() implies in_window(
        #[trigger] times.take(m)[i],
        times[k],
        width,
    ) by {
        assert(times[k] - times[i] <= width);
    }
    lemma_pruned_all_inside(times.take(m), times[k], width);
}

/// How many attempts of a run of attempts are admitted.
pub open spec fn admitted_count(stamps: Seq<u64>, times: Seq<u64>, width: u64, limit: nat) -> nat
    decreases times.len(),
{
    if times.len() == 0 {
        0
    } else {
        let earlier = admitted_count(stamps, times.drop_last(), width, limit);
        if admits(
            after_attempts(stamps, times.drop_last(), width, limit),
            times.last(),
            width,
            limit,
        ) {
            earlier + 1
        } else {
            earlier
        }
    }
}

/// Whether a stamp is inside the window at each of `times`.
pub open spec fn lasts_through(stamp: u64, times: Seq<u64>, width: u64) -> bool {
    forall|j: int| 0 <= j < times.len() ==> in_window(stamp, #[trigger] times[j], width)
}

/// How many stamps of a window are inside it at each of `times`.
pub open spec fn lasting(stamps: Seq<u64>, times: Seq<u64>, width: u64) -> nat {
    stamps.filter(|stamp: u64| lasts_through(stamp, times, width)).len()
}

proof fn lemma_lasting_push(stamps: Seq<u64>, stamp: u64, times: Seq<u64>, width: u64)
    ensures
        lasting(stamps.push(stamp), times, width) == lasting(stamps, times, width) + if lasts_through(
            stamp,
            times,
            width,
        ) {
            1nat
        } else {
            0nat
        },
        lasting(stamps, times, width) <= stamps.len(),
{
    reveal(Seq::filter);
    assert(stamps.push(stamp).drop_last() =~= stamps);
    stamps.lemma_filter_len(|stamp: u64| lasts_through(stamp, times, width));
}

proof fn lemma_lasting_pruned(stamps: Seq<u64>, times: Seq<u64>, k: int, width: u64)
    requires
        0 <= k < times.len(),
    ensures
        lasting(pruned(stamps, times[k], width), times, width) == lasting(stamps, times, width),
    decreases stamps.len(),
{
    if stamps.len() == 0 {
        reveal(Seq::filter);
    } else {
        let front = stamps.drop_last();
        let stamp = stamps.last();
        assert(front.push(stamp) =~= stamps);
        lemma_lasting_pruned(front, times, k, width);
        lemma_pruned_push(front, stamp, times[k], width);
        lemma_lasting_push(front, stamp, times, width);
        if in_window(stamp, times[k], width) {
            lemma_lasting_push(pruned(front, times[k], width), stamp, times, width);
        }
    }
}

/// The admitted attempts of a run whose attempts lie within one window width
/// of each other are all still in the window after the run.
pub proof fn lemma_admitted_stamps_last(
    stamps: Seq<u64>,
    times: Seq<u64>,
    k: int,
    width: u64,
    limit: nat,
)
    requires
        within_one_window(times, width),
        0 <= k <= times.len(),
    ensures
        admitted_count(stamps, times.take(k), width, limit) <= lasting(
            after_attempts(stamps, times.take(k), width, limit),
            times,
            width,
        ),
        admitted_count(stamps, times.take(k), width, limit) <= limit,
    decreases k,
{
    if k == 0 {
        assert(times.take(0) =~= Seq::<u64>::empty());
    } else {
        lemma_admitted_stamps_last(stamps, times, k - 1, width, limit);
        let now = times[k - 1];
        assert(times.take(k).drop_last() =~= times.take(k - 1));
        assert(times.take(k).last() == now);
        let window = after_attempts(stamps, times.take(k - 1), width, limit);
        let kept = pruned(window, now, width);
        lemma_lasting_pruned(window, times, k - 1, width);
        lemma_lasting_push(kept, now, times, width);
        assert(lasts_through(now, times, width)) by {
            assert forall|j: int| 0 <= j < times.len() implies in_window(
                now,
                #[trigger] times[j],
                width,
            ) by {
                assert(times[j] - times[k - 1] <= width);
            }
        }
    }
}

/// A window is never overdrawn. Of any run of attempts that lie within one
/// window width of each other, no more than `limit` are admitted, whatever
/// the window held before.
pub proof fn lemma_at_most_limit_admitted(stamps: Seq<u64>, times: Seq<u64>, width: u64, limit: nat)
    requires
        within_one_window(times, width),
    ensures
        admitted_count(stamps, times, width, limit) <= limit,
{
    lemma_admitted_stamps_last(stamps, times, times.len() as int, width, limit);
    assert(times.take(times.len() as int) =~= times);
}

/// The window slides. Once every stamp is more than `width` seconds old, an
/// attempt is admitted again, whatever the window held, and the window then
/// holds that attempt alone.
pub proof fn lemma_admitted_after_window(stamps: Seq<u64>, now: u64, width: u64, limit: nat)
    requires
        limit > 0,
        forall|i: int| 0 <= i < stamps.len() ==> now - #[trigger] stamps[i] > width,
    ensures
        admits(stamps, now, width, limit),
        after_attempt(stamps, now, width, limit) == seq![now],
{
    lemma_pruned_all_outside(stamps, now, width);
    assert(Seq::<u64>::empty().push(now) =~= seq![now]);
}

fn is_in_window(stamp: u64, now: u64, width: u64) -> (inside: bool)
    ensures
        inside == in_window(stamp, now, width),
{
    stamp >= now || now - stamp <= width
}

/// Drops the stamps that have left the window, keeping the others in order.
pub fn prune(stamps: &mut Vec<u64>, now: u64, width: u64)
    ensures
        final(stamps)@ == pruned(old(stamps)@, now, width),
{
    let ghost before = stamps@;
    let n: usize = stamps.len();
    let mut kept: usize = 0;
    let mut i: usize = 0;
    proof {
        reveal(Seq::filter);
        assert(before.take(0) =~= Seq::<u64>::empty());
        assert(stamps@.take(0) =~= pruned(before.take(0), now, width));
    }
    while i < n
        invariant
            stamps.len() == n,
            before.len() == n,
            kept <= i <= n,
            stamps@.take(kept as int) == pruned(before.take(i as int), now, width),
            forall|j: int| i <= j < n ==> stamps@[j] == before[j],
        decreases n - i,
    {
        let stamp: u64 = stamps[i];
        proof {
            lemma_pruned_push(before.take(i as int), stamp, now, width);
            assert(before.take(i as int + 1) =~= before.take(i as int).push(stamp));
        }
        if is_in_window(stamp, now, width) {
            let ghost prev = stamps@;
            stamps[kept] = stamp;
            assert(stamps@.take(kept as int + 1) =~= prev.take(kept as int).push(stamp));
            kept = kept + 1;
        }
        i = i + 1;
    }
    stamps.truncate(kept);
    assert(before.take(n as int) =~= before);
}

/// One admission attempt at `now` against a window of `width` seconds that
/// holds at most `limit` stamps. The window is pruned in either case; the
/// attempt is admitted, and stamped, exactly if fewer than `limit` stamps
/// remain.
pub fn try_admit(stamps: &mut Vec<u64>, now: u64, width: u64, limit: usize) -> (admitted: bool)
    ensures
        admitted == admits(old(stamps)@, now, width, limit as nat),
        final(stamps)@ == after_attempt(old(stamps)@, now, width, limit as nat),
{
    prune(stamps, now, width);
    if stamps.len() >= limit {
        return false;
    }
    stamps.push(now);
    true
}

} // verus!
