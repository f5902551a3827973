//! Direct statements of what the refills of the job dispatcher do, and when
//! they can be called without a panic.
use vstd::prelude::*;
use vstd::arithmetic::div_mod::{lemma_add_mod_noop, lemma_add_mod_noop_right, lemma_mod_bound};
use crate::rings::{pushed_within, ring_at};
use crate::job_dispatcher::{
    advance, refill2, refill2_loop, refill3, refill3_loop, auto_refill, state_bounds, translate,
    unpack_job, pose_of, ring_size, CoordinateView, RingState, Vector3,
    RING_CAPACITY,
};

verus! {

/// `items` after each of `xs` was pushed in order into a ring of `capacity`.
pub open spec fn pushed_all<A>(items: Seq<A>, capacity: nat, xs: Seq<A>) -> Seq<A>
    decreases xs.len(),
{
    if xs.len() == 0 {
        items
    } else {
        pushed_within(pushed_all(items, capacity, xs.drop_last()), capacity, xs.last())
    }
}

/// The `k`-th job that refilling ring 2 unpacks: the one at ring 1's read index
/// moved `k` steps on.
pub open spec fn pending_job(s: RingState, k: int) -> Seq<CoordinateView> {
    ring_at(s.jobs, translate((s.read_index[0] + k) % 10))
}

/// The coordinates of the first `m` jobs that refilling ring 2 unpacks, in order.
pub open spec fn unpacked_jobs(s: RingState, m: int) -> Seq<CoordinateView>
    decreases m,
{
    if m <= 0 {
        Seq::empty()
    } else {
        unpacked_jobs(s, m - 1) + pending_job(s, m - 1)
    }
}

/// The state after refilling ring 2 unpacked `m` jobs: their coordinates are
/// pushed into ring 2 in order, ring 2's write index moved on by their number
/// and ring 1's read index by `m`, both modulo 10.
pub open spec fn refill2_after(s: RingState, m: int) -> RingState {
    let moved = unpacked_jobs(s, m);
    RingState {
        coords: pushed_all(s.coords, RING_CAPACITY as nat, moved),
        read_index: s.read_index.update(0, (s.read_index[0] + m) % 10),
        write_index: s.write_index.update(1, (s.write_index[1] + moved.len()) % 10),
        ..s
    }
}

/// The `k`-th pose that refilling ring 3 moves: the coordinate at ring 2's read
/// index moved `k` steps on.
pub open spec fn pending_pose(s: RingState, k: int) -> (Vector3, Vector3) {
    pose_of(ring_at(s.coords, translate((s.read_index[1] + k) % 10)))
}

/// The state after refilling ring 3 from `s`: when ring 3 has free slots, each
/// open request of ring 2 goes into ring 3 as a pose, in order, and ring 2's
/// read index moves on by their number modulo 10; otherwise nothing changes.
pub open spec fn refill3_after(s: RingState) -> RingState {
    if s.remaining(2) > 0 {
        RingState {
            poses: pushed_all(
                s.poses,
                RING_CAPACITY as nat,
                Seq::new(s.pending(1) as nat, |k: int| pending_pose(s, k)),
            ),
            read_index: s.read_index.update(1, (s.read_index[1] + s.pending(1)) % 10),
            ..s
        }
    } else {
        s
    }
}

proof fn lemma_mod_step(a: int, b: int)
    requires
        a >= 0,
        b >= 0,
    ensures
        ((a % 10) + b) % 10 == (a + b) % 10,
        0 <= (a + b) % 10 < 10,
{
    lemma_add_mod_noop(a, b, 10);
    lemma_add_mod_noop_right(a % 10, b, 10);
    lemma_mod_bound(a + b, 10);
}

/// Pushing a list onto a ring keeps the ring within its capacity, leaves it
/// as it was for an empty list and non-empty for any other, and pushing two
/// lists one after the other is pushing their concatenation.
pub proof fn lemma_pushed_all<A>(items: Seq<A>, capacity: nat, xs: Seq<A>, ys: Seq<A>)
    requires
        items.len() <= capacity,
        capacity > 0,
    ensures
        pushed_all(items, capacity, xs).len() <= capacity,
        xs.len() == 0 ==> pushed_all(items, capacity, xs) == items,
        xs.len() > 0 ==> pushed_all(items, capacity, xs).len() > 0,
        pushed_all(pushed_all(items, capacity, xs), capacity, ys) == pushed_all(items, capacity, xs + ys),
    decreases xs.len() + ys.len(), ys.len(),
{
    if ys.len() == 0 {
        assert(xs + ys =~= xs);
        if xs.len() > 0 {
            lemma_pushed_all(items, capacity, xs.drop_last(), ys);
        }
    } else {
        lemma_pushed_all(items, capacity, xs, ys.drop_last());
        assert((xs + ys).drop_last() =~= xs + ys.drop_last());
        assert((xs + ys).last() == ys.last());
    }
}

/// Unpacking a job pushes its coordinates into ring 2 in order and moves ring
/// 2's write index on by their number, modulo 10.
pub proof fn lemma_unpack_job(s: RingState, job: Seq<CoordinateView>)
    requires
        state_bounds(s),
    ensures
        unpack_job(s, job) == (RingState {
            coords: pushed_all(s.coords, RING_CAPACITY as nat, job),
            write_index: s.write_index.update(1, (s.write_index[1] + job.len()) % 10),
            ..s
        }),
    decreases job.len(),
{
    if job.len() == 0 {
        assert(s.write_index.update(1, (s.write_index[1] + 0) % 10) =~= s.write_index);
        assert(unpack_job(s, job) =~= RingState {
            coords: pushed_all(s.coords, RING_CAPACITY as nat, job),
            write_index: s.write_index.update(1, (s.write_index[1] + job.len()) % 10),
            ..s
        });
    } else {
        lemma_unpack_job(s, job.drop_last());
        let n = job.len() as int;
        lemma_mod_step(s.write_index[1] + n - 1, 1);
        lemma_mod_bound(s.write_index[1] + n - 1, 10);
        assert(advance((s.write_index[1] + n - 1) % 10, ring_size(1)) == (s.write_index[1] + n) % 10);
        let t = RingState {
            coords: pushed_all(s.coords, RING_CAPACITY as nat, job),
            write_index: s.write_index.update(1, (s.write_index[1] + job.len()) % 10),
            ..s
        };
        assert(unpack_job(s, job).write_index =~= t.write_index);
        assert(unpack_job(s, job) =~= t);
    }
}

proof fn lemma_refill2_after_bounds(s: RingState, m: int)
    requires
        state_bounds(s),
        0 <= m,
    ensures
        state_bounds(refill2_after(s, m)),
        refill2_after(s, m).jobs == s.jobs,
{
    lemma_pushed_all(s.coords, RING_CAPACITY as nat, unpacked_jobs(s, m), Seq::empty());
    lemma_mod_bound(s.read_index[0] + m, 10);
    lemma_mod_bound(s.write_index[1] + unpacked_jobs(s, m).len(), 10);
}

/// The job whose length refilling ring 2 checks against ring 2's free slots
/// before unpacking its `k`-th job: the first pending job for the first turn,
/// and the job unpacked in the turn before for the later ones.
pub open spec fn measured_job(s: RingState, k: int) -> Seq<CoordinateView> {
    if k == 0 {
        pending_job(s, 0)
    } else {
        pending_job(s, k - 1)
    }
}

/// Before unpacking its `k`-th job, refilling ring 2 found free slots in ring 2
/// and the measured job no longer than they are.
pub open spec fn measured_fits(s: RingState, k: int) -> bool {
    &&& refill2_after(s, k).remaining(1) > 0
    &&& measured_job(s, k).len() <= refill2_after(s, k).remaining(1)
}

/// Refilling ring 2 from `s` ended in state `t` with count `c` after
/// unpacking `m` jobs: `t` is `refill2_after(s, m)`; each of the `m` turns found
/// the measured job fitting in ring 2's free slots; the count is 0 exactly when
/// the refill stopped at a measured job longer than the free slots, and is
/// otherwise 1 plus `m` plus the unpacked coordinates, with all open requests
/// handled or ring 2 left without a free slot.
pub open spec fn refill2_outcome(s: RingState, t: RingState, c: int, m: int) -> bool {
    &&& 0 <= m <= s.pending(0)
    &&& t == refill2_after(s, m)
    &&& forall|j: int| 0 <= j < m ==> #[trigger] measured_fits(s, j)
    &&& c == 0 ==> {
        &&& m < s.pending(0)
        &&& refill2_after(s, m).remaining(1) > 0
        &&& measured_job(s, m).len() > refill2_after(s, m).remaining(1)
    }
    &&& c != 0 ==> {
        &&& c == 1 + m + unpacked_jobs(s, m).len()
        &&& m == s.pending(0) || t.remaining(1) <= 0
    }
}

proof fn lemma_refill2_loop_direct(s: RingState, k: int, read_pointer: int)
    requires
        state_bounds(s),
        0 <= k <= s.pending(0),
        read_pointer == translate((s.read_index[0] + if k == 0 { 0 } else { k - 1 }) % 10),
        forall|j: int| 0 <= j < k ==> #[trigger] measured_fits(s, j),
        refill2_loop(
            refill2_after(s, k),
            read_pointer,
            refill2_after(s, k).remaining(1),
            1 + k + unpacked_jobs(s, k).len(),
            k,
            s.pending(0),
        ) is Some,
    ensures
        ({
            let (t, c) = refill2_loop(
                refill2_after(s, k),
                read_pointer,
                refill2_after(s, k).remaining(1),
                1 + k + unpacked_jobs(s, k).len(),
                k,
                s.pending(0),
            ).unwrap();
            exists|m: int| #![trigger refill2_after(s, m)] k <= m && refill2_outcome(s, t, c, m)
        }),
    decreases s.pending(0) - k,
{
    let sk = refill2_after(s, k);
    let open = s.pending(0);
    let rem = sk.remaining(1);
    let t0 = 1 + k + unpacked_jobs(s, k).len();
    lemma_refill2_after_bounds(s, k);
    assert(ring_at(sk.jobs, read_pointer) == measured_job(s, k));
    if rem > 0 && k < open {
        let needed = ring_at(sk.jobs, read_pointer).len();
        if rem >= needed {
            assert(measured_fits(s, k));
            let rp = translate(sk.read_index[0]);
            let job = ring_at(sk.jobs, rp);
            assert(job == pending_job(s, k));
            lemma_unpack_job(sk, job);
            let s2 = unpack_job(sk, job);
            let s3 = s2.with_read(0, advance(s2.read_index[0], ring_size(0)));
            lemma_pushed_all(s.coords, RING_CAPACITY as nat, unpacked_jobs(s, k), job);
            assert(unpacked_jobs(s, k + 1) == unpacked_jobs(s, k) + job);
            lemma_mod_step(s.write_index[1] + unpacked_jobs(s, k).len(), job.len() as int);
            lemma_mod_step(s.read_index[0] + k, 1);
            let e = refill2_after(s, k + 1);
            assert(s3.read_index =~= e.read_index);
            assert(s3.write_index =~= e.write_index);
            assert(s3 =~= e);
            assert(s2.remaining(1) == e.remaining(1));
            assert forall|j: int| 0 <= j < k + 1 implies #[trigger] measured_fits(s, j) by {
                if j < k {
                } else {
                }
            }
            lemma_mod_bound(s.read_index[0] + k, 10);
            assert(rp == translate((s.read_index[0] + (k + 1 - 1)) % 10));
            lemma_refill2_loop_direct(s, k + 1, rp);
        } else {
            let (t, c) = refill2_loop(sk, read_pointer, rem, t0, k, open).unwrap();
            assert(refill2_outcome(s, t, c, k));
        }
    } else {
        let (t, c) = refill2_loop(sk, read_pointer, rem, t0, k, open).unwrap();
        assert(refill2_outcome(s, t, c, k));
    }
}

/// Refilling ring 2 unpacks the pending jobs of ring 1 in order (see
/// `pending_job`), each only after finding the measured job no longer than
/// ring 2's free slots, until all are unpacked, ring 2 has no free slot left,
/// or a measured job does not fit, which makes the count 0 (see
/// `refill2_outcome`).
pub proof fn lemma_refill_ring2_unpacks_pending_jobs(s: RingState)
    requires
        state_bounds(s),
        refill2(s) is Some,
    ensures
        ({
            let (t, c) = refill2(s).unwrap();
            exists|m: int| #![trigger refill2_after(s, m)] refill2_outcome(s, t, c, m)
        }),
{
    let e = refill2_after(s, 0);
    lemma_pushed_all(s.coords, RING_CAPACITY as nat, Seq::<CoordinateView>::empty(), Seq::empty());
    assert(e.read_index =~= s.read_index);
    assert(e.write_index =~= s.write_index);
    assert(e =~= s);
    lemma_mod_bound(s.read_index[0], 10);
    lemma_refill2_loop_direct(s, 0, translate(s.read_index[0]));
}

proof fn lemma_refill2_loop_defined(
    s: RingState,
    read_pointer: int,
    transferred: int,
    done: int,
    open: int,
    bound: int,
)
    requires
        state_bounds(s),
        s.jobs.len() > 0 || open == 0,
        forall|i: int| 0 <= i < s.jobs.len() ==> #[trigger] s.jobs[i].len() <= bound,
        0 <= bound,
        0 <= done <= open,
        1 <= transferred <= 1 + done * (bound + 1),
        open * (bound + 1) + 1 <= i32::MAX,
    ensures
        refill2_loop(s, read_pointer, s.remaining(1), transferred, done, open) is Some,
    decreases open - done,
{
    let rem = s.remaining(1);
    if rem > 0 && done < open {
        let n = s.jobs.len() as int;
        lemma_mod_bound(read_pointer, n);
        lemma_mod_bound(translate(s.read_index[0]), n);
        assert(bound + 1 <= i32::MAX) by (nonlinear_arith)
            requires
                open >= 1,
                open * (bound + 1) + 1 <= i32::MAX,
                bound >= 0,
        ;
        let needed = ring_at(s.jobs, read_pointer).len();
        if rem >= needed {
            let rp = translate(s.read_index[0]);
            let job = ring_at(s.jobs, rp);
            assert(transferred + job.len() + 1 <= 1 + (done + 1) * (bound + 1)) by (nonlinear_arith)
                requires
                    transferred <= 1 + done * (bound + 1),
                    job.len() <= bound,
            ;
            assert((done + 1) * (bound + 1) <= open * (bound + 1)) by (nonlinear_arith)
                requires
                    done + 1 <= open,
                    bound >= 0,
            ;
            lemma_unpack_job(s, job);
            let s2 = unpack_job(s, job);
            lemma_pushed_all(s.coords, RING_CAPACITY as nat, job, Seq::empty());
            lemma_mod_bound(s.write_index[1] + job.len(), 10);
            let s3 = s2.with_read(0, advance(s2.read_index[0], ring_size(0)));
            assert(s3.remaining(1) == s2.remaining(1));
            lemma_refill2_loop_defined(s3, rp, transferred + job.len() + 1, done + 1, open, bound);
        }
    }
}

/// Refilling ring 2 does not panic when ring 1 holds a job or nothing is
/// pending, and its jobs are short enough (`bound` coordinates at most) that
/// the transfer count stays within `i32`.
pub proof fn lemma_refill_ring2_defined(s: RingState, bound: int)
    requires
        state_bounds(s),
        s.jobs.len() > 0 || s.pending(0) == 0,
        forall|i: int| 0 <= i < s.jobs.len() ==> #[trigger] s.jobs[i].len() <= bound,
        0 <= bound,
        s.pending(0) * (bound + 1) + 1 <= i32::MAX,
    ensures
        refill2(s) is Some,
{
    lemma_refill2_loop_defined(s, translate(s.read_index[0]), 1, 0, s.pending(0), bound);
}

proof fn lemma_refill3_loop_direct(s: RingState, k: int, n: int)
    requires
        state_bounds(s),
        s.remaining(2) > 0,
        n == s.pending(1),
        0 <= k <= n,
        s.coords.len() > 0 || n == 0,
    ensures
        refill3_loop(
            RingState {
                poses: pushed_all(s.poses, RING_CAPACITY as nat, Seq::new(k as nat, |j: int| pending_pose(s, j))),
                read_index: s.read_index.update(1, (s.read_index[1] + k) % 10),
                ..s
            },
            translate((s.read_index[1] + k) % 10),
            s.remaining(2),
            k,
            n,
        ) == Some((refill3_after(s), n)),
    decreases n - k,
{
    let sk = RingState {
        poses: pushed_all(s.poses, RING_CAPACITY as nat, Seq::new(k as nat, |j: int| pending_pose(s, j))),
        read_index: s.read_index.update(1, (s.read_index[1] + k) % 10),
        ..s
    };
    if k == n {
        assert(sk =~= refill3_after(s));
    } else {
        let c = ring_at(sk.coords, translate((s.read_index[1] + k) % 10));
        assert(pose_of(c) == pending_pose(s, k));
        let s2 = RingState { poses: pushed_within(sk.poses, RING_CAPACITY as nat, (c.2, c.3)), ..sk };
        lemma_mod_step(s.read_index[1] + k, 1);
        lemma_mod_bound(s.read_index[1] + k, 10);
        let s3 = s2.with_read(1, advance(s2.read_index[1], ring_size(1)));
        let next = Seq::new((k + 1) as nat, |j: int| pending_pose(s, j));
        assert(next.drop_last() =~= Seq::new(k as nat, |j: int| pending_pose(s, j)));
        let e = RingState {
            poses: pushed_all(s.poses, RING_CAPACITY as nat, next),
            read_index: s.read_index.update(1, (s.read_index[1] + k + 1) % 10),
            ..s
        };
        assert(s3.read_index =~= e.read_index);
        assert(s3 =~= e);
        lemma_refill3_loop_direct(s, k + 1, n);
    }
}

/// Refilling ring 3 does not panic when ring 2 holds a coordinate, nothing is
/// pending or ring 3 has no free slot, and then it answers `refill3_after(s)`
/// and moves every open request of ring 2 when ring 3 has free slots, none
/// otherwise.
pub proof fn lemma_refill_ring3_moves_pending_poses(s: RingState)
    requires
        state_bounds(s),
        s.coords.len() > 0 || s.pending(1) == 0 || s.remaining(2) <= 0,
    ensures
        refill3(s) == Some((refill3_after(s), if s.remaining(2) > 0 { s.pending(1) } else { 0 })),
{
    if s.remaining(2) > 0 {
        lemma_mod_bound(s.read_index[1], 10);
        let s0 = RingState {
            poses: pushed_all(s.poses, RING_CAPACITY as nat, Seq::new(0, |j: int| pending_pose(s, j))),
            read_index: s.read_index.update(1, (s.read_index[1] + 0) % 10),
            ..s
        };
        assert(s0.read_index =~= s.read_index);
        assert(s0 =~= s);
        lemma_refill3_loop_direct(s, 0, s.pending(1));
    } else {
        assert(refill3(s) == Some((s, 0int)));
    }
}

/// Refilling all rings (`auto_refill_rings`) does not panic when ring 1 holds
/// a job or nothing is pending there, its jobs have at most `bound`
/// coordinates with the transfer count within `i32`, and ring 2 holds a
/// coordinate or nothing is pending there. A fresh manager that was only
/// pushed to meets the last condition.
pub proof fn lemma_auto_refill_defined(s: RingState, bound: int)
    requires
        state_bounds(s),
        s.jobs.len() > 0 || s.pending(0) == 0,
        forall|i: int| 0 <= i < s.jobs.len() ==> #[trigger] s.jobs[i].len() <= bound,
        0 <= bound,
        s.pending(0) * (bound + 1) + 1 <= i32::MAX,
        s.coords.len() > 0 || s.pending(1) == 0,
    ensures
        auto_refill(s) is Some,
{
    lemma_refill_ring2_defined(s, bound);
    lemma_refill_ring2_unpacks_pending_jobs(s);
    let (t, c) = refill2(s).unwrap();
    let m = choose|m: int| #![trigger refill2_after(s, m)] refill2_outcome(s, t, c, m);
    lemma_refill2_after_bounds(s, m);
    let moved = unpacked_jobs(s, m);
    lemma_pushed_all(s.coords, RING_CAPACITY as nat, moved, Seq::empty());
    if moved.len() == 0 {
        lemma_mod_bound(s.write_index[1], 10);
        assert(t.write_index[1] == s.write_index[1]);
        assert(t.pending(1) == s.pending(1));
    }
    lemma_refill_ring3_moves_pending_poses(t);
}

/// Refilling ring 3 only fails where ring 2 is empty while it has open
/// requests and ring 3 has free slots.
proof fn lemma_refill3_some_condition(s: RingState)
    requires
        refill3(s) is Some,
    ensures
        s.coords.len() > 0 || s.pending(1) == 0 || s.remaining(2) <= 0,
{
}

/// Refilling all rings (`auto_refill_rings`) refills ring 3 from ring 2 after
/// refilling ring 2, whatever count refilling ring 2 returned, even 0: the
/// result is `refill3_after` of ring 2's refill, so every open request of ring
/// 2 moves to ring 3 whenever ring 3 has free slots.
pub proof fn lemma_auto_refill_refills_ring3_after_any_count(s: RingState)
    requires
        state_bounds(s),
        auto_refill(s) is Some,
    ensures
        refill2(s) is Some,
        auto_refill(s) == Some(refill3_after(refill2(s).unwrap().0)),
        refill3_after(refill2(s).unwrap().0).remaining(2) > 0 ==> refill3_after(
            refill2(s).unwrap().0,
        ).read_index[1] == (refill2(s).unwrap().0.read_index[1] + refill2(s).unwrap().0.pending(1))
            % 10,
{
    lemma_refill_ring2_unpacks_pending_jobs(s);
    let (t, c) = refill2(s).unwrap();
    let m = choose|m: int| #![trigger refill2_after(s, m)] refill2_outcome(s, t, c, m);
    lemma_refill2_after_bounds(s, m);
    lemma_refill3_some_condition(t);
    lemma_refill_ring3_moves_pending_poses(t);
}

}
