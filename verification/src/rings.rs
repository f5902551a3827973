//! The three bounded ring buffers behind the job dispatcher.
//!
//! Each ring is an `AllocRingBuffer` of the `ringbuffer` crate, held in a
//! struct of this crate so that its contents can be named in contracts.
use vstd::prelude::*;
use ringbuffer::{AllocRingBuffer, RingBufferExt, RingBufferWrite};
use crate::job_dispatcher::{TimedCoordinates, Vector3, CoordinateView};

verus! {

/// `n` is a positive power of two.
pub open spec fn is_power_of_two(n: nat) -> bool
    decreases n,
{
    if n <= 1 {
        n == 1
    } else {
        n % 2 == 0 && is_power_of_two(n / 2)
    }
}

/// What a ring holds after `item` is pushed onto `items` with room for `capacity`
/// items: the item is appended and, when the ring was full, the oldest item leaves.
pub open spec fn pushed_within<A>(items: Seq<A>, capacity: nat, item: A) -> Seq<A> {
    if items.len() < capacity {
        items.push(item)
    } else {
        items.drop_first().push(item)
    }
}

/// The item a ring answers for a signed position: positions count from the
/// oldest item (`0`) and, when negative, back from the newest (`-1`), modulo the length.
pub open spec fn ring_at<A>(items: Seq<A>, index: int) -> A
    recommends
        items.len() > 0,
{
    items[index % (items.len() as int)]
}

/// A ring of jobs, each a list of timed coordinates.
#[verifier::external_body]
pub struct JobRing {
    ring: AllocRingBuffer<Vec<TimedCoordinates>>,
}

/// The jobs a `JobRing` holds, oldest first.
pub uninterp spec fn job_ring_items(ring: JobRing) -> Seq<Seq<CoordinateView>>;

/// The capacity a `JobRing` was made with.
pub uninterp spec fn job_ring_capacity(ring: JobRing) -> nat;

/// Calls `AllocRingBuffer::with_capacity`: an empty ring of capacity `cap`.
/// The crate asserts that `cap` is a nonzero power of two.
#[verifier::external_body]
pub(crate) fn job_ring_with_capacity(cap: usize) -> (ring: JobRing)
    requires
        is_power_of_two(cap as nat),
    ensures
        job_ring_items(ring) == Seq::<Seq<CoordinateView>>::empty(),
        job_ring_capacity(ring) == cap,
{
    JobRing { ring: AllocRingBuffer::with_capacity(cap) }
}

/// Calls `RingBufferWrite::push`: appends `job`, dropping the oldest job when full.
/// The crate counts pushes in a `usize`; that count overflowing is a machine limit
/// that this contract does not exclude.
#[verifier::external_body]
pub(crate) fn job_ring_push(ring: &mut JobRing, job: Vec<TimedCoordinates>)
    requires
        job_ring_items(*old(ring)).len() <= job_ring_capacity(*old(ring)),
    ensures
        job_ring_capacity(*final(ring)) == job_ring_capacity(*old(ring)),
        job_ring_items(*final(ring)) == pushed_within(
            job_ring_items(*old(ring)),
            job_ring_capacity(*old(ring)),
            job.deep_view(),
        ),
{
    ring.ring.push(job)
}

/// Calls `RingBufferExt::get`: `None` on an empty ring, else the job at `index`
/// (see `ring_at`).
#[verifier::external_body]
pub(crate) fn job_ring_get(ring: &JobRing, index: isize) -> (job: Option<&Vec<TimedCoordinates>>)
    ensures
        job is None <==> job_ring_items(*ring).len() == 0,
        job matches Some(j) ==> j.deep_view() == ring_at(job_ring_items(*ring), index as int),
{
    ring.ring.get(index)
}

/// A ring of single timed coordinates.
#[verifier::external_body]
pub struct CoordinateRing {
    ring: AllocRingBuffer<TimedCoordinates>,
}

/// The coordinates a `CoordinateRing` holds, oldest first.
pub uninterp spec fn coordinate_ring_items(ring: CoordinateRing) -> Seq<CoordinateView>;

/// The capacity a `CoordinateRing` was made with.
pub uninterp spec fn coordinate_ring_capacity(ring: CoordinateRing) -> nat;

/// Calls `AllocRingBuffer::with_capacity`: an empty ring of capacity `cap`.
#[verifier::external_body]
pub(crate) fn coordinate_ring_with_capacity(cap: usize) -> (ring: CoordinateRing)
    requires
        is_power_of_two(cap as nat),
    ensures
        coordinate_ring_items(ring) == Seq::<CoordinateView>::empty(),
        coordinate_ring_capacity(ring) == cap,
{
    CoordinateRing { ring: AllocRingBuffer::with_capacity(cap) }
}

/// Calls `RingBufferWrite::push`: appends `item`, dropping the oldest when full.
/// The crate counts pushes in a `usize`; that count overflowing is a machine limit
/// that this contract does not exclude.
#[verifier::external_body]
pub(crate) fn coordinate_ring_push(ring: &mut CoordinateRing, item: TimedCoordinates)
    requires
        coordinate_ring_items(*old(ring)).len() <= coordinate_ring_capacity(*old(ring)),
    ensures
        coordinate_ring_capacity(*final(ring)) == coordinate_ring_capacity(*old(ring)),
        coordinate_ring_items(*final(ring)) == pushed_within(
            coordinate_ring_items(*old(ring)),
            coordinate_ring_capacity(*old(ring)),
            item.deep_view(),
        ),
{
    ring.ring.push(item)
}

/// Calls `RingBufferExt::get`: `None` on an empty ring, else the item at `index`.
#[verifier::external_body]
pub(crate) fn coordinate_ring_get(ring: &CoordinateRing, index: isize) -> (item: Option<&TimedCoordinates>)
    ensures
        item is None <==> coordinate_ring_items(*ring).len() == 0,
        item matches Some(c) ==> c.deep_view() == ring_at(coordinate_ring_items(*ring), index as int),
{
    ring.ring.get(index)
}

/// A ring of target poses: a position and a rotation.
#[verifier::external_body]
pub struct PoseRing {
    ring: AllocRingBuffer<(Vector3, Vector3)>,
}

/// The poses a `PoseRing` holds, oldest first.
pub uninterp spec fn pose_ring_items(ring: PoseRing) -> Seq<(Vector3, Vector3)>;

/// The capacity a `PoseRing` was made with.
pub uninterp spec fn pose_ring_capacity(ring: PoseRing) -> nat;

/// Calls `AllocRingBuffer::with_capacity`: an empty ring of capacity `cap`.
#[verifier::external_body]
pub(crate) fn pose_ring_with_capacity(cap: usize) -> (ring: PoseRing)
    requires
        is_power_of_two(cap as nat),
    ensures
        pose_ring_items(ring) == Seq::<(Vector3, Vector3)>::empty(),
        pose_ring_capacity(ring) == cap,
{
    PoseRing { ring: AllocRingBuffer::with_capacity(cap) }
}

/// Calls `RingBufferWrite::push`: appends `pose`, dropping the oldest when full.
/// The crate counts pushes in a `usize`; that count overflowing is a machine limit
/// that this contract does not exclude.
#[verifier::external_body]
pub(crate) fn pose_ring_push(ring: &mut PoseRing, pose: (Vector3, Vector3))
    requires
        pose_ring_items(*old(ring)).len() <= pose_ring_capacity(*old(ring)),
    ensures
        pose_ring_capacity(*final(ring)) == pose_ring_capacity(*old(ring)),
        pose_ring_items(*final(ring)) == pushed_within(
            pose_ring_items(*old(ring)),
            pose_ring_capacity(*old(ring)),
            pose,
        ),
{
    ring.ring.push(pose)
}

/// Calls `RingBufferExt::get`: `None` on an empty ring, else the pose at `index`.
#[verifier::external_body]
pub(crate) fn pose_ring_get(ring: &PoseRing, index: isize) -> (pose: Option<&(Vector3, Vector3)>)
    ensures
        pose is None <==> pose_ring_items(*ring).len() == 0,
        pose matches Some(p) ==> *p == ring_at(pose_ring_items(*ring), index as int),
{
    ring.ring.get(index)
}

}
