//! The job dispatcher: three rings that trickle jobs down into single poses.
//!
//! Ring 1 holds jobs (lists of timed coordinates), ring 2 the coordinates
//! unpacked from them and ring 3 the poses (position and rotation) that the
//! arm is to move to. Each ring keeps a read and a write index of its own.
use vstd::prelude::*;
use crate::rings::{
    is_power_of_two, pushed_within, ring_at, JobRing, CoordinateRing, PoseRing, job_ring_items,
    job_ring_capacity, coordinate_ring_items, coordinate_ring_capacity, pose_ring_items,
    pose_ring_capacity, job_ring_with_capacity, coordinate_ring_with_capacity,
    pose_ring_with_capacity, job_ring_push, job_ring_get, coordinate_ring_push,
    coordinate_ring_get, pose_ring_push, pose_ring_get,
};

verus! {

/// Size of ring 1 as the dispatcher's index arithmetic sees it.
pub const RING1_SIZE: i32 = 10;
/// Size of ring 2 as the dispatcher's index arithmetic sees it.
pub const RING2_SIZE: i32 = 10;
/// Size of ring 3 as the dispatcher's index arithmetic sees it.
pub const RING3_SIZE: i32 = 10;
/// How many items each ring buffer really holds.
pub const RING_CAPACITY: usize = 4;

/// A vector of three integer components.
#[derive(Clone, Copy, Debug, PartialEq, Eq, Structural)]
pub struct Vector3 {
    pub x: i32,
    pub y: i32,
    pub z: i32,
}

impl Vector3 {
    pub fn new(x: i32, y: i32, z: i32) -> (v: Vector3)
        ensures
            v == (Vector3 { x, y, z }),
    {
        Vector3 { x, y, z }
    }
}

/// What a `TimedCoordinates` holds: name, timestamp, position and rotation.
pub type CoordinateView = (Seq<char>, u8, Vector3, Vector3);

/// A named, timestamped target: a position and a rotation.
#[derive(Clone, Debug, PartialEq)]
pub struct TimedCoordinates {
    pub name: String,
    pub timestamp: u8,
    pub vector: Vector3,
    pub rotation: Vector3,
}

impl DeepView for TimedCoordinates {
    type V = CoordinateView;

    open spec fn deep_view(&self) -> CoordinateView {
        (self.name@, self.timestamp, self.vector, self.rotation)
    }
}

impl TimedCoordinates {
    /// A copy of these coordinates.
    pub fn duplicate(&self) -> (c: TimedCoordinates)
        ensures
            c.deep_view() == self.deep_view(),
    {
        TimedCoordinates {
            name: self.name.clone(),
            timestamp: self.timestamp,
            vector: self.vector,
            rotation: self.rotation,
        }
    }
}

/// The ring could not be read or written.
#[derive(Debug, PartialEq, Eq, Structural)]
pub struct DataRingError;

impl DataRingError {
    /// The error's message.
    pub fn message(&self) -> (m: &'static str)
        ensures
            m@ == "Could not read/write ringbuffer"@,
    {
        "Could not read/write ringbuffer"
    }
}

/// An error caught by a ring helper function.
#[derive(Debug, PartialEq, Eq, Structural)]
pub struct DataRingHelperError;

impl DataRingHelperError {
    /// The error's message.
    pub fn message(&self) -> (m: &'static str)
        ensures
            m@ == "Error catched by ring-helper function"@,
    {
        "Error catched by ring-helper function"
    }
}

/// The size the index arithmetic assumes for ring `ring_no`.
pub open spec fn ring_size(ring_no: int) -> int {
    if ring_no == 0 {
        RING1_SIZE as int
    } else if ring_no == 1 {
        RING2_SIZE as int
    } else {
        RING3_SIZE as int
    }
}

/// Free slots of a ring of `size` slots with the given read and write index.
pub open spec fn remaining_slots(read: int, write: int, size: int) -> int {
    if write > read {
        read - 1 + size - write
    } else if read > write {
        read - write
    } else {
        size
    }
}

/// Requests waiting in a ring: how far the write index leads the read index.
pub open spec fn open_requests(read: int, write: int) -> int {
    if write > read {
        write - read
    } else {
        0
    }
}

/// The remainder of Rust's `%` on integers (it takes the sign of `a`), for `m > 0`.
pub open spec fn rem_trunc(a: int, m: int) -> int {
    if a >= 0 {
        a % m
    } else {
        -((-a) % m)
    }
}

/// An index moved one step on in a ring of `size` slots.
pub open spec fn advance(i: int, size: int) -> int {
    rem_trunc(i + 1, size)
}

/// The signed ring position that a read index stands for: index 0 is the newest item.
pub open spec fn translate(read_pointer: int) -> int {
    -read_pointer - 1
}

/// The dispatcher's state: what its rings hold and its read and write indices.
#[verifier::ext_equal]
pub ghost struct RingState {
    pub jobs: Seq<Seq<CoordinateView>>,
    pub coords: Seq<CoordinateView>,
    pub poses: Seq<(Vector3, Vector3)>,
    pub read_index: Seq<int>,
    pub write_index: Seq<int>,
}

impl RingState {
    /// Free slots of ring `ring_no`.
    pub open spec fn remaining(self, ring_no: int) -> int {
        remaining_slots(self.read_index[ring_no], self.write_index[ring_no], ring_size(ring_no))
    }

    /// Open requests of ring `ring_no`.
    pub open spec fn pending(self, ring_no: int) -> int {
        open_requests(self.read_index[ring_no], self.write_index[ring_no])
    }

    pub open spec fn with_read(self, ring_no: int, v: int) -> RingState {
        RingState { read_index: self.read_index.update(ring_no, v), ..self }
    }

    pub open spec fn with_write(self, ring_no: int, v: int) -> RingState {
        RingState { write_index: self.write_index.update(ring_no, v), ..self }
    }
}

/// The state of a freshly made dispatcher.
pub open spec fn initial_state() -> RingState {
    RingState {
        jobs: Seq::empty(),
        coords: Seq::empty(),
        poses: Seq::empty(),
        read_index: seq![0, 0, 0],
        write_index: seq![0, 0, 0],
    }
}

/// The state after `update_pointer(read_pointer, ring_no)`.
pub open spec fn step_pointer(s: RingState, read_pointer: bool, ring_no: int) -> RingState {
    if read_pointer {
        s.with_read(ring_no, advance(s.read_index[ring_no], ring_size(ring_no)))
    } else {
        s.with_write(ring_no, advance(s.write_index[ring_no], ring_size(ring_no)))
    }
}

/// The state after `push_to_ring1(job)`.
pub open spec fn push_job(s: RingState, job: Seq<CoordinateView>) -> RingState {
    RingState {
        jobs: pushed_within(s.jobs, RING_CAPACITY as nat, job),
        write_index: s.write_index.update(0, s.write_index[0] + 1),
        ..s
    }
}

/// The state and the answer of `set_job_from_ring3`.
pub open spec fn take_job(s: RingState) -> (RingState, Option<(Vector3, Vector3)>) {
    let r = if s.read_index[2] < -10 { -1 } else { s.read_index[2] - 1 };
    let s2 = s.with_read(2, r);
    (s2, if s.poses.len() == 0 { None } else { Some(ring_at(s.poses, r)) })
}

/// The state after one coordinate `c` is pushed into ring 2 and ring 2's write
/// index has moved one step on.
pub open spec fn push_coordinate(s: RingState, c: CoordinateView) -> RingState {
    RingState { coords: pushed_within(s.coords, RING_CAPACITY as nat, c), ..s }.with_write(
        1,
        advance(s.write_index[1], ring_size(1)),
    )
}

/// The state after the coordinates of `job` are pushed into ring 2 in order.
pub open spec fn unpack_job(s: RingState, job: Seq<CoordinateView>) -> RingState
    decreases job.len(),
{
    if job.len() == 0 {
        s
    } else {
        push_coordinate(unpack_job(s, job.drop_last()), job.last())
    }
}

/// The rest of `refill_ring2` from one turn of its loop: `read_pointer` is the
/// position whose job is measured against the `remaining` free slots of ring 2,
/// `transferred` the count so far and `done` of `open` requests handled.
/// Each turn unpacks the job at ring 1's current read index into ring 2 when
/// the measured job fits, and then moves ring 1's read index on; a job that
/// does not fit stops the refill with a count of 0. `None` where the refill
/// panics: ring 1 is empty, a job has more than `i32::MAX` coordinates, or the
/// count passes `i32::MAX`.
pub open spec fn refill2_loop(
    s: RingState,
    read_pointer: int,
    remaining: int,
    transferred: int,
    done: int,
    open: int,
) -> Option<(RingState, int)>
    decreases open - done,
{
    if remaining > 0 && done < open {
        if s.jobs.len() == 0 {
            None
        } else {
            let needed = ring_at(s.jobs, read_pointer).len();
            if needed > i32::MAX {
                None
            } else if remaining >= needed {
                let rp = translate(s.read_index[0]);
                let job = ring_at(s.jobs, rp);
                if transferred + job.len() + 1 > i32::MAX {
                    None
                } else {
                    let s2 = unpack_job(s, job);
                    let s3 = s2.with_read(0, advance(s2.read_index[0], ring_size(0)));
                    refill2_loop(s3, rp, s2.remaining(1), transferred + job.len() + 1, done + 1, open)
                }
            } else {
                Some((s, 0))
            }
        }
    } else {
        Some((s, transferred))
    }
}

/// The state and the count of `refill_ring2`, or `None` where it panics.
pub open spec fn refill2(s: RingState) -> Option<(RingState, int)> {
    refill2_loop(s, translate(s.read_index[0]), s.remaining(1), 1, 0, s.pending(0))
}

/// The rest of `refill_ring3` from one turn of its loop: while ring 3 has free
/// slots (`remaining`, counted once) and fewer than `open` coordinates were
/// moved, the coordinate at `read_pointer` goes into ring 3 as a pose and ring
/// 2's read index moves one step on. `None` where it panics: ring 2 is empty.
pub open spec fn refill3_loop(
    s: RingState,
    read_pointer: int,
    remaining: int,
    transferred: int,
    open: int,
) -> Option<(RingState, int)>
    decreases open - transferred,
{
    if remaining > 0 && open > transferred {
        if s.coords.len() == 0 {
            None
        } else {
            let c = ring_at(s.coords, read_pointer);
            let s2 = RingState { poses: pushed_within(s.poses, RING_CAPACITY as nat, (c.2, c.3)), ..s };
            let s3 = s2.with_read(1, advance(s2.read_index[1], ring_size(1)));
            refill3_loop(s3, translate(s3.read_index[1]), remaining, transferred + 1, open)
        }
    } else {
        Some((s, transferred))
    }
}

/// The state and the count of `refill_ring3`, or `None` where it panics.
pub open spec fn refill3(s: RingState) -> Option<(RingState, int)> {
    refill3_loop(s, translate(s.read_index[1]), s.remaining(2), 0, s.pending(1))
}

/// The state after `auto_refill_rings`, or `None` where it panics.
pub open spec fn auto_refill(s: RingState) -> Option<RingState> {
    match refill2(s) {
        Some((s2, _)) => match refill3(s2) {
            Some((s3, _)) => Some(s3),
            None => None,
        },
        None => None,
    }
}

/// A dispatcher.
pub struct RingManager {
    r1: JobRing,
    r2: CoordinateRing,
    r3: PoseRing,
    read_index: [i32; 3],
    write_index: [i32; 3],
}

impl View for RingManager {
    type V = RingState;

    closed spec fn view(&self) -> RingState {
        RingState {
            jobs: job_ring_items(self.r1),
            coords: coordinate_ring_items(self.r2),
            poses: pose_ring_items(self.r3),
            read_index: self.read_index@.map_values(|v: i32| v as int),
            write_index: self.write_index@.map_values(|v: i32| v as int),
        }
    }
}

/// The bounds that every operation keeps on a dispatcher's state: each ring
/// holds at most `RING_CAPACITY` items, the read and write indices of rings 1
/// and 2 and the write index of ring 3 lie in `0..10`, ring 1's write index
/// is not negative and ring 3's read index lies in `-11..10`.
pub open spec fn state_bounds(s: RingState) -> bool {
    &&& s.jobs.len() <= RING_CAPACITY
    &&& s.coords.len() <= RING_CAPACITY
    &&& s.poses.len() <= RING_CAPACITY
    &&& s.read_index.len() == 3
    &&& s.write_index.len() == 3
    &&& 0 <= s.read_index[0] < 10
    &&& 0 <= s.read_index[1] < 10
    &&& -11 <= s.read_index[2] < 10
    &&& 0 <= s.write_index[0] <= i32::MAX
    &&& 0 <= s.write_index[1] < 10
    &&& 0 <= s.write_index[2] < 10
}

/// The size of ring `ring_no`.
fn ring_size_at(ring_no: usize) -> (size: i32)
    requires
        ring_no < 3,
    ensures
        size == ring_size(ring_no as int),
{
    if ring_no == 0 {
        RING1_SIZE
    } else if ring_no == 1 {
        RING2_SIZE
    } else {
        RING3_SIZE
    }
}

/// A copy of a job.
fn duplicate_job(job: &Vec<TimedCoordinates>) -> (copy: Vec<TimedCoordinates>)
    ensures
        copy.deep_view() == job.deep_view(),
{
    let mut copy: Vec<TimedCoordinates> = Vec::new();
    for i in 0..job.len()
        invariant
            copy.deep_view() == job.deep_view().take(i as int),
    {
        let ghost prev = copy.deep_view();
        let c = job[i].duplicate();
        copy.push(c);
        proof {
            assert(copy.deep_view() =~= prev.push(c.deep_view()));
            assert(copy.deep_view() =~= job.deep_view().take(i + 1));
        }
    }
    proof {
        assert(job.deep_view().take(job.len() as int) =~= job.deep_view());
    }
    copy
}

impl RingManager {
    /// The manager is well formed: its state keeps `state_bounds` and its rings
    /// were made with `RING_CAPACITY`.
    pub closed spec fn wf(&self) -> bool {
        &&& state_bounds(self@)
        &&& job_ring_capacity(self.r1) == RING_CAPACITY
        &&& coordinate_ring_capacity(self.r2) == RING_CAPACITY
        &&& pose_ring_capacity(self.r3) == RING_CAPACITY
    }

    /// A well-formed manager's state keeps `state_bounds`.
    pub proof fn lemma_wf_bounds(&self)
        requires
            self.wf(),
        ensures
            state_bounds(self@),
    {
    }

    /// An empty dispatcher with all indices at zero.
    pub fn new() -> (rm: RingManager)
        ensures
            rm.wf(),
            rm@ == initial_state(),
    {
        assert(is_power_of_two(4)) by {
            reveal_with_fuel(is_power_of_two, 3);
        }
        let rm = RingManager {
            r1: job_ring_with_capacity(RING_CAPACITY),
            r2: coordinate_ring_with_capacity(RING_CAPACITY),
            r3: pose_ring_with_capacity(RING_CAPACITY),
            read_index: [0; 3],
            write_index: [0; 3],
        };
        assert(rm@.read_index =~= seq![0int, 0, 0]);
        assert(rm@.write_index =~= seq![0int, 0, 0]);
        assert(rm@ =~= initial_state());
        rm
    }

    /// The read index of ring `ring_no`.
    pub fn read_index(&self, ring_no: usize) -> (i: i32)
        requires
            ring_no < 3,
        ensures
            i == self@.read_index[ring_no as int],
    {
        self.read_index[ring_no]
    }

    /// The write index of ring `ring_no`.
    pub fn write_index(&self, ring_no: usize) -> (i: i32)
        requires
            ring_no < 3,
        ensures
            i == self@.write_index[ring_no as int],
    {
        self.write_index[ring_no]
    }

    /// Free slots of ring `ring_no`, as its indices count them.
    pub fn get_remaining_slots(&self, ring_no: usize) -> (slots: i32)
        requires
            self.wf(),
            ring_no < 3,
        ensures
            slots == self@.remaining(ring_no as int),
            ring_no == 1 ==> 0 <= slots <= 10,
    {
        let size = ring_size_at(ring_no);
        if self.write_index[ring_no] > self.read_index[ring_no] {
            self.read_index[ring_no] - 1 + size - self.write_index[ring_no]
        } else if self.read_index[ring_no] > self.write_index[ring_no] {
            self.read_index[ring_no] - self.write_index[ring_no]
        } else {
            size
        }
    }

    /// The range `(current_buffer, current_buffer - requested_length)` of a
    /// request, refused when it reaches past the ring's size while the ring has
    /// fewer free slots than requested.
    pub fn get_valid_buffer_ranger(
        &self,
        ring_no: usize,
        current_buffer: i32,
        requested_length: i32,
    ) -> (range: Result<(i32, i32), DataRingError>)
        requires
            self.wf(),
            ring_no < 3,
            i32::MIN <= current_buffer - requested_length <= i32::MAX,
        ensures
            range == (if current_buffer - requested_length > ring_size(ring_no as int)
                && self@.remaining(ring_no as int) < requested_length {
                Err::<(i32, i32), DataRingError>(DataRingError)
            } else {
                Ok((current_buffer, (current_buffer - requested_length) as i32))
            }),
    {
        let tuple = (current_buffer, current_buffer - requested_length);
        if tuple.1 > ring_size_at(ring_no) && self.get_remaining_slots(ring_no) < requested_length {
            Err(DataRingError)
        } else {
            Ok(tuple)
        }
    }

    /// Requests waiting in ring `ring_no`: how far its write index leads its read index.
    pub fn get_open_requests(&self, ring_no: usize) -> (n: i32)
        requires
            self.wf(),
            ring_no < 3,
        ensures
            n == self@.pending(ring_no as int),
    {
        if self.write_index[ring_no] > self.read_index[ring_no] {
            self.write_index[ring_no] - self.read_index[ring_no]
        } else {
            0
        }
    }

    /// Moves the read index (`read_pointer`) or the write index of ring
    /// `ring_no` one step on, modulo the ring's size, and returns the ring's read index.
    pub fn update_pointer(&mut self, read_pointer: bool, ring_no: i32) -> (read: i32)
        requires
            old(self).wf(),
            0 <= ring_no < 3,
            !read_pointer && ring_no == 0 ==> old(self)@.write_index[0] < i32::MAX,
        ensures
            final(self).wf(),
            final(self)@ == step_pointer(old(self)@, read_pointer, ring_no as int),
            read == final(self)@.read_index[ring_no as int],
    {
        let r = ring_no as usize;
        let size = ring_size_at(r);
        if read_pointer {
            self.read_index[r] = (self.read_index[r] + 1) % size;
        } else {
            self.write_index[r] = (self.write_index[r] + 1) % size;
        }
        proof {
            assert(self@.read_index =~= step_pointer(old(self)@, read_pointer, ring_no as int).read_index);
            assert(self@.write_index =~= step_pointer(old(self)@, read_pointer, ring_no as int).write_index);
            assert(self@ =~= step_pointer(old(self)@, read_pointer, ring_no as int));
        }
        self.read_index[r]
    }

    /// The signed ring position that read index `rp` stands for: `-rp - 1`.
    pub fn translate_read_pointer(&mut self, rp: i32) -> (p: isize)
        requires
            rp > i32::MIN,
        ensures
            p == translate(rp as int),
            *final(self) == *old(self),
    {
        (-rp - 1) as isize
    }

    /// Takes the next pose from ring 3: its read index moves one step back
    /// (to `-1` once it is below `-10`) and the pose there is returned, or
    /// `None` while ring 3 is empty.
    pub fn set_job_from_ring3(&mut self) -> (pose: Option<(Vector3, Vector3)>)
        requires
            old(self).wf(),
        ensures
            final(self).wf(),
            (final(self)@, pose) == take_job(old(self)@),
    {
        if self.read_index[2] < -10 {
            self.read_index[2] = -1;
        } else {
            self.read_index[2] = self.read_index[2] - 1;
        }
        proof {
            assert(self@.read_index =~= take_job(old(self)@).0.read_index);
            assert(self@ =~= take_job(old(self)@).0);
        }
        match pose_ring_get(&self.r3, self.read_index[2] as isize) {
            Some(p) => Some(*p),
            None => None,
        }
    }

    /// Queues a job in ring 1 and returns `RING1_SIZE` less ring 1's new write index.
    pub fn push_to_ring1(&mut self, i: Vec<TimedCoordinates>) -> (left: i32)
        requires
            old(self).wf(),
            old(self)@.write_index[0] < i32::MAX,
        ensures
            final(self).wf(),
            final(self)@ == push_job(old(self)@, i.deep_view()),
            left == RING1_SIZE - final(self)@.write_index[0],
    {
        job_ring_push(&mut self.r1, i);
        self.write_index[0] = self.write_index[0] + 1;
        proof {
            assert(self@.write_index =~= push_job(old(self)@, i.deep_view()).write_index);
            assert(self@ =~= push_job(old(self)@, i.deep_view()));
        }
        RING1_SIZE - self.write_index[0]
    }

    /// A copy of the job at signed position `index` of ring 1 (`-1` is the
    /// newest), or `None` while ring 1 is empty.
    pub fn job_at(&self, index: isize) -> (job: Option<Vec<TimedCoordinates>>)
        ensures
            job is None <==> self@.jobs.len() == 0,
            job matches Some(j) ==> j.deep_view() == ring_at(self@.jobs, index as int),
    {
        match job_ring_get(&self.r1, index) {
            Some(j) => Some(duplicate_job(j)),
            None => None,
        }
    }

    /// A copy of the coordinates at signed position `index` of ring 2, or
    /// `None` while ring 2 is empty.
    pub fn coordinates_at(&self, index: isize) -> (c: Option<TimedCoordinates>)
        ensures
            c is None <==> self@.coords.len() == 0,
            c matches Some(c) ==> c.deep_view() == ring_at(self@.coords, index as int),
    {
        match coordinate_ring_get(&self.r2, index) {
            Some(c) => Some(c.duplicate()),
            None => None,
        }
    }

    /// The pose at signed position `index` of ring 3, or `None` while ring 3 is empty.
    pub fn pose_at(&self, index: isize) -> (p: Option<(Vector3, Vector3)>)
        ensures
            p is None <==> self@.poses.len() == 0,
            p matches Some(p) ==> p == ring_at(self@.poses, index as int),
    {
        match pose_ring_get(&self.r3, index) {
            Some(p) => Some(*p),
            None => None,
        }
    }

    /// Unpacks waiting jobs of ring 1 into ring 2 (see `refill2_loop`) and
    /// returns the count of transferred elements, or 0 when a job did not fit.
    pub fn refill_ring2(&mut self) -> (transferred: i32)
        requires
            old(self).wf(),
            refill2(old(self)@) is Some,
        ensures
            final(self).wf(),
            refill2(old(self)@) == Some((final(self)@, transferred as int)),
    {
        let ghost start = self@;
        let mut transferred_elements: i32 = 1;
        let mut remaining_space = self.get_remaining_slots(1);
        let open_requests = self.get_open_requests(0);
        let mut transferred_requests: i32 = 0;
        let mut read_pointer = self.translate_read_pointer(self.read_index[0]);
        while remaining_space > 0 && transferred_requests < open_requests
            invariant_except_break
                self.wf(),
                0 <= transferred_requests <= open_requests,
                remaining_space == self@.remaining(1),
                refill2(start) == refill2_loop(
                    self@,
                    read_pointer as int,
                    remaining_space as int,
                    transferred_elements as int,
                    transferred_requests as int,
                    open_requests as int,
                ),
                refill2(start) is Some,
            ensures
                self.wf(),
                refill2(start) == Some((self@, transferred_elements as int)),
            decreases open_requests - transferred_requests,
        {
            let requested_space = job_ring_get(&self.r1, read_pointer).unwrap().len();
            if remaining_space >= requested_space as i32 {
                read_pointer = self.translate_read_pointer(self.read_index[0]);
                let job = duplicate_job(job_ring_get(&self.r1, read_pointer).unwrap());
                let ghost before = self@;
                let ghost t0 = transferred_elements;
                let ghost job_view = job.deep_view();
                for i in 0..job.len()
                    invariant
                        self.wf(),
                        job.deep_view() == job_view,
                        self@ == unpack_job(before, job_view.take(i as int)),
                        transferred_elements == t0 + i,
                        t0 + job_view.len() + 1 <= i32::MAX,
                {
                    let ghost prev = self@;
                    coordinate_ring_push(&mut self.r2, job[i].duplicate());
                    transferred_elements += 1;
                    proof {
                        assert(self@.coords == pushed_within(prev.coords, RING_CAPACITY as nat, job_view[i as int]));
                    }
                    self.update_pointer(false, 1);
                    proof {
                        assert(job_view.take(i + 1).drop_last() =~= job_view.take(i as int));
                        assert(self@ =~= push_coordinate(prev, job_view[i as int]));
                    }
                }
                proof {
                    assert(job_view.take(job_view.len() as int) =~= job_view);
                }
                transferred_elements += 1;
            } else {
                transferred_elements = 0;
                break;
            }
            remaining_space = self.get_remaining_slots(1);
            let _ = self.update_pointer(true, 0);
            transferred_requests += 1;
        }
        transferred_elements
    }

    /// Moves waiting coordinates of ring 2 into ring 3 as poses (see
    /// `refill3_loop`) and returns how many it moved.
    pub fn refill_ring3(&mut self) -> (transferred: i32)
        requires
            old(self).wf(),
            refill3(old(self)@) is Some,
        ensures
            final(self).wf(),
            refill3(old(self)@) == Some((final(self)@, transferred as int)),
    {
        let ghost start = self@;
        let mut transferred_elements: i32 = 0;
        let remaining_space = self.get_remaining_slots(2);
        let mut read_pointer = self.translate_read_pointer(self.read_index[1]);
        let open_requests = self.get_open_requests(1);
        while remaining_space > 0 && open_requests > transferred_elements
            invariant
                self.wf(),
                0 <= transferred_elements,
                transferred_elements <= open_requests || !(remaining_space > 0),
                open_requests <= 10,
                refill3(start) == refill3_loop(
                    self@,
                    read_pointer as int,
                    remaining_space as int,
                    transferred_elements as int,
                    open_requests as int,
                ),
                refill3(start) is Some,
            decreases open_requests - transferred_elements,
        {
            let c = coordinate_ring_get(&self.r2, read_pointer).unwrap();
            let pose = (c.vector, c.rotation);
            let ghost prev = self@;
            pose_ring_push(&mut self.r3, pose);
            proof {
                assert(self@ =~= RingState { poses: pushed_within(prev.poses, RING_CAPACITY as nat, pose), ..prev });
            }
            self.update_pointer(true, 1);
            transferred_elements += 1;
            read_pointer = self.translate_read_pointer(self.read_index[1]);
        }
        transferred_elements
    }

    /// Refills ring 2 from ring 1 and then ring 3 from ring 2; always `Ok`.
    pub fn auto_refill_rings(&mut self) -> (r: Result<(), DataRingError>)
        requires
            old(self).wf(),
            auto_refill(old(self)@) is Some,
        ensures
            final(self).wf(),
            auto_refill(old(self)@) == Some(final(self)@),
            r is Ok,
    {
        let _ = self.refill_ring2();
        let _ = self.refill_ring3();
        Ok(())
    }
}

/// The state after `k` calls of `set_job_from_ring3`.
pub open spec fn take_jobs(s: RingState, k: nat) -> RingState
    decreases k,
{
    if k == 0 {
        s
    } else {
        take_job(take_jobs(s, (k - 1) as nat)).0
    }
}

/// The pose that a coordinate becomes in ring 3.
pub open spec fn pose_of(c: CoordinateView) -> (Vector3, Vector3) {
    (c.2, c.3)
}

/// The poses that ring 3 holds after the last `k` coordinates of `job` were
/// moved from ring 2, newest coordinate first.
pub open spec fn reversed_poses(job: Seq<CoordinateView>, k: int) -> Seq<(Vector3, Vector3)> {
    Seq::new(k as nat, |i: int| pose_of(job[job.len() - 1 - i]))
}

proof fn lemma_unpack_into_empty(s: RingState, job: Seq<CoordinateView>)
    requires
        s.coords.len() == 0,
        s.write_index.len() == 3,
        s.write_index[1] == 0,
        job.len() <= RING_CAPACITY,
    ensures
        unpack_job(s, job) == (RingState {
            coords: job,
            write_index: s.write_index.update(1, job.len() as int),
            ..s
        }),
    decreases job.len(),
{
    if job.len() == 0 {
        assert(s.write_index.update(1, 0) =~= s.write_index);
        assert(job =~= s.coords);
        assert(unpack_job(s, job) =~= RingState { coords: job, write_index: s.write_index.update(1, 0), ..s });
    } else {
        lemma_unpack_into_empty(s, job.drop_last());
        assert(job.drop_last().push(job.last()) =~= job);
        let n = job.len() as int;
        assert(advance(n - 1, 10) == n);
        let t = RingState { coords: job, write_index: s.write_index.update(1, n), ..s };
        assert(unpack_job(s, job).write_index =~= t.write_index);
        assert(unpack_job(s, job) =~= t);
    }
}

proof fn lemma_mod_back(n: int, k: int)
    requires
        1 <= n <= 4,
        0 <= k < n,
    ensures
        (-k - 1) % n == n - 1 - k,
{
    if n == 1 {
    } else if n == 2 {
    } else if n == 3 {
    } else {
    }
}

proof fn lemma_refill3_lone(s: RingState, job: Seq<CoordinateView>, k: int)
    requires
        1 <= job.len() <= RING_CAPACITY,
        0 <= k <= job.len(),
        s.coords == job,
        s.read_index.len() == 3,
        s.read_index[1] == k,
        s.poses == reversed_poses(job, k),
    ensures
        refill3_loop(s, translate(k), 10, k, job.len() as int) == Some((
            RingState {
                poses: reversed_poses(job, job.len() as int),
                read_index: s.read_index.update(1, job.len() as int),
                ..s
            },
            job.len() as int,
        )),
    decreases job.len() - k,
{
    let n = job.len() as int;
    if k == n {
        assert(s.read_index.update(1, n) =~= s.read_index);
        assert(s =~= RingState { poses: reversed_poses(job, n), read_index: s.read_index.update(1, n), ..s });
    } else {
        lemma_mod_back(n, k);
        let c = ring_at(s.coords, translate(k));
        assert(c == job[n - 1 - k]);
        let s2 = RingState { poses: pushed_within(s.poses, RING_CAPACITY as nat, pose_of(c)), ..s };
        assert(s2.poses =~= reversed_poses(job, k + 1));
        let s3 = s2.with_read(1, advance(k, 10));
        assert(advance(k, 10) == k + 1);
        lemma_refill3_lone(s3, job, k + 1);
        assert(s3.read_index.update(1, n) =~= s.read_index.update(1, n));
    }
}

proof fn lemma_take_jobs_index(s: RingState, k: nat)
    requires
        s.read_index.len() == 3,
        s.read_index[2] == 0,
        k <= 10,
    ensures
        take_jobs(s, k).read_index.len() == 3,
        take_jobs(s, k).read_index[2] == -k,
        take_jobs(s, k).poses == s.poses,
    decreases k,
{
    if k > 0 {
        lemma_take_jobs_index(s, (k - 1) as nat);
    }
}

/// `t` keeps what refilling ring 2 from ring 1 must not touch in `s`: ring 1's
/// jobs and write index, ring 3 and its indices, and ring 2's read index.
pub open spec fn keeps_outside_ring2_refill(s: RingState, t: RingState) -> bool {
    &&& t.jobs == s.jobs
    &&& t.poses == s.poses
    &&& t.read_index.len() == 3
    &&& t.write_index.len() == 3
    &&& t.read_index[1] == s.read_index[1]
    &&& t.read_index[2] == s.read_index[2]
    &&& t.write_index[0] == s.write_index[0]
    &&& t.write_index[2] == s.write_index[2]
}

/// `t` keeps what refilling ring 3 from ring 2 must not touch in `s`: rings 1
/// and 2, all write indices and the read indices of rings 1 and 3.
pub open spec fn keeps_outside_ring3_refill(s: RingState, t: RingState) -> bool {
    &&& t.jobs == s.jobs
    &&& t.coords == s.coords
    &&& t.read_index.len() == 3
    &&& t.read_index[0] == s.read_index[0]
    &&& t.read_index[2] == s.read_index[2]
    &&& t.write_index == s.write_index
}

proof fn lemma_unpack_keeps(s: RingState, job: Seq<CoordinateView>)
    requires
        s.read_index.len() == 3,
        s.write_index.len() == 3,
    ensures
        keeps_outside_ring2_refill(s, unpack_job(s, job)),
        unpack_job(s, job).read_index == s.read_index,
    decreases job.len(),
{
    if job.len() > 0 {
        lemma_unpack_keeps(s, job.drop_last());
    }
}

proof fn lemma_refill2_loop_keeps(
    s0: RingState,
    s: RingState,
    read_pointer: int,
    remaining: int,
    transferred: int,
    done: int,
    open: int,
)
    requires
        keeps_outside_ring2_refill(s0, s),
        refill2_loop(s, read_pointer, remaining, transferred, done, open) is Some,
    ensures
        keeps_outside_ring2_refill(
            s0,
            refill2_loop(s, read_pointer, remaining, transferred, done, open).unwrap().0,
        ),
    decreases open - done,
{
    if remaining > 0 && done < open {
        let needed = ring_at(s.jobs, read_pointer).len();
        if remaining >= needed {
            let rp = translate(s.read_index[0]);
            let job = ring_at(s.jobs, rp);
            lemma_unpack_keeps(s, job);
            let s2 = unpack_job(s, job);
            let s3 = s2.with_read(0, advance(s2.read_index[0], ring_size(0)));
            lemma_refill2_loop_keeps(s0, s3, rp, s2.remaining(1), transferred + job.len() + 1, done + 1, open);
        }
    }
}

/// Refilling ring 2 (`refill_ring2`) leaves ring 1's jobs and write index,
/// ring 3 with its indices, and ring 2's read index as they were.
pub proof fn lemma_refill_ring2_keeps_other_rings(s: RingState)
    requires
        s.read_index.len() == 3,
        s.write_index.len() == 3,
        refill2(s) is Some,
    ensures
        keeps_outside_ring2_refill(s, refill2(s).unwrap().0),
{
    lemma_refill2_loop_keeps(s, s, translate(s.read_index[0]), s.remaining(1), 1, 0, s.pending(0));
}

proof fn lemma_refill3_loop_moves_all(
    s0: RingState,
    s: RingState,
    read_pointer: int,
    remaining: int,
    transferred: int,
    open: int,
)
    requires
        keeps_outside_ring3_refill(s0, s),
        refill3_loop(s, read_pointer, remaining, transferred, open) is Some,
        transferred <= open || remaining <= 0,
    ensures
        keeps_outside_ring3_refill(s0, refill3_loop(s, read_pointer, remaining, transferred, open).unwrap().0),
        refill3_loop(s, read_pointer, remaining, transferred, open).unwrap().1 == if remaining > 0 {
            open
        } else {
            transferred
        },
    decreases open - transferred,
{
    if remaining > 0 && open > transferred {
        let c = ring_at(s.coords, read_pointer);
        let s2 = RingState { poses: pushed_within(s.poses, RING_CAPACITY as nat, (c.2, c.3)), ..s };
        let s3 = s2.with_read(1, advance(s2.read_index[1], ring_size(1)));
        lemma_refill3_loop_moves_all(s0, s3, translate(s3.read_index[1]), remaining, transferred + 1, open);
    }
}

/// Refilling ring 3 (`refill_ring3`) moves every open request of ring 2 when
/// ring 3 has free slots and none otherwise, and leaves rings 1 and 2, all
/// write indices and the read indices of rings 1 and 3 as they were.
pub proof fn lemma_refill_ring3_moves_open_requests(s: RingState)
    requires
        s.read_index.len() == 3,
        refill3(s) is Some,
    ensures
        keeps_outside_ring3_refill(s, refill3(s).unwrap().0),
        refill3(s).unwrap().1 == if s.remaining(2) > 0 { s.pending(1) } else { 0 },
{
    lemma_refill3_loop_moves_all(s, s, translate(s.read_index[1]), s.remaining(2), 0, s.pending(1));
}

/// Each job queued in ring 1 adds exactly one open request of ring 1, as long
/// as ring 1's write index does not trail its read index.
pub proof fn lemma_push_adds_one_request(s: RingState, job: Seq<CoordinateView>)
    requires
        state_bounds(s),
        s.read_index[0] <= s.write_index[0] < i32::MAX,
    ensures
        push_job(s, job).pending(0) == s.pending(0) + 1,
{
}

/// `update_pointer` moves exactly one index one step on modulo 10 (ring 3's
/// read index, which can be negative, goes from -11 to 0 and otherwise up by
/// one while negative), and touches nothing else.
pub proof fn lemma_update_pointer_moves_one_index(s: RingState, read_pointer: bool, ring_no: int)
    requires
        state_bounds(s),
        0 <= ring_no < 3,
    ensures
        read_pointer ==> step_pointer(s, read_pointer, ring_no).read_index[ring_no] == if s.read_index[ring_no] + 1 >= 0 {
            (s.read_index[ring_no] + 1) % 10
        } else if s.read_index[ring_no] == -11 {
            0
        } else {
            s.read_index[ring_no] + 1
        },
        !read_pointer ==> step_pointer(s, read_pointer, ring_no).write_index[ring_no] == (s.write_index[ring_no] + 1) % 10,
        step_pointer(s, read_pointer, ring_no).jobs == s.jobs,
        step_pointer(s, read_pointer, ring_no).coords == s.coords,
        step_pointer(s, read_pointer, ring_no).poses == s.poses,
        step_pointer(s, read_pointer, ring_no).read_index.len() == 3,
        step_pointer(s, read_pointer, ring_no).write_index.len() == 3,
        forall|j: int| 0 <= j < 3 && j != ring_no ==> step_pointer(s, read_pointer, ring_no).read_index[j] == s.read_index[j],
        forall|j: int| 0 <= j < 3 && j != ring_no ==> step_pointer(s, read_pointer, ring_no).write_index[j] == s.write_index[j],
        read_pointer ==> step_pointer(s, read_pointer, ring_no).write_index == s.write_index,
        !read_pointer ==> step_pointer(s, read_pointer, ring_no).read_index == s.read_index,
{
    let i = if read_pointer { s.read_index[ring_no] } else { s.write_index[ring_no] };
    assert(ring_size(ring_no) == 10);
    if i + 1 < 0 {
        assert(-11 <= i < -1);
        if i == -11 {
            assert(rem_trunc(i + 1, 10) == 0);
        } else {
            assert((-(i + 1)) % 10 == -(i + 1));
        }
    }
}

/// Queuing a job touches nothing but ring 1 and its write index: ring 2, ring
/// 3 and all other indices stay as they were, so the next pose that
/// `set_job_from_ring3` hands out is the same before and after the push.
pub proof fn lemma_push_touches_only_ring1(s: RingState, job: Seq<CoordinateView>)
    requires
        state_bounds(s),
    ensures
        push_job(s, job).coords == s.coords,
        push_job(s, job).poses == s.poses,
        push_job(s, job).read_index == s.read_index,
        push_job(s, job).write_index.len() == 3,
        push_job(s, job).write_index[0] == s.write_index[0] + 1,
        push_job(s, job).write_index[1] == s.write_index[1],
        push_job(s, job).write_index[2] == s.write_index[2],
        take_job(push_job(s, job)).1 == take_job(s).1,
        take_job(push_job(s, job)).0.read_index == take_job(s).0.read_index,
{
}

/// Taking a job from ring 3 moves its read index one step back, from `-1`
/// down to `-11` and then round to `-1` again, and touches nothing else.
pub proof fn lemma_take_job_read_index(s: RingState)
    requires
        state_bounds(s),
        s.read_index[2] <= 0,
    ensures
        take_job(s).0.read_index[2] == if s.read_index[2] < -10 { -1 } else { s.read_index[2] - 1 },
        -11 <= take_job(s).0.read_index[2] <= -1,
        take_job(s).0.jobs == s.jobs,
        take_job(s).0.coords == s.coords,
        take_job(s).0.poses == s.poses,
        take_job(s).0.read_index[0] == s.read_index[0],
        take_job(s).0.read_index[1] == s.read_index[1],
        take_job(s).0.write_index == s.write_index,
        state_bounds(take_job(s).0),
{
}

/// A lone job of one to four coordinates, queued in a fresh dispatcher whose
/// rings are then refilled, leaves ring 3 first in, first out: the `k`-th call
/// of `set_job_from_ring3` (counting from 0) answers the position and rotation
/// of the job's `k`-th coordinate.
pub proof fn lemma_lone_job_first_in_first_out(job: Seq<CoordinateView>, k: nat)
    requires
        1 <= job.len() <= RING_CAPACITY,
        k < job.len(),
    ensures
        auto_refill(push_job(initial_state(), job)) is Some,
        take_job(take_jobs(auto_refill(push_job(initial_state(), job))->0, k)).1 == Some(
            pose_of(job[k as int]),
        ),
{
    let n = job.len() as int;
    let s1 = push_job(initial_state(), job);
    assert(s1.jobs =~= seq![job]);
    assert(s1.write_index =~= seq![1int, 0, 0]);
    lemma_unpack_into_empty(s1, job);
    let s2 = unpack_job(s1, job);
    let s3 = s2.with_read(0, 1);
    assert(ring_at(s1.jobs, -1) == job);
    assert(s2.remaining(1) == 9 - n);
    assert(refill2_loop(s3, -1, s2.remaining(1), n + 2, 1, 1) == Some((s3, n + 2)));
    assert(refill2(s1) == Some((s3, n + 2)));
    assert(s3.pending(1) == n);
    assert(s3.remaining(2) == 10);
    assert(s3.poses =~= reversed_poses(job, 0));
    lemma_refill3_lone(s3, job, 0);
    let s4 = RingState {
        poses: reversed_poses(job, n),
        read_index: s3.read_index.update(1, n),
        ..s3
    };
    assert(refill3(s3) == Some((s4, n)));
    assert(auto_refill(s1) == Some(s4));
    lemma_take_jobs_index(s4, k);
    let t = take_jobs(s4, k);
    lemma_mod_back(n, k as int);
    assert(take_job(t).1 == Some(ring_at(s4.poses, -(k as int) - 1)));
}

/// A job queued in ring 1 is its newest job: position `-1` answers it, and
/// the ring never holds more than `RING_CAPACITY` jobs.
pub proof fn lemma_pushed_job_is_newest(s: RingState, job: Seq<CoordinateView>)
    requires
        state_bounds(s),
    ensures
        ring_at(push_job(s, job).jobs, -1) == job,
        push_job(s, job).jobs.len() <= RING_CAPACITY,
        push_job(s, job).write_index[0] == s.write_index[0] + 1,
{
    let j = push_job(s, job).jobs;
    assert(j.len() >= 1);
    lemma_mod_back(j.len() as int, 0);
}

/// The pose that the tracker dispatches for one target position: the target
/// goes through all three rings as the only coordinate of a job named "Test"
/// with timestamp 10 and rotation (1, 2, 3), and comes out of ring 3 first.
pub fn tracker_job(vector: Vector3) -> (pose: (Vector3, Vector3))
    ensures
        pose == (vector, Vector3 { x: 1, y: 2, z: 3 }),
{
    let mut rm = RingManager::new();
    let tc = TimedCoordinates {
        name: String::from_str("Test"),
        timestamp: 10,
        vector,
        rotation: Vector3::new(1, 2, 3),
    };
    let mut job: Vec<TimedCoordinates> = Vec::new();
    job.push(tc);
    let ghost job_view = job.deep_view();
    let _ = rm.push_to_ring1(job);
    proof {
        lemma_lone_job_first_in_first_out(job_view, 0);
        assert(take_jobs(auto_refill(rm@)->0, 0) == auto_refill(rm@)->0);
    }
    let _ = rm.auto_refill_rings();
    rm.set_job_from_ring3().unwrap()
}

}
