use lpb::job_dispatcher::{tracker_job, RingManager, TimedCoordinates, Vector3, DataRingError, RING1_SIZE};

fn coords(name: &str, v: [i32; 3], r: [i32; 3]) -> TimedCoordinates {
    TimedCoordinates {
        name: name.to_string(),
        timestamp: 10,
        vector: Vector3::new(v[0], v[1], v[2]),
        rotation: Vector3::new(r[0], r[1], r[2]),
    }
}

#[test]
fn test_ringbuff_utils() {
    let mut rm = RingManager::new();
    let r1 = rm.get_valid_buffer_ranger(0, -1, 2);
    assert_eq!(-3, r1.unwrap().1);

    let tc = coords("Test", [11, 22, 33], [1, 2, 3]);
    let tc2 = coords("Test2", [44, 55, 66], [4, 5, 6]);
    let tc3 = coords("Test", [77, 88, 99], [7, 8, 9]);
    let tc4 = coords("Test2", [12, 23, 45], [22, 33, 44]);
    _ = rm.push_to_ring1(vec![tc, tc2]);
    _ = rm.push_to_ring1(vec![tc3, tc4]);

    assert_eq!(2, rm.get_open_requests(0));

    assert_eq!(-1, rm.translate_read_pointer(rm.read_index(0)));
    let mut v = rm.update_pointer(true, 0);
    assert_eq!(-2, rm.translate_read_pointer(v));
    v = rm.update_pointer(true, 0);
    assert_eq!(-3, rm.translate_read_pointer(v));
    v = rm.update_pointer(true, 0);
    assert_eq!(-4, rm.translate_read_pointer(v));
}

#[test]
fn test_push_into_empty_rings() {
    let mut rm = RingManager::new();
    let tc = coords("Test", [11, 22, 33], [1, 2, 3]);
    let tc2 = coords("Test2", [44, 55, 66], [4, 5, 6]);
    let ret = rm.push_to_ring1(vec![tc, tc2]);
    assert_eq!(RING1_SIZE - 1, ret);
}

#[test]
fn test_fill_r2() {
    let mut rm = RingManager::new();
    let tc = coords("Test1", [11, 22, 33], [1, 2, 3]);
    let tc2 = coords("Test2", [44, 55, 66], [4, 5, 6]);
    let tc3 = coords("Test3", [77, 88, 99], [7, 8, 9]);
    let tc4 = coords("Test4", [12, 23, 45], [22, 33, 44]);
    _ = rm.push_to_ring1(vec![tc, tc2]);
    _ = rm.push_to_ring1(vec![tc3, tc4]);

    for i in -2..0 {
        println!("#{:?}{:?}", i, rm.job_at(i));
    }

    let _ret = rm.refill_ring2();

    let mut r2_content = rm.coordinates_at(-2).unwrap();
    assert_eq!(r2_content, coords("Test1", [11, 22, 33], [1, 2, 3]));

    r2_content = rm.coordinates_at(-1).unwrap();
    assert_eq!(r2_content, coords("Test2", [44, 55, 66], [4, 5, 6]));
}

#[test]
fn test_fill_r3() {
    let mut rm = RingManager::new();
    let tc = coords("Test", [11, 22, 33], [1, 2, 3]);
    let tc2 = coords("Test2", [44, 55, 66], [4, 5, 6]);
    _ = rm.push_to_ring1(vec![tc, tc2]);
    let _ = rm.refill_ring2();
    let _ = rm.refill_ring3();

    let r3_content = rm.set_job_from_ring3().unwrap();
    let r32_content = rm.set_job_from_ring3().unwrap();

    assert_eq!(r32_content, (Vector3::new(44, 55, 66), Vector3::new(4, 5, 6)));
    assert_eq!(r3_content, (Vector3::new(11, 22, 33), Vector3::new(1, 2, 3)));
}

#[test]
fn trickle_down_r1_to_queue() {
    let mut rm = RingManager::new();
    let tc = coords("Test", [11, 22, 33], [1, 2, 3]);
    let tc2 = coords("Test2", [44, 55, 66], [4, 5, 6]);
    _ = rm.push_to_ring1(vec![tc, tc2]);

    _ = rm.auto_refill_rings();

    let r3_content = rm.set_job_from_ring3().unwrap();
    let r32_content = rm.set_job_from_ring3().unwrap();

    assert_eq!(r32_content, (Vector3::new(44, 55, 66), Vector3::new(4, 5, 6)));
    assert_eq!(r3_content, (Vector3::new(11, 22, 33), Vector3::new(1, 2, 3)));
}

#[test]
fn test_overpush_ring() {
    let mut rm = RingManager::new();
    let tc = coords("Test", [11, 22, 33], [1, 2, 3]);
    let tc2 = coords("Test2", [44, 55, 66], [4, 5, 6]);
    let v = vec![tc, tc2];
    for _i in 0..9 {
        let x = v.clone();
        _ = rm.push_to_ring1(x);
    }
    assert_eq!(rm.push_to_ring1(v.clone()), 0);
}

#[test]
fn test_overpull_ring() {}

#[test]
fn fresh_manager_is_empty() {
    let rm = RingManager::new();
    for i in 0..3 {
        assert_eq!(rm.read_index(i), 0);
        assert_eq!(rm.write_index(i), 0);
        assert_eq!(rm.get_remaining_slots(i), 10);
        assert_eq!(rm.get_open_requests(i), 0);
    }
    assert!(rm.job_at(-1).is_none());
    assert!(rm.coordinates_at(0).is_none());
    assert!(rm.pose_at(0).is_none());
}

#[test]
fn remaining_slots_follow_the_indices() {
    let mut rm = RingManager::new();
    rm.update_pointer(false, 1);
    rm.update_pointer(false, 1);
    rm.update_pointer(false, 1);
    // write leads read: read - 1 + size - write
    assert_eq!(rm.get_remaining_slots(1), 0 - 1 + 10 - 3);
    assert_eq!(rm.get_open_requests(1), 3);
    rm.update_pointer(true, 1);
    rm.update_pointer(true, 1);
    rm.update_pointer(true, 1);
    rm.update_pointer(true, 1);
    // read leads write: read - write
    assert_eq!(rm.get_remaining_slots(1), 1);
    assert_eq!(rm.get_open_requests(1), 0);
}

#[test]
fn valid_buffer_range_is_refused_when_too_long() {
    let rm = RingManager::new();
    assert_eq!(rm.get_valid_buffer_ranger(1, 30, 11), Err(DataRingError));
    assert_eq!(rm.get_valid_buffer_ranger(1, 30, 10), Ok((30, 20)));
    assert_eq!(rm.get_valid_buffer_ranger(1, 5, 11), Ok((5, -6)));
}

#[test]
fn update_pointer_wraps_at_ring_size() {
    let mut rm = RingManager::new();
    let mut last = 0;
    for _ in 0..10 {
        last = rm.update_pointer(true, 2);
    }
    assert_eq!(last, 0);
    for _ in 0..9 {
        rm.update_pointer(false, 0);
    }
    assert_eq!(rm.write_index(0), 9);
    rm.update_pointer(false, 0);
    assert_eq!(rm.write_index(0), 0);
}

#[test]
fn ring1_keeps_the_newest_four_jobs() {
    let mut rm = RingManager::new();
    for k in 0..5 {
        let left = rm.push_to_ring1(vec![coords("J", [k, k, k], [0, 0, 0])]);
        assert_eq!(left, RING1_SIZE - (k + 1));
    }
    // the first job has been overwritten: the oldest left is the second one
    assert_eq!(rm.job_at(0).unwrap()[0].vector, Vector3::new(1, 1, 1));
    assert_eq!(rm.job_at(-1).unwrap()[0].vector, Vector3::new(4, 4, 4));
    assert_eq!(rm.job_at(4).unwrap()[0].vector, Vector3::new(1, 1, 1));
}

#[test]
fn set_job_index_wraps_below_minus_ten() {
    let mut rm = RingManager::new();
    _ = rm.push_to_ring1(vec![coords("T", [1, 2, 3], [4, 5, 6])]);
    _ = rm.auto_refill_rings();
    for _ in 0..11 {
        assert_eq!(rm.set_job_from_ring3(), Some((Vector3::new(1, 2, 3), Vector3::new(4, 5, 6))));
    }
    assert_eq!(rm.read_index(2), -11);
    _ = rm.set_job_from_ring3();
    assert_eq!(rm.read_index(2), -1);
}

#[test]
fn set_job_on_empty_ring3_is_none() {
    let mut rm = RingManager::new();
    assert_eq!(rm.set_job_from_ring3(), None);
    assert_eq!(rm.read_index(2), -1);
}

#[test]
fn refill_counts_and_stops_on_a_long_job() {
    let mut rm = RingManager::new();
    let long: Vec<TimedCoordinates> = (0..11).map(|k| coords("L", [k, 0, 0], [0, 0, 0])).collect();
    _ = rm.push_to_ring1(long);
    // eleven coordinates do not fit into the ten free slots of ring 2
    assert_eq!(rm.refill_ring2(), 0);
    assert_eq!(rm.read_index(0), 0);
    assert!(rm.coordinates_at(0).is_none());

    let mut rm = RingManager::new();
    _ = rm.push_to_ring1(vec![coords("A", [1, 1, 1], [0, 0, 0]), coords("B", [2, 2, 2], [0, 0, 0])]);
    // one to start with, one per coordinate and one per job
    assert_eq!(rm.refill_ring2(), 4);
    assert_eq!(rm.write_index(1), 2);
    assert_eq!(rm.read_index(0), 1);
    assert_eq!(rm.refill_ring3(), 2);
    assert_eq!(rm.read_index(1), 2);
}

#[test]
fn lone_job_leaves_first_in_first_out() {
    let mut rm = RingManager::new();
    let job: Vec<TimedCoordinates> = (1..=4).map(|k| coords("F", [k, 2 * k, 3 * k], [k, k, k])).collect();
    _ = rm.push_to_ring1(job);
    assert_eq!(rm.auto_refill_rings(), Ok(()));
    for k in 1..=4 {
        assert_eq!(rm.set_job_from_ring3(), Some((Vector3::new(k, 2 * k, 3 * k), Vector3::new(k, k, k))));
    }
}

#[test]
fn tracker_job_returns_target_and_fixed_rotation() {
    assert_eq!(tracker_job(Vector3::new(7, -8, 9)), (Vector3::new(7, -8, 9), Vector3::new(1, 2, 3)));
}

#[test]
fn duplicate_copies_all_fields() {
    let c = coords("Dup", [1, 2, 3], [4, 5, 6]);
    assert_eq!(c.duplicate(), c);
}

#[test]
fn ring_error_messages() {
    assert_eq!(lpb::job_dispatcher::DataRingError.message(), "Could not read/write ringbuffer");
    assert_eq!(lpb::job_dispatcher::DataRingHelperError.message(), "Error catched by ring-helper function");
}

#[test]
fn refill_ring3_moves_nothing_without_room() {
    let mut rm = RingManager::new();
    _ = rm.push_to_ring1(vec![coords("A", [1, 1, 1], [0, 0, 0])]);
    assert_eq!(rm.refill_ring2(), 3);
    for _ in 0..9 {
        rm.update_pointer(false, 2);
    }
    assert_eq!(rm.get_remaining_slots(2), 0);
    assert_eq!(rm.refill_ring3(), 0);
    assert!(rm.pose_at(0).is_none());
    assert_eq!(rm.read_index(1), 0);
    // ring 1 and ring 2 stay as they were
    assert_eq!(rm.job_at(-1).unwrap()[0].vector, Vector3::new(1, 1, 1));
    assert_eq!(rm.coordinates_at(-1).unwrap().vector, Vector3::new(1, 1, 1));
}

#[test]
fn each_push_adds_one_open_request() {
    let mut rm = RingManager::new();
    for k in 1..=6 {
        _ = rm.push_to_ring1(vec![coords("P", [k, 0, 0], [0, 0, 0])]);
        assert_eq!(rm.get_open_requests(0), k);
    }
    rm.update_pointer(true, 0);
    _ = rm.push_to_ring1(vec![]);
    assert_eq!(rm.get_open_requests(0), 6);
}

#[test]
fn refill_ring2_stops_when_ring2_is_full() {
    let mut rm = RingManager::new();
    for k in 0..4 {
        _ = rm.push_to_ring1(vec![coords("A", [k, 0, 0], [0, 0, 0]), coords("B", [k, 1, 0], [0, 0, 0]), coords("C", [k, 2, 0], [0, 0, 0])]);
    }
    // three jobs of three coordinates fill ring 2's nine usable slots
    assert_eq!(rm.refill_ring2(), 1 + 3 + 9);
    assert_eq!(rm.get_remaining_slots(1), 0);
    assert_eq!(rm.read_index(0), 3);
    assert_eq!(rm.write_index(1), 9);
    assert_eq!(rm.get_open_requests(0), 1);
}
