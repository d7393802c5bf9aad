use nbody_lockstep::fixed_scalar::FixedScalar;
use nbody_lockstep::hash_ring::HashBuffer;
use nbody_lockstep::input_buffer::InputBuffer;
use nbody_lockstep::latency::LatencyBuffer;
use nbody_lockstep::messages::{AddBodyEvent, IndexedState};

fn fs_int(i: i32) -> FixedScalar {
    FixedScalar::from_int(i)
}

fn input(frame: u32, mass: i32) -> IndexedState<AddBodyEvent> {
    IndexedState { frame_index: frame, state: AddBodyEvent::new(fs_int(0), fs_int(0), fs_int(mass)) }
}

#[test]
fn drain_yields_in_frame_order() {
    let mut buffer = InputBuffer::new();
    buffer.push(input(5, 1));
    buffer.push(input(3, 2));
    buffer.push(input(9, 3));
    buffer.push(input(3, 4));

    // everything up to frame 9 is due; frames come out non-decreasing, and
    // the two frame-3 events keep their insertion order
    let a = buffer.next(9).unwrap();
    let b = buffer.next(9).unwrap();
    let c = buffer.next(9).unwrap();
    let d = buffer.next(9).unwrap();
    assert_eq!(
        [a.frame_index, b.frame_index, c.frame_index, d.frame_index],
        [3, 3, 5, 9]
    );
    assert_eq!(a.state.mass, fs_int(2));
    assert_eq!(b.state.mass, fs_int(4));
    assert!(buffer.next(u32::MAX).is_none());
}

#[test]
fn drain_stops_at_future_frames() {
    let mut buffer = InputBuffer::new();
    buffer.push(input(10, 1));
    assert!(buffer.next(9).is_none());
    assert_eq!(buffer.len(), 1);
    assert!(buffer.next(10).is_some());
    assert_eq!(buffer.len(), 0);
}

#[test]
fn latency_round_trip_and_loss() {
    let mut lat = LatencyBuffer::with_timeout(1000);

    lat.send(1, 0);
    let d = lat.recv(1, 50);
    assert_eq!(d, Some(50));
    assert_eq!(lat.average_latency_ms(), 50);
    assert_eq!(lat.recvd_count(), 1);
    assert_eq!(lat.lost_count(), 0);

    // an unanswered ping times out and counts as lost
    lat.send(2, 100);
    let none = lat.recv(2, 2000);
    assert_eq!(none, None);
    assert_eq!(lat.lost_count(), 1);

    // a pong for a frame never pinged matches nothing
    assert_eq!(lat.recv(77, 2000), None);

    // the average is the mean of the recorded timings
    lat.send(3, 2000);
    lat.send(4, 2000);
    assert_eq!(lat.recv(3, 2100), Some(100));
    assert_eq!(lat.recv(4, 2300), Some(300));
    assert_eq!(lat.average_latency_ms(), (50 + 100 + 300) / 3);
}

#[test]
fn hash_ring_bookkeeping() {
    let mut ring = HashBuffer::new();
    ring.insert(1, 111);
    ring.insert(2, 222);
    assert!(ring.contains(1, 111));
    assert!(!ring.contains(1, 999));
    assert!(!ring.contains(3, 111));

    assert_eq!(ring.take(1, 111), Some((1, 111)));
    assert_eq!(ring.take(1, 111), None);
    assert!(ring.contains(2, 222));

    ring.insert(5, 555);
    ring.insert(9, 999);
    assert_eq!(ring.unmatched_hashed(6), 2);  // frames 2 and 5 lie below 6
    assert_eq!(ring.unmatched_hashed(1), 0);
}

#[test]
fn hash_ring_evicts_oldest() {
    let mut ring = HashBuffer::new();
    for f in 0..70u32 {
        ring.insert(f, f as u64);
    }
    // the ring keeps the 60 most recent frames
    assert!(!ring.contains(0, 0));
    assert!(!ring.contains(9, 9));
    assert!(ring.contains(10, 10));
    assert!(ring.contains(69, 69));
}
