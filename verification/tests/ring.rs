use remoteio::ring::{RingBridge, MAX_RING_CAPACITY, SILENCE};

#[test]
fn samples_come_out_first_in_first_out() {
    let mut bridge = RingBridge::new(4);
    for sample in [10, 20, 30, 40] {
        assert!(bridge.push(sample));
    }
    assert_eq!(bridge.pop(), Some(10));
    assert_eq!(bridge.pop(), Some(20));
    assert_eq!(bridge.pop(), Some(30));
    assert_eq!(bridge.pop(), Some(40));
    assert_eq!(bridge.pop(), None);
}

#[test]
fn a_push_onto_a_full_bridge_drops_the_new_sample() {
    let mut bridge = RingBridge::new(2);
    assert!(bridge.push(1));
    assert!(bridge.push(2));
    assert!(!bridge.push(3));
    assert_eq!(bridge.pop(), Some(1));
    assert!(bridge.push(4));
    assert_eq!(bridge.pop(), Some(2));
    assert_eq!(bridge.pop(), Some(4));
    assert_eq!(bridge.pop(), None);
}

#[test]
fn a_bridge_of_capacity_zero_takes_nothing() {
    let mut bridge = RingBridge::new(0);
    assert!(!bridge.push(1));
    assert_eq!(bridge.pop(), None);
}

#[test]
fn silence_is_the_sample_zero() {
    assert_eq!(f32::from_bits(SILENCE), 0.0);
}

#[test]
fn the_largest_bridge_is_a_gibibyte_of_samples() {
    assert_eq!(MAX_RING_CAPACITY * 4, 1 << 30);
}

#[test]
fn listen_then_play_returns_the_samples_unchanged() {
    let mut bridge = RingBridge::new(8);
    let captured: Vec<u32> = [0.5f32, -0.25, 1.0, 0.0, 3.5].iter().map(|s| s.to_bits()).collect();
    assert!(!bridge.listen_input(&captured));
    let mut played = vec![77u32; captured.len()];
    assert!(!bridge.play_output(&mut played));
    assert_eq!(played, captured);
    assert_eq!(bridge.pop(), None);
}

#[test]
fn listen_fills_the_bridge_and_reports_what_did_not_fit() {
    let mut bridge = RingBridge::new(3);
    assert!(bridge.listen_input(&[1, 2, 3, 4, 5]));
    let mut played = [9u32; 3];
    assert!(!bridge.play_output(&mut played));
    assert_eq!(played, [1, 2, 3]);
}

#[test]
fn listen_exactly_to_capacity_drops_nothing() {
    let mut bridge = RingBridge::new(3);
    assert!(!bridge.listen_input(&[1, 2]));
    assert!(!bridge.listen_input(&[3]));
    assert!(bridge.listen_input(&[4]));
    assert!(!bridge.listen_input(&[]));
}

#[test]
fn play_from_an_empty_bridge_is_silence() {
    let mut bridge = RingBridge::new(4);
    let mut played = [9u32; 3];
    assert!(bridge.play_output(&mut played));
    assert_eq!(played, [0, 0, 0]);
    assert!(played.iter().all(|s| f32::from_bits(*s) == 0.0));
}

#[test]
fn play_pads_with_silence_and_leaves_the_rest_waiting() {
    let mut bridge = RingBridge::new(8);
    bridge.listen_input(&[1, 2, 3]);
    let mut two = [0u32; 2];
    assert!(!bridge.play_output(&mut two));
    assert_eq!(two, [1, 2]);
    let mut three = [9u32; 3];
    assert!(bridge.play_output(&mut three));
    assert_eq!(three, [3, 0, 0]);
    let mut none: [u32; 0] = [];
    assert!(!bridge.play_output(&mut none));
}

#[test]
fn the_bridge_wraps_around_its_storage() {
    let mut bridge = RingBridge::new(3);
    let mut next: u32 = 0;
    let mut expected: u32 = 0;
    for _ in 0..10 {
        assert!(bridge.push(next));
        next += 1;
        assert!(bridge.push(next));
        next += 1;
        assert_eq!(bridge.pop(), Some(expected));
        expected += 1;
        assert_eq!(bridge.pop(), Some(expected));
        expected += 1;
    }
    assert_eq!(bridge.pop(), None);
}
