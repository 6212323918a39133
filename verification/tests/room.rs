use grand_pattern_mono::Room;

// room has one vibe
#[test]
fn test_room_one_vibe() {
    let r: Room<f64> = Room::new(0, 7.5, 5);
    assert!((r.vibe - 7.5).abs() < 1e-10);
}

#[test]
fn new_room_has_empty_predictor_and_default_surprise() {
    let r: Room<f64> = Room::new(3, 1.5, 0);
    assert_eq!(r.id, 3);
    assert_eq!(r.jepa.window(), 1);
    assert_eq!(r.jepa.len(), 0);
    assert_eq!(r.last_surprise, 0.0);
}

#[test]
fn room_tick_reads_its_own_vibe() {
    let mut r: Room<f64> = Room::new(0, 5.0, 5);
    let reported = r.tick(0.0, 5.0, 1.0);
    assert_eq!(reported, 5.0);
    assert_eq!(r.last_surprise, 5.0);
    assert_eq!(r.jepa.readings(), &vec![(0.0, 5.0)]);
    assert_eq!(r.jepa.weights(), &vec![1.0]);
    r.vibe = 9.0;
    r.tick(0.5, 4.0, 0.5);
    assert_eq!(r.jepa.readings(), &vec![(0.0, 5.0), (0.5, 9.0)]);
    assert_eq!(r.last_surprise, 4.0);
    assert_eq!(r.id, 0);
}
