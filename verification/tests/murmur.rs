use grand_pattern_mono::Murmur;

// murmur carries one number
#[test]
fn test_murmur_one_number() {
    let m: Murmur<f64> = Murmur {
        source: 0,
        vibe: 42.0,
        surprise: 1.0,
        tick: 5,
        ttl: 3,
    };
    assert!((m.vibe - 42.0).abs() < 1e-10);
}

// murmur ttl decays
#[test]
fn test_murmur_ttl_decay() {
    let mut m: Murmur<f64> = Murmur {
        source: 0,
        vibe: 1.0,
        surprise: 0.0,
        tick: 0,
        ttl: 3,
    };
    m.decay();
    assert_eq!(m.ttl, 2);
    m.decay();
    m.decay();
    assert_eq!(m.ttl, 0);
    assert!(!m.is_alive());
}

#[test]
fn decay_stops_at_zero_and_keeps_the_rest() {
    let mut m = Murmur {
        source: 7,
        vibe: 2.5,
        surprise: 0.25,
        tick: 11,
        ttl: 1,
    };
    assert!(m.is_alive());
    m.decay();
    assert_eq!(m.ttl, 0);
    assert!(!m.is_alive());
    m.decay();
    assert_eq!(m.ttl, 0);
    assert_eq!(m.source, 7);
    assert_eq!(m.vibe, 2.5);
    assert_eq!(m.surprise, 0.25);
    assert_eq!(m.tick, 11);
}

#[test]
fn murmur_expires_after_ttl_decays() {
    let mut m = Murmur {
        source: 0,
        vibe: 0u64,
        surprise: 0u64,
        tick: 0,
        ttl: 5,
    };
    for k in 0..5u32 {
        assert_eq!(m.ttl, 5 - k);
        assert!(m.is_alive());
        m.decay();
    }
    assert!(!m.is_alive());
    for _ in 0..3 {
        m.decay();
        assert_eq!(m.ttl, 0);
    }
}
