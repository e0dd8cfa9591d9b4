use tcp_engine::wrap32::Wrap32;

#[test]
fn wrap_adds_modulo_two_to_the_32() {
    let zero = Wrap32::new(u32::MAX - 1);
    assert_eq!(Wrap32::wrap(3, &zero).raw_value, 1);
    assert_eq!(Wrap32::wrap(1u64 << 32, &Wrap32::new(17)).raw_value, 17);
    assert_eq!(Wrap32::wrap((3u64 << 32) + 5, &Wrap32::new(0)).raw_value, 5);
}

#[test]
fn add_wraps_around() {
    assert_eq!(Wrap32::new(u32::MAX).add(2).raw_value, 1);
    assert_eq!(Wrap32::new(10).add(5).raw_value, 15);
}

#[test]
fn unwrap_picks_nearest_to_checkpoint() {
    let zero = Wrap32::new(0);
    assert_eq!(Wrap32::new(1).unwrap(&zero, 0), 1);
    assert_eq!(Wrap32::new(u32::MAX).unwrap(&zero, 0), u32::MAX as u64);
    assert_eq!(Wrap32::new(u32::MAX).unwrap(&zero, 1u64 << 32), (1u64 << 32) - 1);
    assert_eq!(Wrap32::new(16).unwrap(&Wrap32::new(10), 3 * (1u64 << 32)), 3 * (1u64 << 32) + 6);
    assert_eq!(Wrap32::new(5).unwrap(&Wrap32::new(10), (1u64 << 32) + 2), (1u64 << 32) - 5);
}

#[test]
fn unwrap_near_the_top_of_u64() {
    let zero = Wrap32::new(0);
    assert_eq!(Wrap32::new(u32::MAX).unwrap(&zero, u64::MAX), u64::MAX);
    assert_eq!(Wrap32::new(0).unwrap(&zero, u64::MAX), u64::MAX - u32::MAX as u64);
}

#[test]
fn unwrap_tie_goes_to_larger_candidate() {
    let zero = Wrap32::new(0);
    assert_eq!(Wrap32::new(0).unwrap(&zero, 1u64 << 31), 1u64 << 32);
    assert_eq!(Wrap32::new(0).unwrap(&zero, 3u64 << 31), 1u64 << 33);
    assert_eq!(Wrap32::new(1u32 << 31).unwrap(&zero, 1u64 << 32), 3u64 << 31);
}

#[test]
fn wrap_then_unwrap_round_trips() {
    let zeros = [0u32, 1, 1u32 << 31, u32::MAX];
    let values = [0u64, 1, 12345, 1u64 << 32, (1u64 << 40) + 7, u64::MAX - 3];
    for z in zeros {
        let zero = Wrap32::new(z);
        for n in values {
            for cp in [n, n.saturating_sub((1u64 << 31) - 1), n.saturating_add((1u64 << 31) - 1)] {
                assert_eq!(Wrap32::wrap(n, &zero).unwrap(&zero, cp), n);
            }
        }
    }
}
