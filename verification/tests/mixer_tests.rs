use microbench::mixer::{mix_checksum, GOLDEN_GAMMA};

fn reference_mix(current: u64, value: u64, iteration: u64) -> u64 {
    let salt = value
        .wrapping_add(0x9e37_79b9_7f4a_7c15)
        .wrapping_add(iteration << 6)
        .wrapping_add(iteration >> 2);
    (current ^ salt).rotate_left(13)
}

#[test]
fn mix_of_zeros_is_the_rotated_constant() {
    assert_eq!(mix_checksum(0, 0, 0), 0x9e37_79b9_7f4a_7c15u64.rotate_left(13));
    assert_eq!(mix_checksum(0, 0, 0), 17237298777891713990);
    assert_eq!(GOLDEN_GAMMA, 0x9e37_79b9_7f4a_7c15);
}

#[test]
fn mix_exact_values() {
    assert_eq!(mix_checksum(1, 2, 3), 17237298777893295046);
    assert_eq!(mix_checksum(u64::MAX, u64::MAX, u64::MAX), 1209445295818376249);
    assert_eq!(
        mix_checksum(0x0123_4567_89ab_cdef, 0xfedc_ba98_7654_3210, 1 << 60),
        17160631607468053510
    );
}

#[test]
fn mix_depends_on_the_iteration() {
    assert_eq!(mix_checksum(0, 0, 1), 17237298777892238278);
    assert_eq!(mix_checksum(0, 0, 4), 17237298777893819334);
    assert_ne!(mix_checksum(0, 0, 0), mix_checksum(0, 0, 1));
}

#[test]
fn mix_wraps_around() {
    assert_eq!(mix_checksum(0, u64::MAX, 0), 17237298777891705798);
    assert_eq!(mix_checksum(5, 0, 1 << 58), 17237298777891673062);
}

#[test]
fn mix_is_reproducible() {
    for &(c, v, i) in &[(0u64, 0u64, 0u64), (7, 11, 13), (u64::MAX, 1, 2), (1 << 63, 1 << 62, 1 << 61)] {
        assert_eq!(mix_checksum(c, v, i), mix_checksum(c, v, i));
        assert_eq!(mix_checksum(c, v, i), reference_mix(c, v, i));
    }
}

#[test]
fn mix_agrees_with_rotate_left_on_a_sweep() {
    let mut state: u64 = 0x243f_6a88_85a3_08d3;
    for round in 0..2000u64 {
        state = state.wrapping_mul(6364136223846793005).wrapping_add(1442695040888963407);
        let value = state.rotate_right(17) ^ round;
        assert_eq!(mix_checksum(state, value, round), reference_mix(state, value, round));
    }
}

#[test]
fn mixing_a_sequence_of_results() {
    let mut checksum = 0u64;
    for (round, value) in [3u64, 1, 4, 1, 5].iter().enumerate() {
        checksum = mix_checksum(checksum, *value, round as u64);
    }
    assert_eq!(checksum, 6265451357803937289);
}

#[test]
fn one_diverging_round_changes_the_checksum() {
    let mut left = 0u64;
    let mut right = 0u64;
    let a = [3u64, 1, 4, 1, 5];
    let b = [3u64, 1, 9, 1, 5];
    for round in 0..5 {
        left = mix_checksum(left, a[round], round as u64);
        right = mix_checksum(right, b[round], round as u64);
    }
    assert_eq!(right, 6265449708536495625);
    assert_ne!(left, right);
}

#[test]
fn distinct_states_stay_distinct() {
    assert_ne!(mix_checksum(1, 9, 2), mix_checksum(2, 9, 2));
    assert_ne!(mix_checksum(0, 9, 2), mix_checksum(1 << 63, 9, 2));
}
