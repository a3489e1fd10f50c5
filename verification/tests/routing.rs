use dashmap::util::{route, shard_amount, shard_bits, DIGEST_BITS, SHARD_FACTOR};

#[test]
fn constants_are_as_documented() {
    assert_eq!(SHARD_FACTOR, 8);
    assert_eq!(DIGEST_BITS, 64);
}

#[test]
fn shard_amount_of_hint_zero_is_one() {
    assert_eq!(shard_amount(0), 1);
}

#[test]
fn shard_amount_of_hint_one_is_eight() {
    assert_eq!(shard_amount(1), 8);
}

#[test]
fn shard_amount_keeps_exact_powers_of_two() {
    assert_eq!(shard_amount(2), 16);
    assert_eq!(shard_amount(4), 32);
    assert_eq!(shard_amount(16), 128);
    assert_eq!(shard_amount(1024), 8192);
}

#[test]
fn shard_amount_rounds_up_to_the_next_power_of_two() {
    assert_eq!(shard_amount(3), 32);
    assert_eq!(shard_amount(5), 64);
    assert_eq!(shard_amount(6), 64);
    assert_eq!(shard_amount(7), 64);
    assert_eq!(shard_amount(9), 128);
    assert_eq!(shard_amount(17), 256);
    assert_eq!(shard_amount(1000), 8192);
}

#[test]
fn shard_amount_is_a_power_of_two_and_the_least_one() {
    for hint in 0..2000usize {
        let amount = shard_amount(hint);
        assert!(amount.is_power_of_two());
        assert!(amount >= hint * 8);
        assert!(amount == 1 || amount / 2 < hint * 8);
    }
}

#[test]
fn shard_amount_at_the_largest_hint() {
    let hint = usize::MAX / 16;
    assert_eq!(shard_amount(hint), 1usize << (usize::BITS - 1));
}

#[test]
fn shard_bits_of_powers_of_two_is_the_exponent() {
    assert_eq!(shard_bits(1), 0);
    assert_eq!(shard_bits(2), 1);
    assert_eq!(shard_bits(8), 3);
    assert_eq!(shard_bits(32), 5);
    assert_eq!(shard_bits(8192), 13);
    assert_eq!(shard_bits(1usize << (usize::BITS - 1)), (usize::BITS - 1) as usize);
}

#[test]
fn shard_bits_rounds_down_between_powers_of_two() {
    assert_eq!(shard_bits(3), 1);
    assert_eq!(shard_bits(9), 3);
    assert_eq!(shard_bits(15), 3);
    assert_eq!(shard_bits(16), 4);
    assert_eq!(shard_bits(usize::MAX), (usize::BITS - 1) as usize);
}

#[test]
fn shard_bits_of_zero_is_zero() {
    assert_eq!(shard_bits(0), 0);
}

#[test]
fn shard_bits_inverts_shard_amount() {
    for hint in 0..500usize {
        let amount = shard_amount(hint);
        assert_eq!(1usize << shard_bits(amount), amount);
    }
}

#[test]
fn route_takes_the_top_bits() {
    assert_eq!(route(0, 3), 0);
    assert_eq!(route(u64::MAX, 3), 7);
    assert_eq!(route(0x2000_0000_0000_0000, 3), 1);
    assert_eq!(route(0x1fff_ffff_ffff_ffff, 3), 0);
    assert_eq!(route(0xe000_0000_0000_0000, 3), 7);
    assert_eq!(route(0xabcd_0000_0000_0000, 16), 0xabcd);
    assert_eq!(route(0xabcd_ffff_ffff_ffff, 16), 0xabcd);
    assert_eq!(route(0x8000_0000_0000_0000, 1), 1);
    assert_eq!(route(0x7fff_ffff_ffff_ffff, 1), 0);
}

#[test]
fn route_ignores_the_low_bits() {
    for low in 0..1000u64 {
        assert_eq!(route(0x4000_0000_0000_0000 | low, 3), 2);
    }
}

#[test]
fn route_with_no_bits_is_always_shard_zero() {
    assert_eq!(route(0, 0), 0);
    assert_eq!(route(1, 0), 0);
    assert_eq!(route(u64::MAX, 0), 0);
    assert_eq!(route(0x8000_0000_0000_0000, 0), 0);
}

#[test]
fn route_stays_below_the_shard_count() {
    let mut digest: u64 = 0x9e37_79b9_7f4a_7c15;
    for bits in 0..20usize {
        for _ in 0..200 {
            digest = digest.wrapping_mul(6364136223846793005).wrapping_add(1442695040888963407);
            assert!(route(digest, bits) < (1usize << bits));
        }
    }
}

#[test]
fn route_is_stable_across_calls() {
    let mut digest: u64 = 1;
    for _ in 0..1000 {
        digest = digest.wrapping_mul(6364136223846793005).wrapping_add(1442695040888963407);
        let first = route(digest, 5);
        assert_eq!(route(digest, 5), first);
        assert_eq!(route(digest, 5), first);
    }
}

#[test]
fn route_with_all_but_one_bit() {
    let bits = (usize::BITS - 1) as usize;
    assert_eq!(route(u64::MAX, bits), (u64::MAX >> (64 - bits)) as usize);
}
