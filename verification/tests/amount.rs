use alloy::primitives::U256;
use stealth_gas::amount::{decimal_digits, total_cost, u256_to_eth, Wei};

fn wei(text: &str) -> Wei {
    Wei { limbs: text.parse::<U256>().unwrap().into_limbs() }
}

#[test]
fn the_total_is_cost_times_count_plus_shipping() {
    let total = total_cost(Wei::from_u64(1000), Wei::from_u64(7), 3);
    assert_eq!(total, Some(Wei::from_u64(3007)));
    assert_eq!(total_cost(Wei::from_u64(1000), Wei::from_u64(7), 0), Some(Wei::from_u64(7)));
    assert_eq!(total_cost(Wei::from_u64(0), Wei::from_u64(0), 5), Some(Wei::from_u64(0)));
}

#[test]
fn the_total_is_exact_beyond_64_bits() {
    let cost = wei("100000000000000000000000000000");
    let shipping = wei("1");
    let total = total_cost(cost, shipping, 12).unwrap();
    assert_eq!(total, wei("1200000000000000000000000000001"));
    assert_eq!(Wei::from_u64(u64::MAX).limbs, [u64::MAX, 0, 0, 0]);
    let carried = total_cost(Wei::from_u64(u64::MAX), Wei::from_u64(1), 1).unwrap();
    assert_eq!(carried.limbs, [0, 1, 0, 0]);
}

#[test]
fn a_total_that_does_not_fit_is_refused() {
    let max = Wei { limbs: [u64::MAX; 4] };
    assert_eq!(total_cost(max, Wei::from_u64(0), 1), Some(max));
    assert_eq!(total_cost(max, Wei::from_u64(1), 1), None);
    assert_eq!(total_cost(max, Wei::from_u64(0), 2), None);
    let half = Wei { limbs: [0, 0, 0, 1 << 63] };
    assert_eq!(total_cost(half, Wei::from_u64(0), 2), None);
    assert_eq!(total_cost(half, half, 1), None);
    assert_eq!(total_cost(half, Wei { limbs: [u64::MAX, u64::MAX, u64::MAX, (1 << 63) - 1] }, 1), Some(max));
}

#[test]
fn amounts_are_written_in_ether() {
    assert_eq!(u256_to_eth(wei("1500000000000000000")), "1.5 ETH");
    assert_eq!(u256_to_eth(wei("1000000000000000000")), "1. ETH");
    assert_eq!(u256_to_eth(wei("0")), "0. ETH");
    assert_eq!(u256_to_eth(wei("1")), "0.000000000000000001 ETH");
    assert_eq!(u256_to_eth(wei("10000000000000000")), "0.01 ETH");
    assert_eq!(u256_to_eth(wei("123456789012345678901234567890")), "123456789012.34567890123456789 ETH");
    assert_eq!(
        u256_to_eth(Wei { limbs: [u64::MAX; 4] }),
        "115792089237316195423570985008687907853269984665640564039457.584007913129639935 ETH"
    );
}

#[test]
fn numbers_are_written_in_base_ten() {
    assert_eq!(decimal_digits(0), vec!['0']);
    assert_eq!(decimal_digits(17000), vec!['1', '7', '0', '0', '0']);
    assert_eq!(decimal_digits(u64::MAX).iter().collect::<String>(), "18446744073709551615");
}

#[test]
fn a_gas_station_is_described_in_five_lines() {
    let lines = stealth_gas::params::report(
        "0x943285f1a29281e59514fF35Dc16E5a14E123a27",
        "https://0000000000.org",
        wei("2500000000000000"),
        wei("100000000000000000"),
        &[0x01, 0x00, 0x01, 0x00, 0xe1, 0xdc],
    );
    assert_eq!(
        lines,
        vec![
            "StealthGasStation contract: 0x943285f1a29281e59514fF35Dc16E5a14E123a27".to_string(),
            "Coordinator URL: https://0000000000.org".to_string(),
            "Ticket Cost: 0.0025 ETH".to_string(),
            "Shipping Cost: 0.1 ETH".to_string(),
            "Coordinator PubKey: 0x01000100e1dc".to_string(),
        ]
    );
}
