use alloy::primitives::U256;
use stealth_gas::address::{parse_address, Address};
use stealth_gas::amount::Wei;
use stealth_gas::redeem::{
    read_response, read_spends, redeem_request, redeem_url, RedeemError, Redemption, Spend, SpendInput,
};
use stealth_gas::ticket::SignedTicket;

fn receiver() -> Address {
    parse_address("0xabc0000000000000000000000000000000000abc").unwrap()
}

fn spend(amount: &str) -> SpendInput {
    SpendInput { amount: amount.to_string(), receiver: receiver() }
}

fn read(amount: &str) -> Option<Wei> {
    match read_spends(&vec![spend(amount)]) {
        Ok(spends) => Some(spends[0].amount),
        Err(_) => None,
    }
}

fn ticket() -> SignedTicket {
    SignedTicket {
        msg: "0x01".to_string(),
        msg_randomizer: format!("0x{}", "00".repeat(32)),
        finalized_sig: "0x02".to_string(),
        id: format!("0x{}", "11".repeat(32)),
    }
}

#[test]
fn a_request_holds_the_tickets_and_the_spends_read() {
    let request = redeem_request(vec![ticket()], &vec![spend("1000")]).unwrap();
    assert_eq!(request.signatures, vec![ticket()]);
    assert_eq!(request.spends, vec![Spend { amount: Wei::from_u64(1000), receiver: receiver() }]);
    assert_eq!(U256::from_limbs(request.spends[0].amount.limbs).to_string(), "1000");
    assert_eq!(request.spends[0].receiver.bytes[0], 0xab);
    assert_eq!(request.spends[0].receiver.bytes[19], 0xbc);
}

#[test]
fn amounts_are_read_in_the_radix_they_announce() {
    assert_eq!(read("1000"), Some(Wei::from_u64(1000)));
    assert_eq!(read("0x3e8"), Some(Wei::from_u64(1000)));
    assert_eq!(read("0X3E8"), Some(Wei::from_u64(1000)));
    assert_eq!(read("0o1750"), Some(Wei::from_u64(1000)));
    assert_eq!(read("0b1111101000"), Some(Wei::from_u64(1000)));
    assert_eq!(read("1_000"), Some(Wei::from_u64(1000)));
    assert_eq!(read("0001000"), Some(Wei::from_u64(1000)));
    assert_eq!(read(""), Some(Wei::from_u64(0)));
    assert_eq!(read("0x"), Some(Wei::from_u64(0)));
    assert_eq!(read("_"), Some(Wei::from_u64(0)));
    assert_eq!(read("0"), Some(Wei::from_u64(0)));
    assert_eq!(read("18446744073709551616"), Some(Wei { limbs: [0, 1, 0, 0] }));
    assert_eq!(
        read("115792089237316195423570985008687907853269984665640564039457584007913129639935"),
        Some(Wei { limbs: [u64::MAX; 4] })
    );
    assert_eq!(
        read("0xffffffffffffffffffffffffffffffffffffffffffffffffffffffffffffffff"),
        Some(Wei { limbs: [u64::MAX; 4] })
    );
}

#[test]
fn other_texts_are_no_amounts() {
    assert_eq!(read("12a"), None);
    assert_eq!(read("-1"), None);
    assert_eq!(read("+1"), None);
    assert_eq!(read("1.5"), None);
    assert_eq!(read(" 1"), None);
    assert_eq!(read("0xg"), None);
    assert_eq!(read("0o8"), None);
    assert_eq!(read("0b2"), None);
    assert_eq!(read("1e18"), None);
    assert_eq!(read("\u{661}"), None);
    assert_eq!(
        read("115792089237316195423570985008687907853269984665640564039457584007913129639936"),
        None
    );
    assert_eq!(
        read("0x10000000000000000000000000000000000000000000000000000000000000000"),
        None
    );
}

#[test]
fn the_first_amount_that_cannot_be_read_is_named() {
    let spends = vec![spend("1"), spend("two"), spend("3"), spend("four")];
    assert_eq!(read_spends(&spends), Err(RedeemError::BadAmount(1)));
    assert_eq!(redeem_request(vec![ticket()], &spends), Err(RedeemError::BadAmount(1)));
    assert_eq!(read_spends(&Vec::new()), Ok(Vec::new()));
}

#[test]
fn the_endpoint_is_the_redeem_path_of_the_coordinator() {
    assert_eq!(redeem_url("https://0000000000.org"), "https://0000000000.org/redeem");
    assert_eq!(redeem_url(""), "/redeem");
    assert_eq!(redeem_url("http://m\u{fc}nze.example:8080/v1"), "http://m\u{fc}nze.example:8080/v1/redeem");
}

#[test]
fn the_coordinators_words_are_kept_as_they_are() {
    let body = "{\"error\": \"ticket 0x11 already redeemed\"}\n".to_string();
    assert_eq!(read_response(400, body.clone()), Redemption::Refused(400, body.clone()));
    assert_eq!(read_response(500, body.clone()), Redemption::Refused(500, body.clone()));
    assert_eq!(read_response(199, body.clone()), Redemption::Refused(199, body.clone()));
    assert_eq!(read_response(300, body.clone()), Redemption::Refused(300, body.clone()));
    assert_eq!(read_response(200, body.clone()), Redemption::Accepted(body.clone()));
    assert_eq!(read_response(299, body.clone()), Redemption::Accepted(body));
}
