use stealth_gas::index::KnownIds;
use stealth_gas::scan::{correlate, correlate_observations, observations, Observation, SigningEvent};
use stealth_gas::ticket::{BlindedSignature, UnsignedTicket};

fn id(seed: u8) -> [u8; 32] {
    let mut bytes = [seed; 32];
    bytes[0] = 0xab;
    bytes
}

fn id_text(seed: u8) -> String {
    let mut text = String::from("0xab");
    for _ in 1..32 {
        text.push_str(&format!("{:02x}", seed));
    }
    text
}

fn ticket(seed: u8) -> UnsignedTicket {
    UnsignedTicket {
        msg: format!("0x{:02x}", seed),
        blind_msg: format!("0x{:02x}{:02x}", seed, seed),
        msg_randomizer: format!("0x{}", "00".repeat(32)),
        id: id_text(seed),
        secret: format!("0x{:02x}ff", seed),
    }
}

fn signature(seed: u8, blind_sig: &str) -> BlindedSignature {
    BlindedSignature { blind_sig: blind_sig.to_string(), id: id_text(seed) }
}

#[test]
fn foreign_identifiers_are_passed_over() {
    let known = vec![ticket(1), ticket(2), ticket(3)];
    let event = SigningEvent {
        ids: vec![id(1), id(9), id(3)],
        signed: vec![vec![0x0a], vec![0xff, 0xee], vec![0x0b, 0x10]],
    };
    let found = correlate(&known, &vec![event]);
    assert_eq!(found.input.unsigned_tickets, vec![ticket(1), ticket(3)]);
    assert_eq!(found.input.blind_signatures, vec![signature(1, "0x0a"), signature(3, "0x0b10")]);
    assert!(found.repeated.is_empty());
    assert_eq!(found.signed, vec![true, false, true]);
}

#[test]
fn nothing_known_or_nothing_seen_yields_nothing() {
    let event = SigningEvent { ids: vec![id(1)], signed: vec![vec![1]] };
    let none = correlate(&Vec::new(), &vec![event]);
    assert!(none.input.unsigned_tickets.is_empty());
    assert!(none.input.blind_signatures.is_empty());
    assert!(none.signed.is_empty());
    let unseen = correlate(&vec![ticket(1)], &Vec::new());
    assert!(unseen.input.unsigned_tickets.is_empty());
    assert_eq!(unseen.signed, vec![false]);
}

#[test]
fn the_first_signature_seen_for_a_ticket_wins() {
    let known = vec![ticket(1), ticket(2)];
    let events = vec![
        SigningEvent { ids: vec![id(2), id(2)], signed: vec![vec![0x01], vec![0x02]] },
        SigningEvent { ids: vec![id(1), id(2)], signed: vec![vec![0x03], vec![0x04]] },
    ];
    let found = correlate(&known, &events);
    assert_eq!(found.input.unsigned_tickets, vec![ticket(2), ticket(1)]);
    assert_eq!(found.input.blind_signatures, vec![signature(2, "0x01"), signature(1, "0x03")]);
    assert_eq!(found.repeated, vec![signature(2, "0x02"), signature(2, "0x04")]);
    assert_eq!(found.signed, vec![true, true]);
}

#[test]
fn scanning_again_over_an_overlapping_range_changes_nothing() {
    let known = vec![ticket(1), ticket(2), ticket(3)];
    let early = SigningEvent { ids: vec![id(1)], signed: vec![vec![0x11]] };
    let late = SigningEvent { ids: vec![id(3), id(7)], signed: vec![vec![0x33], vec![0x77]] };
    let once = correlate(&known, &vec![early.clone(), late.clone()]);
    let twice = correlate(&known, &vec![early.clone(), late.clone(), late.clone()]);
    let doubled = correlate(&known, &vec![early.clone(), late.clone(), early, late]);
    assert_eq!(once.input, twice.input);
    assert_eq!(once.input, doubled.input);
    assert_eq!(once.signed, doubled.signed);
    assert_eq!(twice.repeated, vec![signature(3, "0x33")]);
}

#[test]
fn entries_without_a_partner_are_no_pairs() {
    let known = vec![ticket(1), ticket(2)];
    let event = SigningEvent { ids: vec![id(1), id(2)], signed: vec![vec![0x01]] };
    let seen = observations(&vec![event]);
    assert_eq!(seen, vec![Observation { id: id(1), signed: vec![0x01] }]);
    let found = correlate_observations(&known, &seen);
    assert_eq!(found.input.unsigned_tickets, vec![ticket(1)]);
    assert_eq!(found.signed, vec![true, false]);
}

#[test]
fn a_ticket_is_found_whatever_the_case_of_its_id() {
    let mut upper = ticket(0xcd);
    upper.id = upper.id.to_uppercase().replace("0X", "0x");
    let event = SigningEvent { ids: vec![id(0xcd)], signed: vec![vec![0xde, 0xad]] };
    let found = correlate(&vec![upper.clone()], &vec![event]);
    assert_eq!(found.input.unsigned_tickets, vec![upper.clone()]);
    assert_eq!(found.input.blind_signatures[0].id, upper.id);
    assert_eq!(found.input.blind_signatures[0].blind_sig, "0xdead");
}

#[test]
fn tickets_without_an_identifier_or_with_a_taken_one_never_match() {
    let mut malformed = ticket(1);
    malformed.id = "0x1234".to_string();
    let mut shadowed = ticket(2);
    shadowed.msg = "0xbeef".to_string();
    let known = vec![malformed, ticket(2), shadowed];
    let event = SigningEvent { ids: vec![id(1), id(2)], signed: vec![vec![1], vec![2]] };
    let found = correlate(&known, &vec![event]);
    assert_eq!(found.input.unsigned_tickets, vec![ticket(2)]);
    assert_eq!(found.signed, vec![false, true, false]);
}

#[test]
fn a_pair_belongs_to_the_first_ticket_with_its_identifier() {
    let mut other_tag = ticket(4);
    other_tag.id = format!("0x{}", "04".repeat(32));
    let known = vec![ticket(1), ticket(2), ticket(1), other_tag, ticket(3), ticket(2)];
    let ids = KnownIds::new(&known);
    assert_eq!(ids.len(), 6);
    assert_eq!(ids.find(&id(1)), Some(0));
    assert_eq!(ids.find(&id(2)), Some(1));
    assert_eq!(ids.find(&id(3)), Some(4));
    assert_eq!(ids.find(&[4u8; 32]), Some(3));
    assert_eq!(ids.find(&id(4)), None);
    assert_eq!(ids.find(&id(1)[..31]), None);
    assert_eq!(ids.find(&[]), None);
    assert_eq!(ids.id(3), &Some(vec![4u8; 32]));
    assert_eq!(KnownIds::new(&Vec::new()).find(&id(1)), None);
}

#[test]
fn identifiers_that_share_their_leading_bytes_are_told_apart() {
    let mut first = ticket(1);
    let mut second = ticket(1);
    let mut third = ticket(1);
    first.id = format!("0x{}{}", "aa".repeat(31), "01");
    second.id = format!("0x{}{}", "aa".repeat(31), "02");
    third.id = format!("0x{}{}", "aa".repeat(31), "03");
    let known = vec![first, second.clone(), third];
    let mut wanted = [0xaau8; 32];
    wanted[31] = 2;
    let mut unknown = [0xaau8; 32];
    unknown[31] = 4;
    let ids = KnownIds::new(&known);
    assert_eq!(ids.find(&wanted), Some(1));
    assert_eq!(ids.find(&unknown), None);
    let event = SigningEvent { ids: vec![unknown, wanted], signed: vec![vec![1], vec![2]] };
    let found = correlate(&known, &vec![event]);
    assert_eq!(found.input.unsigned_tickets, vec![second]);
    assert_eq!(found.signed, vec![false, true, false]);
}

#[test]
fn two_scans_that_hold_the_same_pairs_keep_the_same_matches() {
    let known = vec![ticket(1), ticket(2), ticket(3)];
    let one = SigningEvent { ids: vec![id(1), id(8)], signed: vec![vec![0x11], vec![0x88]] };
    let two = SigningEvent { ids: vec![id(3)], signed: vec![vec![0x33]] };
    let from_the_start = correlate(&known, &vec![one.clone(), two.clone()]);
    let overlapping = correlate(&known, &vec![two.clone(), one.clone(), two]);
    let mut first = from_the_start.input.blind_signatures.clone();
    let mut second = overlapping.input.blind_signatures.clone();
    first.sort_by(|a, b| a.id.cmp(&b.id));
    second.sort_by(|a, b| a.id.cmp(&b.id));
    assert_eq!(first, second);
    assert_eq!(first.len(), 2);
    assert_eq!(from_the_start.signed, overlapping.signed);
}

#[test]
fn an_identifier_signed_in_two_ways_keeps_the_signature_seen_first() {
    let known = vec![ticket(1)];
    let log = vec![
        SigningEvent { ids: vec![id(1)], signed: vec![vec![0x01]] },
        SigningEvent { ids: vec![id(1)], signed: vec![vec![0x02]] },
        SigningEvent { ids: vec![id(1)], signed: vec![vec![0x01]] },
    ];
    let from_the_first = correlate(&known, &log);
    let from_the_second = correlate(&known, &log[1..].to_vec());
    assert_eq!(from_the_first.input.blind_signatures, vec![signature(1, "0x01")]);
    assert_eq!(from_the_second.input.blind_signatures, vec![signature(1, "0x02")]);
    assert_eq!(from_the_first.repeated, vec![signature(1, "0x02"), signature(1, "0x01")]);
}
