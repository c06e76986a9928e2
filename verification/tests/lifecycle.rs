use blind_rsa_signatures::reexports::rsa::PublicKeyParts;
use blind_rsa_signatures::{KeyPair, Options, SecretKey};
use rand::SeedableRng;
use stealth_gas::fault::TicketFault;
use stealth_gas::finalize::{finalize, FinalizeError};
use stealth_gas::generate::{accept_batch, generate, GenerateError};
use stealth_gas::key::KeyError;
use stealth_gas::scan::{correlate, SigningEvent};
use stealth_gas::ticket::{FinalizeInput, UnsignedTicket};
use stealth_gas::verify::{verify, VerifyError};

fn coordinator() -> (SecretKey, String) {
    let mut rng = rand::rngs::StdRng::seed_from_u64(7);
    let pair = KeyPair::generate(&mut rng, 1024).unwrap();
    let modulus = pair.pk.0.n().to_bytes_be();
    let exponent = pair.pk.0.e().to_bytes_be();
    let text = format!("0x{}00{}", hex::encode(exponent), hex::encode(modulus));
    (pair.sk, text)
}

fn id_of(ticket: &UnsignedTicket) -> [u8; 32] {
    let bytes = hex::decode(ticket.id.trim_start_matches("0x")).unwrap();
    let mut id = [0u8; 32];
    id.copy_from_slice(&bytes);
    id
}

fn sign(key: &SecretKey, ticket: &UnsignedTicket) -> Vec<u8> {
    let mut rng = rand::thread_rng();
    let blinded = hex::decode(ticket.blind_msg.trim_start_matches("0x")).unwrap();
    key.blind_sign(&mut rng, blinded, &Options::default()).unwrap().0
}

#[test]
fn generate_returns_count_tickets_with_unique_ids() {
    let (_, pubkey) = coordinator();
    let tickets = generate(&pubkey, 3).unwrap();
    assert_eq!(tickets.len(), 3);
    assert_ne!(tickets[0].id, tickets[1].id);
    assert_ne!(tickets[0].id, tickets[2].id);
    assert_ne!(tickets[1].id, tickets[2].id);
    for ticket in &tickets {
        assert_eq!(ticket.id.len(), 66);
        assert!(ticket.id.starts_with("0x"));
        assert_eq!(ticket.msg_randomizer.len(), 66);
    }
}

#[test]
fn generate_refuses_no_tickets() {
    let (_, pubkey) = coordinator();
    assert_eq!(generate(&pubkey, 0), Err(GenerateError::NoTickets));
}

#[test]
fn generate_refuses_bad_keys() {
    assert_eq!(generate("0x0100", 3), Err(GenerateError::InvalidKey(KeyError::TooShort)));
    assert_eq!(generate("0x01000100zz", 3), Err(GenerateError::InvalidKey(KeyError::BadDigit)));
    assert_eq!(generate("0x01000100abc", 3), Err(GenerateError::InvalidKey(KeyError::OddLength)));
    assert_eq!(generate("0x00000100abcd", 3), Err(GenerateError::InvalidKey(KeyError::SmallExponent)));
    assert_eq!(generate("0x010001000000", 3), Err(GenerateError::InvalidKey(KeyError::ZeroModulus)));
    let long = format!("0x01000100{}", "f".repeat(1026));
    assert_eq!(generate(&long, 3), Err(GenerateError::InvalidKey(KeyError::LargeModulus)));
}

#[test]
fn accept_batch_checks_count_and_ids() {
    let (_, pubkey) = coordinator();
    let tickets = generate(&pubkey, 2).unwrap();
    assert_eq!(accept_batch(tickets.clone(), 3), Err(GenerateError::WrongCount));
    assert_eq!(accept_batch(tickets.clone(), 2), Ok(tickets.clone()));
    let twice = vec![tickets[0].clone(), tickets[1].clone(), tickets[0].clone()];
    assert_eq!(accept_batch(twice, 3), Err(GenerateError::Collision(2)));
    let mut broken = tickets.clone();
    broken[1].id = "0x1234".to_string();
    assert_eq!(accept_batch(broken, 2), Err(GenerateError::BadId(1)));
}

#[test]
fn two_of_three_tickets_are_signed_finalized_and_verified() {
    let (secret, pubkey) = coordinator();
    let tickets = generate(&pubkey, 3).unwrap();
    let event = SigningEvent {
        ids: vec![id_of(&tickets[0]), id_of(&tickets[2])],
        signed: vec![sign(&secret, &tickets[0]), sign(&secret, &tickets[2])],
    };
    let found = correlate(&tickets, &vec![event]);
    assert_eq!(found.input.unsigned_tickets.len(), 2);
    assert_eq!(found.input.blind_signatures.len(), 2);
    assert_eq!(found.input.unsigned_tickets[0], tickets[0]);
    assert_eq!(found.input.unsigned_tickets[1], tickets[2]);
    assert_eq!(found.input.blind_signatures[0].id, tickets[0].id);
    assert_eq!(found.input.blind_signatures[1].id, tickets[2].id);
    assert!(found.input.blind_signatures.iter().all(|s| s.id != tickets[1].id));
    assert_eq!(found.signed, vec![true, false, true]);
    assert!(found.repeated.is_empty());

    let signed = finalize(&pubkey, found.input).unwrap();
    assert_eq!(signed.len(), 2);
    assert_eq!(signed[0].id, tickets[0].id);
    assert_eq!(signed[1].id, tickets[2].id);
    assert_eq!(signed[0].msg, tickets[0].msg);
    assert_eq!(verify(&pubkey, &signed), Ok(()));
}

#[test]
fn verify_names_the_ticket_that_fails() {
    let (secret, pubkey) = coordinator();
    let tickets = generate(&pubkey, 2).unwrap();
    let event = SigningEvent {
        ids: vec![id_of(&tickets[0]), id_of(&tickets[1])],
        signed: vec![sign(&secret, &tickets[0]), sign(&secret, &tickets[1])],
    };
    let mut signed = finalize(&pubkey, correlate(&tickets, &vec![event]).input).unwrap();
    assert_eq!(verify(&pubkey, &signed), Ok(()));
    signed[1].msg = signed[0].msg.clone();
    assert_eq!(verify(&pubkey, &signed), Err(VerifyError::InvalidSignature(1)));
    signed[0].msg_randomizer = "0x00".to_string();
    assert_eq!(verify(&pubkey, &signed), Err(VerifyError::BadRandomizer(0)));
    assert_eq!(verify("0x", &signed), Err(VerifyError::InvalidKey(KeyError::TooShort)));
    assert_eq!(verify(&pubkey, &Vec::new()), Ok(()));
}

#[test]
fn finalize_refuses_input_that_is_not_aligned() {
    let (secret, pubkey) = coordinator();
    let tickets = generate(&pubkey, 2).unwrap();
    let event = SigningEvent {
        ids: vec![id_of(&tickets[0]), id_of(&tickets[1])],
        signed: vec![sign(&secret, &tickets[0]), sign(&secret, &tickets[1])],
    };
    let input = correlate(&tickets, &vec![event]).input;

    let mut short = input.clone();
    short.blind_signatures.pop();
    assert_eq!(finalize(&pubkey, short), Err(FinalizeError::LengthMismatch));

    let mut swapped = input.clone();
    swapped.blind_signatures.swap(0, 1);
    assert_eq!(finalize(&pubkey, swapped), Err(FinalizeError::IdMismatch(0)));

    let mut malformed = input.clone();
    malformed.unsigned_tickets[1].msg_randomizer = "0x01".to_string();
    assert_eq!(finalize(&pubkey, malformed), Err(FinalizeError::BadRandomizer(1)));

    assert_eq!(
        finalize("0x01000100", input.clone()),
        Err(FinalizeError::InvalidKey(KeyError::ZeroModulus))
    );
    let empty = FinalizeInput { unsigned_tickets: Vec::new(), blind_signatures: Vec::new() };
    assert_eq!(finalize(&pubkey, empty), Ok(Vec::new()));
}

#[test]
fn finalize_reports_a_signature_that_is_not_the_coordinators() {
    let (_, pubkey) = coordinator();
    let mut rng = rand::rngs::StdRng::seed_from_u64(11);
    let stranger = KeyPair::generate(&mut rng, 1024).unwrap().sk;
    let tickets = generate(&pubkey, 1).unwrap();
    let blinded = hex::decode(tickets[0].blind_msg.trim_start_matches("0x")).unwrap();
    let mut thread = rand::thread_rng();
    let forged = match stranger.blind_sign(&mut thread, blinded, &Options::default()) {
        Ok(signature) => signature.0,
        Err(_) => vec![1u8; 128],
    };
    let event = SigningEvent { ids: vec![id_of(&tickets[0])], signed: vec![forged] };
    let input = correlate(&tickets, &vec![event]).input;
    assert!(matches!(finalize(&pubkey, input), Err(FinalizeError::Library(_))));
}

#[test]
fn generate_reports_a_key_too_small_to_blind_under() {
    let outcome = generate("0x01000100ff", 1);
    assert!(matches!(outcome, Err(GenerateError::Library(TicketFault::BlindingFailed(_)))));
}

#[test]
fn finalize_reports_fields_that_are_no_hexadecimal() {
    let (secret, pubkey) = coordinator();
    let tickets = generate(&pubkey, 1).unwrap();
    let event = SigningEvent { ids: vec![id_of(&tickets[0])], signed: vec![sign(&secret, &tickets[0])] };
    let mut input = correlate(&tickets, &vec![event]).input;
    input.unsigned_tickets[0].secret = "0xzz".to_string();
    let outcome = finalize(&pubkey, input);
    assert!(matches!(outcome, Err(FinalizeError::Library(TicketFault::InvalidHex(_)))));
}

#[test]
fn a_forged_signature_fails_finalization() {
    let (secret, pubkey) = coordinator();
    let tickets = generate(&pubkey, 2).unwrap();
    let event = SigningEvent {
        ids: vec![id_of(&tickets[0]), id_of(&tickets[1])],
        signed: vec![sign(&secret, &tickets[1]), sign(&secret, &tickets[0])],
    };
    let outcome = finalize(&pubkey, correlate(&tickets, &vec![event]).input);
    assert!(matches!(outcome, Err(FinalizeError::Library(TicketFault::FinalizationFailed(_)))));
}

#[test]
fn finalizing_the_same_input_again_gives_the_same_tickets() {
    let (secret, pubkey) = coordinator();
    let tickets = generate(&pubkey, 2).unwrap();
    let event = SigningEvent {
        ids: vec![id_of(&tickets[0]), id_of(&tickets[1])],
        signed: vec![sign(&secret, &tickets[0]), sign(&secret, &tickets[1])],
    };
    let input = correlate(&tickets, &vec![event]).input;
    let once = finalize(&pubkey, input.clone()).unwrap();
    let again = finalize(&pubkey, input.clone()).unwrap();
    assert_eq!(once, again);
    assert_ne!(once[0].finalized_sig, input.blind_signatures[0].blind_sig);
    let mut spoiled = input.clone();
    spoiled.blind_signatures[1].blind_sig = input.blind_signatures[0].blind_sig.clone();
    assert_eq!(finalize(&pubkey, spoiled.clone()), finalize(&pubkey, spoiled));
}
