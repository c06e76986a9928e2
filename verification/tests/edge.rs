use stealth_gas::finalize::finalize;
use stealth_gas::generate::generate;
use stealth_gas::ticket::{BlindedSignature, FinalizeInput, SignedTicket, UnsignedTicket};
use stealth_gas::verify::verify;

fn keys() -> Vec<String> {
    let mut keys = Vec::new();
    for modulus in ["01", "02", "03", "ff", "0100", "ffff", "010001", "8000000000000001"] {
        keys.push(format!("0x01000100{}", modulus));
        keys.push(format!("0x00000200{}", modulus));
        keys.push(format!("0x00000300{}", modulus));
        keys.push(format!("0xffffff00{}", modulus));
    }
    keys.push(format!("0x01000100{}", "ff".repeat(512)));
    keys.push(format!("0x0100010080{}", "00".repeat(511)));
    keys.push(format!("0x01000100{}", "ff".repeat(98)));
    keys.push(format!("0x0100010001{}", "00".repeat(97)));
    keys.push(format!("0x01000100{}", "ab".repeat(128)));
    keys
}

fn bytes(len: usize, fill: &str) -> String {
    format!("0x{}", fill.repeat(len))
}

#[test]
fn edge_keys_do_not_break_generation() {
    for key in keys() {
        let outcome = generate(&key, 1);
        println!("{} -> {:?}", &key[..12], outcome.is_ok());
    }
}

#[test]
fn edge_keys_do_not_break_verification() {
    for key in keys() {
        let size = (key.len() - 10) / 2;
        for len in [0usize, 1, size.saturating_sub(1), size, size + 1] {
            for fill in ["00", "01", "ff"] {
                for randomizer in ["00", "5a"] {
                    let ticket = SignedTicket {
                        msg: bytes(32, "11"),
                        msg_randomizer: bytes(32, randomizer),
                        finalized_sig: bytes(len, fill),
                        id: bytes(32, "22"),
                    };
                    assert!(verify(&key, &vec![ticket]).is_err());
                }
            }
        }
    }
}

#[test]
fn edge_keys_do_not_break_finalization() {
    for key in keys() {
        let size = (key.len() - 10) / 2;
        for len in [0usize, 1, size.saturating_sub(1), size, size + 1] {
            for fill in ["00", "01", "ff"] {
                for randomizer in ["00", "5a"] {
                    let ticket = UnsignedTicket {
                        msg: bytes(32, "11"),
                        blind_msg: bytes(len, "33"),
                        msg_randomizer: bytes(32, randomizer),
                        id: bytes(32, "22"),
                        secret: bytes(len, fill),
                    };
                    let signature = BlindedSignature { blind_sig: bytes(len, fill), id: bytes(32, "22") };
                    let input =
                        FinalizeInput { unsigned_tickets: vec![ticket], blind_signatures: vec![signature] };
                    assert!(finalize(&key, input).is_err());
                }
            }
        }
    }
}
