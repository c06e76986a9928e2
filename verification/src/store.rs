//! Where tickets are kept between the steps, and when a file may be written.

use vstd::prelude::*;
use crate::amount::{decimal, decimal_digits};
use crate::text::{characters, string_of};

verus! {

/// Why nothing was written.
#[derive(Clone, Copy, Debug, PartialEq, Eq, Structural)]
pub enum StoreError {
    /// The output file exists already, and is left as it is.
    OutputExists,
}

/// Which file a step works on.
#[derive(Clone, Debug, PartialEq, Eq)]
pub enum FileChoice {
    /// The file that the user named.
    Given(String),
    /// The file of that purpose under the user's data directory.
    Default,
}

/// Name of the data directory under the user's home directory.
pub fn data_directory() -> (r: String)
    ensures
        r@ == ".stealthereum"@,
{
    ".stealthereum".to_string()
}

/// The name `stem`, then the chain in base ten, then `.json`.
pub open spec fn chain_file(stem: Seq<char>, chain_id: u64) -> Seq<char> {
    stem + decimal(chain_id as nat) + ".json"@
}

/// Builds the file name of `stem` for a chain.
fn chain_file_name(stem: &str, chain_id: u64) -> (r: String)
    ensures
        r@ == chain_file(stem@, chain_id),
{
    let mut name = characters(stem);
    let mut number = decimal_digits(chain_id);
    name.append(&mut number);
    let mut ending = characters(".json");
    name.append(&mut ending);
    string_of(&name)
}

/// Name of the file that holds the unsigned tickets of a chain.
pub fn unsigned_tickets_file(chain_id: u64) -> (r: String)
    ensures
        r@ == chain_file("unsigned_tickets_"@, chain_id),
{
    chain_file_name("unsigned_tickets_", chain_id)
}

/// Name of the file that holds the finalized tickets of a chain.
pub fn finalized_tickets_file(chain_id: u64) -> (r: String)
    ensures
        r@ == chain_file("finalized_tickets_"@, chain_id),
{
    chain_file_name("finalized_tickets_", chain_id)
}

/// Chooses the file to work on: the one that was named, or the default where
/// none was named or the name is empty.
pub fn choose_file(path: Option<String>) -> (r: FileChoice)
    ensures
        r == match path {
            Some(name) => if name@.len() == 0 {
                FileChoice::Default
            } else {
                FileChoice::Given(name)
            },
            None => FileChoice::Default,
        },
{
    match path {
        Some(name) => {
            if name.as_str().unicode_len() == 0 {
                FileChoice::Default
            } else {
                FileChoice::Given(name)
            }
        },
        None => FileChoice::Default,
    }
}

/// Decides whether the output of a step may be written: never over a file
/// that exists.
pub fn may_write(output_exists: bool) -> (r: Result<(), StoreError>)
    ensures
        r is Ok <==> !output_exists,
        r is Err ==> r == Err::<(), StoreError>(StoreError::OutputExists),
{
    if output_exists {
        Err(StoreError::OutputExists)
    } else {
        Ok(())
    }
}

} // verus!
