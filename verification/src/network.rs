//! The networks on which a gas station is deployed, and what each command
//! falls back to where the user names nothing.

use vstd::prelude::*;

verus! {

/// The chain that every command works on when none is named.
pub const DEFAULT_CHAIN_ID: u64 = 17000;

/// Why no configuration was found.
#[derive(Clone, Copy, Debug, PartialEq, Eq, Structural)]
pub enum ConfigError {
    /// Nothing is known of the chain with this identifier.
    UnsupportedChain(u64),
}

/// What is known of one network.
#[derive(Clone, Debug, PartialEq, Eq)]
pub struct Network {
    pub chain_id: u64,
    pub rpc: String,
    pub contract_address: String,
    pub pubkey: String,
    pub url: String,
    pub tickets_number: usize,
}

/// What the user named for one run of a command; `None` where nothing.
#[derive(Clone, Debug, PartialEq, Eq)]
pub struct Overrides {
    pub rpc: Option<String>,
    pub contract_address: Option<String>,
    pub pubkey: Option<String>,
    pub url: Option<String>,
    pub tickets_number: Option<usize>,
}

/// Whether built-in defaults exist for `chain_id`.
pub open spec fn supported_chain(chain_id: u64) -> bool {
    chain_id == 17000
}

/// `found` is the first of `networks` with the identifier `chain_id`.
pub open spec fn first_network(networks: Seq<Network>, chain_id: u64, found: int) -> bool {
    &&& 0 <= found < networks.len()
    &&& networks[found].chain_id == chain_id
    &&& forall|k: int| 0 <= k < found ==> (#[trigger] networks[k]).chain_id != chain_id
}

/// The text that was named, or else the default.
pub open spec fn text_or(given: Option<String>, default: String) -> Seq<char> {
    match given {
        Some(text) => text@,
        None => default@,
    }
}

/// Address of the gas station contract on the default chain.
pub open spec fn holesky_contract_address() -> Seq<char> {
    "0x943285f1a29281e59514fF35Dc16E5a14E123a27"@
}

/// Base address of the coordinator of the default chain.
pub open spec fn holesky_url() -> Seq<char> {
    "https://0000000000.org"@
}

/// RPC endpoint of the default chain.
pub open spec fn holesky_rpc() -> Seq<char> {
    "https://ethereum-holesky.publicnode.com"@
}

/// Public key of the coordinator of the default chain.
pub open spec fn holesky_pubkey() -> Seq<char> {
    "0x01000100e1dcd2c6b4eaefaa8360bfdab9810686e33f444818561c9f7efeb39cd577015bf9f98c56b5785315d8193f276f638d2f575842a62847e965fcc2e05c6b7242f21363158af9dbabb5642f40c121c0a9adabc1ea935f0ef12f68b794d717b78ebf1d3e4e4f5185fc8cb9fcc7b8e39c7e276ed6ac37e934a0b2bda1aa7193ce55d849deb94a4545d8d228d66a1dba96d99c236148bcc6affb2c898e869b90cbcf62b8397a93f3345f65dcbe83ae03c9ecc5aa934fc997898547136963266bb1eb29eaf62611c608b428bd72ad15614b561fdf3d16cccc1e8ee1e3b917529ee22acc8ff2f83c0114c809302381186ea6fc138060fba4bc03265b64d854bd9f536221"@
}

/// Tells whether built-in defaults exist for `chain_id`.
pub fn is_supported_chain(chain_id: u64) -> (r: bool)
    ensures
        r == supported_chain(chain_id),
{
    chain_id == 17000
}

/// The chain that was named, or else the default chain.
pub fn chain_or_default(chain_id: Option<u64>) -> (r: u64)
    ensures
        r == match chain_id {
            Some(id) => id,
            None => DEFAULT_CHAIN_ID,
        },
{
    match chain_id {
        Some(id) => id,
        None => DEFAULT_CHAIN_ID,
    }
}

/// Address of the gas station contract on `chain_id`.
pub fn get_default_contract_address(chain_id: u64) -> (r: String)
    requires
        supported_chain(chain_id),
    ensures
        r@ == holesky_contract_address(),
{
    "0x943285f1a29281e59514fF35Dc16E5a14E123a27".to_string()
}

/// Base address of the coordinator that serves `chain_id`.
pub fn get_default_url(chain_id: u64) -> (r: String)
    requires
        supported_chain(chain_id),
    ensures
        r@ == holesky_url(),
{
    "https://0000000000.org".to_string()
}

/// Public key of the coordinator that serves `chain_id`.
pub fn get_default_pubkey(chain_id: u64) -> (r: String)
    requires
        supported_chain(chain_id),
    ensures
        r@ == holesky_pubkey(),
{
    "0x01000100e1dcd2c6b4eaefaa8360bfdab9810686e33f444818561c9f7efeb39cd577015bf9f98c56b5785315d8193f276f638d2f575842a62847e965fcc2e05c6b7242f21363158af9dbabb5642f40c121c0a9adabc1ea935f0ef12f68b794d717b78ebf1d3e4e4f5185fc8cb9fcc7b8e39c7e276ed6ac37e934a0b2bda1aa7193ce55d849deb94a4545d8d228d66a1dba96d99c236148bcc6affb2c898e869b90cbcf62b8397a93f3345f65dcbe83ae03c9ecc5aa934fc997898547136963266bb1eb29eaf62611c608b428bd72ad15614b561fdf3d16cccc1e8ee1e3b917529ee22acc8ff2f83c0114c809302381186ea6fc138060fba4bc03265b64d854bd9f536221".to_string()
}

/// RPC endpoint used for `chain_id`.
pub fn get_default_rpc(chain_id: u64) -> (r: String)
    requires
        supported_chain(chain_id),
    ensures
        r@ == holesky_rpc(),
{
    "https://ethereum-holesky.publicnode.com".to_string()
}

/// Number of tickets generated at a time on `chain_id`.
pub fn get_default_tickets_number(chain_id: u64) -> (r: usize)
    requires
        supported_chain(chain_id),
    ensures
        r == 10,
{
    10
}

/// The networks that are known without being told: the default chain.
pub fn known_networks() -> (r: Vec<Network>)
    ensures
        r@.len() == 1,
        r@[0].chain_id == DEFAULT_CHAIN_ID,
        r@[0].rpc@ == holesky_rpc(),
        r@[0].contract_address@ == holesky_contract_address(),
        r@[0].pubkey@ == holesky_pubkey(),
        r@[0].url@ == holesky_url(),
        r@[0].tickets_number == 10,
{
    let mut networks: Vec<Network> = Vec::new();
    networks.push(
        Network {
            chain_id: DEFAULT_CHAIN_ID,
            rpc: get_default_rpc(DEFAULT_CHAIN_ID),
            contract_address: get_default_contract_address(DEFAULT_CHAIN_ID),
            pubkey: get_default_pubkey(DEFAULT_CHAIN_ID),
            url: get_default_url(DEFAULT_CHAIN_ID),
            tickets_number: get_default_tickets_number(DEFAULT_CHAIN_ID),
        },
    );
    networks
}

/// Looks `chain_id` up among `networks`, and takes the first entry with
/// that identifier out of them. A chain of which nothing is known is an error.
pub fn find_network(networks: Vec<Network>, chain_id: u64) -> (r: Result<Network, ConfigError>)
    ensures
        match r {
            Ok(network) => exists|found: int|
                #[trigger] first_network(networks@, chain_id, found) && network == networks@[found],
            Err(e) => {
                &&& e == ConfigError::UnsupportedChain(chain_id)
                &&& forall|k: int| 0 <= k < networks@.len() ==> (#[trigger] networks@[k]).chain_id != chain_id
            },
        },
{
    let mut rest = networks;
    let mut i: usize = 0;
    while i < rest.len()
        invariant
            i <= rest@.len(),
            rest@ == networks@,
            forall|k: int| 0 <= k < i ==> (#[trigger] rest@[k]).chain_id != chain_id,
        decreases rest@.len() - i,
    {
        if rest[i].chain_id == chain_id {
            let network = rest.swap_remove(i);
            assert(first_network(networks@, chain_id, i as int));
            return Ok(network);
        }
        i += 1;
    }
    Err(ConfigError::UnsupportedChain(chain_id))
}

/// The configuration of one run: what the user named, and for the rest what
/// is known of the network.
pub fn configure(network: Network, overrides: Overrides) -> (r: Network)
    ensures
        r.chain_id == network.chain_id,
        r.rpc@ == text_or(overrides.rpc, network.rpc),
        r.contract_address@ == text_or(overrides.contract_address, network.contract_address),
        r.pubkey@ == text_or(overrides.pubkey, network.pubkey),
        r.url@ == text_or(overrides.url, network.url),
        r.tickets_number == match overrides.tickets_number {
            Some(number) => number,
            None => network.tickets_number,
        },
{
    Network {
        chain_id: network.chain_id,
        rpc: match overrides.rpc {
            Some(text) => text,
            None => network.rpc,
        },
        contract_address: match overrides.contract_address {
            Some(text) => text,
            None => network.contract_address,
        },
        pubkey: match overrides.pubkey {
            Some(text) => text,
            None => network.pubkey,
        },
        url: match overrides.url {
            Some(text) => text,
            None => network.url,
        },
        tickets_number: match overrides.tickets_number {
            Some(number) => number,
            None => network.tickets_number,
        },
    }
}

} // verus!
