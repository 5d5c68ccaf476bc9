use vstd::prelude::*;
use crate::store::anchor_of;

verus! {

/// Which chain the wallet operates on.
#[derive(Debug, Clone, Copy, PartialEq, Eq, Structural)]
pub enum Network {
    Testnet,
    Mainnet,
}

/// Height at which the first shielded pool activated on each network.
pub open spec fn activation_height(n: Network) -> u64 {
    match n {
        Network::Testnet => 280_000,
        Network::Mainnet => 419_200,
    }
}

/// Relies on zcash_protocol's consensus parameters: the Sapling upgrade
/// activates at 280,000 on the test network and at 419,200 on the main one.
#[verifier::external_body]
fn sapling_activation(network: Network) -> (r: Option<u64>)
    ensures
        r == Some(activation_height(network)),
{
    let params = match network {
        Network::Testnet => zcash_protocol::consensus::Network::TestNetwork,
        Network::Mainnet => zcash_protocol::consensus::Network::MainNetwork,
    };
    zcash_protocol::consensus::Parameters::activation_height(
        &params,
        zcash_protocol::consensus::NetworkUpgrade::Sapling,
    ).map(u64::from)
}

/// The birthday an account gets when none is supplied: the pool-activation
/// height of its network.
pub fn default_birthday(network: Network) -> (r: u64)
    ensures
        r == activation_height(network),
{
    match sapling_activation(network) {
        Some(h) => h,
        None => 0,
    }
}

/// The birthday of a new account: the one supplied, or else the network's
/// pool-activation height.
pub fn resolve_birthday(explicit: Option<u64>, network: Network) -> (r: u64)
    ensures
        r == match explicit {
            Some(b) => b,
            None => activation_height(network),
        },
{
    match explicit {
        Some(b) => b,
        None => default_birthday(network),
    }
}

/// The height whose tree state anchors a scan from `birthday`: the end of
/// the block before it, or 0 for a birthday of 0.
pub fn anchor_height(birthday: u64) -> (r: u64)
    ensures
        r == anchor_of(birthday),
{
    birthday.saturating_sub(1)
}

/// Why a configuration was refused.
#[derive(Debug, Clone)]
pub enum ConfigError {
    /// The network name is none of test, testnet, main, mainnet.
    InvalidNetwork { name: String },
}

/// Settings the engine reads once, at start.
#[derive(Debug, Clone)]
pub struct Config {
    pub network: Network,
    pub lightwalletd_url: String,
    pub database_url: String,
}

pub open spec fn network_named(name: Seq<char>) -> Option<Network> {
    if name == "test"@ || name == "testnet"@ {
        Some(Network::Testnet)
    } else if name == "main"@ || name == "mainnet"@ {
        Some(Network::Mainnet)
    } else {
        None
    }
}

fn same_text(a: &str, b: &str) -> (r: bool)
    ensures
        r == (a@ == b@),
{
    let x: String = a.to_owned();
    let y: String = b.to_owned();
    x == y
}

/// Reads a network name.
pub fn parse_network(name: &str) -> (r: Option<Network>)
    ensures
        r == network_named(name@),
{
    if same_text(name, "test") || same_text(name, "testnet") {
        Some(Network::Testnet)
    } else if same_text(name, "main") || same_text(name, "mainnet") {
        Some(Network::Mainnet)
    } else {
        None
    }
}

impl Config {
    /// Builds the configuration from the settings found, each possibly
    /// absent: the network defaults to test, the endpoint and the database
    /// to their test defaults.
    pub fn from_settings(
        network: Option<String>,
        lightwalletd_url: Option<String>,
        database_url: Option<String>,
    ) -> (r: Result<Config, ConfigError>)
        ensures
            network matches Some(n) && network_named(n@) is None <==> r is Err,
            r matches Err(ConfigError::InvalidNetwork { name }) ==> network matches Some(n) && name@
                == n@,
            r matches Ok(c) ==> {
                &&& c.network == match network {
                    Some(n) => network_named(n@).unwrap(),
                    None => Network::Testnet,
                }
                &&& c.lightwalletd_url@ == match lightwalletd_url {
                    Some(u) => u@,
                    None => "testnet.lightwalletd.com:9067"@,
                }
                &&& c.database_url@ == match database_url {
                    Some(d) => d@,
                    None => "sqlite:wallet.db"@,
                }
            },
    {
        let net = match network {
            None => Network::Testnet,
            Some(n) => match parse_network(n.as_str()) {
                Some(v) => v,
                None => {
                    return Err(ConfigError::InvalidNetwork { name: n });
                },
            },
        };
        let url = match lightwalletd_url {
            Some(u) => u,
            None => "testnet.lightwalletd.com:9067".to_owned(),
        };
        let db = match database_url {
            Some(d) => d,
            None => "sqlite:wallet.db".to_owned(),
        };
        Ok(Config { network: net, lightwalletd_url: url, database_url: db })
    }
}

/// Direction of a transaction from the account's point of view.
#[derive(Debug, Clone, Copy, PartialEq, Eq, Structural)]
pub enum TransactionDirection {
    Received,
    Sent,
}

/// What a balance request answers.
#[derive(Debug, Clone)]
pub struct BalanceResponse {
    pub balance_zec: String,
    pub synced: bool,
    pub last_synced_height: Option<i64>,
    pub blocks_scanned: Option<usize>,
    pub notes_found: Option<usize>,
    pub chain_tip: Option<u64>,
}

/// An account's receiving address.
#[derive(Debug, Clone)]
pub struct AddressResponse {
    pub address: String,
}

} // verus!
