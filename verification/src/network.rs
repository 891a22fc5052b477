//! The networks the crawler knows, and the record kept of each.

use crate::partition::BlockHeight;
use crate::text::{lowercase, same_text, to_lowercase};
use vstd::prelude::*;
use vstd::string::StringExecFns;

verus! {

/// A chain that wallets can be registered on.
#[derive(Clone, Copy, Debug, PartialEq, Eq, Structural)]
pub enum Network {
    Ethereum,
    Starknet,
    Base,
    Optimism,
}

/// A name that stands for no network.
#[derive(Clone, Copy, Debug, PartialEq, Eq, Structural)]
pub struct UnknownNetwork;

impl Network {
    /// The name of the network as it is stored and shown.
    pub open spec fn name(self) -> Seq<char> {
        match self {
            Network::Ethereum => "Ethereum"@,
            Network::Starknet => "Starknet"@,
            Network::Base => "Base"@,
            Network::Optimism => "Optimism"@,
        }
    }

    /// The network that a name in lower case stands for.
    pub open spec fn of_lowercase(name: Seq<char>) -> Option<Network> {
        if name == "ethereum"@ {
            Some(Network::Ethereum)
        } else if name == "starknet"@ {
            Some(Network::Starknet)
        } else if name == "base"@ {
            Some(Network::Base)
        } else if name == "optimism"@ {
            Some(Network::Optimism)
        } else {
            None
        }
    }

    /// The network that a name stands for, whatever the case of its
    /// letters.
    pub open spec fn of_name(name: Seq<char>) -> Option<Network> {
        Network::of_lowercase(lowercase(name))
    }

    /// The name of the network. Every network has one.
    pub fn as_str(&self) -> (name: Result<String, String>)
        ensures
            name matches Ok(n) && n@ == self.name(),
    {
        match self {
            Network::Ethereum => Ok(String::from_str("Ethereum")),
            Network::Starknet => Ok(String::from_str("Starknet")),
            Network::Base => Ok(String::from_str("Base")),
            Network::Optimism => Ok(String::from_str("Optimism")),
        }
    }

    /// The network that a name in lower case stands for.
    pub fn from_lowercase(name: &str) -> (network: Result<Network, UnknownNetwork>)
        ensures
            network == match Network::of_lowercase(name@) {
                Some(n) => Ok::<Network, UnknownNetwork>(n),
                None => Err::<Network, UnknownNetwork>(UnknownNetwork),
            },
    {
        if same_text(name, "ethereum") {
            Ok(Network::Ethereum)
        } else if same_text(name, "starknet") {
            Ok(Network::Starknet)
        } else if same_text(name, "base") {
            Ok(Network::Base)
        } else if same_text(name, "optimism") {
            Ok(Network::Optimism)
        } else {
            Err(UnknownNetwork)
        }
    }

    /// The network that a name stands for, whatever the case of its
    /// letters.
    pub fn parse(name: &str) -> (network: Result<Network, UnknownNetwork>)
        ensures
            network == match Network::of_name(name@) {
                Some(n) => Ok::<Network, UnknownNetwork>(n),
                None => Err::<Network, UnknownNetwork>(UnknownNetwork),
            },
    {
        let lower = to_lowercase(name);
        Network::from_lowercase(lower.as_str())
    }

    /// The network that a name stands for, whatever the case of its
    /// letters, or the message for a name that stands for none.
    pub fn from_str(network: String) -> (parsed: Result<Network, String>)
        ensures
            match Network::of_name(network@) {
                Some(n) => parsed == Ok::<Network, String>(n),
                None => parsed matches Err(message) && message@ == "Invalid network type"@,
            },
    {
        match Network::parse(network.as_str()) {
            Ok(n) => Ok(n),
            Err(_) => Err(String::from_str("Invalid network type")),
        }
    }
}

/// What is kept of a network: its chain id and the watermark, the highest
/// block whose processing is complete.
#[derive(Debug, PartialEq)]
pub struct NetworkManager {
    pub network_type: Network,
    pub chain_id: String,
    pub last_scanned_block: BlockHeight,
}

/// A network record as a mathematical value.
pub struct NetworkManagerView {
    pub network_type: Network,
    pub chain_id: Seq<char>,
    pub last_scanned_block: BlockHeight,
}

impl View for NetworkManager {
    type V = NetworkManagerView;

    open spec fn view(&self) -> NetworkManagerView {
        NetworkManagerView {
            network_type: self.network_type,
            chain_id: self.chain_id@,
            last_scanned_block: self.last_scanned_block,
        }
    }
}

impl Clone for NetworkManager {
    fn clone(&self) -> (copy: NetworkManager)
        ensures
            copy@ == self@,
    {
        NetworkManager {
            network_type: self.network_type,
            chain_id: self.chain_id.clone(),
            last_scanned_block: self.last_scanned_block,
        }
    }
}

/// Where a watermark stands after a request to move it to `to`: it moves
/// forward or not at all.
pub open spec fn advanced(current: BlockHeight, to: BlockHeight) -> BlockHeight {
    if to > current {
        to
    } else {
        current
    }
}

impl NetworkManager {
    /// The record of a network that has not been scanned yet.
    pub fn new(network_type: Network, chain_id: String) -> (manager: NetworkManager)
        ensures
            manager@ == (NetworkManagerView {
                network_type,
                chain_id: chain_id@,
                last_scanned_block: 0,
            }),
    {
        NetworkManager { network_type, chain_id, last_scanned_block: 0 }
    }

    /// Moves the watermark forward to `block_number`. A request to move it
    /// back, or to where it stands, changes nothing.
    pub fn update_last_scanned_block(&mut self, block_number: BlockHeight)
        ensures
            final(self)@ == (NetworkManagerView {
                last_scanned_block: advanced(old(self)@.last_scanned_block, block_number),
                ..old(self)@
            }),
            final(self)@.last_scanned_block >= old(self)@.last_scanned_block,
    {
        if block_number > self.last_scanned_block {
            self.last_scanned_block = block_number;
        }
    }

    /// The network the record is about.
    pub fn get_network_type(&self) -> (network: Network)
        ensures
            network == self@.network_type,
    {
        self.network_type
    }

    /// The chain id of the network.
    pub fn get_chain_id(&self) -> (chain_id: String)
        ensures
            chain_id@ == self@.chain_id,
    {
        self.chain_id.clone()
    }

    /// The watermark of the network.
    pub fn get_last_scanned_block(&self) -> (height: BlockHeight)
        ensures
            height == self@.last_scanned_block,
    {
        self.last_scanned_block
    }

    /// Replaces the chain id of the network.
    pub fn update_chain_id(&mut self, chain_id: String)
        ensures
            final(self)@ == (NetworkManagerView { chain_id: chain_id@, ..old(self)@ }),
    {
        self.chain_id = chain_id;
    }
}

} // verus!
