//! A registered wallet.

use crate::network::Network;
use vstd::prelude::*;
use vstd::string::StringExecFns;

verus! {

/// An address on a network, registered to be watched.
#[derive(Debug, PartialEq)]
pub struct Wallet {
    pub wallet_address: String,
    pub network: Network,
}

/// A wallet as a mathematical value.
pub struct WalletView {
    pub wallet_address: Seq<char>,
    pub network: Network,
}

impl View for Wallet {
    type V = WalletView;

    open spec fn view(&self) -> WalletView {
        WalletView { wallet_address: self.wallet_address@, network: self.network }
    }
}

impl Clone for Wallet {
    fn clone(&self) -> (copy: Wallet)
        ensures
            copy@ == self@,
    {
        Wallet { wallet_address: self.wallet_address.clone(), network: self.network }
    }
}

impl Wallet {
    /// A wallet on the network that `network` names, whatever the case of
    /// its letters.
    pub fn new(wallet_address: String, network: String) -> (wallet: Result<Wallet, String>)
        ensures
            match Network::of_name(network@) {
                Some(n) => wallet matches Ok(w) && w@ == (WalletView {
                    wallet_address: wallet_address@,
                    network: n,
                }),
                None => wallet matches Err(message) && message@ == "Invalid wallet network type"@,
            },
    {
        match Network::from_str(network) {
            Ok(user_network) => Ok(Wallet { wallet_address, network: user_network }),
            Err(_) => Err(String::from_str("Invalid wallet network type")),
        }
    }

    /// Moves the wallet to the network that `network` names. A name that
    /// stands for no network leaves the wallet as it is.
    pub fn change_network(&mut self, network: String) -> (outcome: Result<String, String>)
        ensures
            match Network::of_name(network@) {
                Some(n) => {
                    &&& final(self)@ == (WalletView { network: n, ..old(self)@ })
                    &&& outcome matches Ok(message) && message@ == "Network updated successfully"@
                },
                None => {
                    &&& final(self)@ == old(self)@
                    &&& outcome matches Err(message) && message@ == "Invalid network type"@
                },
            },
    {
        match Network::from_str(network) {
            Ok(new_network) => {
                self.network = new_network;
                Ok(String::from_str("Network updated successfully"))
            },
            Err(_) => Err(String::from_str("Invalid network type")),
        }
    }
}

/// The views of a list of wallets, in order.
pub open spec fn wallet_views(wallets: Seq<Wallet>) -> Seq<WalletView> {
    Seq::new(wallets.len(), |i: int| wallets[i]@)
}

/// A copy of a list of wallets.
pub fn clone_wallets(wallets: &Vec<Wallet>) -> (copy: Vec<Wallet>)
    ensures
        wallet_views(copy@) == wallet_views(wallets@),
{
    let mut copy: Vec<Wallet> = Vec::new();
    let mut i: usize = 0;
    while i < wallets.len()
        invariant
            i <= wallets.len(),
            copy.len() == i,
            forall|j: int| 0 <= j < i ==> copy[j]@ == wallets[j]@,
        decreases wallets.len() - i,
    {
        copy.push(wallets[i].clone());
        i += 1;
    }
    assert(wallet_views(copy@) =~= wallet_views(wallets@));
    copy
}

} // verus!
