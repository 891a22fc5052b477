//! A user and the wallets registered for them.

use crate::address::{addresses_match, same_account};
use crate::network::Network;
use crate::text::{lowercase, to_lowercase};
use crate::wallet::{clone_wallets, wallet_views, Wallet, WalletView};
use vstd::prelude::*;
use vstd::string::StringExecFns;

verus! {

/// Someone who is told when one of their wallets sends a transaction.
#[derive(Debug, PartialEq)]
pub struct User {
    pub user_uuid: String,
    pub name: String,
    pub email: String,
    pub wallets: Vec<Wallet>,
}

/// A user as a mathematical value.
pub struct UserView {
    pub user_uuid: Seq<char>,
    pub name: Seq<char>,
    pub email: Seq<char>,
    pub wallets: Seq<WalletView>,
}

impl View for User {
    type V = UserView;

    open spec fn view(&self) -> UserView {
        UserView {
            user_uuid: self.user_uuid@,
            name: self.name@,
            email: self.email@,
            wallets: wallet_views(self.wallets@),
        }
    }
}

impl Clone for User {
    fn clone(&self) -> (copy: User)
        ensures
            copy@ == self@,
    {
        User {
            user_uuid: self.user_uuid.clone(),
            name: self.name.clone(),
            email: self.email.clone(),
            wallets: clone_wallets(&self.wallets),
        }
    }
}

/// The views of a list of users, in order.
pub open spec fn user_views(users: Seq<User>) -> Seq<UserView> {
    Seq::new(users.len(), |i: int| users[i]@)
}

/// Whether a character is a hexadecimal digit in lower case.
pub open spec fn is_lower_hex(c: char) -> bool {
    ('0' <= c && c <= '9') || ('a' <= c && c <= 'f')
}

/// Whether a text has the shape of an identifier: thirty-six characters,
/// hyphens after the eighth, the twelfth, the sixteenth and the twentieth
/// digit, and hexadecimal digits in lower case everywhere else.
pub open spec fn is_identifier(text: Seq<char>) -> bool {
    &&& text.len() == 36
    &&& forall|i: int|
        0 <= i < 36 ==> if i == 8 || i == 13 || i == 18 || i == 23 {
            #[trigger] text[i] == '-'
        } else {
            is_lower_hex(text[i])
        }
}

/// Calls `Uuid::new_v4` of the `uuid` crate for a random identifier and
/// renders it with its `Display`, which writes the hyphenated form in lower
/// case: 32 hexadecimal digits in groups of 8, 4, 4, 4 and 12, with a
/// hyphen between the groups. Which identifier comes back is open.
#[verifier::external_body]
fn fresh_identifier() -> (id: String)
    ensures
        is_identifier(id@),
{
    uuid::Uuid::new_v4().to_string()
}

/// Whether wallet `i` is the first of the list that is the account
/// `address`.
pub open spec fn first_wallet_at(wallets: Seq<WalletView>, address: Seq<char>, i: int) -> bool {
    &&& 0 <= i < wallets.len()
    &&& same_account(wallets[i].wallet_address, address)
    &&& forall|j: int| 0 <= j < i ==> !same_account(#[trigger] wallets[j].wallet_address, address)
}

/// Whether no wallet of the list is the account `address`.
pub open spec fn no_wallet(wallets: Seq<WalletView>, address: Seq<char>) -> bool {
    forall|j: int|
        0 <= j < wallets.len() ==> !same_account(#[trigger] wallets[j].wallet_address, address)
}

/// The position of the first wallet of the list that is the account
/// `address`.
pub fn find_wallet(wallets: &Vec<Wallet>, address: &str) -> (position: Option<usize>)
    ensures
        match position {
            Some(i) => first_wallet_at(wallet_views(wallets@), address@, i as int),
            None => no_wallet(wallet_views(wallets@), address@),
        },
{
    let mut i: usize = 0;
    while i < wallets.len()
        invariant
            i <= wallets.len(),
            forall|j: int|
                0 <= j < i ==> !same_account(
                    #[trigger] wallet_views(wallets@)[j].wallet_address,
                    address@,
                ),
        decreases wallets.len() - i,
    {
        if addresses_match(wallets[i].wallet_address.as_str(), address) {
            return Some(i);
        }
        i += 1;
    }
    None
}

impl User {
    /// The user with the identifier, the name, the e-mail address and the
    /// wallets given, each as it is.
    pub fn with_identifier(
        user_uuid: String,
        name: String,
        email: String,
        wallets: Vec<Wallet>,
    ) -> (user: User)
        ensures
            user@ == (UserView {
                user_uuid: user_uuid@,
                name: name@,
                email: email@,
                wallets: wallet_views(wallets@),
            }),
    {
        User { user_uuid, name, email, wallets }
    }

    /// A new user under a fresh identifier, with the e-mail address in
    /// lower case.
    pub fn new(name: String, email: String, wallets: Vec<Wallet>) -> (user: Result<User, String>)
        ensures
            user matches Ok(u) && u@.name == name@ && u@.email == lowercase(email@) && u@.wallets
                == wallet_views(wallets@) && is_identifier(u@.user_uuid),
    {
        Ok(
            User::with_identifier(
                fresh_identifier(),
                name,
                to_lowercase(email.as_str()),
                wallets,
            ),
        )
    }

    /// Registers one more wallet and returns the user as it then is.
    pub fn add_wallet(&mut self, user_wallet: Wallet) -> (user: Result<User, String>)
        ensures
            final(self)@ == (UserView {
                wallets: old(self)@.wallets.push(user_wallet@),
                ..old(self)@
            }),
            user matches Ok(u) && u@ == final(self)@,
    {
        self.wallets.push(user_wallet);
        assert(wallet_views(self.wallets@) =~= wallet_views(old(self).wallets@).push(
            user_wallet@,
        ));
        Ok(self.clone())
    }

    /// The first wallet of the user that is the account `address`.
    pub fn get_wallet_by_address(&self, address: &str) -> (wallet: Result<&Wallet, String>)
        ensures
            match wallet {
                Ok(w) => exists|i: int|
                    first_wallet_at(self@.wallets, address@, i) && w@ == self@.wallets[i],
                Err(message) => no_wallet(self@.wallets, address@) && message@
                    == "Could not find wallet with given address"@,
            },
    {
        match find_wallet(&self.wallets, address) {
            Some(i) => {
                assert(first_wallet_at(self@.wallets, address@, i as int));
                Ok(&self.wallets[i])
            },
            None => Err(String::from_str("Could not find wallet with given address")),
        }
    }

    /// Takes the first wallet that is the account `address` out of the
    /// user's wallets; the others keep their order.
    pub fn remove_wallet(&mut self, address: &str) -> (outcome: Result<String, String>)
        ensures
            match outcome {
                Ok(message) => message@ == "Wallet removed successfully"@ && exists|i: int|
                    first_wallet_at(old(self)@.wallets, address@, i) && final(self)@ == (UserView {
                        wallets: old(self)@.wallets.remove(i),
                        ..old(self)@
                    }),
                Err(message) => message@ == "Could not find wallet with given address"@
                    && no_wallet(old(self)@.wallets, address@) && final(self)@ == old(self)@,
            },
    {
        match find_wallet(&self.wallets, address) {
            Some(i) => {
                self.wallets.remove(i);
                assert(first_wallet_at(old(self)@.wallets, address@, i as int));
                assert(wallet_views(self.wallets@) =~= wallet_views(old(self).wallets@).remove(
                    i as int,
                ));
                Ok(String::from_str("Wallet removed successfully"))
            },
            None => Err(String::from_str("Could not find wallet with given address")),
        }
    }

    /// Moves the first wallet that is the account `address` to another
    /// network.
    pub fn update_wallet_network(&mut self, address: &str, new_network: Network) -> (outcome:
        Result<String, String>)
        ensures
            match outcome {
                Ok(message) => message@ == "Wallet network updated successfully"@ && exists|i: int|
                    first_wallet_at(old(self)@.wallets, address@, i) && final(self)@ == (UserView {
                        wallets: old(self)@.wallets.update(
                            i,
                            WalletView { network: new_network, ..old(self)@.wallets[i] },
                        ),
                        ..old(self)@
                    }),
                Err(message) => message@ == "Could not find wallet with given address"@
                    && no_wallet(old(self)@.wallets, address@) && final(self)@ == old(self)@,
            },
    {
        match find_wallet(&self.wallets, address) {
            Some(i) => {
                let moved = Wallet {
                    wallet_address: self.wallets[i].wallet_address.clone(),
                    network: new_network,
                };
                self.wallets.set(i, moved);
                assert(first_wallet_at(old(self)@.wallets, address@, i as int));
                assert(wallet_views(self.wallets@) =~= wallet_views(old(self).wallets@).update(
                    i as int,
                    WalletView { network: new_network, ..old(self)@.wallets[i as int] },
                ));
                Ok(String::from_str("Wallet network updated successfully"))
            },
            None => Err(String::from_str("Could not find wallet with given address")),
        }
    }

    /// A copy of the user's wallets.
    pub fn get_user_wallets(&self) -> (wallets: Result<Vec<Wallet>, String>)
        ensures
            wallets matches Ok(ws) && wallet_views(ws@) == self@.wallets,
    {
        Ok(clone_wallets(&self.wallets))
    }

    /// Replaces the user's e-mail address.
    pub fn change_email(&mut self, new_email: String) -> (outcome: Result<String, String>)
        ensures
            final(self)@ == (UserView { email: new_email@, ..old(self)@ }),
            outcome matches Ok(message) && message@ == "Email updated successfully"@,
    {
        self.email = new_email;
        Ok(String::from_str("Email updated successfully"))
    }
}

} // verus!
