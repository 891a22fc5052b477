//! What the answers of the document store mean.
//!
//! Queries are sent by the caller. The rules that turn what came back into
//! the answer of an operation are here: what counts as found, what as a
//! duplicate, and which users and wallets belong to a network.

use crate::address::same_account;
use crate::error::PersistenceError;
use crate::network::{Network, NetworkManager};
use crate::processor::{is_registered, wallets_on};
use crate::user::find_wallet;
use crate::user::{user_views, User, UserView};
use crate::wallet::{wallet_views, Wallet, WalletView};
use vstd::prelude::*;
use vstd::string::*;

verus! {

/// Why an operation on the store did not give what was asked for.
#[derive(Debug, PartialEq)]
pub struct DatabaseResponse {
    pub error_code: u16,
    pub message: String,
}

/// A response as a mathematical value.
pub struct DatabaseResponseView {
    pub error_code: u16,
    pub message: Seq<char>,
}

impl View for DatabaseResponse {
    type V = DatabaseResponseView;

    open spec fn view(&self) -> DatabaseResponseView {
        DatabaseResponseView { error_code: self.error_code, message: self.message@ }
    }
}

impl DatabaseResponse {
    /// A response with a code and a message.
    pub fn new(error_code: u16, message: String) -> (response: DatabaseResponse)
        ensures
            response@ == (DatabaseResponseView { error_code, message: message@ }),
    {
        DatabaseResponse { error_code, message }
    }
}

/// What a refusal of the store means to the crawler: the store has no such
/// record, or it could not do what was asked.
pub fn persistence_error(response: &DatabaseResponse) -> (error: PersistenceError)
    ensures
        error == if response.error_code == 404 {
            PersistenceError::NotFound
        } else {
            PersistenceError::Unavailable
        },
{
    if response.error_code == 404 {
        PersistenceError::NotFound
    } else {
        PersistenceError::Unavailable
    }
}

/// A user may be created only if looking for one with the same e-mail
/// address found none.
pub fn user_is_new(lookup: &Result<User, DatabaseResponse>) -> (verdict: Result<
    (),
    DatabaseResponse,
>)
    ensures
        match *lookup {
            Ok(_) => verdict matches Err(r) && r@ == (DatabaseResponseView {
                error_code: 500,
                message: "User already exists"@,
            }),
            Err(_) => verdict is Ok,
        },
{
    match lookup {
        Ok(_) => Err(DatabaseResponse::new(500, String::from_str("User already exists"))),
        Err(_) => Ok(()),
    }
}

/// The first of the users that a query found, or the answer that there is
/// none.
pub fn first_user(found: &Vec<User>) -> (user: Result<User, DatabaseResponse>)
    ensures
        match user {
            Ok(u) => found.len() > 0 && u@ == found[0]@,
            Err(r) => found.len() == 0 && r@ == (DatabaseResponseView {
                error_code: 404,
                message: "User not found"@,
            }),
        },
{
    if found.len() > 0 {
        Ok(found[0].clone())
    } else {
        Err(DatabaseResponse::new(404, String::from_str("User not found")))
    }
}

/// The answer to replacing a user: the user, unless the store changed no
/// document, which means that it has no such user.
pub fn updated_user(modified_count: u64, user: User) -> (outcome: Result<User, DatabaseResponse>)
    ensures
        match outcome {
            Ok(u) => modified_count != 0 && u == user,
            Err(r) => modified_count == 0 && r@ == (DatabaseResponseView {
                error_code: 404,
                message: "User not found"@,
            }),
        },
{
    if modified_count == 0 {
        Err(DatabaseResponse::new(404, String::from_str("User not found")))
    } else {
        Ok(user)
    }
}

/// What looking for a network before creating it means: found, the network
/// exists already; not found, it may be created; any other failure stops
/// the creation.
pub open spec fn creation_verdict(
    lookup: Result<NetworkManager, DatabaseResponse>,
    shown: Seq<char>,
) -> Option<DatabaseResponseView> {
    match lookup {
        Ok(_) => Some(
            DatabaseResponseView { error_code: 500, message: "Network already exists"@ },
        ),
        Err(r) => if r.error_code == 404 {
            None
        } else {
            Some(
                DatabaseResponseView {
                    error_code: 500,
                    message: "Error creating network : "@ + shown,
                },
            )
        },
    }
}

/// Decides whether a network may be created, from what looking for it
/// brought. `shown` is the failure of the lookup as it is to be shown.
pub fn network_is_new(lookup: &Result<NetworkManager, DatabaseResponse>, shown: &str) -> (verdict:
    Result<(), DatabaseResponse>)
    ensures
        match creation_verdict(*lookup, shown@) {
            Some(refusal) => verdict matches Err(r) && r@ == refusal,
            None => verdict is Ok,
        },
{
    match lookup {
        Ok(_) => Err(DatabaseResponse::new(500, String::from_str("Network already exists"))),
        Err(r) => {
            if r.error_code == 404 {
                Ok(())
            } else {
                let mut message = String::from_str("Error creating network : ");
                message.append(shown);
                Err(DatabaseResponse::new(500, message))
            }
        },
    }
}

/// The answer to looking a network up by its name.
pub fn network_by_name(found: Option<NetworkManager>) -> (network: Result<
    NetworkManager,
    DatabaseResponse,
>)
    ensures
        match found {
            Some(n) => network matches Ok(m) && m == n,
            None => network matches Err(r) && r@ == (DatabaseResponseView {
                error_code: 404,
                message: "network not found"@,
            }),
        },
{
    match found {
        Some(n) => Ok(n),
        None => Err(DatabaseResponse::new(404, String::from_str("network not found"))),
    }
}

/// The answer to looking a network up by its chain id.
pub fn network_by_chain_id(found: Option<NetworkManager>) -> (network: Result<
    NetworkManager,
    DatabaseResponse,
>)
    ensures
        match found {
            Some(n) => network matches Ok(m) && m == n,
            None => network matches Err(r) && r@ == (DatabaseResponseView {
                error_code: 500,
                message: "network not found"@,
            }),
        },
{
    match found {
        Some(n) => Ok(n),
        None => Err(DatabaseResponse::new(500, String::from_str("network not found"))),
    }
}

/// The users with a wallet on a network, in the order of the list. A user
/// is listed once for each wallet they have on the network.
pub open spec fn users_on(users: Seq<UserView>, network: Network) -> Seq<UserView>
    decreases users.len(),
{
    if users.len() == 0 {
        Seq::empty()
    } else {
        users_on(users.drop_last(), network) + Seq::new(
            wallets_on(users.last().wallets, network).len(),
            |i: int| users.last(),
        )
    }
}

/// The wallets that the users have on a network, user by user, in the
/// order of the list.
pub open spec fn wallets_of_users(users: Seq<UserView>, network: Network) -> Seq<WalletView>
    decreases users.len(),
{
    if users.len() == 0 {
        Seq::empty()
    } else {
        wallets_of_users(users.drop_last(), network) + wallets_on(users.last().wallets, network)
    }
}

/// The users with a wallet on a network, once for each such wallet.
pub fn users_via_network(users: &Vec<User>, network: Network) -> (filtered: Vec<User>)
    ensures
        user_views(filtered@) == users_on(user_views(users@), network),
{
    let mut filtered: Vec<User> = Vec::new();
    let ghost all = user_views(users@);
    let mut i: usize = 0;
    while i < users.len()
        invariant
            i <= users.len(),
            all == user_views(users@),
            user_views(filtered@) == users_on(all.take(i as int), network),
        decreases users.len() - i,
    {
        let user = &users[i];
        let ghost before = user_views(filtered@);
        let ghost wallets = wallet_views(user.wallets@);
        proof {
            assert(all.take(i + 1).drop_last() =~= all.take(i as int));
            assert(all.take(i + 1).last() == user@);
            assert(wallets.take(0) =~= Seq::<WalletView>::empty());
            assert(user_views(filtered@) =~= before + Seq::new(0, |k: int| user@));
        }
        let mut j: usize = 0;
        while j < user.wallets.len()
            invariant
                j <= user.wallets.len(),
                wallets == wallet_views(user.wallets@),
                user_views(filtered@) == before + Seq::new(
                    wallets_on(wallets.take(j as int), network).len(),
                    |k: int| user@,
                ),
            decreases user.wallets.len() - j,
        {
            proof {
                assert(wallets.take(j + 1).drop_last() =~= wallets.take(j as int));
                assert(wallets.take(j + 1).last() == user.wallets[j as int]@);
            }
            let ghost so_far = user_views(filtered@);
            if user.wallets[j].network == network {
                filtered.push(user.clone());
                assert(user_views(filtered@) =~= so_far.push(user@));
            }
            j += 1;
            assert(user_views(filtered@) =~= before + Seq::new(
                wallets_on(wallets.take(j as int), network).len(),
                |k: int| user@,
            ));
        }
        assert(wallets.take(user.wallets.len() as int) =~= wallets);
        i += 1;
    }
    assert(all.take(users.len() as int) =~= all);
    filtered
}

/// The wallets that the users have on a network.
pub fn wallets_via_network(users: &Vec<User>, network: Network) -> (wallets: Vec<Wallet>)
    ensures
        wallet_views(wallets@) == wallets_of_users(user_views(users@), network),
{
    let mut wallets: Vec<Wallet> = Vec::new();
    let ghost all = user_views(users@);
    let mut i: usize = 0;
    while i < users.len()
        invariant
            i <= users.len(),
            all == user_views(users@),
            wallet_views(wallets@) == wallets_of_users(all.take(i as int), network),
        decreases users.len() - i,
    {
        proof {
            assert(all.take(i + 1).drop_last() =~= all.take(i as int));
            assert(all.take(i + 1).last() == users[i as int]@);
        }
        let ghost before = wallet_views(wallets@);
        let mut selected = crate::processor::select_network(&users[i].wallets, network);
        let ghost added = wallet_views(selected@);
        wallets.append(&mut selected);
        assert(wallet_views(wallets@) =~= before + added);
        i += 1;
    }
    assert(all.take(users.len() as int) =~= all);
    wallets
}

/// The users who registered the account `address`, in the order of the
/// list.
pub open spec fn users_of_account(users: Seq<UserView>, address: Seq<char>) -> Seq<UserView>
    decreases users.len(),
{
    if users.len() == 0 {
        Seq::empty()
    } else if is_registered(users.last().wallets, address) {
        users_of_account(users.drop_last(), address).push(users.last())
    } else {
        users_of_account(users.drop_last(), address)
    }
}

/// The users who registered the account `address`, however they wrote it.
pub fn users_with_wallet(users: &Vec<User>, address: &str) -> (owners: Vec<User>)
    ensures
        user_views(owners@) == users_of_account(user_views(users@), address@),
{
    let mut owners: Vec<User> = Vec::new();
    let ghost all = user_views(users@);
    let mut i: usize = 0;
    while i < users.len()
        invariant
            i <= users.len(),
            all == user_views(users@),
            user_views(owners@) == users_of_account(all.take(i as int), address@),
        decreases users.len() - i,
    {
        proof {
            assert(all.take(i + 1).drop_last() =~= all.take(i as int));
            assert(all.take(i + 1).last() == users[i as int]@);
        }
        let ghost before = user_views(owners@);
        let found = find_wallet(&users[i].wallets, address);
        proof {
            let wallets = users[i as int]@.wallets;
            match found {
                Some(k) => {
                    assert(same_account(wallets[k as int].wallet_address, address@));
                },
                None => {
                    assert(!is_registered(wallets, address@));
                },
            }
        }
        if found.is_some() {
            owners.push(users[i].clone());
            assert(user_views(owners@) =~= before.push(users[i as int]@));
        }
        i += 1;
    }
    assert(all.take(users.len() as int) =~= all);
    owners
}

} // verus!
