use kharon::database::{
    first_user, network_by_chain_id, network_by_name, network_is_new, persistence_error,
    updated_user, user_is_new, users_via_network, users_with_wallet, wallets_via_network,
    DatabaseResponse,
};
use kharon::error::PersistenceError;
use kharon::network::{Network, NetworkManager};
use kharon::user::User;
use kharon::wallet::Wallet;

fn wallet(address: &str, network: Network) -> Wallet {
    Wallet { wallet_address: address.to_string(), network }
}

fn user(name: &str, wallets: Vec<Wallet>) -> User {
    User {
        user_uuid: format!("id-{}", name),
        name: name.to_string(),
        email: format!("{}@example.org", name),
        wallets,
    }
}

fn response(code: u16, message: &str) -> DatabaseResponse {
    DatabaseResponse::new(code, message.to_string())
}

#[test]
fn response_holds_its_code_and_message() {
    let r = DatabaseResponse::new(404, "User not found".to_string());
    assert_eq!(r.error_code, 404);
    assert_eq!(r.message, "User not found");
}

#[test]
fn user_with_a_known_email_is_not_created_again() {
    assert_eq!(
        user_is_new(&Ok(user("ada", Vec::new()))),
        Err(response(500, "User already exists"))
    );
    assert_eq!(user_is_new(&Err(response(404, "User not found"))), Ok(()));
    assert_eq!(user_is_new(&Err(response(500, "store down"))), Ok(()));
}

#[test]
fn first_user_found_is_the_answer() {
    let found = vec![user("ada", Vec::new()), user("bob", Vec::new())];
    assert_eq!(first_user(&found), Ok(user("ada", Vec::new())));
    assert_eq!(first_user(&Vec::new()), Err(response(404, "User not found")));
}

#[test]
fn update_that_changed_nothing_means_no_such_user() {
    assert_eq!(
        updated_user(0, user("ada", Vec::new())),
        Err(response(404, "User not found"))
    );
    assert_eq!(updated_user(1, user("ada", Vec::new())), Ok(user("ada", Vec::new())));
    assert_eq!(updated_user(2, user("ada", Vec::new())), Ok(user("ada", Vec::new())));
}

#[test]
fn network_is_created_only_when_it_was_not_found() {
    let existing = NetworkManager::new(Network::Starknet, "SN_MAIN".to_string());
    assert_eq!(
        network_is_new(&Ok(existing), ""),
        Err(response(500, "Network already exists"))
    );
    assert_eq!(network_is_new(&Err(response(404, "network not found")), "shown"), Ok(()));
    assert_eq!(
        network_is_new(&Err(response(500, "store down")), "store down"),
        Err(response(500, "Error creating network : store down"))
    );
}

#[test]
fn network_lookup_by_name_answers_not_found() {
    let manager = NetworkManager::new(Network::Base, "8453".to_string());
    assert_eq!(network_by_name(Some(manager.clone())), Ok(manager));
    assert_eq!(network_by_name(None), Err(response(404, "network not found")));
}

#[test]
fn network_lookup_by_chain_id_answers_with_a_server_error() {
    let manager = NetworkManager::new(Network::Base, "8453".to_string());
    assert_eq!(network_by_chain_id(Some(manager.clone())), Ok(manager));
    assert_eq!(network_by_chain_id(None), Err(response(500, "network not found")));
}

#[test]
fn users_are_listed_once_for_each_wallet_on_the_network() {
    let ada = user(
        "ada",
        vec![
            wallet("0x1", Network::Starknet),
            wallet("0x2", Network::Base),
            wallet("0x3", Network::Starknet),
        ],
    );
    let bob = user("bob", vec![wallet("0x4", Network::Base)]);
    let cyd = user("cyd", vec![wallet("0x5", Network::Starknet)]);
    let users = vec![ada.clone(), bob.clone(), cyd.clone()];
    assert_eq!(
        users_via_network(&users, Network::Starknet),
        vec![ada.clone(), ada.clone(), cyd.clone()]
    );
    assert_eq!(users_via_network(&users, Network::Base), vec![ada.clone(), bob.clone()]);
    assert_eq!(users_via_network(&users, Network::Optimism), Vec::<User>::new());
    assert_eq!(users_via_network(&Vec::new(), Network::Base), Vec::<User>::new());
}

#[test]
fn wallets_of_a_network_are_gathered_user_by_user() {
    let users = vec![
        user("ada", vec![wallet("0x1", Network::Starknet), wallet("0x2", Network::Base)]),
        user("bob", vec![wallet("0x4", Network::Base)]),
        user("cyd", vec![wallet("0x5", Network::Starknet), wallet("0x6", Network::Starknet)]),
    ];
    assert_eq!(
        wallets_via_network(&users, Network::Starknet),
        vec![
            wallet("0x1", Network::Starknet),
            wallet("0x5", Network::Starknet),
            wallet("0x6", Network::Starknet),
        ]
    );
    assert_eq!(
        wallets_via_network(&users, Network::Base),
        vec![wallet("0x2", Network::Base), wallet("0x4", Network::Base)]
    );
    assert!(wallets_via_network(&users, Network::Ethereum).is_empty());
}

#[test]
fn users_of_an_account_are_found_however_it_is_written() {
    let ada = user("ada", vec![wallet("0xABC", Network::Starknet)]);
    let bob = user("bob", vec![wallet("0xdef", Network::Starknet)]);
    let cyd = user(
        "cyd",
        vec![wallet("0x1", Network::Base), wallet("0x000abc", Network::Starknet)],
    );
    let users = vec![ada.clone(), bob.clone(), cyd.clone()];
    assert_eq!(users_with_wallet(&users, "0xabc"), vec![ada.clone(), cyd.clone()]);
    assert_eq!(users_with_wallet(&users, "DEF"), vec![bob.clone()]);
    assert_eq!(users_with_wallet(&users, "0x2"), Vec::<User>::new());
    assert_eq!(users_with_wallet(&Vec::new(), "0xabc"), Vec::<User>::new());
}

#[test]
fn refusals_of_the_store_are_sorted_for_the_crawler() {
    assert_eq!(persistence_error(&response(404, "network not found")), PersistenceError::NotFound);
    assert_eq!(persistence_error(&response(500, "store down")), PersistenceError::Unavailable);
    assert_eq!(persistence_error(&response(0, "")), PersistenceError::Unavailable);
}
