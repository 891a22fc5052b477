//! The notification sent to a user whose wallet triggered a transaction.
//!
//! Delivery is the caller's business; what is written, and to whom, is
//! decided here.

use crate::address::{canonical_address, canonical_form};
use crate::chain::{Transaction, TransactionView};
use crate::network::Network;
use crate::user::{user_views, User, UserView};
use vstd::prelude::*;
use vstd::slice::axiom_spec_len;
use vstd::string::*;
use vstd::utf8::{decode_utf8, encode_utf8, encode_utf8_decode_utf8, is_char_boundary};

verus! {

/// Whether an address can be written in short form: it has at least seven
/// bytes, and neither its first seven bytes nor its last seven bytes cut a
/// character in two.
pub open spec fn can_abbreviate(address: Seq<char>) -> bool {
    let bytes = encode_utf8(address);
    &&& bytes.len() >= 7
    &&& is_char_boundary(bytes, 7)
    &&& is_char_boundary(bytes, bytes.len() - 7)
}

/// The short form of an address: its first seven bytes, five dots, and its
/// last seven bytes.
pub open spec fn abbreviated(address: Seq<char>) -> Seq<char> {
    let bytes = encode_utf8(address);
    decode_utf8(bytes.subrange(0, 7)) + "....."@ + decode_utf8(
        bytes.subrange(bytes.len() - 7, bytes.len() as int),
    )
}

/// The short form of an address, if it has one.
pub fn abbreviate(address: &str) -> (short: Option<String>)
    ensures
        match short {
            Some(s) => can_abbreviate(address@) && s@ == abbreviated(address@),
            None => !can_abbreviate(address@),
        },
{
    let bytes = address.as_bytes();
    let n = bytes.len();
    proof {
        axiom_spec_len(bytes);
        assert(address.spec_bytes() == encode_utf8(address@));
        assert(n == encode_utf8(address@).len());
    }
    if n < 7 {
        return None;
    }
    if !address.is_char_boundary(7) || !address.is_char_boundary(n - 7) {
        return None;
    }
    let (head, _) = address.split_at(7);
    let (_, tail) = address.split_at(n - 7);
    proof {
        encode_utf8_decode_utf8(head@);
        encode_utf8_decode_utf8(tail@);
        assert(head.spec_bytes() == encode_utf8(head@));
        assert(tail.spec_bytes() == encode_utf8(tail@));
    }
    let mut short = String::from_str(head);
    short.append(".....");
    short.append(tail);
    Some(short)
}

/// The text of a notification.
pub open spec fn mail_text(
    name: Seq<char>,
    user_email: Seq<char>,
    blockchain: Seq<char>,
    transaction_url: Seq<char>,
    wallet_address: Seq<char>,
) -> Seq<char> {
    "\n        Dear "@ + name + ",\n        Your wallet address "@ + abbreviated(wallet_address)
        + ", Just trigered a transaction on "@ + blockchain
        + ", Find more details about this transaction by accessing starkscan through this link:\n        "@
        + transaction_url
        + ".\n\n        You've received this mail because you subscribed for notifications to this email "@
        + user_email + ", on Kharon. \n        Thank you. \n    \n        "@
}

/// Writes the notification for a transaction of the wallet
/// `wallet_address`, which is shown in short form.
pub fn write_mail(
    name: String,
    user_email: String,
    blockchain: String,
    transaction_url: String,
    wallet_address: String,
) -> (body: String)
    requires
        can_abbreviate(wallet_address@),
    ensures
        body@ == mail_text(name@, user_email@, blockchain@, transaction_url@, wallet_address@),
{
    let short = match abbreviate(wallet_address.as_str()) {
        Some(short) => short,
        None => String::new(),
    };
    let mut body = String::from_str("\n        Dear ");
    body.append(name.as_str());
    body.append(",\n        Your wallet address ");
    body.append(short.as_str());
    body.append(", Just trigered a transaction on ");
    body.append(blockchain.as_str());
    body.append(
        ", Find more details about this transaction by accessing starkscan through this link:\n        ",
    );
    body.append(transaction_url.as_str());
    body.append(
        ".\n\n        You've received this mail because you subscribed for notifications to this email ",
    );
    body.append(user_email.as_str());
    body.append(", on Kharon. \n        Thank you. \n    \n        ");
    body
}

/// Where the details of a transaction can be looked up.
pub open spec fn url_of(hash: Seq<char>) -> Seq<char> {
    "https://sepolia.starkscan.co/tx/"@ + hash
}

/// Where the details of a transaction can be looked up.
pub fn transaction_url(hash: &str) -> (url: String)
    ensures
        url@ == url_of(hash@),
{
    let mut url = String::from_str("https://sepolia.starkscan.co/tx/");
    url.append(hash);
    url
}

/// A notification ready to be sent.
#[derive(Debug, PartialEq)]
pub struct Mail {
    pub receiver: String,
    pub body: String,
}

/// A notification as a mathematical value.
pub struct MailView {
    pub receiver: Seq<char>,
    pub body: Seq<char>,
}

impl View for Mail {
    type V = MailView;

    open spec fn view(&self) -> MailView {
        MailView { receiver: self.receiver@, body: self.body@ }
    }
}

/// The views of a list of notifications, in order.
pub open spec fn mail_views(mails: Seq<Mail>) -> Seq<MailView> {
    Seq::new(mails.len(), |i: int| mails[i]@)
}

/// The notification that tells `user` of a transaction with the hash
/// `hash`, sent from the account `sender` on `blockchain`. The wallet is
/// named by the canonical form of the sender.
pub open spec fn mail_for(
    hash: Seq<char>,
    sender: Seq<char>,
    blockchain: Network,
    user: UserView,
) -> MailView {
    MailView {
        receiver: user.email,
        body: mail_text(
            user.name,
            user.email,
            blockchain.name(),
            url_of(hash),
            canonical_form(sender),
        ),
    }
}

/// The notifications that tell each of `users` of `transaction`, in the
/// order of the users. There are none to write when the transaction has no
/// sender, or a sender without a short form.
pub open spec fn mails_for(
    transaction: TransactionView,
    blockchain: Network,
    users: Seq<UserView>,
) -> Option<Seq<MailView>> {
    match transaction.sender_address {
        Some(sender) => if can_abbreviate(canonical_form(sender)) {
            Some(
                Seq::new(
                    users.len(),
                    |i: int| mail_for(transaction.hash, sender, blockchain, users[i]),
                ),
            )
        } else {
            None
        },
        None => None,
    }
}

/// Writes one notification for each of the users who registered the wallet
/// that sent the transaction.
pub fn compose_mails(transaction: &Transaction, blockchain: Network, users: &Vec<User>) -> (mails:
    Option<Vec<Mail>>)
    ensures
        match mails_for(transaction@, blockchain, user_views(users@)) {
            Some(expected) => mails matches Some(written) && mail_views(written@) == expected,
            None => mails is None,
        },
{
    let sender = match &transaction.sender_address {
        Some(sender) => sender,
        None => {
            return None;
        },
    };
    let wallet_address = canonical_address(sender.as_str());
    if abbreviate(wallet_address.as_str()).is_none() {
        return None;
    }
    let url = transaction_url(transaction.hash.as_str());
    let mut written: Vec<Mail> = Vec::new();
    let mut i: usize = 0;
    while i < users.len()
        invariant
            i <= users.len(),
            written.len() == i,
            can_abbreviate(wallet_address@),
            transaction@.sender_address == Some(sender@),
            wallet_address@ == canonical_form(sender@),
            url@ == url_of(transaction@.hash),
            forall|j: int|
                0 <= j < i ==> (#[trigger] written[j])@ == mail_for(
                    transaction@.hash,
                    sender@,
                    blockchain,
                    users[j]@,
                ),
        decreases users.len() - i,
    {
        let user = &users[i];
        let network = match blockchain.as_str() {
            Ok(name) => name,
            Err(_) => String::from_str("Starknet"),
        };
        let body = write_mail(
            user.name.clone(),
            user.email.clone(),
            network,
            url.clone(),
            wallet_address.clone(),
        );
        written.push(Mail { receiver: user.email.clone(), body });
        i += 1;
    }
    assert(mail_views(written@) =~= mails_for(transaction@, blockchain, user_views(users@))->0);
    Some(written)
}

} // verus!
