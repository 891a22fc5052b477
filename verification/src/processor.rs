//! Block processing: which transactions of a block were sent from a
//! registered wallet.
//!
//! Addresses are compared by their canonical form, never as they were
//! written.

use crate::address::{canonical_address, canonical_form, same_account};
use crate::chain::{transaction_views, Block, BlockView, Transaction, TransactionView};
use crate::error::{ProcessError, RpcError};
use crate::network::Network;
use crate::wallet::{wallet_views, Wallet, WalletView};
use vstd::prelude::*;

verus! {

/// The views of a list of texts, in order.
pub open spec fn text_views(texts: Seq<String>) -> Seq<Seq<char>> {
    Seq::new(texts.len(), |i: int| texts[i]@)
}

/// The wallets of a list that are on a network, in the order of the list.
pub open spec fn wallets_on(wallets: Seq<WalletView>, network: Network) -> Seq<WalletView>
    decreases wallets.len(),
{
    if wallets.len() == 0 {
        Seq::empty()
    } else if wallets.last().network == network {
        wallets_on(wallets.drop_last(), network).push(wallets.last())
    } else {
        wallets_on(wallets.drop_last(), network)
    }
}

/// The texts of a list without repeats: each text once, where it first
/// occurs.
pub open spec fn distinct(texts: Seq<Seq<char>>) -> Seq<Seq<char>>
    decreases texts.len(),
{
    if texts.len() == 0 {
        Seq::empty()
    } else if distinct(texts.drop_last()).contains(texts.last()) {
        distinct(texts.drop_last())
    } else {
        distinct(texts.drop_last()).push(texts.last())
    }
}

/// The addresses of a list of wallets in canonical form, wallet by wallet.
pub open spec fn canonical_forms(wallets: Seq<WalletView>) -> Seq<Seq<char>> {
    Seq::new(wallets.len(), |i: int| canonical_form(wallets[i].wallet_address))
}

/// The accounts of a list of wallets: the canonical form of each address,
/// once, in the order in which the accounts first occur.
pub open spec fn accounts_of(wallets: Seq<WalletView>) -> Seq<Seq<char>> {
    distinct(canonical_forms(wallets))
}

/// The accounts registered on a network: the canonical form of the address
/// of each wallet of the list that is on the network, once.
pub open spec fn addresses_on(wallets: Seq<WalletView>, network: Network) -> Seq<Seq<char>> {
    accounts_of(wallets_on(wallets, network))
}

/// Whether no text occurs twice in a list.
pub open spec fn no_repeats(texts: Seq<Seq<char>>) -> bool {
    forall|i: int, j: int| 0 <= i < j < texts.len() ==> texts[i] != texts[j]
}

/// A list without its repeats holds each text of the list, holds nothing
/// else, and holds nothing twice.
pub proof fn lemma_distinct(texts: Seq<Seq<char>>)
    ensures
        distinct(texts).len() <= texts.len(),
        no_repeats(distinct(texts)),
        forall|t: Seq<char>| distinct(texts).contains(t) <==> texts.contains(t),
    decreases texts.len(),
{
    if texts.len() > 0 {
        let front = texts.drop_last();
        let last = texts.last();
        let earlier = distinct(front);
        let all = distinct(texts);
        lemma_distinct(front);
        assert forall|t: Seq<char>| all.contains(t) <==> texts.contains(t) by {
            if all.contains(t) {
                let k = choose|k: int| 0 <= k < all.len() && all[k] == t;
                if k < earlier.len() {
                    assert(earlier[k] == t);
                    assert(earlier.contains(t));
                    assert(front.contains(t));
                    let j = choose|j: int| 0 <= j < front.len() && front[j] == t;
                    assert(texts[j] == t);
                } else {
                    assert(t == last);
                    assert(texts[texts.len() - 1] == t);
                }
            }
            if texts.contains(t) {
                let j = choose|j: int| 0 <= j < texts.len() && texts[j] == t;
                if j < front.len() {
                    assert(front[j] == t);
                    assert(front.contains(t));
                    assert(earlier.contains(t));
                    let k = choose|k: int| 0 <= k < earlier.len() && earlier[k] == t;
                    assert(all[k] == t);
                } else if earlier.contains(last) {
                } else {
                    assert(all[all.len() - 1] == t);
                }
            }
        }
        assert forall|i: int, j: int| 0 <= i < j < all.len() implies all[i] != all[j] by {
            if j < earlier.len() {
                assert(all[i] == earlier[i] && all[j] == earlier[j]);
            } else {
                assert(all[i] == earlier[i]);
                assert(earlier.contains(earlier[i]));
            }
        }
    }
}

/// The accounts registered on a network are a set of normalized addresses:
/// each is the canonical form of the address of a wallet of the list that
/// is on the network, every such wallet has its canonical form among them,
/// and none occurs twice.
pub proof fn lemma_addresses_on(wallets: Seq<WalletView>, network: Network)
    ensures
        addresses_on(wallets, network).len() <= wallets.len(),
        no_repeats(addresses_on(wallets, network)),
        forall|k: int|
            0 <= k < addresses_on(wallets, network).len() ==> exists|j: int|
                0 <= j < wallets.len() && (#[trigger] wallets[j]).network == network
                    && #[trigger] addresses_on(wallets, network)[k] == canonical_form(
                    wallets[j].wallet_address,
                ),
        forall|j: int|
            0 <= j < wallets.len() && (#[trigger] wallets[j]).network == network
                ==> addresses_on(wallets, network).contains(
                canonical_form(wallets[j].wallet_address),
            ),
{
    let on = wallets_on(wallets, network);
    let forms = canonical_forms(on);
    let result = addresses_on(wallets, network);
    lemma_wallets_on(wallets, network);
    lemma_distinct(forms);
    assert forall|k: int| 0 <= k < result.len() implies exists|j: int|
        0 <= j < wallets.len() && (#[trigger] wallets[j]).network == network
            && #[trigger] result[k] == canonical_form(wallets[j].wallet_address) by {
        assert(result.contains(result[k]));
        assert(forms.contains(result[k]));
        let i = choose|i: int| 0 <= i < forms.len() && forms[i] == result[k];
        assert(on[i].network == network && wallets.contains(on[i]));
        let j = choose|j: int| 0 <= j < wallets.len() && wallets[j] == on[i];
        assert(wallets[j].network == network && result[k] == canonical_form(
            wallets[j].wallet_address,
        ));
    }
    assert forall|j: int|
        0 <= j < wallets.len() && (#[trigger] wallets[j]).network == network implies result.contains(
        canonical_form(wallets[j].wallet_address),
    ) by {
        assert(on.contains(wallets[j]));
        let i = choose|i: int| 0 <= i < on.len() && on[i] == wallets[j];
        assert(forms[i] == canonical_form(wallets[j].wallet_address));
        assert(forms.contains(canonical_form(wallets[j].wallet_address)));
    }
}

/// The wallets that are on a network are wallets of the list, each of them
/// is on that network, and no wallet of the list on that network is left
/// out.
pub proof fn lemma_wallets_on(wallets: Seq<WalletView>, network: Network)
    ensures
        wallets_on(wallets, network).len() <= wallets.len(),
        forall|i: int|
            0 <= i < wallets_on(wallets, network).len() ==> (#[trigger] wallets_on(
                wallets,
                network,
            )[i]).network == network && wallets.contains(wallets_on(wallets, network)[i]),
        forall|j: int|
            0 <= j < wallets.len() && (#[trigger] wallets[j]).network == network ==> wallets_on(
                wallets,
                network,
            ).contains(wallets[j]),
    decreases wallets.len(),
{
    if wallets.len() > 0 {
        let front = wallets.drop_last();
        lemma_wallets_on(front, network);
        let kept = wallets_on(wallets, network);
        let before = wallets_on(front, network);
        assert forall|i: int| 0 <= i < kept.len() implies (#[trigger] kept[i]).network == network
            && wallets.contains(kept[i]) by {
            if i < before.len() {
                assert(kept[i] == before[i]);
                let j = choose|j: int| 0 <= j < front.len() && front[j] == before[i];
                assert(wallets[j] == before[i]);
            } else {
                assert(kept[i] == wallets[wallets.len() - 1]);
            }
        }
        assert forall|j: int|
            0 <= j < wallets.len() && (#[trigger] wallets[j]).network == network implies kept.contains(
            wallets[j],
        ) by {
            if j < front.len() {
                assert(front[j] == wallets[j]);
                let i = choose|i: int| 0 <= i < before.len() && before[i] == front[j];
                assert(kept[i] == wallets[j]);
            } else {
                assert(kept[kept.len() - 1] == wallets[j]);
            }
        }
    }
}

/// The wallets of a list that are on a network, in the order of the list.
pub fn select_network(wallets: &Vec<Wallet>, network: Network) -> (selected: Vec<Wallet>)
    ensures
        wallet_views(selected@) == wallets_on(wallet_views(wallets@), network),
{
    let mut selected: Vec<Wallet> = Vec::new();
    let mut i: usize = 0;
    let ghost all = wallet_views(wallets@);
    while i < wallets.len()
        invariant
            i <= wallets.len(),
            all == wallet_views(wallets@),
            wallet_views(selected@) == wallets_on(all.take(i as int), network),
        decreases wallets.len() - i,
    {
        proof {
            assert(all.take(i + 1).drop_last() =~= all.take(i as int));
            assert(all.take(i + 1).last() == wallets[i as int]@);
        }
        let ghost before = wallet_views(selected@);
        if wallets[i].network == network {
            selected.push(wallets[i].clone());
            assert(wallet_views(selected@) =~= before.push(wallets[i as int]@));
        }
        i += 1;
    }
    assert(all.take(wallets.len() as int) =~= all);
    selected
}

/// Whether a list holds a text.
fn holds_text(texts: &Vec<String>, wanted: &String) -> (held: bool)
    ensures
        held == text_views(texts@).contains(wanted@),
{
    let mut i: usize = 0;
    while i < texts.len()
        invariant
            i <= texts.len(),
            forall|j: int| 0 <= j < i ==> (#[trigger] text_views(texts@)[j]) != wanted@,
        decreases texts.len() - i,
    {
        if texts[i] == *wanted {
            assert(text_views(texts@)[i as int] == wanted@);
            return true;
        }
        i += 1;
    }
    false
}

/// The accounts of a list of wallets: the canonical form of each address,
/// once, in the order in which the accounts first occur.
pub fn accounts(wallets: &Vec<Wallet>) -> (addresses: Vec<String>)
    ensures
        text_views(addresses@) == accounts_of(wallet_views(wallets@)),
{
    let mut addresses: Vec<String> = Vec::new();
    let ghost forms = canonical_forms(wallet_views(wallets@));
    let mut i: usize = 0;
    while i < wallets.len()
        invariant
            i <= wallets.len(),
            forms == canonical_forms(wallet_views(wallets@)),
            text_views(addresses@) == distinct(forms.take(i as int)),
        decreases wallets.len() - i,
    {
        proof {
            assert(forms.take(i + 1).drop_last() =~= forms.take(i as int));
            assert(forms.take(i + 1).last() == canonical_form(wallets[i as int].wallet_address@));
        }
        let ghost before = text_views(addresses@);
        let canonical = canonical_address(wallets[i].wallet_address.as_str());
        if !holds_text(&addresses, &canonical) {
            addresses.push(canonical);
            assert(text_views(addresses@) =~= before.push(forms[i as int]));
        }
        i += 1;
    }
    assert(forms.take(wallets.len() as int) =~= forms);
    addresses
}

/// The accounts registered on a network, as a set of normalized addresses:
/// the canonical form of the address of each wallet that is on the network.
/// Every such wallet is answered for, no other is, and no account is given
/// twice, however often and in whatever writing it was registered.
pub fn filter_networks(wallets: Vec<Wallet>, network: Network) -> (addresses: Vec<String>)
    ensures
        text_views(addresses@) == addresses_on(wallet_views(wallets@), network),
        addresses.len() <= wallets.len(),
        no_repeats(text_views(addresses@)),
        forall|k: int|
            0 <= k < addresses.len() ==> exists|j: int|
                0 <= j < wallets.len() && (#[trigger] wallet_views(wallets@)[j]).network == network
                    && #[trigger] text_views(addresses@)[k] == canonical_form(
                    wallet_views(wallets@)[j].wallet_address,
                ),
        forall|j: int|
            0 <= j < wallets.len() && (#[trigger] wallet_views(wallets@)[j]).network == network
                ==> text_views(addresses@).contains(
                canonical_form(wallet_views(wallets@)[j].wallet_address),
            ),
{
    proof {
        lemma_addresses_on(wallet_views(wallets@), network);
    }
    let selected = select_network(&wallets, network);
    accounts(&selected)
}

/// Whether entry `i` is the first of the list whose address is the account
/// `address`.
pub open spec fn first_match_at(wallets: Seq<WalletView>, address: Seq<char>, i: int) -> bool {
    &&& 0 <= i < wallets.len()
    &&& same_account(wallets[i].wallet_address, address)
    &&& forall|j: int| 0 <= j < i ==> !same_account(#[trigger] wallets[j].wallet_address, address)
}

/// Whether some wallet of the list is the account `address`.
pub open spec fn is_registered(wallets: Seq<WalletView>, address: Seq<char>) -> bool {
    exists|i: int|
        0 <= i < wallets.len() && same_account(#[trigger] wallets[i].wallet_address, address)
}

/// The first wallet of the list that is the account `address`, if there is
/// one.
pub open spec fn registered_wallet(wallets: Seq<WalletView>, address: Seq<char>) -> Option<
    WalletView,
> {
    if exists|i: int| first_match_at(wallets, address, i) {
        Some(wallets[choose|i: int| first_match_at(wallets, address, i)])
    } else {
        None
    }
}

/// There is one first match, if any.
pub proof fn lemma_first_match_unique(wallets: Seq<WalletView>, address: Seq<char>, i: int, j: int)
    requires
        first_match_at(wallets, address, i),
        first_match_at(wallets, address, j),
    ensures
        i == j,
{
    if i < j {
        assert(!same_account(wallets[i].wallet_address, address));
    }
    if j < i {
        assert(!same_account(wallets[j].wallet_address, address));
    }
}

/// A wallet is found for an address exactly when some wallet of the list is
/// that account.
pub proof fn lemma_registered_wallet(wallets: Seq<WalletView>, address: Seq<char>)
    ensures
        registered_wallet(wallets, address) is Some <==> is_registered(wallets, address),
        registered_wallet(wallets, address) matches Some(w) ==> wallets.contains(w) && same_account(
            w.wallet_address,
            address,
        ),
    decreases wallets.len(),
{
    if is_registered(wallets, address) && !(exists|i: int| first_match_at(wallets, address, i)) {
        let k = choose|k: int|
            0 <= k < wallets.len() && same_account(#[trigger] wallets[k].wallet_address, address);
        lemma_least_match(wallets, address, k);
    }
    if exists|i: int| first_match_at(wallets, address, i) {
        let i = choose|i: int| first_match_at(wallets, address, i);
        assert(same_account(wallets[i].wallet_address, address));
    }
}

/// Below any match there is a first match.
proof fn lemma_least_match(wallets: Seq<WalletView>, address: Seq<char>, k: int)
    requires
        0 <= k < wallets.len(),
        same_account(wallets[k].wallet_address, address),
    ensures
        exists|i: int| first_match_at(wallets, address, i),
    decreases k,
{
    if exists|j: int| 0 <= j < k && same_account(#[trigger] wallets[j].wallet_address, address) {
        let j = choose|j: int|
            0 <= j < k && same_account(#[trigger] wallets[j].wallet_address, address);
        lemma_least_match(wallets, address, j);
    } else {
        assert(first_match_at(wallets, address, k));
    }
}

/// A snapshot of the wallets registered on one network, taken once for a
/// processing run and not changed during it.
#[derive(Debug)]
pub struct WalletIndex {
    network: Network,
    wallets: Vec<Wallet>,
    canonical: Vec<String>,
}

impl WalletIndex {
    #[verifier::type_invariant]
    spec fn valid(self) -> bool {
        &&& self.canonical.len() == self.wallets.len()
        &&& forall|i: int|
            0 <= i < self.wallets.len() ==> (#[trigger] self.canonical[i])@ == canonical_form(
                self.wallets[i].wallet_address@,
            )
        &&& forall|i: int|
            0 <= i < self.wallets.len() ==> (#[trigger] self.wallets[i]).network == self.network
    }

    /// The network the snapshot was taken for.
    pub closed spec fn network(&self) -> Network {
        self.network
    }

    /// The wallets in the snapshot.
    pub closed spec fn entries(&self) -> Seq<WalletView> {
        wallet_views(self.wallets@)
    }

    /// The snapshot of the wallets of a list that are on a network.
    pub fn new(wallets: &Vec<Wallet>, network: Network) -> (index: WalletIndex)
        ensures
            index.network() == network,
            index.entries() == wallets_on(wallet_views(wallets@), network),
    {
        let selected = select_network(wallets, network);
        proof {
            lemma_wallets_on(wallet_views(wallets@), network);
            assert forall|i: int| 0 <= i < selected.len() implies (#[trigger] selected[i]).network
                == network by {
                assert(wallet_views(selected@)[i] == selected[i]@);
            }
        }
        let mut canonical: Vec<String> = Vec::new();
        let mut i: usize = 0;
        while i < selected.len()
            invariant
                i <= selected.len(),
                canonical.len() == i,
                forall|j: int|
                    0 <= j < i ==> (#[trigger] canonical[j])@ == canonical_form(
                        selected[j].wallet_address@,
                    ),
            decreases selected.len() - i,
        {
            canonical.push(canonical_address(selected[i].wallet_address.as_str()));
            i += 1;
        }
        WalletIndex { network, wallets: selected, canonical }
    }

    /// The network the snapshot was taken for.
    pub fn network_type(&self) -> (network: Network)
        ensures
            network == self.network(),
    {
        self.network
    }

    /// The number of wallets in the snapshot.
    pub fn len(&self) -> (n: usize)
        ensures
            n == self.entries().len(),
    {
        self.wallets.len()
    }

    /// The accounts of the snapshot, as a set of normalized addresses: the
    /// canonical form of the address of each wallet, and none twice.
    pub fn addresses(&self) -> (addresses: Vec<String>)
        ensures
            text_views(addresses@) == accounts_of(self.entries()),
            addresses.len() <= self.entries().len(),
            no_repeats(text_views(addresses@)),
            forall|t: Seq<char>|
                text_views(addresses@).contains(t) <==> canonical_forms(self.entries()).contains(t),
    {
        proof {
            use_type_invariant(self);
            lemma_distinct(canonical_forms(self.entries()));
        }
        let mut addresses: Vec<String> = Vec::new();
        let ghost forms = canonical_forms(self.entries());
        let mut i: usize = 0;
        while i < self.canonical.len()
            invariant
                i <= self.canonical.len(),
                self.canonical.len() == self.wallets.len(),
                forms == canonical_forms(self.entries()),
                forall|j: int|
                    0 <= j < self.wallets.len() ==> (#[trigger] self.canonical[j])@
                        == canonical_form(self.wallets[j].wallet_address@),
                text_views(addresses@) == distinct(forms.take(i as int)),
            decreases self.canonical.len() - i,
        {
            proof {
                assert(forms.take(i + 1).drop_last() =~= forms.take(i as int));
                assert(forms.take(i + 1).last() == self.canonical[i as int]@);
            }
            let ghost before = text_views(addresses@);
            if !holds_text(&addresses, &self.canonical[i]) {
                addresses.push(self.canonical[i].clone());
                assert(text_views(addresses@) =~= before.push(forms[i as int]));
            }
            i += 1;
        }
        assert(forms.take(self.canonical.len() as int) =~= forms);
        addresses
    }

    /// The first wallet of the snapshot that is the account `address`.
    pub fn find(&self, address: &str) -> (found: Option<&Wallet>)
        ensures
            match found {
                Some(w) => registered_wallet(self.entries(), address@) == Some(w@),
                None => registered_wallet(self.entries(), address@) is None,
            },
            found is Some <==> is_registered(self.entries(), address@),
    {
        proof {
            use_type_invariant(self);
            lemma_registered_wallet(self.entries(), address@);
        }
        let wanted = canonical_address(address);
        let mut i: usize = 0;
        while i < self.wallets.len()
            invariant
                i <= self.wallets.len(),
                self.canonical.len() == self.wallets.len(),
                wanted@ == canonical_form(address@),
                forall|j: int|
                    0 <= j < self.wallets.len() ==> (#[trigger] self.canonical[j])@
                        == canonical_form(self.wallets[j].wallet_address@),
                forall|j: int|
                    0 <= j < i ==> !same_account(
                        #[trigger] self.entries()[j].wallet_address,
                        address@,
                    ),
            decreases self.wallets.len() - i,
        {
            if self.canonical[i] == wanted {
                proof {
                    let k = i as int;
                    assert(self.entries()[k] == self.wallets[k]@);
                    assert(first_match_at(self.entries(), address@, k));
                    lemma_first_match_unique(
                        self.entries(),
                        address@,
                        k,
                        choose|k: int| first_match_at(self.entries(), address@, k),
                    );
                }
                return Some(&self.wallets[i]);
            }
            proof {
                assert(self.entries()[i as int] == self.wallets[i as int]@);
            }
            i += 1;
        }
        proof {
            assert forall|k: int| !first_match_at(self.entries(), address@, k) by {
                if first_match_at(self.entries(), address@, k) {
                    assert(!same_account(self.entries()[k].wallet_address, address@));
                }
            }
        }
        None
    }
}

/// A transaction found to come from a registered wallet: what is handed to
/// the notification sink.
#[derive(Debug, PartialEq)]
pub struct MatchEvent {
    pub transaction: Transaction,
    pub wallet: Wallet,
}

/// A match as a mathematical value.
pub struct MatchEventView {
    pub transaction: TransactionView,
    pub wallet: WalletView,
}

impl View for MatchEvent {
    type V = MatchEventView;

    open spec fn view(&self) -> MatchEventView {
        MatchEventView { transaction: self.transaction@, wallet: self.wallet@ }
    }
}

/// The views of a list of matches, in order.
pub open spec fn event_views(events: Seq<MatchEvent>) -> Seq<MatchEventView> {
    Seq::new(events.len(), |i: int| events[i]@)
}

/// The wallet that a transaction was sent from: the first wallet of the
/// list that is the account of its sender. A transaction without a sender
/// was sent from no wallet.
pub open spec fn sending_wallet(transaction: TransactionView, wallets: Seq<WalletView>) -> Option<
    WalletView,
> {
    match transaction.sender_address {
        Some(sender) => registered_wallet(wallets, sender),
        None => None,
    }
}

/// The matches of a block: each transaction whose sender is the account of
/// a wallet of the list, with the first such wallet, in the order of the
/// transactions.
pub open spec fn matches_of(transactions: Seq<TransactionView>, wallets: Seq<WalletView>) -> Seq<
    MatchEventView,
>
    decreases transactions.len(),
{
    if transactions.len() == 0 {
        Seq::empty()
    } else {
        let earlier = matches_of(transactions.drop_last(), wallets);
        match sending_wallet(transactions.last(), wallets) {
            Some(wallet) => earlier.push(
                MatchEventView { transaction: transactions.last(), wallet },
            ),
            None => earlier,
        }
    }
}

/// Whether the sender of a transaction is the account of some wallet of
/// the list.
pub open spec fn is_sent_from_registered(transaction: TransactionView, wallets: Seq<WalletView>) -> bool {
    transaction.sender_address matches Some(sender) && is_registered(wallets, sender)
}

/// Whether a match is a transaction of the list, sent from the account of
/// a wallet of the list, with such a wallet beside it.
pub open spec fn is_match_of(
    event: MatchEventView,
    transactions: Seq<TransactionView>,
    wallets: Seq<WalletView>,
) -> bool {
    &&& transactions.contains(event.transaction)
    &&& wallets.contains(event.wallet)
    &&& event.transaction.sender_address matches Some(sender) && same_account(
        event.wallet.wallet_address,
        sender,
    )
}

/// The matches of a block are exact: every match is a transaction of the
/// block sent from a registered account, every transaction of the block
/// sent from a registered account is among the matches, and there are no
/// more matches than transactions. A transaction without a sender is in no
/// match.
pub proof fn lemma_matches_are_exact(transactions: Seq<TransactionView>, wallets: Seq<WalletView>)
    ensures
        matches_of(transactions, wallets).len() <= transactions.len(),
        forall|k: int|
            0 <= k < matches_of(transactions, wallets).len() ==> is_match_of(
                #[trigger] matches_of(transactions, wallets)[k],
                transactions,
                wallets,
            ),
        forall|i: int|
            0 <= i < transactions.len() && is_sent_from_registered(
                #[trigger] transactions[i],
                wallets,
            ) ==> exists|k: int|
                0 <= k < matches_of(transactions, wallets).len() && (#[trigger] matches_of(
                    transactions,
                    wallets,
                )[k]).transaction == transactions[i],
    decreases transactions.len(),
{
    if transactions.len() > 0 {
        let front = transactions.drop_last();
        let last = transactions.last();
        let earlier = matches_of(front, wallets);
        let all = matches_of(transactions, wallets);
        lemma_matches_are_exact(front, wallets);
        match last.sender_address {
            Some(sender) => {
                lemma_registered_wallet(wallets, sender);
            },
            None => {},
        }
        assert forall|k: int| 0 <= k < all.len() implies is_match_of(
            #[trigger] all[k],
            transactions,
            wallets,
        ) by {
            if k < earlier.len() {
                assert(all[k] == earlier[k]);
                assert(is_match_of(earlier[k], front, wallets));
                let i = choose|i: int| 0 <= i < front.len() && front[i] == earlier[k].transaction;
                assert(transactions[i] == earlier[k].transaction);
            } else {
                assert(all[k].transaction == transactions[transactions.len() - 1]);
            }
        }
        assert forall|i: int|
            0 <= i < transactions.len() && is_sent_from_registered(
                #[trigger] transactions[i],
                wallets,
            ) implies exists|k: int|
            0 <= k < all.len() && (#[trigger] all[k]).transaction == transactions[i] by {
            if i < front.len() {
                assert(front[i] == transactions[i]);
                let k = choose|k: int|
                    0 <= k < earlier.len() && (#[trigger] earlier[k]).transaction == front[i];
                assert(all[k] == earlier[k]);
            } else {
                assert(all[all.len() - 1].transaction == transactions[i]);
            }
        }
    }
}

/// The canonical form of the sender of a transaction, if it has a sender.
pub open spec fn canonical_sender(transaction: TransactionView) -> Option<Seq<char>> {
    match transaction.sender_address {
        Some(sender) => Some(canonical_form(sender)),
        None => None,
    }
}

/// The senders of a list of transactions in canonical form, in order, with
/// nothing for a transaction without a sender.
pub open spec fn canonical_senders(transactions: Seq<TransactionView>) -> Seq<Option<Seq<char>>> {
    Seq::new(transactions.len(), |i: int| canonical_sender(transactions[i]))
}

/// The views of a list of texts that may be missing, in order.
pub open spec fn optional_text_views(texts: Seq<Option<String>>) -> Seq<Option<Seq<char>>> {
    Seq::new(
        texts.len(),
        |i: int|
            match texts[i] {
                Some(t) => Some(t@),
                None => None,
            },
    )
}

/// The senders of the transactions of a block, each in canonical form,
/// with nothing for a transaction without a sender.
pub fn sender_addresses(transactions: &Vec<Transaction>) -> (senders: Vec<Option<String>>)
    ensures
        optional_text_views(senders@) == canonical_senders(transaction_views(transactions@)),
{
    let mut senders: Vec<Option<String>> = Vec::new();
    let mut i: usize = 0;
    while i < transactions.len()
        invariant
            i <= transactions.len(),
            senders.len() == i,
            forall|j: int|
                0 <= j < i ==> optional_text_views(senders@)[j] == canonical_sender(
                    #[trigger] transactions[j]@,
                ),
        decreases transactions.len() - i,
    {
        let sender = match &transactions[i].sender_address {
            Some(sender) => Some(canonical_address(sender.as_str())),
            None => None,
        };
        senders.push(sender);
        i += 1;
    }
    assert(optional_text_views(senders@) =~= canonical_senders(
        transaction_views(transactions@),
    ));
    senders
}

/// Picks the transactions sent from a wallet of the snapshot and pairs
/// each with that wallet. A transaction without a sender is never picked.
pub fn match_transactions(transactions: &Vec<Transaction>, index: &WalletIndex) -> (events: Vec<
    MatchEvent,
>)
    ensures
        event_views(events@) == matches_of(transaction_views(transactions@), index.entries()),
        events.len() <= transactions.len(),
{
    let mut events: Vec<MatchEvent> = Vec::new();
    let mut i: usize = 0;
    let ghost all = transaction_views(transactions@);
    while i < transactions.len()
        invariant
            i <= transactions.len(),
            all == transaction_views(transactions@),
            events.len() <= i,
            event_views(events@) == matches_of(all.take(i as int), index.entries()),
        decreases transactions.len() - i,
    {
        proof {
            assert(all.take(i + 1).drop_last() =~= all.take(i as int));
            assert(all.take(i + 1).last() == transactions[i as int]@);
        }
        let ghost before = event_views(events@);
        let found = match &transactions[i].sender_address {
            Some(sender) => index.find(sender.as_str()),
            None => None,
        };
        match found {
            Some(wallet) => {
                let event = MatchEvent {
                    transaction: transactions[i].clone(),
                    wallet: wallet.clone(),
                };
                events.push(event);
                assert(event_views(events@) =~= before.push(
                    MatchEventView { transaction: transactions[i as int]@, wallet: wallet@ },
                ));
            },
            None => {},
        }
        i += 1;
    }
    assert(all.take(transactions.len() as int) =~= all);
    events
}

/// The outcome of processing a block, from the outcome of fetching it: the
/// matches of the block, or the failure of the fetch.
pub open spec fn processed(fetched: Result<BlockView, RpcError>, wallets: Seq<WalletView>) -> Result<
    Seq<MatchEventView>,
    ProcessError,
> {
    match fetched {
        Ok(block) => Ok(matches_of(block.transactions, wallets)),
        Err(e) => Err(ProcessError::FetchFailed(e)),
    }
}

/// Processes one block, given what fetching it brought: a failed fetch
/// fails the block; else the matches of the block come back, to be handed
/// to the notification sink.
pub fn process_block(fetched: Result<Block, RpcError>, index: &WalletIndex) -> (outcome: Result<
    Vec<MatchEvent>,
    ProcessError,
>)
    ensures
        match processed(
            match fetched {
                Ok(block) => Ok(block@),
                Err(e) => Err(e),
            },
            index.entries(),
        ) {
            Ok(expected) => outcome matches Ok(events) && event_views(events@) == expected,
            Err(e) => outcome matches Err(f) && f == e,
        },
{
    match fetched {
        Ok(block) => Ok(match_transactions(&block.transactions, index)),
        Err(e) => Err(ProcessError::from(e)),
    }
}

/// What became of handing one match to the notification sink.
#[derive(Clone, Copy, Debug, PartialEq, Eq, Structural)]
pub enum Delivery {
    /// The sink took the match.
    Accepted,
    /// The sink failed. The failure goes to the log and nowhere else.
    Failed,
}

/// How many of the deliveries failed.
pub open spec fn failures_in(deliveries: Seq<Delivery>) -> nat
    decreases deliveries.len(),
{
    if deliveries.len() == 0 {
        0
    } else {
        failures_in(deliveries.drop_last()) + if deliveries.last() is Failed {
            1nat
        } else {
            0nat
        }
    }
}

/// What is reported of a block that was processed.
#[derive(Clone, Copy, Debug, PartialEq, Eq, Structural)]
pub struct BlockReport {
    /// The number of matches found in the block.
    pub matches: usize,
    /// The number of matches that the sink did not take.
    pub undelivered: usize,
}

/// The result of a block whose matches were handed to the sink: the number
/// of matches found, whatever became of their notifications. A transaction
/// was seen on the chain whether or not anyone could be told, so a failing
/// sink never fails the block.
pub fn conclude_block(events: &Vec<MatchEvent>, deliveries: &Vec<Delivery>) -> (outcome: Result<
    BlockReport,
    ProcessError,
>)
    ensures
        outcome == Ok::<BlockReport, ProcessError>(
            BlockReport {
                matches: events.len(),
                undelivered: failures_in(deliveries@) as usize,
            },
        ),
        failures_in(deliveries@) <= deliveries.len(),
{
    let mut undelivered: usize = 0;
    let mut i: usize = 0;
    while i < deliveries.len()
        invariant
            i <= deliveries.len(),
            undelivered == failures_in(deliveries@.take(i as int)),
            undelivered <= i,
        decreases deliveries.len() - i,
    {
        proof {
            assert(deliveries@.take(i + 1).drop_last() =~= deliveries@.take(i as int));
        }
        match deliveries[i] {
            Delivery::Failed => {
                undelivered += 1;
            },
            Delivery::Accepted => {},
        }
        i += 1;
    }
    assert(deliveries@.take(deliveries.len() as int) =~= deliveries@);
    Ok(BlockReport { matches: events.len(), undelivered })
}

/// What became of one match, from what telling its users brought: the
/// match was delivered if its users could be looked up, their mails could
/// be written, and every mail was sent.
pub fn delivery_of(lookup_ok: bool, composed: bool, failed_sends: usize) -> (d: Delivery)
    ensures
        d == if lookup_ok && composed && failed_sends == 0 {
            Delivery::Accepted
        } else {
            Delivery::Failed
        },
{
    if lookup_ok && composed && failed_sends == 0 {
        Delivery::Accepted
    } else {
        Delivery::Failed
    }
}

} // verus!
