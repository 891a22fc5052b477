//! The store of watermarks: for each network, the highest block whose
//! processing is complete. A watermark moves forward or not at all.

use crate::error::PersistenceError;
use crate::network::{advanced, Network, NetworkManager, NetworkManagerView};
use crate::partition::BlockHeight;
use vstd::prelude::*;

verus! {

/// What the store keeps of one network.
#[derive(Debug)]
struct Entry {
    chain_id: String,
    last_scanned_block: BlockHeight,
}

/// The records of the networks, at most one for each.
#[derive(Debug)]
pub struct WatermarkStore {
    ethereum: Option<Entry>,
    starknet: Option<Entry>,
    base: Option<Entry>,
    optimism: Option<Entry>,
}

/// The watermarks of a store as a mathematical value: the height kept for
/// each network that has a record.
pub type Watermarks = Map<Network, BlockHeight>;

/// The watermark of a network; zero for a network without a record.
pub open spec fn watermark_of(marks: Watermarks, network: Network) -> BlockHeight {
    if marks.contains_key(network) {
        marks[network]
    } else {
        0
    }
}

/// The watermarks after a request to move that of `network` to `to`.
pub open spec fn marks_advanced(marks: Watermarks, network: Network, to: BlockHeight) -> Watermarks {
    if marks.contains_key(network) {
        marks.insert(network, advanced(marks[network], to))
    } else {
        marks
    }
}

/// The record of a network after a request to move its watermark to `to`:
/// the watermark moves forward or not at all, the rest of the record stays,
/// and no record comes to be.
pub open spec fn record_advanced(before: Option<NetworkManagerView>, to: BlockHeight) -> Option<
    NetworkManagerView,
> {
    match before {
        Some(m) => Some(
            NetworkManagerView { last_scanned_block: advanced(m.last_scanned_block, to), ..m },
        ),
        None => None,
    }
}

/// What a request to move the watermark of `network` to `to` is answered:
/// a request at or below the watermark asks for nothing and succeeds, with
/// or without a record; a request above it succeeds if there is a record to
/// move, and finds none otherwise.
pub open spec fn advance_outcome(marks: Watermarks, network: Network, to: BlockHeight) -> Result<
    (),
    PersistenceError,
> {
    if to <= watermark_of(marks, network) || marks.contains_key(network) {
        Ok(())
    } else {
        Err(PersistenceError::NotFound)
    }
}

/// The watermarks after a sequence of requests, applied in order.
pub open spec fn marks_after(marks: Watermarks, requests: Seq<(Network, BlockHeight)>) -> Watermarks
    decreases requests.len(),
{
    if requests.len() == 0 {
        marks
    } else {
        marks_advanced(
            marks_after(marks, requests.drop_last()),
            requests.last().0,
            requests.last().1,
        )
    }
}

impl WatermarkStore {
    /// The slot of a network.
    spec fn slot(&self, network: Network) -> Option<Entry> {
        match network {
            Network::Ethereum => self.ethereum,
            Network::Starknet => self.starknet,
            Network::Base => self.base,
            Network::Optimism => self.optimism,
        }
    }

    /// The record kept of a network, if there is one.
    pub closed spec fn record(&self, network: Network) -> Option<NetworkManagerView> {
        match self.slot(network) {
            Some(entry) => Some(
                NetworkManagerView {
                    network_type: network,
                    chain_id: entry.chain_id@,
                    last_scanned_block: entry.last_scanned_block,
                },
            ),
            None => None,
        }
    }

    /// The watermarks kept.
    pub closed spec fn marks(&self) -> Watermarks {
        Map::new(
            |network: Network| self.slot(network) is Some,
            |network: Network| self.slot(network)->0.last_scanned_block,
        )
    }

    /// The records and the watermarks agree, and a record is kept under its
    /// own network.
    pub proof fn lemma_marks_of_records(&self, network: Network)
        ensures
            self.marks().contains_key(network) <==> self.record(network) is Some,
            self.record(network) matches Some(m) ==> self.marks()[network] == m.last_scanned_block
                && m.network_type == network,
    {
    }

    /// A store without records.
    pub fn new() -> (store: WatermarkStore)
        ensures
            store.marks() == Map::<Network, BlockHeight>::empty(),
            forall|network: Network| store.record(network) is None,
    {
        let store = WatermarkStore { ethereum: None, starknet: None, base: None, optimism: None };
        assert(store.marks() =~= Map::<Network, BlockHeight>::empty());
        store
    }

    /// Whether the store has a record of the network.
    pub fn knows(&self, network: Network) -> (known: bool)
        ensures
            known == self.record(network) is Some,
            known == self.marks().contains_key(network),
    {
        match network {
            Network::Ethereum => self.ethereum.is_some(),
            Network::Starknet => self.starknet.is_some(),
            Network::Base => self.base.is_some(),
            Network::Optimism => self.optimism.is_some(),
        }
    }

    /// Takes the record of a network into the store, unless the store has
    /// one for that network already.
    pub fn register(&mut self, manager: NetworkManager) -> (outcome: Result<(), PersistenceError>)
        ensures
            match old(self).record(manager@.network_type) {
                Some(_) => outcome == Err::<(), PersistenceError>(PersistenceError::AlreadyExists)
                    && forall|n: Network| final(self).record(n) == old(self).record(n),
                None => outcome == Ok::<(), PersistenceError>(()) && forall|n: Network|
                    final(self).record(n) == if n == manager@.network_type {
                        Some(manager@)
                    } else {
                        old(self).record(n)
                    },
            },
            forall|n: Network|
                watermark_of(final(self).marks(), n) >= watermark_of(old(self).marks(), n),
    {
        let network = manager.network_type;
        if self.knows(network) {
            return Err(PersistenceError::AlreadyExists);
        }
        let entry = Entry {
            chain_id: manager.chain_id,
            last_scanned_block: manager.last_scanned_block,
        };
        match network {
            Network::Ethereum => {
                self.ethereum = Some(entry);
            },
            Network::Starknet => {
                self.starknet = Some(entry);
            },
            Network::Base => {
                self.base = Some(entry);
            },
            Network::Optimism => {
                self.optimism = Some(entry);
            },
        }
        assert forall|n: Network| n != network implies self.slot(n) == old(self).slot(n) by {}
        Ok(())
    }

    /// A copy of the record kept of a network, if there is one.
    pub fn get(&self, network: Network) -> (found: Option<NetworkManager>)
        ensures
            match found {
                Some(m) => self.record(network) == Some(m@),
                None => self.record(network) is None,
            },
    {
        let slot = match network {
            Network::Ethereum => &self.ethereum,
            Network::Starknet => &self.starknet,
            Network::Base => &self.base,
            Network::Optimism => &self.optimism,
        };
        match slot {
            Some(entry) => Some(
                NetworkManager {
                    network_type: network,
                    chain_id: entry.chain_id.clone(),
                    last_scanned_block: entry.last_scanned_block,
                },
            ),
            None => None,
        }
    }

    /// The watermark of a network; zero for a network without a record.
    pub fn read(&self, network: Network) -> (height: BlockHeight)
        ensures
            height == watermark_of(self.marks(), network),
            height == match self.record(network) {
                Some(m) => m.last_scanned_block,
                None => 0,
            },
    {
        let slot = match network {
            Network::Ethereum => &self.ethereum,
            Network::Starknet => &self.starknet,
            Network::Base => &self.base,
            Network::Optimism => &self.optimism,
        };
        match slot {
            Some(entry) => entry.last_scanned_block,
            None => 0,
        }
    }

    /// Moves the watermark of a network forward to `to`. A request to move
    /// it back, or to where it stands, changes nothing and is no failure;
    /// that holds for a network without a record too, whose watermark reads
    /// zero. A request above zero for a network without a record fails: the
    /// store has no watermark to move, and it makes no record.
    pub fn advance(&mut self, network: Network, to: BlockHeight) -> (outcome: Result<
        (),
        PersistenceError,
    >)
        ensures
            final(self).marks() == marks_advanced(old(self).marks(), network, to),
            outcome == advance_outcome(old(self).marks(), network, to),
            outcome is Ok <==> old(self).record(network) is Some || to == 0,
            forall|n: Network|
                watermark_of(final(self).marks(), n) >= watermark_of(old(self).marks(), n),
            forall|n: Network|
                final(self).record(n) == if n == network {
                    record_advanced(old(self).record(n), to)
                } else {
                    old(self).record(n)
                },
    {
        let found = match network {
            Network::Ethereum => advance_slot(&mut self.ethereum, to),
            Network::Starknet => advance_slot(&mut self.starknet, to),
            Network::Base => advance_slot(&mut self.base, to),
            Network::Optimism => advance_slot(&mut self.optimism, to),
        };
        assert forall|n: Network| n != network implies self.slot(n) == old(self).slot(n) by {}
        assert(self.marks() =~= marks_advanced(old(self).marks(), network, to));
        if found || to == 0 {
            Ok(())
        } else {
            Err(PersistenceError::NotFound)
        }
    }
}

/// Moves the watermark in a slot forward, if the slot holds a record.
fn advance_slot(slot: &mut Option<Entry>, to: BlockHeight) -> (found: bool)
    ensures
        found == (*old(slot) is Some),
        match *old(slot) {
            Some(before) => *final(slot) matches Some(after) && after.chain_id == before.chain_id
                && after.last_scanned_block == advanced(before.last_scanned_block, to),
            None => *final(slot) is None,
        },
{
    match slot {
        Some(entry) => {
            if to > entry.last_scanned_block {
                entry.last_scanned_block = to;
            }
            true
        },
        None => false,
    }
}

/// A request to move a watermark to where it stands, or behind it, changes
/// nothing.
pub proof fn lemma_advance_backwards_is_noop(marks: Watermarks, network: Network, to: BlockHeight)
    requires
        to <= watermark_of(marks, network),
    ensures
        marks_advanced(marks, network, to) == marks,
{
    assert(marks_advanced(marks, network, to) =~= marks);
}

/// One request never lowers the watermark of any network, and leaves the
/// watermarks of the other networks alone.
pub proof fn lemma_advance_is_monotonic(
    marks: Watermarks,
    network: Network,
    to: BlockHeight,
    other: Network,
)
    ensures
        watermark_of(marks_advanced(marks, network, to), other) >= watermark_of(marks, other),
        other != network ==> watermark_of(marks_advanced(marks, network, to), other)
            == watermark_of(marks, other),
        marks_advanced(marks, network, to).dom() == marks.dom(),
{
    assert(marks_advanced(marks, network, to).dom() =~= marks.dom());
}

/// Over any sequence of requests the watermark of every network is
/// non-decreasing: after more of the requests it stands at least as high as
/// after fewer of them.
pub proof fn lemma_watermark_never_regresses(
    marks: Watermarks,
    requests: Seq<(Network, BlockHeight)>,
    fewer: int,
    more: int,
    network: Network,
)
    requires
        0 <= fewer <= more <= requests.len(),
    ensures
        watermark_of(marks_after(marks, requests.take(fewer)), network) <= watermark_of(
            marks_after(marks, requests.take(more)),
            network,
        ),
    decreases more - fewer,
{
    if fewer < more {
        let longer = requests.take(more);
        assert(longer.drop_last() =~= requests.take(more - 1));
        lemma_watermark_never_regresses(marks, requests, fewer, more - 1, network);
        lemma_advance_is_monotonic(
            marks_after(marks, requests.take(more - 1)),
            longer.last().0,
            longer.last().1,
            network,
        );
    }
}

} // verus!
