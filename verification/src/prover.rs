//! What the prover decides: which blob of a transaction it proves, what it
//! tells of the action once it has run it on its own state, and which
//! transactions still wait to be settled.

use crate::action::{blob_views, same_bytes, Blob, Calldata};
use crate::api::{shows, ApiTable};
use crate::engine::{find_blob_for, BlackJack};
use crate::model::{answer, first_blob_for, state_after, step, StateView};
use crate::table::{ErrorKind, Rules};
use vstd::prelude::*;

verus! {

/// The prover's own state of the house, the block from which it proves, and
/// the hashes of the transactions that it has seen and that are not settled.
pub struct ProverModule {
    pub start_height: u64,
    pub unsettled_txs: Vec<Vec<u8>>,
    pub blackjack: BlackJack,
}

/// What the prover tells of an action that it has run: the reason where the
/// action was refused, and the table and the balance of the player after it.
pub struct Sequenced {
    pub failed: Option<ErrorKind>,
    pub table: ApiTable,
}

/// The hashes `hashes` as sequences of bytes.
pub open spec fn hash_views(hashes: Seq<Vec<u8>>) -> Seq<Seq<u8>> {
    Seq::new(hashes.len(), |i: int| hashes[i]@)
}

/// The place, from `from` on, of the first of `hashes` that is `tx_hash`.
pub open spec fn first_hash(hashes: Seq<Seq<u8>>, tx_hash: Seq<u8>, from: int) -> Option<int>
    decreases hashes.len() - from,
{
    if from < 0 || from >= hashes.len() {
        None
    } else if hashes[from] == tx_hash {
        Some(from)
    } else {
        first_hash(hashes, tx_hash, from + 1)
    }
}

impl ProverModule {
    /// A prover that starts at block `start_height` with an empty house.
    pub fn new(start_height: u64) -> (prover: Self)
        ensures
            prover.start_height == start_height,
            prover.unsettled_txs@.len() == 0,
            prover.blackjack@ == (StateView {
                tables: Map::empty(),
                oranj_balances: Map::empty(),
                vitamin_balances: Map::empty(),
                rules: Rules { min_bet: 10, bank_draws_on_hit: false, reward_on_push: false },
            }),
    {
        ProverModule { start_height, unsettled_txs: Vec::new(), blackjack: BlackJack::default() }
    }

    /// The place of the blob that the prover proves in a transaction of the
    /// block `block_height`: the first blob that addresses `contract`, and
    /// none in a block before the one at which the prover starts.
    pub fn blob_to_prove(&self, block_height: u64, blobs: &Vec<Blob>, contract: &String) -> (found:
        Option<usize>)
        ensures
            match found {
                Some(at) => at < blobs@.len() && block_height >= self.start_height
                    && first_blob_for(blob_views(blobs@), contract@, 0) == Some(at as int),
                None => block_height < self.start_height || first_blob_for(
                    blob_views(blobs@),
                    contract@,
                    0,
                ).is_none(),
            },
    {
        if block_height < self.start_height {
            return None;
        }
        find_blob_for(blobs, contract)
    }

    /// Runs the action of `calldata` on the prover's state and tells how it
    /// went: a refused action changes nothing and is told with its reason;
    /// the table and the balance of the player are told either way.
    pub fn sequence(&mut self, calldata: &Calldata) -> (told: Sequenced)
        ensures
            final(self).blackjack@ == state_after(
                old(self).blackjack@,
                step(old(self).blackjack@, calldata@),
            ),
            final(self).start_height == old(self).start_height,
            final(self).unsettled_txs == old(self).unsettled_txs,
            told.failed == match answer(step(old(self).blackjack@, calldata@)) {
                Ok(_) => None,
                Err(reason) => Some(reason),
            },
            shows(told.table, final(self).blackjack@, calldata@.identity),
    {
        let failed = match self.blackjack.execute(calldata) {
            Ok(_) => None,
            Err(reason) => Some(reason),
        };
        Sequenced { failed, table: ApiTable::of(&self.blackjack, &calldata.identity) }
    }

    /// Notes that the transaction `tx_hash` was seen and waits to be
    /// settled.
    pub fn handle_blob(&mut self, tx_hash: Vec<u8>)
        ensures
            hash_views(final(self).unsettled_txs@) == hash_views(old(self).unsettled_txs@).push(
                tx_hash@,
            ),
            final(self).start_height == old(self).start_height,
            final(self).blackjack == old(self).blackjack,
    {
        self.unsettled_txs.push(tx_hash);
        assert(hash_views(self.unsettled_txs@) =~= hash_views(old(self).unsettled_txs@).push(
            tx_hash@,
        ));
    }

    /// The transaction `tx_hash` is settled: the first note of it goes.
    /// Returns the place at which it stood, and 0 where there was none.
    pub fn settle_tx(&mut self, tx_hash: &Vec<u8>) -> (place: usize)
        ensures
            match first_hash(hash_views(old(self).unsettled_txs@), tx_hash@, 0) {
                Some(at) => place == at && hash_views(final(self).unsettled_txs@) == hash_views(
                    old(self).unsettled_txs@,
                ).remove(at),
                None => place == 0 && final(self).unsettled_txs == old(self).unsettled_txs,
            },
            final(self).start_height == old(self).start_height,
            final(self).blackjack == old(self).blackjack,
    {
        let mut at: usize = 0;
        while at < self.unsettled_txs.len()
            invariant
                *self == *old(self),
                at <= self.unsettled_txs@.len(),
                first_hash(hash_views(self.unsettled_txs@), tx_hash@, 0) == first_hash(
                    hash_views(self.unsettled_txs@),
                    tx_hash@,
                    at as int,
                ),
            decreases self.unsettled_txs@.len() - at,
        {
            if same_bytes(&self.unsettled_txs[at], tx_hash) {
                let ghost before = hash_views(self.unsettled_txs@);
                self.unsettled_txs.remove(at);
                assert(hash_views(self.unsettled_txs@) =~= before.remove(at as int));
                return at;
            }
            at += 1;
        }
        0
    }
}

} // verus!
