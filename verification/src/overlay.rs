//! The optimistic overlay: the actions that were accepted for ordering and
//! are not settled yet, and the state that they would give if all of them
//! settled as they are.
//!
//! The log keeps the actions in the order in which they were accepted. The
//! settled state moves only when an action is confirmed; a rejected or timed
//! out action leaves the log and nothing else.

use crate::action::{copy_bytes, same_bytes, Calldata, CalldataView};
use crate::engine::BlackJack;
use crate::model::{answer, state_after, step, StateView};
use crate::table::{ErrorKind, Outcome};
use vstd::prelude::*;

verus! {

/// One action that waits to be settled: the transaction that carries it, its
/// place among the blobs of that transaction, and the call itself.
#[derive(Debug)]
pub struct PendingEntry {
    pub tx_hash: Vec<u8>,
    pub index: usize,
    pub calldata: Calldata,
}

/// A waiting action as a mathematical value.
pub struct EntryView {
    pub tx_hash: Seq<u8>,
    pub index: usize,
    pub calldata: CalldataView,
}

impl View for PendingEntry {
    type V = EntryView;

    open spec fn view(&self) -> EntryView {
        EntryView { tx_hash: self.tx_hash@, index: self.index, calldata: self.calldata@ }
    }
}

impl Clone for PendingEntry {
    fn clone(&self) -> (copy: Self)
        ensures
            copy@ == self@,
    {
        PendingEntry {
            tx_hash: copy_bytes(&self.tx_hash),
            index: self.index,
            calldata: self.calldata.clone(),
        }
    }
}

/// The waiting actions `entries` as mathematical values.
pub open spec fn entry_views(entries: Seq<PendingEntry>) -> Seq<EntryView> {
    Seq::new(entries.len(), |i: int| entries[i]@)
}

/// `entry` is the action of transaction `tx_hash` at place `index`. Both
/// must agree: one transaction can carry several actions.
pub open spec fn is_entry(entry: EntryView, tx_hash: Seq<u8>, index: usize) -> bool {
    entry.tx_hash == tx_hash && entry.index == index
}

/// The state that `log` gives on top of `s`: every action of the log is run
/// in its order, and one that is refused changes nothing.
pub open spec fn replay(s: StateView, log: Seq<EntryView>) -> StateView
    decreases log.len(),
{
    if log.len() == 0 {
        s
    } else {
        replay(state_after(s, step(s, log.first().calldata)), log.drop_first())
    }
}

/// The log without the actions of transaction `tx_hash` at place `index`;
/// the others keep their order.
pub open spec fn without(log: Seq<EntryView>, tx_hash: Seq<u8>, index: usize) -> Seq<EntryView>
    decreases log.len(),
{
    if log.len() == 0 {
        log
    } else if is_entry(log.first(), tx_hash, index) {
        without(log.drop_first(), tx_hash, index)
    } else {
        seq![log.first()] + without(log.drop_first(), tx_hash, index)
    }
}

/// The place, from `from` on, of the first action of `log` that belongs to
/// transaction `tx_hash` at place `index`.
pub open spec fn first_entry(log: Seq<EntryView>, tx_hash: Seq<u8>, index: usize, from: int) -> Option<
    int,
>
    decreases log.len() - from,
{
    if from < 0 || from >= log.len() {
        None
    } else if is_entry(log[from], tx_hash, index) {
        Some(from)
    } else {
        first_entry(log, tx_hash, index, from + 1)
    }
}

/// The log of the actions that wait to be settled.
#[derive(Debug)]
pub struct OptimisticBlackJack {
    pub unsettled_txs: Vec<PendingEntry>,
}

impl View for OptimisticBlackJack {
    type V = Seq<EntryView>;

    open spec fn view(&self) -> Seq<EntryView> {
        entry_views(self.unsettled_txs@)
    }
}

impl Default for OptimisticBlackJack {
    fn default() -> (log: Self)
        ensures
            log@ == Seq::<EntryView>::empty(),
    {
        let log = OptimisticBlackJack { unsettled_txs: Vec::new() };
        assert(log@ =~= Seq::<EntryView>::empty());
        log
    }
}

impl OptimisticBlackJack {
    /// The state that the waiting actions give on top of `state`.
    pub fn compute_optimistic_state(&self, state: &BlackJack) -> (guess: BlackJack)
        ensures
            guess@ == replay(state@, self@),
    {
        let mut guess = state.clone();
        let mut at: usize = 0;
        assert(self@.skip(0) == self@);
        while at < self.unsettled_txs.len()
            invariant
                at <= self.unsettled_txs@.len(),
                replay(state@, self@) == replay(guess@, self@.skip(at as int)),
            decreases self.unsettled_txs@.len() - at,
        {
            proof {
                let rest = self@.skip(at as int);
                assert(rest.first() == self.unsettled_txs@[at as int]@);
                assert(rest.drop_first() == self@.skip(at + 1));
            }
            let _ = guess.execute(&self.unsettled_txs[at].calldata);
            at += 1;
        }
        guess
    }

    /// Takes `entry` into the log and gives the state that the log then
    /// stands for. Where the new action itself is refused, on top of the
    /// actions that waited before it, the refusal is handed back; the action
    /// is in the log either way. The settled state is only read.
    pub fn record_pending(&mut self, confirmed: &BlackJack, entry: PendingEntry) -> (res: Result<
        BlackJack,
        ErrorKind,
    >)
        ensures
            final(self)@ == old(self)@.push(entry@),
            match step(replay(confirmed@, old(self)@), entry@.calldata) {
                Ok((next, _)) => res matches Ok(guess) && guess@ == next,
                Err(reason) => res matches Err(refused) && refused == reason,
            },
    {
        let mut guess = self.compute_optimistic_state(confirmed);
        let taken = guess.execute(&entry.calldata);
        let ghost before = self@;
        self.unsettled_txs.push(entry);
        assert(self@ =~= before.push(entry@));
        match taken {
            Ok(_) => Ok(guess),
            Err(reason) => Err(reason),
        }
    }

    /// The place of the first waiting action of transaction `tx_hash` at
    /// place `index`.
    fn find(&self, tx_hash: &Vec<u8>, index: usize) -> (found: Option<usize>)
        ensures
            match found {
                Some(at) => at < self.unsettled_txs@.len() && first_entry(
                    self@,
                    tx_hash@,
                    index,
                    0,
                ) == Some(at as int),
                None => first_entry(self@, tx_hash@, index, 0).is_none(),
            },
    {
        let mut at: usize = 0;
        while at < self.unsettled_txs.len()
            invariant
                at <= self.unsettled_txs@.len(),
                first_entry(self@, tx_hash@, index, 0) == first_entry(
                    self@,
                    tx_hash@,
                    index,
                    at as int,
                ),
            decreases self.unsettled_txs@.len() - at,
        {
            let entry = &self.unsettled_txs[at];
            if entry.index == index && same_bytes(&entry.tx_hash, tx_hash) {
                return Some(at);
            }
            at += 1;
        }
        None
    }

    /// Takes the actions of transaction `tx_hash` at place `index` out of
    /// the log.
    fn drop_entry(&mut self, tx_hash: &Vec<u8>, index: usize)
        ensures
            final(self)@ == without(old(self)@, tx_hash@, index),
    {
        let mut at: usize = 0;
        assert(self@.take(0) + without(self@.skip(0), tx_hash@, index) == without(
            self@,
            tx_hash@,
            index,
        )) by {
            assert(self@.skip(0) == self@);
            assert(self@.take(0) + without(self@, tx_hash@, index) == without(
                self@,
                tx_hash@,
                index,
            ));
        }
        while at < self.unsettled_txs.len()
            invariant
                at <= self.unsettled_txs@.len(),
                self@.take(at as int) + without(self@.skip(at as int), tx_hash@, index) == without(
                    old(self)@,
                    tx_hash@,
                    index,
                ),
            decreases self.unsettled_txs@.len() - at,
        {
            let ghost log = self@;
            let ghost rest = log.skip(at as int);
            proof {
                assert(rest.first() == log[at as int]);
            }
            let hit = self.unsettled_txs[at].index == index && same_bytes(
                &self.unsettled_txs[at].tx_hash,
                tx_hash,
            );
            if hit {
                self.unsettled_txs.remove(at);
                proof {
                    assert(self@ =~= log.remove(at as int));
                    assert(self@.take(at as int) =~= log.take(at as int));
                    assert(self@.skip(at as int) =~= rest.drop_first());
                }
            } else {
                proof {
                    assert(log.take(at + 1) =~= log.take(at as int).push(log[at as int]));
                    assert(log.skip(at + 1) =~= rest.drop_first());
                    assert(log.take(at as int) + (seq![log[at as int]] + without(
                        rest.drop_first(),
                        tx_hash@,
                        index,
                    )) =~= log.take(at + 1) + without(log.skip(at + 1), tx_hash@, index));
                }
                at += 1;
            }
        }
        proof {
            assert(self@.skip(at as int) =~= Seq::<EntryView>::empty());
            assert(self@.take(at as int) =~= self@);
            assert(self@ + Seq::<EntryView>::empty() =~= self@);
        }
    }

    /// The action of transaction `tx_hash` at place `index` is confirmed: it
    /// leaves the log and is run on the settled state. Returns how it ran,
    /// or `None` where no such action waits, in which case the settled state
    /// stays as it is.
    pub fn on_confirmed(&mut self, confirmed: &mut BlackJack, tx_hash: &Vec<u8>, index: usize) -> (res:
        Option<Result<Outcome, ErrorKind>>)
        ensures
            final(self)@ == without(old(self)@, tx_hash@, index),
            match first_entry(old(self)@, tx_hash@, index, 0) {
                Some(at) => {
                    &&& res == Some(answer(step(old(confirmed)@, old(self)@[at].calldata)))
                    &&& final(confirmed)@ == state_after(
                        old(confirmed)@,
                        step(old(confirmed)@, old(self)@[at].calldata),
                    )
                },
                None => res.is_none() && final(confirmed)@ == old(confirmed)@,
            },
    {
        let res = match self.find(tx_hash, index) {
            Some(at) => Some(confirmed.execute(&self.unsettled_txs[at].calldata)),
            None => None,
        };
        self.drop_entry(tx_hash, index);
        res
    }

    /// The action of transaction `tx_hash` at place `index` is rejected: it
    /// leaves the log. Returns whether such an action waited.
    pub fn on_rejected(&mut self, tx_hash: &Vec<u8>, index: usize) -> (waited: bool)
        ensures
            final(self)@ == without(old(self)@, tx_hash@, index),
            waited == first_entry(old(self)@, tx_hash@, index, 0).is_some(),
    {
        let waited = self.find(tx_hash, index).is_some();
        self.drop_entry(tx_hash, index);
        waited
    }

    /// The action of transaction `tx_hash` at place `index` timed out: it
    /// leaves the log. Returns whether such an action waited.
    pub fn on_timed_out(&mut self, tx_hash: &Vec<u8>, index: usize) -> (waited: bool)
        ensures
            final(self)@ == without(old(self)@, tx_hash@, index),
            waited == first_entry(old(self)@, tx_hash@, index, 0).is_some(),
    {
        let waited = self.find(tx_hash, index).is_some();
        self.drop_entry(tx_hash, index);
        waited
    }
}

} // verus!
