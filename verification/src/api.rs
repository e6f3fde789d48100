//! What a player is shown of a table.

use crate::engine::BlackJack;
use crate::model::{balance, StateView};
use crate::score::score_u32;
use crate::table::{copy_cards, Table, TableState};
use vstd::prelude::*;

verus! {

/// A table with the scores of its two hands and the wagering balance of its
/// player.
#[derive(Debug)]
pub struct ApiTable {
    pub bank: Vec<u32>,
    /// The score of the bank's hand.
    pub bank_count: u32,
    pub user: Vec<u32>,
    /// The score of the player's hand.
    pub user_count: u32,
    pub bet: u32,
    pub state: TableState,
    /// The wagering balance of the player; 0 until it is filled in.
    pub balance: u32,
}

/// The answer to an action: the transaction that carried it and the table
/// that it left.
#[derive(Debug)]
pub struct Resp {
    pub tx_hash: String,
    pub table: ApiTable,
}

impl Clone for ApiTable {
    fn clone(&self) -> (copy: Self)
        ensures
            copy.bank@ == self.bank@,
            copy.bank_count == self.bank_count,
            copy.user@ == self.user@,
            copy.user_count == self.user_count,
            copy.bet == self.bet,
            copy.state == self.state,
            copy.balance == self.balance,
    {
        ApiTable {
            bank: copy_cards(&self.bank),
            bank_count: self.bank_count,
            user: copy_cards(&self.user),
            user_count: self.user_count,
            bet: self.bet,
            state: self.state,
            balance: self.balance,
        }
    }
}

impl Clone for Resp {
    fn clone(&self) -> (copy: Self)
        ensures
            copy.tx_hash@ == self.tx_hash@,
            copy.table.bank@ == self.table.bank@,
            copy.table.bank_count == self.table.bank_count,
            copy.table.user@ == self.table.user@,
            copy.table.user_count == self.table.user_count,
            copy.table.bet == self.table.bet,
            copy.table.state == self.table.state,
            copy.table.balance == self.table.balance,
    {
        Resp { tx_hash: self.tx_hash.clone(), table: self.table.clone() }
    }
}

/// The two balances of one player.
#[derive(Debug, Clone, Copy, PartialEq, Eq)]
pub struct UserBalances {
    /// The balance of the wagered token.
    pub oranj: u32,
    /// The balance of the reward token.
    pub vitamin: u32,
}

impl UserBalances {
    /// The balances of `user` in `state`: 0 where `user` holds none.
    pub fn of(state: &BlackJack, user: &String) -> (held: UserBalances)
        ensures
            held.oranj == balance(state@.oranj_balances, user@),
            held.vitamin == balance(state@.vitamin_balances, user@),
    {
        let oranj = match state.oranj_balances.get(user) {
            Some(held) => *held,
            None => 0,
        };
        let vitamin = match state.vitamin_balances.get(user) {
            Some(held) => *held,
            None => 0,
        };
        UserBalances { oranj, vitamin }
    }
}

impl From<Table> for ApiTable {
    /// The table with the scores of its hands, and a balance of 0.
    fn from(table: Table) -> (shown: ApiTable) {
        let bank_count = BlackJack::compute_score(table.bank.as_slice());
        let user_count = BlackJack::compute_score(table.user.as_slice());
        ApiTable {
            bank: table.bank,
            bank_count,
            user: table.user,
            user_count,
            bet: table.bet,
            state: table.state,
            balance: 0,
        }
    }
}

impl vstd::std_specs::convert::FromSpecImpl<Table> for ApiTable {
    open spec fn obeys_from_spec() -> bool {
        true
    }

    open spec fn from_spec(table: Table) -> ApiTable {
        ApiTable {
            bank: table.bank,
            bank_count: score_u32(table.bank@),
            user: table.user,
            user_count: score_u32(table.user@),
            bet: table.bet,
            state: table.state,
            balance: 0,
        }
    }
}

/// `shown` is what `who` is shown in the state `s`: the table of `who`, or an
/// empty open table where `who` has none, with the scores of its hands and
/// the wagering balance of `who`.
pub open spec fn shows(shown: ApiTable, s: StateView, who: Seq<char>) -> bool {
    &&& shown.balance == balance(s.oranj_balances, who)
    &&& shown.bank_count == score_u32(shown.bank@)
    &&& shown.user_count == score_u32(shown.user@)
    &&& s.tables.contains_key(who) ==> {
        &&& shown.bank@ == s.tables[who].bank
        &&& shown.user@ == s.tables[who].user
        &&& shown.bet == s.tables[who].bet
        &&& shown.state == s.tables[who].state
    }
    &&& !s.tables.contains_key(who) ==> {
        &&& shown.bank@.len() == 0
        &&& shown.user@.len() == 0
        &&& shown.bet == 0
        &&& shown.state == TableState::Ongoing
    }
}

impl ApiTable {
    /// What `user` is shown in `state`.
    pub fn of(state: &BlackJack, user: &String) -> (shown: ApiTable)
        ensures
            shows(shown, state@, user@),
    {
        let table = match state.tables.get(user) {
            Some(table) => table.clone(),
            None => Table::default(),
        };
        let held = match state.oranj_balances.get(user) {
            Some(held) => *held,
            None => 0,
        };
        let mut shown = ApiTable::from(table);
        shown.balance = held;
        shown
    }
}

} // verus!
