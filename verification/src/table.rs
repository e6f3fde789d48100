//! Tables, the actions that a player can ask for, and what comes back.

use crate::ledger::Replicate;
use vstd::prelude::*;

verus! {

/// The phase of a table.
#[derive(Clone, Copy, Debug, PartialEq, Eq, Structural)]
pub enum TableState {
    Lost,
    Ongoing,
    Won,
}

impl Default for TableState {
    fn default() -> (state: Self)
        ensures
            state == TableState::Ongoing,
    {
        TableState::Ongoing
    }
}

/// The game of one identity: the one it plays, or the last one it played.
#[derive(Debug)]
pub struct Table {
    /// The bank's cards, in the order in which they were dealt.
    pub bank: Vec<u32>,
    /// The player's cards, in the order in which they were dealt.
    pub user: Vec<u32>,
    /// The amount at stake.
    pub bet: u32,
    pub state: TableState,
    /// Whether the bank takes a card each time the player does. Fixed when
    /// the game starts.
    pub bank_draws_on_hit: bool,
}

/// A table as a mathematical value.
pub struct TableView {
    pub bank: Seq<u32>,
    pub user: Seq<u32>,
    pub bet: u32,
    pub state: TableState,
    pub bank_draws_on_hit: bool,
}

impl View for Table {
    type V = TableView;

    open spec fn view(&self) -> TableView {
        TableView {
            bank: self.bank@,
            user: self.user@,
            bet: self.bet,
            state: self.state,
            bank_draws_on_hit: self.bank_draws_on_hit,
        }
    }
}

/// A copy of `cards`.
pub fn copy_cards(cards: &Vec<u32>) -> (copy: Vec<u32>)
    ensures
        copy@ == cards@,
{
    let mut copy: Vec<u32> = Vec::new();
    let mut at: usize = 0;
    while at < cards.len()
        invariant
            at <= cards.len(),
            copy@ == cards@.take(at as int),
        decreases cards.len() - at,
    {
        copy.push(cards[at]);
        assert(cards@.take(at as int).push(cards[at as int]) == cards@.take(at + 1));
        at += 1;
    }
    assert(cards@.take(at as int) == cards@);
    copy
}

impl Clone for Table {
    fn clone(&self) -> (copy: Self)
        ensures
            copy@ == self@,
    {
        Table {
            bank: copy_cards(&self.bank),
            user: copy_cards(&self.user),
            bet: self.bet,
            state: self.state,
            bank_draws_on_hit: self.bank_draws_on_hit,
        }
    }
}

impl Replicate for Table {
    fn replicate(&self) -> (copy: Table) {
        self.clone()
    }
}

impl Default for Table {
    /// A table without cards and without a stake, open for play.
    fn default() -> (table: Self)
        ensures
            table@ == (TableView {
                bank: Seq::empty(),
                user: Seq::empty(),
                bet: 0,
                state: TableState::Ongoing,
                bank_draws_on_hit: false,
            }),
    {
        Table {
            bank: Vec::new(),
            user: Vec::new(),
            bet: 0,
            state: TableState::Ongoing,
            bank_draws_on_hit: false,
        }
    }
}

/// What the rules leave to the house.
#[derive(Clone, Copy, Debug, PartialEq, Eq, Structural)]
pub struct Rules {
    /// The smallest bet that opens a game.
    pub min_bet: u32,
    /// Whether, in a game that starts now, the bank takes a card each time
    /// the player does, as long as the bank's score is at most 16.
    pub bank_draws_on_hit: bool,
    /// Whether a tie earns the reward besides giving the bet back.
    pub reward_on_push: bool,
}

impl Default for Rules {
    /// A smallest bet of 10; the bank draws only once the player stands;
    /// a tie gives the bet back and nothing more.
    fn default() -> (rules: Self)
        ensures
            rules == (Rules { min_bet: 10, bank_draws_on_hit: false, reward_on_push: false }),
    {
        Rules { min_bet: 10, bank_draws_on_hit: false, reward_on_push: false }
    }
}

/// Why an action was refused. A refused action changes nothing.
#[derive(Clone, Copy, Debug, PartialEq, Eq, Structural)]
pub enum ErrorKind {
    /// The identity has a game that is not over.
    GameInProgress,
    /// The identity has no game that is still open.
    NoActiveGame,
    /// The bet is below the smallest bet.
    BetTooLow,
    /// The balance does not cover the amount.
    InsufficientFunds,
    /// No transfer goes with the action, or its sender, recipient or amount
    /// is not the one that the action needs.
    TransferMismatch,
    /// A balance, or the doubled bet, would exceed what the counter holds.
    BalanceOverflow,
    /// The token is none of those that the house keeps.
    InvalidToken,
    /// The seed is missing, or gave too few cards.
    MissingContext,
}

impl ErrorKind {
    /// The words in which a refusal is told to the player.
    pub open spec fn reason_text(self) -> Seq<char> {
        match self {
            ErrorKind::GameInProgress => "A game is in progress: finish it first"@,
            ErrorKind::NoActiveGame => "No game is open: start a new game first"@,
            ErrorKind::BetTooLow => "The bet is below the minimum bet"@,
            ErrorKind::InsufficientFunds => "Insufficient balance"@,
            ErrorKind::TransferMismatch => "No transfer matches the action"@,
            ErrorKind::BalanceOverflow => "Balance overflow"@,
            ErrorKind::InvalidToken => "Invalid token type. Use 'oranj' or 'vitamin'"@,
            ErrorKind::MissingContext => "Missing tx context necessary for this contract"@,
        }
    }

    /// The words in which this refusal is told to the player.
    pub fn reason(&self) -> (text: String)
        ensures
            text@ == self.reason_text(),
    {
        match self {
            ErrorKind::GameInProgress => "A game is in progress: finish it first".to_owned(),
            ErrorKind::NoActiveGame => "No game is open: start a new game first".to_owned(),
            ErrorKind::BetTooLow => "The bet is below the minimum bet".to_owned(),
            ErrorKind::InsufficientFunds => "Insufficient balance".to_owned(),
            ErrorKind::TransferMismatch => "No transfer matches the action".to_owned(),
            ErrorKind::BalanceOverflow => "Balance overflow".to_owned(),
            ErrorKind::InvalidToken => "Invalid token type. Use 'oranj' or 'vitamin'".to_owned(),
            ErrorKind::MissingContext => "Missing tx context necessary for this contract".to_owned(),
        }
    }
}

/// How an accepted action ended.
#[derive(Clone, Copy, Debug, PartialEq, Eq, Structural)]
pub enum Outcome {
    /// The game goes on.
    Ongoing,
    /// The player holds 21: won.
    Blackjack,
    /// The player is over 21: lost.
    Bust,
    /// The bank holds 21: lost.
    BankBlackjack,
    /// The bank is over 21: won.
    BankBust,
    /// Player and bank score the same: won, the bet comes back.
    Push,
    /// The player scores more than the bank: won.
    Win,
    /// The bank scores more than the player: lost.
    Loss,
    /// The deposit was credited.
    Deposited,
    /// The withdrawal was debited; `transfer` is the place, among the
    /// transfers that the action called for, of the one that pays it out.
    Withdrawn { transfer: usize },
    /// Finished tables and empty balances were removed.
    Cleaned,
}

} // verus!
