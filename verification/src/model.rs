//! The rules of the house as mathematics: what each action makes of a state.
//!
//! A state is three maps, from identities to tables and to the two balances,
//! and the house's rules. Each action is a function from a state, the one who
//! asks and the cards that the seed gives, to the next state and the outcome,
//! or to the reason for which the action is refused. The engine's contracts
//! say that the engine computes these functions.

use crate::action::{
    house_name, reward_token, stake_token, ActionView, BlobView, CalldataView, TransferView,
};
use crate::draw::{ranks_drawn, seeded_deck};
use crate::score::{low_total, score};
use crate::table::{ErrorKind, Outcome, Rules, TableState, TableView};
use vstd::prelude::*;

verus! {

/// The cards that open a game: two for the player and two for the bank.
pub const OPENING_CARDS: usize = 4;

/// The cards that a hit can take: one for the player and one for the bank.
pub const HIT_CARDS: usize = 2;

/// The score above which the bank stops drawing.
pub const BANK_STANDS_ABOVE: u32 = 16;

/// The cards that let the bank play to the end from any hand: each card adds
/// at least one to its score.
pub const BANK_CARDS: usize = 17;

/// The cards that a double down can take: one for the player, then the
/// bank's.
pub const DOUBLE_DOWN_CARDS: usize = 18;

/// A state of the house as a mathematical value.
pub struct StateView {
    /// The table of each identity that has one.
    pub tables: Map<Seq<char>, TableView>,
    /// The balances of the wagered token.
    pub oranj_balances: Map<Seq<char>, u32>,
    /// The balances of the token that wins are rewarded in.
    pub vitamin_balances: Map<Seq<char>, u32>,
    pub rules: Rules,
}

/// What an action gives: the next state and the outcome, or the reason for
/// which it is refused.
pub type Step = Result<(StateView, Outcome), ErrorKind>;

/// The balance of `who` in `book`: 0 where the book has no entry.
pub open spec fn balance(book: Map<Seq<char>, u32>, who: Seq<char>) -> u32 {
    if book.contains_key(who) {
        book[who]
    } else {
        0
    }
}

/// `who` has a game that is not over.
pub open spec fn has_open_table(s: StateView, who: Seq<char>) -> bool {
    s.tables.contains_key(who) && s.tables[who].state == TableState::Ongoing
}

/// The outcome ends the game in the player's favour.
pub open spec fn closes_won(outcome: Outcome) -> bool {
    outcome is Blackjack || outcome is BankBust || outcome is Push || outcome is Win
}

/// The outcome ends the game in the bank's favour.
pub open spec fn closes_lost(outcome: Outcome) -> bool {
    outcome is Bust || outcome is BankBlackjack || outcome is Loss
}

/// The phase in which the outcome leaves the table.
pub open spec fn phase_after(outcome: Outcome) -> TableState {
    if closes_won(outcome) {
        TableState::Won
    } else if closes_lost(outcome) {
        TableState::Lost
    } else {
        TableState::Ongoing
    }
}

/// The outcome earns the reward: every win but a tie, and a tie where the
/// rules say so.
pub open spec fn earns_reward(outcome: Outcome, rules: Rules) -> bool {
    outcome is Blackjack || outcome is BankBust || outcome is Win || (outcome is Push
        && rules.reward_on_push)
}

/// Puts `table` down for `who` in the phase that `outcome` asks for, and pays
/// what a won game owes: the bet comes back to the wagering balance, and the
/// same amount is credited as reward where the outcome earns it. Refused
/// with `BalanceOverflow` where a balance cannot hold the payment.
pub open spec fn settle(s: StateView, who: Seq<char>, table: TableView, outcome: Outcome) -> Step {
    let closed = TableView { state: phase_after(outcome), ..table };
    let tables = s.tables.insert(who, closed);
    if !closes_won(outcome) {
        Ok((StateView { tables, ..s }, outcome))
    } else if balance(s.oranj_balances, who) + table.bet > u32::MAX {
        Err(ErrorKind::BalanceOverflow)
    } else if earns_reward(outcome, s.rules) && balance(s.vitamin_balances, who) + table.bet
        > u32::MAX {
        Err(ErrorKind::BalanceOverflow)
    } else {
        Ok(
            (
                StateView {
                    tables,
                    oranj_balances: s.oranj_balances.insert(
                        who,
                        (balance(s.oranj_balances, who) + table.bet) as u32,
                    ),
                    vitamin_balances: if earns_reward(outcome, s.rules) {
                        s.vitamin_balances.insert(
                            who,
                            (balance(s.vitamin_balances, who) + table.bet) as u32,
                        )
                    } else {
                        s.vitamin_balances
                    },
                    rules: s.rules,
                },
                outcome,
            ),
        )
    }
}

/// How a game stands once the cards are dealt: the player's 21 wins, else
/// the bank's 21 loses, else the game goes on.
pub open spec fn opening_outcome(user: Seq<u32>, bank: Seq<u32>) -> Outcome {
    if score(user) == 21 {
        Outcome::Blackjack
    } else if score(bank) == 21 {
        Outcome::BankBlackjack
    } else {
        Outcome::Ongoing
    }
}

/// Starting a game: the bet leaves the balance, the first and third card of
/// `deck` go to the player, the second and fourth to the bank.
pub open spec fn start_game(s: StateView, who: Seq<char>, bet: u32, deck: Seq<u32>) -> Step {
    if has_open_table(s, who) {
        Err(ErrorKind::GameInProgress)
    } else if bet < s.rules.min_bet {
        Err(ErrorKind::BetTooLow)
    } else if balance(s.oranj_balances, who) < bet {
        Err(ErrorKind::InsufficientFunds)
    } else if deck.len() < OPENING_CARDS {
        Err(ErrorKind::MissingContext)
    } else {
        let table = TableView {
            bank: seq![deck[1], deck[3]],
            user: seq![deck[0], deck[2]],
            bet,
            state: TableState::Ongoing,
            bank_draws_on_hit: s.rules.bank_draws_on_hit,
        };
        let staked = StateView {
            oranj_balances: s.oranj_balances.insert(
                who,
                (balance(s.oranj_balances, who) - bet) as u32,
            ),
            ..s
        };
        settle(staked, who, table, opening_outcome(table.user, table.bank))
    }
}

/// The bank takes a card with this hit: the table says that it draws with
/// the player, and its score is at most 16.
pub open spec fn bank_joins_hit(table: TableView) -> bool {
    table.bank_draws_on_hit && score(table.bank) <= BANK_STANDS_ABOVE
}

/// How a game stands after a hit: the player's 21 wins and the player's bust
/// loses; else the bank's 21 loses and the bank's bust wins; else the game
/// goes on.
pub open spec fn hit_outcome(user: Seq<u32>, bank: Seq<u32>) -> Outcome {
    if score(user) == 21 {
        Outcome::Blackjack
    } else if score(user) > 21 {
        Outcome::Bust
    } else if score(bank) == 21 {
        Outcome::BankBlackjack
    } else if score(bank) > 21 {
        Outcome::BankBust
    } else {
        Outcome::Ongoing
    }
}

/// Taking a card: the first card of `deck` goes to the player, and the
/// second to the bank where the bank joins.
pub open spec fn hit(s: StateView, who: Seq<char>, deck: Seq<u32>) -> Step {
    if !has_open_table(s, who) {
        Err(ErrorKind::NoActiveGame)
    } else {
        let table = s.tables[who];
        if deck.len() < 1 || (bank_joins_hit(table) && deck.len() < HIT_CARDS) {
            Err(ErrorKind::MissingContext)
        } else {
            let user = table.user.push(deck[0]);
            let bank = if bank_joins_hit(table) {
                table.bank.push(deck[1])
            } else {
                table.bank
            };
            settle(s, who, TableView { user, bank, ..table }, hit_outcome(user, bank))
        }
    }
}

/// The bank's hand once it has played: it takes the cards of `deck` one by
/// one until its score is above 16. `None` where the deck ends before.
pub open spec fn bank_plays(bank: Seq<u32>, deck: Seq<u32>) -> Option<Seq<u32>>
    decreases deck.len(),
{
    if score(bank) > BANK_STANDS_ABOVE {
        Some(bank)
    } else if deck.len() == 0 {
        None
    } else {
        bank_plays(bank.push(deck.first()), deck.drop_first())
    }
}

/// With cards as a draw gives them, the bank gets above 16 before the deck
/// ends, provided the deck and the bank's low total are above 16 together:
/// every such card adds at least one.
pub proof fn lemma_bank_finishes(bank: Seq<u32>, deck: Seq<u32>)
    requires
        ranks_drawn(deck),
        low_total(bank) + deck.len() > BANK_STANDS_ABOVE,
    ensures
        bank_plays(bank, deck) is Some,
    decreases deck.len(),
{
    if score(bank) <= BANK_STANDS_ABOVE && deck.len() > 0 {
        let next = bank.push(deck.first());
        assert(next.drop_last() == bank);
        assert(next.last() == deck.first());
        assert(1 <= deck[0] <= 12);
        assert(ranks_drawn(deck.drop_first())) by {
            assert forall|k: int| 0 <= k < deck.drop_first().len() implies 1
                <= #[trigger] deck.drop_first()[k] <= 12 by {
                assert(deck.drop_first()[k] == deck[k + 1]);
            }
        }
        lemma_bank_finishes(next, deck.drop_first());
    }
}

/// How a game ends once the bank has played: the bank's bust wins; else a
/// tie gives the bet back; else the higher score wins.
pub open spec fn showdown(user: Seq<u32>, bank: Seq<u32>) -> Outcome {
    if score(bank) > 21 {
        Outcome::BankBust
    } else if score(user) == score(bank) {
        Outcome::Push
    } else if score(user) > score(bank) {
        Outcome::Win
    } else {
        Outcome::Loss
    }
}

/// Standing: the bank plays with the cards of `deck`, and the game ends.
pub open spec fn stand(s: StateView, who: Seq<char>, deck: Seq<u32>) -> Step {
    if !has_open_table(s, who) {
        Err(ErrorKind::NoActiveGame)
    } else {
        let table = s.tables[who];
        match bank_plays(table.bank, deck) {
            None => Err(ErrorKind::MissingContext),
            Some(bank) => settle(
                s,
                who,
                TableView { bank, ..table },
                showdown(table.user, bank),
            ),
        }
    }
}

/// Doubling down: the bet is doubled and its second half leaves the balance,
/// the player takes the first card of `deck`, and, unless that card busts
/// the player, the bank plays with the rest and the game ends.
pub open spec fn double_down(s: StateView, who: Seq<char>, deck: Seq<u32>) -> Step {
    if !has_open_table(s, who) {
        Err(ErrorKind::NoActiveGame)
    } else {
        let table = s.tables[who];
        if balance(s.oranj_balances, who) < table.bet {
            Err(ErrorKind::InsufficientFunds)
        } else if 2 * table.bet > u32::MAX {
            Err(ErrorKind::BalanceOverflow)
        } else if deck.len() < 1 {
            Err(ErrorKind::MissingContext)
        } else {
            let staked = StateView {
                oranj_balances: if s.oranj_balances.contains_key(who) {
                    s.oranj_balances.insert(who, (s.oranj_balances[who] - table.bet) as u32)
                } else {
                    s.oranj_balances
                },
                ..s
            };
            let user = table.user.push(deck[0]);
            let doubled = TableView { user, bet: (2 * table.bet) as u32, ..table };
            if score(user) > 21 {
                settle(staked, who, doubled, Outcome::Bust)
            } else {
                match bank_plays(table.bank, deck.drop_first()) {
                    None => Err(ErrorKind::MissingContext),
                    Some(bank) => settle(
                        staked,
                        who,
                        TableView { bank, ..doubled },
                        showdown(user, bank),
                    ),
                }
            }
        }
    }
}

/// The place, from `from` on, of the first of `blobs` that addresses
/// `contract`.
pub open spec fn first_blob_for(blobs: Seq<BlobView>, contract: Seq<char>, from: int) -> Option<
    int,
>
    decreases blobs.len() - from,
{
    if from < 0 || from >= blobs.len() {
        None
    } else if blobs[from].contract_name == contract {
        Some(from)
    } else {
        first_blob_for(blobs, contract, from + 1)
    }
}

/// `transfer` moves `amount` from `sender` to `recipient`.
pub open spec fn transfer_matches(
    transfer: Option<TransferView>,
    sender: Seq<char>,
    recipient: Seq<char>,
    amount: u32,
) -> bool {
    transfer == Some(TransferView { sender, recipient, amount: amount as u128 })
}

/// Depositing: the first blob that addresses the wagered token must move
/// `amount` from `who` to the house; the amount is then added to the
/// balance.
pub open spec fn deposit(
    s: StateView,
    who: Seq<char>,
    amount: u32,
    house: Seq<char>,
    blobs: Seq<BlobView>,
) -> Step {
    match first_blob_for(blobs, stake_token(), 0) {
        None => Err(ErrorKind::TransferMismatch),
        Some(at) => if !transfer_matches(blobs[at].transfer, who, house, amount) {
            Err(ErrorKind::TransferMismatch)
        } else if balance(s.oranj_balances, who) + amount > u32::MAX {
            Err(ErrorKind::BalanceOverflow)
        } else {
            Ok(
                (
                    StateView {
                        oranj_balances: s.oranj_balances.insert(
                            who,
                            (balance(s.oranj_balances, who) + amount) as u32,
                        ),
                        ..s
                    },
                    Outcome::Deposited,
                ),
            )
        },
    }
}

/// `blob` asks the contract of `token` to move `amount` from the house to
/// `who`.
pub open spec fn pays_out(blob: BlobView, token: Seq<char>, who: Seq<char>, amount: u32) -> bool {
    blob.contract_name == token && transfer_matches(blob.transfer, house_name(), who, amount)
}

/// The place, from `from` on, of the first of `callees` that pays `amount`
/// of `token` out to `who`.
pub open spec fn first_payout(
    callees: Seq<BlobView>,
    token: Seq<char>,
    who: Seq<char>,
    amount: u32,
    from: int,
) -> Option<int>
    decreases callees.len() - from,
{
    if from < 0 || from >= callees.len() {
        None
    } else if pays_out(callees[from], token, who, amount) {
        Some(from)
    } else {
        first_payout(callees, token, who, amount, from + 1)
    }
}

/// Withdrawing: no game may be open, the token must be one of the two, the
/// balance must cover `amount`, and one of `callees` must pay it out; the
/// amount then leaves the balance.
pub open spec fn withdraw(
    s: StateView,
    who: Seq<char>,
    amount: u32,
    token: Seq<char>,
    callees: Seq<BlobView>,
) -> Step {
    if has_open_table(s, who) {
        Err(ErrorKind::GameInProgress)
    } else if token != stake_token() && token != reward_token() {
        Err(ErrorKind::InvalidToken)
    } else {
        let book = if token == stake_token() {
            s.oranj_balances
        } else {
            s.vitamin_balances
        };
        if !book.contains_key(who) || amount > book[who] {
            Err(ErrorKind::InsufficientFunds)
        } else {
            match first_payout(callees, token, who, amount, 0) {
                None => Err(ErrorKind::TransferMismatch),
                Some(at) => {
                    let left = book.insert(who, (book[who] - amount) as u32);
                    Ok(
                        (
                            if token == stake_token() {
                                StateView { oranj_balances: left, ..s }
                            } else {
                                StateView { vitamin_balances: left, ..s }
                            },
                            Outcome::Withdrawn { transfer: at as usize },
                        ),
                    )
                },
            }
        }
    }
}

/// The tables of `tables` whose game is not over.
pub open spec fn open_tables(tables: Map<Seq<char>, TableView>) -> Map<Seq<char>, TableView> {
    Map::new(
        |who: Seq<char>| tables.contains_key(who) && tables[who].state == TableState::Ongoing,
        |who: Seq<char>| tables[who],
    )
}

/// The entries of `book` that are not 0.
pub open spec fn funded(book: Map<Seq<char>, u32>) -> Map<Seq<char>, u32> {
    Map::new(|who: Seq<char>| book.contains_key(who) && book[who] > 0, |who: Seq<char>| book[who])
}

/// Cleaning up: finished tables and empty balances go.
pub open spec fn cleanup(s: StateView) -> StateView {
    StateView {
        tables: open_tables(s.tables),
        oranj_balances: funded(s.oranj_balances),
        vitamin_balances: funded(s.vitamin_balances),
        rules: s.rules,
    }
}

/// One action on a state. A clean-up needs nothing and is never refused.
/// Every other action is refused without a block hash; the cards of a new
/// game and of a hit come from the block hash, the cards of a stand and of
/// a double down from the identity of the player.
pub open spec fn step(s: StateView, call: CalldataView) -> Step {
    match call.action {
        ActionView::CleanTick(_) => Ok((cleanup(s), Outcome::Cleaned)),
        _ => match call.block_hash {
            None => Err(ErrorKind::MissingContext),
            Some(hash) => match call.action {
                ActionView::Init(bet) => start_game(
                    s,
                    call.identity,
                    bet,
                    seeded_deck(hash, OPENING_CARDS as nat),
                ),
                ActionView::Hit => hit(s, call.identity, seeded_deck(hash, HIT_CARDS as nat)),
                ActionView::Stand => stand(
                    s,
                    call.identity,
                    seeded_deck(vstd::utf8::encode_utf8(call.identity), BANK_CARDS as nat),
                ),
                ActionView::DoubleDown => double_down(
                    s,
                    call.identity,
                    seeded_deck(
                        vstd::utf8::encode_utf8(call.identity),
                        DOUBLE_DOWN_CARDS as nat,
                    ),
                ),
                ActionView::Deposit(amount) => deposit(
                    s,
                    call.identity,
                    amount,
                    call.contract_name,
                    call.blobs,
                ),
                ActionView::Withdraw(amount, token) => withdraw(
                    s,
                    call.identity,
                    amount,
                    token,
                    call.callees,
                ),
                ActionView::CleanTick(_) => Ok((cleanup(s), Outcome::Cleaned)),
            },
        },
    }
}

/// The state that an action leaves: the next state where it is accepted, the
/// same state where it is refused.
pub open spec fn state_after(s: StateView, taken: Step) -> StateView {
    match taken {
        Ok((next, _)) => next,
        Err(_) => s,
    }
}

/// What the one who asked is told: the outcome, or the reason for the
/// refusal.
pub open spec fn answer(taken: Step) -> Result<Outcome, ErrorKind> {
    match taken {
        Ok((_, outcome)) => Ok(outcome),
        Err(reason) => Err(reason),
    }
}

} // verus!
