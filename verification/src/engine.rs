//! The engine: the state of the house and the actions on it.
//!
//! Each action either yields the state and the outcome that the rules of
//! `model` give, or is refused and leaves the state as it was. An action
//! that draws cards exists twice: once taking the cards, so that what it does
//! is stated for every card and can be tried on chosen cards, and once taking
//! the seed, from which it draws the cards and then does the same.

use crate::action::{blob_views, house_name, Blob, BlackJackAction, Calldata, Transfer};
use crate::draw::{draw_cards, ranks_drawn, seeded_deck};
use crate::ledger::{lemma_entry_in_map, Ledger};
use crate::model::{
    answer, balance, bank_joins_hit, bank_plays, cleanup, closes_won, deposit, earns_reward,
    first_blob_for, first_payout, funded, has_open_table, hit_outcome, lemma_bank_finishes,
    open_tables, opening_outcome, phase_after, settle, showdown, start_game, state_after, step,
    transfer_matches, StateView, BANK_CARDS, BANK_STANDS_ABOVE, DOUBLE_DOWN_CARDS, HIT_CARDS,
    OPENING_CARDS,
};
use crate::table::{ErrorKind, Outcome, Rules, Table, TableState};
use vstd::prelude::*;

verus! {

/// The state of the house: the table of each player, the balances of the
/// wagered token and of the reward token, and the rules.
pub struct BlackJack {
    pub tables: Ledger<Table>,
    pub oranj_balances: Ledger<u32>,
    pub vitamin_balances: Ledger<u32>,
    pub rules: Rules,
}

impl View for BlackJack {
    type V = StateView;

    open spec fn view(&self) -> StateView {
        StateView {
            tables: self.tables@,
            oranj_balances: self.oranj_balances@,
            vitamin_balances: self.vitamin_balances@,
            rules: self.rules,
        }
    }
}

impl Default for BlackJack {
    /// A house without tables or balances, under the default rules.
    fn default() -> (state: Self)
        ensures
            state@ == (StateView {
                tables: Map::empty(),
                oranj_balances: Map::empty(),
                vitamin_balances: Map::empty(),
                rules: Rules { min_bet: 10, bank_draws_on_hit: false, reward_on_push: false },
            }),
    {
        BlackJack::with_rules(Rules::default())
    }
}

impl Clone for BlackJack {
    fn clone(&self) -> (copy: Self)
        ensures
            copy@ == self@,
    {
        BlackJack {
            tables: self.tables.replicate(),
            oranj_balances: self.oranj_balances.replicate(),
            vitamin_balances: self.vitamin_balances.replicate(),
            rules: self.rules,
        }
    }
}

/// The balance of `user` in `book`: 0 where the book has no entry.
fn balance_in(book: &Ledger<u32>, user: &String) -> (held: u32)
    ensures
        held == balance(book@, user@),
{
    match book.get(user) {
        Some(held) => *held,
        None => 0,
    }
}

/// What a finished game pays: the wagering balance and the reward balance
/// after the payment, each `None` where it stays as it is. Refused where a
/// balance cannot hold the payment.
fn payment(oranj: u32, vitamin: u32, stake: u32, outcome: Outcome, rules: &Rules) -> (paid: Result<
    (Option<u32>, Option<u32>),
    ErrorKind,
>)
    ensures
        match paid {
            Ok((refund, reward)) => {
                &&& closes_won(outcome) ==> oranj + stake <= u32::MAX && refund == Some(
                    (oranj + stake) as u32,
                )
                &&& !closes_won(outcome) ==> refund.is_none()
                &&& closes_won(outcome) && earns_reward(outcome, *rules) ==> vitamin + stake
                    <= u32::MAX && reward == Some((vitamin + stake) as u32)
                &&& !(closes_won(outcome) && earns_reward(outcome, *rules)) ==> reward.is_none()
            },
            Err(reason) => {
                &&& reason == ErrorKind::BalanceOverflow
                &&& closes_won(outcome)
                &&& oranj + stake > u32::MAX || (earns_reward(outcome, *rules) && vitamin + stake
                    > u32::MAX)
            },
        },
{
    let won = match outcome {
        Outcome::Blackjack | Outcome::BankBust | Outcome::Push | Outcome::Win => true,
        _ => false,
    };
    if !won {
        return Ok((None, None));
    }
    let rewarded = match outcome {
        Outcome::Push => rules.reward_on_push,
        _ => true,
    };
    let refund = match oranj.checked_add(stake) {
        Some(sum) => sum,
        None => {
            return Err(ErrorKind::BalanceOverflow);
        },
    };
    if !rewarded {
        return Ok((Some(refund), None));
    }
    match vitamin.checked_add(stake) {
        Some(sum) => Ok((Some(refund), Some(sum))),
        None => Err(ErrorKind::BalanceOverflow),
    }
}

/// The phase in which `outcome` leaves a table.
fn phase_of(outcome: Outcome) -> (phase: TableState)
    ensures
        phase == phase_after(outcome),
{
    match outcome {
        Outcome::Blackjack | Outcome::BankBust | Outcome::Push | Outcome::Win => TableState::Won,
        Outcome::Bust | Outcome::BankBlackjack | Outcome::Loss => TableState::Lost,
        _ => TableState::Ongoing,
    }
}

/// How a game stands once the cards are dealt.
fn opening_of(user: &Vec<u32>, bank: &Vec<u32>) -> (outcome: Outcome)
    ensures
        outcome == opening_outcome(user@, bank@),
{
    if BlackJack::compute_score(user.as_slice()) == 21 {
        Outcome::Blackjack
    } else if BlackJack::compute_score(bank.as_slice()) == 21 {
        Outcome::BankBlackjack
    } else {
        Outcome::Ongoing
    }
}

/// How a game stands after a hit.
fn hit_result(user: &Vec<u32>, bank: &Vec<u32>) -> (outcome: Outcome)
    ensures
        outcome == hit_outcome(user@, bank@),
{
    let user_score = BlackJack::compute_score(user.as_slice());
    if user_score == 21 {
        Outcome::Blackjack
    } else if user_score > 21 {
        Outcome::Bust
    } else {
        let bank_score = BlackJack::compute_score(bank.as_slice());
        if bank_score == 21 {
            Outcome::BankBlackjack
        } else if bank_score > 21 {
            Outcome::BankBust
        } else {
            Outcome::Ongoing
        }
    }
}

/// How a game ends once the bank has played.
fn showdown_of(user: &Vec<u32>, bank: &Vec<u32>) -> (outcome: Outcome)
    ensures
        outcome == showdown(user@, bank@),
{
    let user_score = BlackJack::compute_score(user.as_slice());
    let bank_score = BlackJack::compute_score(bank.as_slice());
    if bank_score > 21 {
        Outcome::BankBust
    } else if user_score == bank_score {
        Outcome::Push
    } else if user_score > bank_score {
        Outcome::Win
    } else {
        Outcome::Loss
    }
}

/// Lets the bank play with the cards of `deck` from place `from` on: it
/// takes cards until its score is above 16. Returns whether it got there
/// before the cards ran out.
fn play_bank(bank: &mut Vec<u32>, deck: &[u32], from: usize) -> (done: bool)
    requires
        from <= deck@.len(),
    ensures
        match bank_plays(old(bank)@, deck@.skip(from as int)) {
            Some(hand) => done && final(bank)@ == hand,
            None => !done,
        },
{
    let mut at: usize = from;
    loop
        invariant
            from <= at <= deck@.len(),
            bank_plays(old(bank)@, deck@.skip(from as int)) == bank_plays(
                bank@,
                deck@.skip(at as int),
            ),
        decreases deck@.len() - at,
    {
        if BlackJack::compute_score(bank.as_slice()) > BANK_STANDS_ABOVE {
            return true;
        }
        if at >= deck.len() {
            return false;
        }
        proof {
            let rest = deck@.skip(at as int);
            assert(rest.first() == deck@[at as int]);
            assert(rest.drop_first() == deck@.skip(at + 1));
        }
        bank.push(deck[at]);
        at += 1;
    }
}

/// Whether `transfer` moves `amount` from `sender` to `recipient`.
fn moves(transfer: &Option<Transfer>, sender: &String, recipient: &String, amount: u32) -> (res:
    bool)
    ensures
        res == transfer_matches(
            match transfer {
                Some(t) => Some(t@),
                None => None,
            },
            sender@,
            recipient@,
            amount,
        ),
{
    match transfer {
        Some(t) => t.amount == amount as u128 && t.sender == *sender && t.recipient == *recipient,
        None => false,
    }
}

/// The place of the first of `blobs` that addresses `contract`.
pub fn find_blob_for(blobs: &Vec<Blob>, contract: &String) -> (found: Option<usize>)
    ensures
        match found {
            Some(at) => first_blob_for(blob_views(blobs@), contract@, 0) == Some(at as int) && at
                < blobs@.len(),
            None => first_blob_for(blob_views(blobs@), contract@, 0).is_none(),
        },
{
    let mut at: usize = 0;
    while at < blobs.len()
        invariant
            at <= blobs@.len(),
            first_blob_for(blob_views(blobs@), contract@, 0) == first_blob_for(
                blob_views(blobs@),
                contract@,
                at as int,
            ),
        decreases blobs@.len() - at,
    {
        if blobs[at].contract_name == *contract {
            return Some(at);
        }
        at += 1;
    }
    None
}

/// The place of the first of `callees` that pays `amount` of `token` out to
/// `user`.
fn find_payout(callees: &Vec<Blob>, token: &String, user: &String, amount: u32) -> (found: Option<
    usize,
>)
    ensures
        match found {
            Some(at) => first_payout(blob_views(callees@), token@, user@, amount, 0) == Some(
                at as int,
            ) && at < callees@.len(),
            None => first_payout(blob_views(callees@), token@, user@, amount, 0).is_none(),
        },
{
    let house = "blackjack".to_owned();
    let mut at: usize = 0;
    while at < callees.len()
        invariant
            at <= callees@.len(),
            house@ == house_name(),
            first_payout(blob_views(callees@), token@, user@, amount, 0) == first_payout(
                blob_views(callees@),
                token@,
                user@,
                amount,
                at as int,
            ),
        decreases callees@.len() - at,
    {
        if callees[at].contract_name == *token && moves(
            &callees[at].transfer,
            &house,
            user,
            amount,
        ) {
            return Some(at);
        }
        at += 1;
    }
    None
}

/// Takes the tables whose game is over out of `tables`.
fn keep_open(tables: &mut Ledger<Table>)
    ensures
        final(tables)@ == open_tables(old(tables)@),
{
    let mut at: usize = 0;
    while at < tables.len()
        invariant
            open_tables(tables@) == open_tables(old(tables)@),
            at <= tables.entries().len(),
            forall|k: int|
                0 <= k < at ==> (#[trigger] tables.entries()[k]).value.state
                    == TableState::Ongoing,
        decreases tables.entries().len() - at,
    {
        let ongoing = match tables.entry(at).value.state {
            TableState::Ongoing => true,
            _ => false,
        };
        if ongoing {
            at += 1;
        } else {
            let ghost before = tables@;
            proof {
                lemma_entry_in_map(tables.entries(), at as int);
            }
            tables.remove_at(at);
            assert(open_tables(tables@) =~= open_tables(before));
        }
    }
    proof {
        let entries = tables.entries();
        assert forall|who: Seq<char>| tables@.contains_key(who) implies tables@[who].state
            == TableState::Ongoing by {
            let k = crate::ledger::slot_of(entries, who);
            lemma_entry_in_map(entries, k);
        }
        assert(tables@ =~= open_tables(tables@));
    }
}

/// Takes the balances that are 0 out of `book`.
fn keep_funded(book: &mut Ledger<u32>)
    ensures
        final(book)@ == funded(old(book)@),
{
    let mut at: usize = 0;
    while at < book.len()
        invariant
            funded(book@) == funded(old(book)@),
            at <= book.entries().len(),
            forall|k: int| 0 <= k < at ==> (#[trigger] book.entries()[k]).value > 0,
        decreases book.entries().len() - at,
    {
        if book.entry(at).value > 0 {
            at += 1;
        } else {
            let ghost before = book@;
            proof {
                lemma_entry_in_map(book.entries(), at as int);
            }
            book.remove_at(at);
            assert(funded(book@) =~= funded(before));
        }
    }
    proof {
        let entries = book.entries();
        assert forall|who: Seq<char>| book@.contains_key(who) implies book@[who] > 0 by {
            let k = crate::ledger::slot_of(entries, who);
            lemma_entry_in_map(entries, k);
        }
        assert(book@ =~= funded(book@));
    }
}

impl BlackJack {
    /// A house without tables or balances, under `rules`.
    pub fn with_rules(rules: Rules) -> (state: Self)
        ensures
            state@ == (StateView {
                tables: Map::empty(),
                oranj_balances: Map::empty(),
                vitamin_balances: Map::empty(),
                rules,
            }),
    {
        BlackJack {
            tables: Ledger::new(),
            oranj_balances: Ledger::new(),
            vitamin_balances: Ledger::new(),
            rules,
        }
    }

    /// Whether `user` has a game that is not over.
    pub fn has_open_table(&self, user: &String) -> (open: bool)
        ensures
            open == has_open_table(self@, user@),
    {
        match self.tables.get(user) {
            Some(table) => match table.state {
                TableState::Ongoing => true,
                _ => false,
            },
            None => false,
        }
    }

    /// Puts `table` down for `user` as `outcome` leaves it and pays what the
    /// outcome owes, on a state in which the wagering balance of `user`
    /// stands at `staked`: `Some` where the stake has just left it, `None`
    /// where the balance is untouched.
    fn close(&mut self, user: &String, staked: Option<u32>, table: Table, outcome: Outcome) -> (res:
        Result<Outcome, ErrorKind>)
        ensures
            ({
                let before = match staked {
                    Some(left) => StateView {
                        oranj_balances: old(self)@.oranj_balances.insert(user@, left),
                        ..old(self)@
                    },
                    None => old(self)@,
                };
                let taken = settle(before, user@, table@, outcome);
                &&& res == answer(taken)
                &&& final(self)@ == state_after(old(self)@, taken)
            }),
    {
        let ghost before = match staked {
            Some(left) => StateView {
                oranj_balances: self@.oranj_balances.insert(user@, left),
                ..self@
            },
            None => self@,
        };
        let oranj = match staked {
            Some(left) => left,
            None => balance_in(&self.oranj_balances, user),
        };
        let vitamin = balance_in(&self.vitamin_balances, user);
        let (refund, reward) = match payment(oranj, vitamin, table.bet, outcome, &self.rules) {
            Ok(paid) => paid,
            Err(reason) => {
                return Err(reason);
            },
        };
        let closed = Table { state: phase_of(outcome), ..table };
        self.tables.insert(user, closed);
        match refund {
            Some(amount) => {
                self.oranj_balances.insert(user, amount);
            },
            None => {
                match staked {
                    Some(left) => {
                        self.oranj_balances.insert(user, left);
                    },
                    None => {},
                }
            },
        }
        match reward {
            Some(amount) => {
                self.vitamin_balances.insert(user, amount);
            },
            None => {},
        }
        proof {
            let taken = settle(before, user@, table@, outcome);
            assert(taken is Ok);
            assert(self@.tables == taken->Ok_0.0.tables);
            assert(self@.oranj_balances =~= taken->Ok_0.0.oranj_balances);
            assert(self@.vitamin_balances == taken->Ok_0.0.vitamin_balances);
        }
        Ok(outcome)
    }

    /// The table of `user` where its game is not over.
    fn open_table(&self, user: &String) -> (found: Option<Table>)
        ensures
            match found {
                Some(table) => has_open_table(self@, user@) && table@ == self@.tables[user@],
                None => !has_open_table(self@, user@),
            },
    {
        match self.tables.get(user) {
            Some(table) => match table.state {
                TableState::Ongoing => Some(table.clone()),
                _ => None,
            },
            None => None,
        }
    }

    /// Starts a game for `user` with the cards of `deck`: the first and the
    /// third go to the player, the second and the fourth to the bank.
    pub fn new_game_with_cards(&mut self, user: &String, bet: u32, deck: &[u32]) -> (res: Result<
        Outcome,
        ErrorKind,
    >)
        ensures
            res == answer(start_game(old(self)@, user@, bet, deck@)),
            final(self)@ == state_after(old(self)@, start_game(old(self)@, user@, bet, deck@)),
    {
        if self.has_open_table(user) {
            return Err(ErrorKind::GameInProgress);
        }
        if bet < self.rules.min_bet {
            return Err(ErrorKind::BetTooLow);
        }
        let held = balance_in(&self.oranj_balances, user);
        if held < bet {
            return Err(ErrorKind::InsufficientFunds);
        }
        if deck.len() < OPENING_CARDS {
            return Err(ErrorKind::MissingContext);
        }
        let mut user_cards: Vec<u32> = Vec::new();
        user_cards.push(deck[0]);
        user_cards.push(deck[2]);
        let mut bank_cards: Vec<u32> = Vec::new();
        bank_cards.push(deck[1]);
        bank_cards.push(deck[3]);
        assert(user_cards@ == seq![deck@[0], deck@[2]]);
        assert(bank_cards@ == seq![deck@[1], deck@[3]]);
        let outcome = opening_of(&user_cards, &bank_cards);
        let table = Table {
            bank: bank_cards,
            user: user_cards,
            bet,
            state: TableState::Ongoing,
            bank_draws_on_hit: self.rules.bank_draws_on_hit,
        };
        self.close(user, Some(held - bet), table, outcome)
    }

    /// Starts a game for `user` with the first four cards of the deck of
    /// `seed`.
    pub fn new_game(&mut self, user: &String, seed: &[u8], bet: u32) -> (res: Result<
        Outcome,
        ErrorKind,
    >)
        ensures
            res == answer(
                start_game(old(self)@, user@, bet, seeded_deck(seed@, OPENING_CARDS as nat)),
            ),
            final(self)@ == state_after(
                old(self)@,
                start_game(old(self)@, user@, bet, seeded_deck(seed@, OPENING_CARDS as nat)),
            ),
            !(res matches Err(ErrorKind::MissingContext)),
    {
        let deck = draw_cards(seed, OPENING_CARDS);
        self.new_game_with_cards(user, bet, deck.as_slice())
    }

    /// Gives `user` the first card of `deck`, and the bank the second where
    /// the bank joins.
    pub fn hit_with_cards(&mut self, user: &String, deck: &[u32]) -> (res: Result<
        Outcome,
        ErrorKind,
    >)
        ensures
            res == answer(crate::model::hit(old(self)@, user@, deck@)),
            final(self)@ == state_after(old(self)@, crate::model::hit(old(self)@, user@, deck@)),
    {
        let mut table = match self.open_table(user) {
            Some(table) => table,
            None => {
                return Err(ErrorKind::NoActiveGame);
            },
        };
        let ghost before = table@;
        let joins = table.bank_draws_on_hit && BlackJack::compute_score(table.bank.as_slice())
            <= BANK_STANDS_ABOVE;
        assert(joins == bank_joins_hit(before));
        if deck.len() < 1 || (joins && deck.len() < HIT_CARDS) {
            return Err(ErrorKind::MissingContext);
        }
        table.user.push(deck[0]);
        if joins {
            table.bank.push(deck[1]);
        }
        let outcome = hit_result(&table.user, &table.bank);
        self.close(user, None, table, outcome)
    }

    /// Gives `user` a card from the deck of `seed`, and the bank the next
    /// where the bank joins.
    pub fn hit(&mut self, user: &String, seed: &[u8]) -> (res: Result<Outcome, ErrorKind>)
        ensures
            res == answer(
                crate::model::hit(old(self)@, user@, seeded_deck(seed@, HIT_CARDS as nat)),
            ),
            final(self)@ == state_after(
                old(self)@,
                crate::model::hit(old(self)@, user@, seeded_deck(seed@, HIT_CARDS as nat)),
            ),
            !(res matches Err(ErrorKind::MissingContext)),
    {
        let deck = draw_cards(seed, HIT_CARDS);
        self.hit_with_cards(user, deck.as_slice())
    }

    /// Ends the game of `user`: the bank plays with the cards of `deck`.
    pub fn stand_with_cards(&mut self, user: &String, deck: &[u32]) -> (res: Result<
        Outcome,
        ErrorKind,
    >)
        ensures
            res == answer(crate::model::stand(old(self)@, user@, deck@)),
            final(self)@ == state_after(
                old(self)@,
                crate::model::stand(old(self)@, user@, deck@),
            ),
    {
        let mut table = match self.open_table(user) {
            Some(table) => table,
            None => {
                return Err(ErrorKind::NoActiveGame);
            },
        };
        assert(deck@.skip(0) == deck@);
        if !play_bank(&mut table.bank, deck, 0) {
            return Err(ErrorKind::MissingContext);
        }
        let outcome = showdown_of(&table.user, &table.bank);
        self.close(user, None, table, outcome)
    }

    /// Ends the game of `user`: the bank plays with the deck that the
    /// identity of `user` seeds.
    pub fn stand(&mut self, user: &String) -> (res: Result<Outcome, ErrorKind>)
        ensures
            res == answer(
                crate::model::stand(
                    old(self)@,
                    user@,
                    seeded_deck(vstd::utf8::encode_utf8(user@), BANK_CARDS as nat),
                ),
            ),
            final(self)@ == state_after(
                old(self)@,
                crate::model::stand(
                    old(self)@,
                    user@,
                    seeded_deck(vstd::utf8::encode_utf8(user@), BANK_CARDS as nat),
                ),
            ),
            !(res matches Err(ErrorKind::MissingContext)),
    {
        let deck = draw_cards(user.as_str().as_bytes(), BANK_CARDS);
        proof {
            if has_open_table(self@, user@) {
                lemma_bank_finishes(self@.tables[user@].bank, deck@);
            }
        }
        self.stand_with_cards(user, deck.as_slice())
    }

    /// Doubles the bet of `user`, gives the player the first card of `deck`
    /// and, unless that card busts the player, lets the bank play with the
    /// rest.
    pub fn double_down_with_cards(&mut self, user: &String, deck: &[u32]) -> (res: Result<
        Outcome,
        ErrorKind,
    >)
        ensures
            res == answer(crate::model::double_down(old(self)@, user@, deck@)),
            final(self)@ == state_after(
                old(self)@,
                crate::model::double_down(old(self)@, user@, deck@),
            ),
    {
        let mut table = match self.open_table(user) {
            Some(table) => table,
            None => {
                return Err(ErrorKind::NoActiveGame);
            },
        };
        let staked = match self.oranj_balances.get(user) {
            Some(held) => {
                if *held < table.bet {
                    return Err(ErrorKind::InsufficientFunds);
                }
                Some(*held - table.bet)
            },
            None => {
                if table.bet > 0 {
                    return Err(ErrorKind::InsufficientFunds);
                }
                None
            },
        };
        let doubled = match table.bet.checked_mul(2) {
            Some(doubled) => doubled,
            None => {
                return Err(ErrorKind::BalanceOverflow);
            },
        };
        if deck.len() < 1 {
            return Err(ErrorKind::MissingContext);
        }
        table.bet = doubled;
        table.user.push(deck[0]);
        if BlackJack::compute_score(table.user.as_slice()) > 21 {
            return self.close(user, staked, table, Outcome::Bust);
        }
        assert(deck@.skip(1) == deck@.drop_first());
        if !play_bank(&mut table.bank, deck, 1) {
            return Err(ErrorKind::MissingContext);
        }
        let outcome = showdown_of(&table.user, &table.bank);
        self.close(user, staked, table, outcome)
    }

    /// Doubles the bet of `user` and ends the game with the deck that the
    /// identity of `user` seeds.
    pub fn double_down(&mut self, user: &String) -> (res: Result<Outcome, ErrorKind>)
        ensures
            res == answer(
                crate::model::double_down(
                    old(self)@,
                    user@,
                    seeded_deck(vstd::utf8::encode_utf8(user@), DOUBLE_DOWN_CARDS as nat),
                ),
            ),
            final(self)@ == state_after(
                old(self)@,
                crate::model::double_down(
                    old(self)@,
                    user@,
                    seeded_deck(vstd::utf8::encode_utf8(user@), DOUBLE_DOWN_CARDS as nat),
                ),
            ),
            !(res matches Err(ErrorKind::MissingContext)),
    {
        let deck = draw_cards(user.as_str().as_bytes(), DOUBLE_DOWN_CARDS);
        proof {
            if has_open_table(self@, user@) {
                let rest = deck@.drop_first();
                assert(ranks_drawn(rest)) by {
                    assert forall|k: int| 0 <= k < rest.len() implies 1 <= #[trigger] rest[k]
                        <= 12 by {
                        assert(rest[k] == deck@[k + 1]);
                    }
                }
                lemma_bank_finishes(self@.tables[user@].bank, rest);
            }
        }
        self.double_down_with_cards(user, deck.as_slice())
    }

    /// Credits a deposit of `amount` to `user`, provided that the first of
    /// `blobs` that addresses the wagered token moves that amount from
    /// `user` to the house, registered as `house`.
    pub fn claim(&mut self, amount: u32, user: &String, house: &String, blobs: &Vec<Blob>) -> (res:
        Result<Outcome, ErrorKind>)
        ensures
            res == answer(deposit(old(self)@, user@, amount, house@, blob_views(blobs@))),
            final(self)@ == state_after(
                old(self)@,
                deposit(old(self)@, user@, amount, house@, blob_views(blobs@)),
            ),
    {
        let token = "oranj".to_owned();
        let at = match find_blob_for(blobs, &token) {
            Some(at) => at,
            None => {
                return Err(ErrorKind::TransferMismatch);
            },
        };
        if !moves(&blobs[at].transfer, user, house, amount) {
            return Err(ErrorKind::TransferMismatch);
        }
        let held = balance_in(&self.oranj_balances, user);
        match held.checked_add(amount) {
            Some(sum) => {
                self.oranj_balances.insert(user, sum);
                Ok(Outcome::Deposited)
            },
            None => Err(ErrorKind::BalanceOverflow),
        }
    }

    /// Debits a withdrawal of `amount` of `token` from `user`, provided that
    /// no game is open, the balance covers it, and one of `callees` pays it
    /// out.
    pub fn withdraw(&mut self, amount: u32, user: &String, token: &String, callees: &Vec<Blob>) -> (res:
        Result<Outcome, ErrorKind>)
        ensures
            res == answer(
                crate::model::withdraw(old(self)@, user@, amount, token@, blob_views(callees@)),
            ),
            final(self)@ == state_after(
                old(self)@,
                crate::model::withdraw(old(self)@, user@, amount, token@, blob_views(callees@)),
            ),
    {
        if self.has_open_table(user) {
            return Err(ErrorKind::GameInProgress);
        }
        let stake = "oranj".to_owned();
        let reward = "vitamin".to_owned();
        let staked = *token == stake;
        if !staked && !(*token == reward) {
            return Err(ErrorKind::InvalidToken);
        }
        let held = match (if staked {
            self.oranj_balances.get(user)
        } else {
            self.vitamin_balances.get(user)
        }) {
            Some(held) => *held,
            None => {
                return Err(ErrorKind::InsufficientFunds);
            },
        };
        if amount > held {
            return Err(ErrorKind::InsufficientFunds);
        }
        let at = match find_payout(callees, token, user, amount) {
            Some(at) => at,
            None => {
                return Err(ErrorKind::TransferMismatch);
            },
        };
        if staked {
            self.oranj_balances.insert(user, held - amount);
        } else {
            self.vitamin_balances.insert(user, held - amount);
        }
        Ok(Outcome::Withdrawn { transfer: at })
    }

    /// Removes the tables whose game is over and the balances that are 0.
    pub fn clean(&mut self)
        ensures
            final(self)@ == cleanup(old(self)@),
    {
        keep_open(&mut self.tables);
        keep_funded(&mut self.oranj_balances);
        keep_funded(&mut self.vitamin_balances);
    }

    /// Runs one action: what `calldata` asks, for the one who asks. A
    /// clean-up needs nothing and is never refused. Every other action
    /// needs the block hash: the cards of a new game and of a hit come from
    /// it, those of a stand and of a double down from the identity of the
    /// player. An action that is refused leaves the state as it was.
    pub fn execute(&mut self, calldata: &Calldata) -> (res: Result<Outcome, ErrorKind>)
        ensures
            res == answer(step(old(self)@, calldata@)),
            final(self)@ == state_after(old(self)@, step(old(self)@, calldata@)),
    {
        match &calldata.action {
            BlackJackAction::CleanTick(_) => {
                self.clean();
                return Ok(Outcome::Cleaned);
            },
            _ => {},
        }
        let hash = match &calldata.block_hash {
            Some(hash) => hash,
            None => {
                return Err(ErrorKind::MissingContext);
            },
        };
        let user = &calldata.identity;
        match &calldata.action {
            BlackJackAction::Init(bet) => self.new_game(user, hash.as_slice(), *bet),
            BlackJackAction::Hit => self.hit(user, hash.as_slice()),
            BlackJackAction::Stand => self.stand(user),
            BlackJackAction::DoubleDown => self.double_down(user),
            BlackJackAction::Deposit(amount) => self.claim(
                *amount,
                user,
                &calldata.contract_name,
                &calldata.blobs,
            ),
            BlackJackAction::Withdraw(amount, token) => self.withdraw(
                *amount,
                user,
                token,
                &calldata.callees,
            ),
            BlackJackAction::CleanTick(_) => {
                self.clean();
                Ok(Outcome::Cleaned)
            },
        }
    }
}

} // verus!
