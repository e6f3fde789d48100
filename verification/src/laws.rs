//! What holds of the engine and of the overlay whatever the state and
//! whatever the actions: each statement here is proved from the rules of
//! `model` and from the definitions of `overlay`.

use crate::action::{reward_token, stake_token, ActionView, BlobView, CalldataView};
use crate::draw::seeded_deck;
use crate::model::{
    answer, balance, bank_joins_hit, bank_plays, cleanup, deposit, has_open_table, hit_outcome,
    opening_outcome, phase_after, settle, showdown, start_game, state_after, step, StateView,
    Step,
    BANK_CARDS, DOUBLE_DOWN_CARDS, HIT_CARDS, OPENING_CARDS,
};
use crate::overlay::{replay, EntryView};
use crate::score::score;
use crate::table::{ErrorKind, Outcome, TableState, TableView};
use vstd::prelude::*;

verus! {

/// A seed has one deck: the first cards of a longer draw are the cards of a
/// shorter one.
pub proof fn law_one_deck_per_seed(seed: Seq<u8>, shorter: nat, longer: nat)
    requires
        shorter <= longer,
    ensures
        seeded_deck(seed, shorter) == seeded_deck(seed, longer).take(shorter as int),
{
    assert(seeded_deck(seed, shorter) =~= seeded_deck(seed, longer).take(shorter as int));
}

/// Cleaning up twice gives what cleaning up once gives.
pub proof fn law_cleanup_is_idempotent(s: StateView)
    ensures
        cleanup(cleanup(s)) == cleanup(s),
{
    let once = cleanup(s);
    let twice = cleanup(once);
    assert(twice.tables =~= once.tables);
    assert(twice.oranj_balances =~= once.oranj_balances);
    assert(twice.vitamin_balances =~= once.vitamin_balances);
}

/// A clean-up is never refused, whatever comes with the call, and two
/// clean-ups in a row, whatever their numbers, leave the state that the
/// first one leaves.
pub proof fn law_second_cleanup_changes_nothing(
    s: StateView,
    first: CalldataView,
    second: CalldataView,
)
    requires
        first.action is CleanTick,
        second.action is CleanTick,
    ensures
        step(s, first) is Ok,
        step(state_after(s, step(s, first)), second) is Ok,
        state_after(state_after(s, step(s, first)), step(state_after(s, step(s, first)), second))
            == state_after(s, step(s, first)),
{
    law_cleanup_is_idempotent(s);
}

/// A clean-up has no precondition: whatever the state, whoever asks, with
/// or without a block hash, it is accepted, and it leaves exactly the tables
/// whose game is still open and the balances that are not 0.
pub proof fn law_cleanup_is_never_refused(s: StateView, call: CalldataView)
    requires
        call.action is CleanTick,
    ensures
        step(s, call) == Ok::<(StateView, Outcome), ErrorKind>((cleanup(s), Outcome::Cleaned)),
        forall|who: Seq<char>|
            state_after(s, step(s, call)).tables.contains_key(who) <==> has_open_table(s, who),
        forall|who: Seq<char>|
            has_open_table(s, who) ==> state_after(s, step(s, call)).tables[who] == s.tables[who],
        forall|who: Seq<char>|
            state_after(s, step(s, call)).oranj_balances.contains_key(who) <==> balance(
                s.oranj_balances,
                who,
            ) > 0,
        forall|who: Seq<char>|
            state_after(s, step(s, call)).vitamin_balances.contains_key(who) <==> balance(
                s.vitamin_balances,
                who,
            ) > 0,
{
}

/// Cleaning up touches no game that is still open and changes no balance:
/// an identity has an open table after it exactly where it had one before,
/// with the same cards and the same bet, and holds what it held.
pub proof fn law_cleanup_keeps_games_and_balances(s: StateView, who: Seq<char>)
    ensures
        has_open_table(cleanup(s), who) == has_open_table(s, who),
        has_open_table(s, who) ==> cleanup(s).tables[who] == s.tables[who],
        balance(cleanup(s).oranj_balances, who) == balance(s.oranj_balances, who),
        balance(cleanup(s).vitamin_balances, who) == balance(s.vitamin_balances, who),
        cleanup(s).rules == s.rules,
{
}

/// A game that is over is inert: as long as no new game is started, the
/// identity can neither take a card, nor stand, nor double down.
pub proof fn law_finished_game_is_inert(s: StateView, call: CalldataView)
    requires
        !has_open_table(s, call.identity),
        call.action is Hit || call.action is Stand || call.action is DoubleDown,
        call.block_hash is Some,
    ensures
        step(s, call) == Err::<(StateView, Outcome), ErrorKind>(ErrorKind::NoActiveGame),
        state_after(s, step(s, call)) == s,
{
}

/// A refused action leaves the state as it was.
pub proof fn law_refusal_changes_nothing(s: StateView, call: CalldataView)
    requires
        step(s, call) is Err,
    ensures
        state_after(s, step(s, call)) == s,
{
}

/// What an action takes out of a balance of the one who asks, and the
/// balance that it takes it from: the bet of a new game and the second half
/// of a doubled bet leave the wagering balance, a withdrawal leaves the
/// balance of its token. `None` for an action that takes nothing.
pub open spec fn debit(s: StateView, call: CalldataView) -> Option<(u32, u32)> {
    match call.action {
        ActionView::Init(bet) => Some((bet, balance(s.oranj_balances, call.identity))),
        ActionView::DoubleDown => if has_open_table(s, call.identity) {
            Some((s.tables[call.identity].bet, balance(s.oranj_balances, call.identity)))
        } else {
            None
        },
        ActionView::Withdraw(amount, token) => if token == stake_token() {
            Some((amount, balance(s.oranj_balances, call.identity)))
        } else if token == reward_token() {
            Some((amount, balance(s.vitamin_balances, call.identity)))
        } else {
            None
        },
        _ => None,
    }
}

/// The action passes every check that comes before the check of the
/// balance.
pub open spec fn admitted(s: StateView, call: CalldataView) -> bool {
    &&& call.block_hash is Some
    &&& match call.action {
        ActionView::Init(bet) => !has_open_table(s, call.identity) && bet >= s.rules.min_bet,
        ActionView::DoubleDown => has_open_table(s, call.identity),
        ActionView::Withdraw(_, token) => !has_open_table(s, call.identity) && (token
            == stake_token() || token == reward_token()),
        _ => true,
    }
}

/// No balance is overdrawn: an action that takes more than the balance
/// holds is refused, with `InsufficientFunds` where no earlier check refuses
/// it, and changes nothing; an action that is accepted takes no more than
/// the balance held.
pub proof fn law_no_overdraft(s: StateView, call: CalldataView)
    ensures
        debit(s, call) matches Some((amount, held)) ==> {
            &&& amount > held ==> step(s, call) is Err && state_after(s, step(s, call)) == s
            &&& amount > held && admitted(s, call) ==> step(s, call) == Err::<
                (StateView, Outcome),
                ErrorKind,
            >(ErrorKind::InsufficientFunds)
            &&& step(s, call) is Ok ==> amount <= held
        },
{
}

/// A new game deals alternately and takes the bet. For an identity without
/// an open game, a bet that reaches the smallest bet and that the balance
/// covers, and four cards: the first and the third card are the player's
/// hand, the second and the fourth the bank's, and the bet lies on the
/// table. Where neither hand scores 21 the game is open, the bet has left
/// the balance, and the reward balances are as they were.
pub proof fn law_new_game_deals_alternately(
    s: StateView,
    who: Seq<char>,
    bet: u32,
    deck: Seq<u32>,
)
    requires
        !has_open_table(s, who),
        bet >= s.rules.min_bet,
        balance(s.oranj_balances, who) >= bet,
        deck.len() >= OPENING_CARDS,
    ensures
        start_game(s, who, bet, deck) matches Ok((next, outcome)) ==> {
            &&& outcome == opening_outcome(seq![deck[0], deck[2]], seq![deck[1], deck[3]])
            &&& next.tables == s.tables.insert(who, next.tables[who])
            &&& next.tables[who].user == seq![deck[0], deck[2]]
            &&& next.tables[who].bank == seq![deck[1], deck[3]]
            &&& next.tables[who].bet == bet
            &&& next.tables[who].state == phase_after(outcome)
        },
        opening_outcome(seq![deck[0], deck[2]], seq![deck[1], deck[3]]) == Outcome::Ongoing ==> {
            &&& start_game(s, who, bet, deck) matches Ok((next, outcome))
            &&& outcome == Outcome::Ongoing
            &&& next.tables[who].state == TableState::Ongoing
            &&& next.oranj_balances == s.oranj_balances.insert(
                who,
                (balance(s.oranj_balances, who) - bet) as u32,
            )
            &&& next.vitamin_balances == s.vitamin_balances
        },
{
}

/// A bet that the balance does not cover is refused: for an identity without
/// an open game and a bet that reaches the smallest bet, a new game is
/// refused with `InsufficientFunds` whatever the cards, and nothing changes.
pub proof fn law_uncovered_bet_is_refused(s: StateView, who: Seq<char>, bet: u32, deck: Seq<u32>)
    requires
        !has_open_table(s, who),
        bet >= s.rules.min_bet,
        balance(s.oranj_balances, who) < bet,
    ensures
        start_game(s, who, bet, deck) == Err::<(StateView, Outcome), ErrorKind>(
            ErrorKind::InsufficientFunds,
        ),
        state_after(s, start_game(s, who, bet, deck)) == s,
{
}

/// One identity has one open game at most: once a new game was accepted and
/// is still open, the next request of the same identity for a new game is
/// refused with `GameInProgress`, and changes nothing.
pub proof fn law_one_open_game(s: StateView, first: CalldataView, second: CalldataView)
    requires
        first.action is Init,
        second.action is Init,
        second.identity == first.identity,
        second.block_hash is Some,
        step(s, first) matches Ok((_, outcome)) && outcome == Outcome::Ongoing,
    ensures
        step(state_after(s, step(s, first)), second) == Err::<(StateView, Outcome), ErrorKind>(
            ErrorKind::GameInProgress,
        ),
        state_after(
            state_after(s, step(s, first)),
            step(state_after(s, step(s, first)), second),
        ) == state_after(s, step(s, first)),
{
}

/// Two actions that do not touch each other: they are asked by different
/// identities, and neither is a clean-up.
pub open spec fn independent(a: CalldataView, b: CalldataView) -> bool {
    a.identity != b.identity && !(a.action is CleanTick) && !(b.action is CleanTick)
}

/// The states `s` and `t` hold the same for `who`: the same table, or none,
/// and the same entry in each balance, or none; and they have the same rules.
pub open spec fn agree_at(s: StateView, t: StateView, who: Seq<char>) -> bool {
    &&& s.rules == t.rules
    &&& s.tables.contains_key(who) == t.tables.contains_key(who)
    &&& s.tables.contains_key(who) ==> s.tables[who] == t.tables[who]
    &&& s.oranj_balances.contains_key(who) == t.oranj_balances.contains_key(who)
    &&& s.oranj_balances.contains_key(who) ==> s.oranj_balances[who] == t.oranj_balances[who]
    &&& s.vitamin_balances.contains_key(who) == t.vitamin_balances.contains_key(who)
    &&& s.vitamin_balances.contains_key(who) ==> s.vitamin_balances[who]
        == t.vitamin_balances[who]
}

/// The step `on_s` of `who` on `s` and the step `on_t` of `who` on `t` touch
/// only what the states hold for `who`: every other identity is left as it
/// was, both steps give the same answer, and they leave the same for `who`.
pub open spec fn acts_locally(
    s: StateView,
    t: StateView,
    who: Seq<char>,
    on_s: Step,
    on_t: Step,
) -> bool {
    &&& forall|other: Seq<char>|
        other != who ==> #[trigger] agree_at(s, state_after(s, on_s), other)
    &&& answer(on_s) == answer(on_t)
    &&& agree_at(state_after(s, on_s), state_after(t, on_t), who)
}

/// Closing a table and paying it out touches only the one who played.
proof fn lemma_settle_is_local(
    s: StateView,
    t: StateView,
    who: Seq<char>,
    table: TableView,
    outcome: Outcome,
)
    requires
        agree_at(s, t, who),
    ensures
        acts_locally(s, t, who, settle(s, who, table, outcome), settle(t, who, table, outcome)),
{
}

/// Starting a game touches only the one who starts it.
proof fn lemma_start_game_is_local(
    s: StateView,
    t: StateView,
    who: Seq<char>,
    bet: u32,
    deck: Seq<u32>,
)
    requires
        agree_at(s, t, who),
    ensures
        acts_locally(s, t, who, start_game(s, who, bet, deck), start_game(t, who, bet, deck)),
{
    if start_game(s, who, bet, deck) is Ok || start_game(t, who, bet, deck) is Ok {
        let table = TableView {
            bank: seq![deck[1], deck[3]],
            user: seq![deck[0], deck[2]],
            bet,
            state: TableState::Ongoing,
            bank_draws_on_hit: s.rules.bank_draws_on_hit,
        };
        let staked_s = StateView {
            oranj_balances: s.oranj_balances.insert(
                who,
                (balance(s.oranj_balances, who) - bet) as u32,
            ),
            ..s
        };
        let staked_t = StateView {
            oranj_balances: t.oranj_balances.insert(
                who,
                (balance(t.oranj_balances, who) - bet) as u32,
            ),
            ..t
        };
        let outcome = opening_outcome(table.user, table.bank);
        lemma_settle_is_local(staked_s, staked_t, who, table, outcome);
        let on_s = settle(staked_s, who, table, outcome);
        assert forall|other: Seq<char>| other != who implies #[trigger] agree_at(
            s,
            state_after(s, start_game(s, who, bet, deck)),
            other,
        ) by {
            assert(agree_at(staked_s, state_after(staked_s, on_s), other));
        }
    }
}

/// Taking a card touches only the one who takes it.
proof fn lemma_hit_is_local(s: StateView, t: StateView, who: Seq<char>, deck: Seq<u32>)
    requires
        agree_at(s, t, who),
    ensures
        acts_locally(
            s,
            t,
            who,
            crate::model::hit(s, who, deck),
            crate::model::hit(t, who, deck),
        ),
{
    if has_open_table(s, who) {
        let table = s.tables[who];
        if !(deck.len() < 1 || (bank_joins_hit(table) && deck.len() < HIT_CARDS)) {
            let user = table.user.push(deck[0]);
            let bank = if bank_joins_hit(table) {
                table.bank.push(deck[1])
            } else {
                table.bank
            };
            lemma_settle_is_local(
                s,
                t,
                who,
                TableView { user, bank, ..table },
                hit_outcome(user, bank),
            );
        }
    }
}

/// Standing touches only the one who stands.
proof fn lemma_stand_is_local(s: StateView, t: StateView, who: Seq<char>, deck: Seq<u32>)
    requires
        agree_at(s, t, who),
    ensures
        acts_locally(
            s,
            t,
            who,
            crate::model::stand(s, who, deck),
            crate::model::stand(t, who, deck),
        ),
{
    if has_open_table(s, who) {
        let table = s.tables[who];
        match bank_plays(table.bank, deck) {
            None => {},
            Some(bank) => {
                lemma_settle_is_local(
                    s,
                    t,
                    who,
                    TableView { bank, ..table },
                    showdown(table.user, bank),
                );
            },
        }
    }
}

/// Doubling down touches only the one who doubles.
proof fn lemma_double_down_is_local(s: StateView, t: StateView, who: Seq<char>, deck: Seq<u32>)
    requires
        agree_at(s, t, who),
    ensures
        acts_locally(
            s,
            t,
            who,
            crate::model::double_down(s, who, deck),
            crate::model::double_down(t, who, deck),
        ),
{
    let on_s = crate::model::double_down(s, who, deck);
    if on_s is Ok || crate::model::double_down(t, who, deck) is Ok {
        let table = s.tables[who];
        let staked_s = StateView {
            oranj_balances: if s.oranj_balances.contains_key(who) {
                s.oranj_balances.insert(who, (s.oranj_balances[who] - table.bet) as u32)
            } else {
                s.oranj_balances
            },
            ..s
        };
        let staked_t = StateView {
            oranj_balances: if t.oranj_balances.contains_key(who) {
                t.oranj_balances.insert(who, (t.oranj_balances[who] - table.bet) as u32)
            } else {
                t.oranj_balances
            },
            ..t
        };
        let user = table.user.push(deck[0]);
        let doubled = TableView { user, bet: (2 * table.bet) as u32, ..table };
        let closed = if score(user) > 21 {
            doubled
        } else {
            TableView { bank: bank_plays(table.bank, deck.drop_first())->0, ..doubled }
        };
        let outcome = if score(user) > 21 {
            Outcome::Bust
        } else {
            showdown(user, closed.bank)
        };
        lemma_settle_is_local(staked_s, staked_t, who, closed, outcome);
        let settled = settle(staked_s, who, closed, outcome);
        assert(on_s == settled);
        assert forall|other: Seq<char>| other != who implies #[trigger] agree_at(
            s,
            state_after(s, on_s),
            other,
        ) by {
            assert(agree_at(staked_s, state_after(staked_s, settled), other));
        }
    }
}

/// A deposit touches only the one who deposits.
proof fn lemma_deposit_is_local(
    s: StateView,
    t: StateView,
    who: Seq<char>,
    amount: u32,
    house: Seq<char>,
    blobs: Seq<BlobView>,
)
    requires
        agree_at(s, t, who),
    ensures
        acts_locally(
            s,
            t,
            who,
            deposit(s, who, amount, house, blobs),
            deposit(t, who, amount, house, blobs),
        ),
{
}

/// A withdrawal touches only the one who withdraws.
proof fn lemma_withdraw_is_local(
    s: StateView,
    t: StateView,
    who: Seq<char>,
    amount: u32,
    token: Seq<char>,
    callees: Seq<BlobView>,
)
    requires
        agree_at(s, t, who),
    ensures
        acts_locally(
            s,
            t,
            who,
            crate::model::withdraw(s, who, amount, token, callees),
            crate::model::withdraw(t, who, amount, token, callees),
        ),
{
}

/// An action other than a clean-up reads and writes only what the state
/// holds for the one who asks: it leaves every other identity as it was, and
/// on two states that hold the same for the one who asks it gives the same
/// answer and leaves the same for that identity.
pub proof fn law_action_is_local(s: StateView, t: StateView, call: CalldataView)
    requires
        !(call.action is CleanTick),
        agree_at(s, t, call.identity),
    ensures
        acts_locally(s, t, call.identity, step(s, call), step(t, call)),
{
    let who = call.identity;
    match call.block_hash {
        None => {},
        Some(hash) => match call.action {
            ActionView::Init(bet) => {
                lemma_start_game_is_local(s, t, who, bet, seeded_deck(hash, OPENING_CARDS as nat));
            },
            ActionView::Hit => {
                lemma_hit_is_local(s, t, who, seeded_deck(hash, HIT_CARDS as nat));
            },
            ActionView::Stand => {
                lemma_stand_is_local(
                    s,
                    t,
                    who,
                    seeded_deck(vstd::utf8::encode_utf8(who), BANK_CARDS as nat),
                );
            },
            ActionView::DoubleDown => {
                lemma_double_down_is_local(
                    s,
                    t,
                    who,
                    seeded_deck(vstd::utf8::encode_utf8(who), DOUBLE_DOWN_CARDS as nat),
                );
            },
            ActionView::Deposit(amount) => {
                lemma_deposit_is_local(s, t, who, amount, call.contract_name, call.blobs);
            },
            ActionView::Withdraw(amount, token) => {
                lemma_withdraw_is_local(s, t, who, amount, token, call.callees);
            },
            ActionView::CleanTick(_) => {},
        },
    }
}

/// Two independent actions give the same state in either order.
pub proof fn law_independent_actions_commute(s: StateView, a: CalldataView, b: CalldataView)
    requires
        independent(a, b),
    ensures
        state_after(state_after(s, step(s, a)), step(state_after(s, step(s, a)), b))
            == state_after(state_after(s, step(s, b)), step(state_after(s, step(s, b)), a)),
{
    let sa = state_after(s, step(s, a));
    let sb = state_after(s, step(s, b));
    let sab = state_after(sa, step(sa, b));
    let sba = state_after(sb, step(sb, a));
    law_action_is_local(s, s, a);
    law_action_is_local(s, s, b);
    assert(agree_at(s, sa, b.identity));
    assert(agree_at(s, sb, a.identity));
    law_action_is_local(s, sb, a);
    law_action_is_local(s, sa, b);
    law_action_is_local(sa, sa, b);
    law_action_is_local(sb, sb, a);
    assert forall|who: Seq<char>| agree_at(sab, sba, who) by {
        if who == a.identity {
            assert(agree_at(sa, sab, who));
            assert(agree_at(sa, sba, who));
        } else if who == b.identity {
            assert(agree_at(sb, sba, who));
            assert(agree_at(sb, sab, who));
        } else {
            assert(agree_at(s, sa, who));
            assert(agree_at(sa, sab, who));
            assert(agree_at(s, sb, who));
            assert(agree_at(sb, sba, who));
        }
    }
    lemma_agreeing_states_are_equal(sab, sba);
}

/// Two states that hold the same for every identity are the same state.
proof fn lemma_agreeing_states_are_equal(s: StateView, t: StateView)
    requires
        forall|who: Seq<char>| agree_at(s, t, who),
    ensures
        s == t,
{
    assert(agree_at(s, t, Seq::empty()));
    assert(s.tables =~= t.tables) by {
        assert forall|who: Seq<char>| #[trigger]
            s.tables.dom().contains(who) == t.tables.dom().contains(who) by {
            assert(agree_at(s, t, who));
        }
        assert forall|who: Seq<char>| #[trigger] s.tables.dom().contains(who) implies s.tables[who]
            == t.tables[who] by {
            assert(agree_at(s, t, who));
        }
    }
    assert(s.oranj_balances =~= t.oranj_balances) by {
        assert forall|who: Seq<char>| #[trigger]
            s.oranj_balances.dom().contains(who) == t.oranj_balances.dom().contains(who) by {
            assert(agree_at(s, t, who));
        }
        assert forall|who: Seq<char>| #[trigger]
            s.oranj_balances.dom().contains(who) implies s.oranj_balances[who]
            == t.oranj_balances[who] by {
            assert(agree_at(s, t, who));
        }
    }
    assert(s.vitamin_balances =~= t.vitamin_balances) by {
        assert forall|who: Seq<char>| #[trigger]
            s.vitamin_balances.dom().contains(who) == t.vitamin_balances.dom().contains(who) by {
            assert(agree_at(s, t, who));
        }
        assert forall|who: Seq<char>| #[trigger]
            s.vitamin_balances.dom().contains(who) implies s.vitamin_balances[who]
            == t.vitamin_balances[who] by {
            assert(agree_at(s, t, who));
        }
    }
}

/// Replaying a log with one more action at its end is replaying the log and
/// then running that action.
pub proof fn law_replay_push(s: StateView, log: Seq<EntryView>, entry: EntryView)
    ensures
        replay(s, log.push(entry)) == state_after(
            replay(s, log),
            step(replay(s, log), entry.calldata),
        ),
    decreases log.len(),
{
    let longer = log.push(entry);
    if log.len() == 0 {
        assert(longer.first() == entry);
        assert(longer.drop_first() =~= Seq::<EntryView>::empty());
        let next = state_after(s, step(s, entry.calldata));
        assert(replay(next, longer.drop_first()) == next);
    } else {
        let next = state_after(s, step(s, log.first().calldata));
        assert(longer.first() == log.first());
        assert(longer.drop_first() =~= log.drop_first().push(entry));
        law_replay_push(next, log.drop_first(), entry);
    }
}

} // verus!
