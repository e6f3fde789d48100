use blackjack::action::{BlackJackAction, Blob, Calldata, Transfer};
use blackjack::draw::draw_cards;
use blackjack::engine::BlackJack;
use blackjack::table::{ErrorKind, Outcome, Rules, Table, TableState};

fn alice() -> String {
    "alice".to_string()
}

fn funded(user: &String, oranj: u32) -> BlackJack {
    let mut state = BlackJack::default();
    state.oranj_balances.insert(user, oranj);
    state
}

fn oranj(state: &BlackJack, user: &String) -> Option<u32> {
    state.oranj_balances.get(user).copied()
}

fn vitamin(state: &BlackJack, user: &String) -> Option<u32> {
    state.vitamin_balances.get(user).copied()
}

fn table(state: &BlackJack, user: &String) -> Table {
    state.tables.get(user).expect("a table").clone()
}

fn snapshot(state: &BlackJack) -> (Vec<(String, Vec<u32>, Vec<u32>, u32, TableState, bool)>, Vec<(String, u32)>, Vec<(String, u32)>, Rules) {
    let mut tables = Vec::new();
    for at in 0..state.tables.len() {
        let entry = state.tables.entry(at);
        let t = &entry.value;
        tables.push((entry.key.clone(), t.bank.clone(), t.user.clone(), t.bet, t.state, t.bank_draws_on_hit));
    }
    tables.sort_by(|a, b| a.0.cmp(&b.0));
    let mut oranj = Vec::new();
    for at in 0..state.oranj_balances.len() {
        let entry = state.oranj_balances.entry(at);
        oranj.push((entry.key.clone(), entry.value));
    }
    oranj.sort();
    let mut vitamin = Vec::new();
    for at in 0..state.vitamin_balances.len() {
        let entry = state.vitamin_balances.entry(at);
        vitamin.push((entry.key.clone(), entry.value));
    }
    vitamin.sort();
    (tables, oranj, vitamin, state.rules)
}

fn deposit_blobs(user: &String, amount: u128) -> Vec<Blob> {
    vec![
        Blob { contract_name: "wallet".to_string(), transfer: None },
        Blob {
            contract_name: "oranj".to_string(),
            transfer: Some(Transfer {
                sender: user.clone(),
                recipient: "blackjack".to_string(),
                amount,
            }),
        },
    ]
}

fn payout(token: &str, user: &String, amount: u128) -> Blob {
    Blob {
        contract_name: token.to_string(),
        transfer: Some(Transfer {
            sender: "blackjack".to_string(),
            recipient: user.clone(),
            amount,
        }),
    }
}

fn call(user: &String, action: BlackJackAction, hash: Option<&[u8]>) -> Calldata {
    Calldata {
        identity: user.clone(),
        action,
        contract_name: "blackjack".to_string(),
        blobs: vec![],
        callees: vec![],
        block_hash: hash.map(|h| h.to_vec()),
    }
}

#[test]
fn a_new_game_deals_two_cards_each_and_takes_the_bet() {
    let user = alice();
    let mut state = funded(&user, 100);
    let res = state.new_game_with_cards(&user, 10, &[5, 6, 7, 8]);
    assert_eq!(res, Ok(Outcome::Ongoing));
    let t = table(&state, &user);
    assert_eq!(t.user, vec![5, 7]);
    assert_eq!(t.bank, vec![6, 8]);
    assert_eq!(BlackJack::compute_score(&t.user), 12);
    assert_eq!(BlackJack::compute_score(&t.bank), 14);
    assert_eq!(t.bet, 10);
    assert_eq!(t.state, TableState::Ongoing);
    assert_eq!(oranj(&state, &user), Some(90));
    assert_eq!(vitamin(&state, &user), None);
}

#[test]
fn a_new_game_takes_its_cards_from_the_seed() {
    let user = alice();
    let mut seeded = funded(&user, 100);
    let mut dealt = funded(&user, 100);
    let cards = draw_cards(b"block", 4);
    let a = seeded.new_game(&user, b"block", 10);
    let b = dealt.new_game_with_cards(&user, 10, &cards);
    assert_eq!(a, b);
    assert_eq!(snapshot(&seeded), snapshot(&dealt));
    let t = table(&seeded, &user);
    assert_eq!(t.user, vec![cards[0], cards[2]]);
    assert_eq!(t.bank, vec![cards[1], cards[3]]);
}

#[test]
fn the_same_seed_gives_the_same_game() {
    let user = alice();
    let mut first = funded(&user, 100);
    let mut second = funded(&user, 100);
    assert_eq!(first.new_game(&user, b"h1", 10), second.new_game(&user, b"h1", 10));
    assert_eq!(first.hit(&user, b"h2"), second.hit(&user, b"h2"));
    assert_eq!(first.stand(&user), second.stand(&user));
    assert_eq!(snapshot(&first), snapshot(&second));
}

#[test]
fn a_player_with_twenty_one_wins_at_once() {
    let user = alice();
    let mut state = funded(&user, 100);
    let res = state.new_game_with_cards(&user, 10, &[1, 5, 10, 6]);
    assert_eq!(res, Ok(Outcome::Blackjack));
    assert_eq!(table(&state, &user).state, TableState::Won);
    assert_eq!(oranj(&state, &user), Some(100));
    assert_eq!(vitamin(&state, &user), Some(10));
}

#[test]
fn a_bank_with_twenty_one_wins_at_once() {
    let user = alice();
    let mut state = funded(&user, 100);
    let res = state.new_game_with_cards(&user, 10, &[5, 1, 6, 10]);
    assert_eq!(res, Ok(Outcome::BankBlackjack));
    assert_eq!(table(&state, &user).state, TableState::Lost);
    assert_eq!(oranj(&state, &user), Some(90));
    assert_eq!(vitamin(&state, &user), None);
}

#[test]
fn a_second_game_is_refused_while_one_is_open() {
    let user = alice();
    let mut state = funded(&user, 100);
    assert_eq!(state.new_game_with_cards(&user, 10, &[5, 6, 7, 8]), Ok(Outcome::Ongoing));
    let before = snapshot(&state);
    assert_eq!(state.new_game_with_cards(&user, 10, &[2, 3, 4, 5]), Err(ErrorKind::GameInProgress));
    assert_eq!(state.new_game(&user, b"hash", 20), Err(ErrorKind::GameInProgress));
    assert_eq!(snapshot(&state), before);
}

#[test]
fn a_new_game_is_allowed_once_the_last_is_over() {
    let user = alice();
    let mut state = funded(&user, 100);
    assert_eq!(state.new_game_with_cards(&user, 10, &[5, 1, 6, 10]), Ok(Outcome::BankBlackjack));
    assert_eq!(state.new_game_with_cards(&user, 20, &[5, 6, 7, 8]), Ok(Outcome::Ongoing));
    assert_eq!(oranj(&state, &user), Some(70));
    assert_eq!(table(&state, &user).bet, 20);
}

#[test]
fn a_bet_below_the_smallest_is_refused() {
    let user = alice();
    let mut state = funded(&user, 100);
    let before = snapshot(&state);
    assert_eq!(state.new_game_with_cards(&user, 9, &[5, 6, 7, 8]), Err(ErrorKind::BetTooLow));
    assert_eq!(snapshot(&state), before);
    assert_eq!(state.new_game_with_cards(&user, 10, &[5, 6, 7, 8]), Ok(Outcome::Ongoing));
}

#[test]
fn the_smallest_bet_is_the_rules() {
    let user = alice();
    let mut state = BlackJack::with_rules(Rules { min_bet: 50, bank_draws_on_hit: false, reward_on_push: false });
    state.oranj_balances.insert(&user, 100);
    assert_eq!(state.new_game_with_cards(&user, 49, &[5, 6, 7, 8]), Err(ErrorKind::BetTooLow));
    assert_eq!(state.new_game_with_cards(&user, 50, &[5, 6, 7, 8]), Ok(Outcome::Ongoing));
    assert_eq!(oranj(&state, &user), Some(50));
}

#[test]
fn a_bet_above_the_balance_is_refused() {
    let user = alice();
    let mut state = funded(&user, 15);
    let before = snapshot(&state);
    assert_eq!(state.new_game_with_cards(&user, 16, &[5, 6, 7, 8]), Err(ErrorKind::InsufficientFunds));
    assert_eq!(snapshot(&state), before);
    let mut empty = BlackJack::default();
    assert_eq!(empty.new_game(&user, b"hash", 10), Err(ErrorKind::InsufficientFunds));
    assert_eq!(oranj(&empty, &user), None);
}

#[test]
fn the_whole_balance_can_be_bet() {
    let user = alice();
    let mut state = funded(&user, 15);
    assert_eq!(state.new_game_with_cards(&user, 15, &[5, 6, 7, 8]), Ok(Outcome::Ongoing));
    assert_eq!(oranj(&state, &user), Some(0));
}

#[test]
fn a_new_game_needs_four_cards() {
    let user = alice();
    let mut state = funded(&user, 100);
    let before = snapshot(&state);
    assert_eq!(state.new_game_with_cards(&user, 10, &[5, 6, 7]), Err(ErrorKind::MissingContext));
    assert_eq!(snapshot(&state), before);
}

#[test]
fn a_reward_that_does_not_fit_refuses_the_game() {
    let user = alice();
    let mut state = funded(&user, 100);
    state.vitamin_balances.insert(&user, u32::MAX - 5);
    let before = snapshot(&state);
    assert_eq!(state.new_game_with_cards(&user, 10, &[1, 5, 10, 6]), Err(ErrorKind::BalanceOverflow));
    assert_eq!(snapshot(&state), before);
}

#[test]
fn hit_needs_an_open_game() {
    let user = alice();
    let mut state = funded(&user, 100);
    assert_eq!(state.hit_with_cards(&user, &[2, 3]), Err(ErrorKind::NoActiveGame));
    assert_eq!(state.hit(&user, b"hash"), Err(ErrorKind::NoActiveGame));
    assert_eq!(state.new_game_with_cards(&user, 10, &[5, 1, 6, 10]), Ok(Outcome::BankBlackjack));
    let before = snapshot(&state);
    assert_eq!(state.hit_with_cards(&user, &[2, 3]), Err(ErrorKind::NoActiveGame));
    assert_eq!(snapshot(&state), before);
}

#[test]
fn hit_gives_the_player_one_card() {
    let user = alice();
    let mut state = funded(&user, 100);
    state.new_game_with_cards(&user, 10, &[5, 6, 7, 8]).unwrap();
    assert_eq!(state.hit_with_cards(&user, &[2, 9]), Ok(Outcome::Ongoing));
    let t = table(&state, &user);
    assert_eq!(t.user, vec![5, 7, 2]);
    assert_eq!(t.bank, vec![6, 8]);
    assert_eq!(t.state, TableState::Ongoing);
    assert_eq!(oranj(&state, &user), Some(90));
}

#[test]
fn hit_to_twenty_one_wins() {
    let user = alice();
    let mut state = funded(&user, 100);
    state.new_game_with_cards(&user, 10, &[5, 6, 7, 8]).unwrap();
    assert_eq!(state.hit_with_cards(&user, &[9]), Ok(Outcome::Blackjack));
    assert_eq!(table(&state, &user).state, TableState::Won);
    assert_eq!(oranj(&state, &user), Some(100));
    assert_eq!(vitamin(&state, &user), Some(10));
}

#[test]
fn hit_over_twenty_one_loses() {
    let user = alice();
    let mut state = funded(&user, 100);
    state.new_game_with_cards(&user, 10, &[5, 6, 7, 8]).unwrap();
    assert_eq!(state.hit_with_cards(&user, &[10]), Ok(Outcome::Bust));
    let t = table(&state, &user);
    assert_eq!(t.user, vec![5, 7, 10]);
    assert_eq!(t.state, TableState::Lost);
    assert_eq!(oranj(&state, &user), Some(90));
    assert_eq!(vitamin(&state, &user), None);
}

#[test]
fn hit_needs_a_card() {
    let user = alice();
    let mut state = funded(&user, 100);
    state.new_game_with_cards(&user, 10, &[5, 6, 7, 8]).unwrap();
    let before = snapshot(&state);
    assert_eq!(state.hit_with_cards(&user, &[]), Err(ErrorKind::MissingContext));
    assert_eq!(snapshot(&state), before);
}

#[test]
fn hit_takes_its_card_from_the_seed() {
    let user = alice();
    let mut seeded = funded(&user, 100);
    seeded.new_game_with_cards(&user, 10, &[2, 6, 3, 8]).unwrap();
    let mut dealt = seeded.clone();
    let cards = draw_cards(b"next block", 2);
    assert_eq!(seeded.hit(&user, b"next block"), dealt.hit_with_cards(&user, &cards));
    assert_eq!(snapshot(&seeded), snapshot(&dealt));
    assert_eq!(table(&seeded, &user).user, vec![2, 3, cards[0]]);
    assert_eq!(table(&seeded, &user).bank, vec![6, 8]);
}

fn bank_joins() -> Rules {
    Rules { min_bet: 10, bank_draws_on_hit: true, reward_on_push: false }
}

#[test]
fn the_bank_draws_with_the_player_where_the_rules_say_so() {
    let user = alice();
    let mut state = BlackJack::with_rules(bank_joins());
    state.oranj_balances.insert(&user, 100);
    state.new_game_with_cards(&user, 10, &[5, 6, 7, 8]).unwrap();
    assert!(table(&state, &user).bank_draws_on_hit);
    assert_eq!(state.hit_with_cards(&user, &[2, 3]), Ok(Outcome::Ongoing));
    let t = table(&state, &user);
    assert_eq!(t.user, vec![5, 7, 2]);
    assert_eq!(t.bank, vec![6, 8, 3]);
    assert_eq!(state.hit_with_cards(&user, &[2, 3]), Ok(Outcome::Ongoing));
    let t = table(&state, &user);
    assert_eq!(t.user, vec![5, 7, 2, 2]);
    assert_eq!(t.bank, vec![6, 8, 3]);
}

#[test]
fn a_bank_that_draws_to_twenty_one_wins() {
    let user = alice();
    let mut state = BlackJack::with_rules(bank_joins());
    state.oranj_balances.insert(&user, 100);
    state.new_game_with_cards(&user, 10, &[5, 6, 7, 8]).unwrap();
    assert_eq!(state.hit_with_cards(&user, &[2, 7]), Ok(Outcome::BankBlackjack));
    assert_eq!(table(&state, &user).state, TableState::Lost);
    assert_eq!(oranj(&state, &user), Some(90));
}

#[test]
fn a_bank_that_draws_over_twenty_one_loses() {
    let user = alice();
    let mut state = BlackJack::with_rules(bank_joins());
    state.oranj_balances.insert(&user, 100);
    state.new_game_with_cards(&user, 10, &[5, 6, 7, 8]).unwrap();
    assert_eq!(state.hit_with_cards(&user, &[2, 10]), Ok(Outcome::BankBust));
    assert_eq!(table(&state, &user).state, TableState::Won);
    assert_eq!(oranj(&state, &user), Some(100));
    assert_eq!(vitamin(&state, &user), Some(10));
}

#[test]
fn a_bank_that_joins_needs_its_card() {
    let user = alice();
    let mut state = BlackJack::with_rules(bank_joins());
    state.oranj_balances.insert(&user, 100);
    state.new_game_with_cards(&user, 10, &[5, 6, 7, 8]).unwrap();
    let before = snapshot(&state);
    assert_eq!(state.hit_with_cards(&user, &[2]), Err(ErrorKind::MissingContext));
    assert_eq!(snapshot(&state), before);
}

#[test]
fn the_way_the_bank_draws_is_fixed_when_the_game_starts() {
    let user = alice();
    let mut state = funded(&user, 100);
    state.new_game_with_cards(&user, 10, &[5, 6, 7, 8]).unwrap();
    state.rules = bank_joins();
    assert_eq!(state.hit_with_cards(&user, &[2, 3]), Ok(Outcome::Ongoing));
    assert_eq!(table(&state, &user).bank, vec![6, 8]);
}

#[test]
fn stand_needs_an_open_game() {
    let user = alice();
    let mut state = funded(&user, 100);
    assert_eq!(state.stand(&user), Err(ErrorKind::NoActiveGame));
    assert_eq!(state.stand_with_cards(&user, &[5, 5, 5]), Err(ErrorKind::NoActiveGame));
}

#[test]
fn stand_lets_the_bank_draw_until_it_is_above_sixteen() {
    let user = alice();
    let mut state = funded(&user, 100);
    state.new_game_with_cards(&user, 10, &[5, 2, 7, 3]).unwrap();
    assert_eq!(state.stand_with_cards(&user, &[4, 5, 3, 9, 9]), Ok(Outcome::Loss));
    let t = table(&state, &user);
    assert_eq!(t.bank, vec![2, 3, 4, 5, 3]);
    assert_eq!(BlackJack::compute_score(&t.bank), 17);
    assert_eq!(t.state, TableState::Lost);
    assert_eq!(oranj(&state, &user), Some(90));
    assert_eq!(vitamin(&state, &user), None);
}

#[test]
fn a_bank_that_busts_pays() {
    let user = alice();
    let mut state = funded(&user, 100);
    state.new_game_with_cards(&user, 10, &[5, 6, 7, 8]).unwrap();
    assert_eq!(state.stand_with_cards(&user, &[10]), Ok(Outcome::BankBust));
    assert_eq!(table(&state, &user).bank, vec![6, 8, 10]);
    assert_eq!(table(&state, &user).state, TableState::Won);
    assert_eq!(oranj(&state, &user), Some(100));
    assert_eq!(vitamin(&state, &user), Some(10));
}

#[test]
fn a_tie_gives_the_bet_back_and_no_more() {
    let user = alice();
    let mut state = funded(&user, 100);
    state.new_game_with_cards(&user, 10, &[10, 6, 7, 8]).unwrap();
    assert_eq!(state.stand_with_cards(&user, &[3]), Ok(Outcome::Push));
    assert_eq!(table(&state, &user).state, TableState::Won);
    assert_eq!(oranj(&state, &user), Some(100));
    assert_eq!(vitamin(&state, &user), None);
}

#[test]
fn a_tie_earns_the_reward_where_the_rules_say_so() {
    let user = alice();
    let mut state = BlackJack::with_rules(Rules { min_bet: 10, bank_draws_on_hit: false, reward_on_push: true });
    state.oranj_balances.insert(&user, 100);
    state.new_game_with_cards(&user, 10, &[10, 6, 7, 8]).unwrap();
    assert_eq!(state.stand_with_cards(&user, &[3]), Ok(Outcome::Push));
    assert_eq!(oranj(&state, &user), Some(100));
    assert_eq!(vitamin(&state, &user), Some(10));
}

#[test]
fn the_higher_score_wins() {
    let user = alice();
    let mut state = funded(&user, 100);
    state.new_game_with_cards(&user, 10, &[10, 6, 9, 8]).unwrap();
    assert_eq!(state.stand_with_cards(&user, &[3]), Ok(Outcome::Win));
    assert_eq!(table(&state, &user).state, TableState::Won);
    assert_eq!(oranj(&state, &user), Some(100));
    assert_eq!(vitamin(&state, &user), Some(10));
}

#[test]
fn a_bank_that_stands_already_draws_nothing() {
    let user = alice();
    let mut state = funded(&user, 100);
    state.new_game_with_cards(&user, 10, &[10, 10, 9, 8]).unwrap();
    assert_eq!(state.stand_with_cards(&user, &[]), Ok(Outcome::Win));
    assert_eq!(table(&state, &user).bank, vec![10, 8]);
}

#[test]
fn a_bank_that_runs_out_of_cards_refuses_the_stand() {
    let user = alice();
    let mut state = funded(&user, 100);
    state.new_game_with_cards(&user, 10, &[5, 2, 7, 3]).unwrap();
    let before = snapshot(&state);
    assert_eq!(state.stand_with_cards(&user, &[4, 5]), Err(ErrorKind::MissingContext));
    assert_eq!(snapshot(&state), before);
}

#[test]
fn stand_draws_from_the_identity() {
    let user = alice();
    let mut seeded = funded(&user, 100);
    seeded.new_game_with_cards(&user, 10, &[10, 2, 9, 3]).unwrap();
    let mut dealt = seeded.clone();
    let cards = draw_cards(user.as_bytes(), 17);
    let a = seeded.stand(&user);
    assert!(a.is_ok());
    assert_eq!(a, dealt.stand_with_cards(&user, &cards));
    assert_eq!(snapshot(&seeded), snapshot(&dealt));
    let t = table(&seeded, &user);
    assert!(BlackJack::compute_score(&t.bank) > 16);
    assert_eq!(&t.bank[..2], &[2, 3]);
    assert_eq!(&t.bank[2..], &cards[..t.bank.len() - 2]);
    assert_ne!(t.state, TableState::Ongoing);
}

#[test]
fn double_down_doubles_the_bet_and_ends_the_game() {
    let user = alice();
    let mut state = funded(&user, 100);
    state.new_game_with_cards(&user, 10, &[5, 6, 7, 8]).unwrap();
    assert_eq!(state.double_down_with_cards(&user, &[9, 10]), Ok(Outcome::BankBust));
    let t = table(&state, &user);
    assert_eq!(t.user, vec![5, 7, 9]);
    assert_eq!(t.bank, vec![6, 8, 10]);
    assert_eq!(t.bet, 20);
    assert_eq!(t.state, TableState::Won);
    assert_eq!(oranj(&state, &user), Some(100));
    assert_eq!(vitamin(&state, &user), Some(20));
}

#[test]
fn double_down_that_busts_loses_the_doubled_bet() {
    let user = alice();
    let mut state = funded(&user, 100);
    state.new_game_with_cards(&user, 10, &[5, 6, 7, 8]).unwrap();
    assert_eq!(state.double_down_with_cards(&user, &[10, 3]), Ok(Outcome::Bust));
    let t = table(&state, &user);
    assert_eq!(t.user, vec![5, 7, 10]);
    assert_eq!(t.bank, vec![6, 8]);
    assert_eq!(t.bet, 20);
    assert_eq!(t.state, TableState::Lost);
    assert_eq!(oranj(&state, &user), Some(80));
    assert_eq!(vitamin(&state, &user), None);
}

#[test]
fn double_down_that_loses_keeps_the_doubled_bet() {
    let user = alice();
    let mut state = funded(&user, 100);
    state.new_game_with_cards(&user, 10, &[5, 6, 7, 8]).unwrap();
    assert_eq!(state.double_down_with_cards(&user, &[2, 5]), Ok(Outcome::Loss));
    assert_eq!(table(&state, &user).bank, vec![6, 8, 5]);
    assert_eq!(oranj(&state, &user), Some(80));
}

#[test]
fn double_down_that_ties_gives_the_doubled_bet_back() {
    let user = alice();
    let mut state = funded(&user, 100);
    state.new_game_with_cards(&user, 10, &[5, 6, 7, 8]).unwrap();
    assert_eq!(state.double_down_with_cards(&user, &[9, 7]), Ok(Outcome::Push));
    assert_eq!(table(&state, &user).state, TableState::Won);
    assert_eq!(oranj(&state, &user), Some(100));
    assert_eq!(vitamin(&state, &user), None);
}

#[test]
fn double_down_needs_the_second_half_of_the_bet() {
    let user = alice();
    let mut state = funded(&user, 15);
    state.new_game_with_cards(&user, 10, &[5, 6, 7, 8]).unwrap();
    let before = snapshot(&state);
    assert_eq!(state.double_down_with_cards(&user, &[2, 5]), Err(ErrorKind::InsufficientFunds));
    assert_eq!(state.double_down(&user), Err(ErrorKind::InsufficientFunds));
    assert_eq!(snapshot(&state), before);
}

#[test]
fn double_down_needs_an_open_game() {
    let user = alice();
    let mut state = funded(&user, 100);
    assert_eq!(state.double_down(&user), Err(ErrorKind::NoActiveGame));
    assert_eq!(state.double_down_with_cards(&user, &[2, 5]), Err(ErrorKind::NoActiveGame));
}

#[test]
fn a_bet_that_cannot_be_doubled_is_refused() {
    let user = alice();
    let mut state = funded(&user, u32::MAX);
    state.tables.insert(
        &user,
        Table { bank: vec![6, 8], user: vec![5, 7], bet: 3_000_000_000, state: TableState::Ongoing, bank_draws_on_hit: false },
    );
    let before = snapshot(&state);
    assert_eq!(state.double_down_with_cards(&user, &[2, 5]), Err(ErrorKind::BalanceOverflow));
    assert_eq!(snapshot(&state), before);
}

#[test]
fn double_down_needs_cards() {
    let user = alice();
    let mut state = funded(&user, 100);
    state.new_game_with_cards(&user, 10, &[5, 6, 7, 8]).unwrap();
    let before = snapshot(&state);
    assert_eq!(state.double_down_with_cards(&user, &[]), Err(ErrorKind::MissingContext));
    assert_eq!(state.double_down_with_cards(&user, &[2]), Err(ErrorKind::MissingContext));
    assert_eq!(snapshot(&state), before);
}

#[test]
fn double_down_draws_from_the_identity() {
    let user = alice();
    let mut seeded = funded(&user, 100);
    seeded.new_game_with_cards(&user, 10, &[2, 2, 3, 3]).unwrap();
    let mut dealt = seeded.clone();
    let cards = draw_cards(user.as_bytes(), 18);
    let a = seeded.double_down(&user);
    assert!(a.is_ok());
    assert_eq!(a, dealt.double_down_with_cards(&user, &cards));
    assert_eq!(snapshot(&seeded), snapshot(&dealt));
    assert_eq!(table(&seeded, &user).user, vec![2, 3, cards[0]]);
    assert_eq!(table(&seeded, &user).bet, 20);
}

#[test]
fn a_deposit_is_credited() {
    let user = alice();
    let mut state = BlackJack::default();
    let res = state.claim(50, &user, &"blackjack".to_string(), &deposit_blobs(&user, 50));
    assert_eq!(res, Ok(Outcome::Deposited));
    assert_eq!(oranj(&state, &user), Some(50));
    let res = state.claim(25, &user, &"blackjack".to_string(), &deposit_blobs(&user, 25));
    assert_eq!(res, Ok(Outcome::Deposited));
    assert_eq!(oranj(&state, &user), Some(75));
    assert_eq!(vitamin(&state, &user), None);
}

#[test]
fn a_deposit_needs_its_transfer() {
    let user = alice();
    let house = "blackjack".to_string();
    let mut state = funded(&user, 5);
    let before = snapshot(&state);
    assert_eq!(state.claim(50, &user, &house, &vec![]), Err(ErrorKind::TransferMismatch));
    assert_eq!(state.claim(50, &user, &house, &deposit_blobs(&user, 51)), Err(ErrorKind::TransferMismatch));
    assert_eq!(state.claim(50, &user, &house, &deposit_blobs(&"bob".to_string(), 50)), Err(ErrorKind::TransferMismatch));
    assert_eq!(state.claim(50, &user, &"roulette".to_string(), &deposit_blobs(&user, 50)), Err(ErrorKind::TransferMismatch));
    let undecoded = vec![Blob { contract_name: "oranj".to_string(), transfer: None }];
    assert_eq!(state.claim(50, &user, &house, &undecoded), Err(ErrorKind::TransferMismatch));
    let wrong_token = vec![Blob {
        contract_name: "vitamin".to_string(),
        transfer: Some(Transfer { sender: user.clone(), recipient: house.clone(), amount: 50 }),
    }];
    assert_eq!(state.claim(50, &user, &house, &wrong_token), Err(ErrorKind::TransferMismatch));
    assert_eq!(snapshot(&state), before);
}

#[test]
fn a_deposit_reads_the_first_transfer_of_the_token() {
    let user = alice();
    let house = "blackjack".to_string();
    let mut blobs = deposit_blobs(&user, 7);
    blobs.extend(deposit_blobs(&user, 50));
    let mut state = BlackJack::default();
    assert_eq!(state.claim(50, &user, &house, &blobs), Err(ErrorKind::TransferMismatch));
    assert_eq!(state.claim(7, &user, &house, &blobs), Ok(Outcome::Deposited));
    assert_eq!(oranj(&state, &user), Some(7));
}

#[test]
fn a_deposit_that_does_not_fit_is_refused() {
    let user = alice();
    let mut state = funded(&user, u32::MAX - 10);
    let before = snapshot(&state);
    let res = state.claim(11, &user, &"blackjack".to_string(), &deposit_blobs(&user, 11));
    assert_eq!(res, Err(ErrorKind::BalanceOverflow));
    assert_eq!(snapshot(&state), before);
    let res = state.claim(10, &user, &"blackjack".to_string(), &deposit_blobs(&user, 10));
    assert_eq!(res, Ok(Outcome::Deposited));
    assert_eq!(oranj(&state, &user), Some(u32::MAX));
}

#[test]
fn a_withdrawal_is_debited() {
    let user = alice();
    let mut state = funded(&user, 100);
    state.vitamin_balances.insert(&user, 40);
    let callees = vec![payout("vitamin", &user, 30), payout("oranj", &user, 30)];
    assert_eq!(state.withdraw(30, &user, &"oranj".to_string(), &callees), Ok(Outcome::Withdrawn { transfer: 1 }));
    assert_eq!(oranj(&state, &user), Some(70));
    assert_eq!(vitamin(&state, &user), Some(40));
    assert_eq!(state.withdraw(30, &user, &"vitamin".to_string(), &callees), Ok(Outcome::Withdrawn { transfer: 0 }));
    assert_eq!(vitamin(&state, &user), Some(10));
    assert_eq!(oranj(&state, &user), Some(70));
}

#[test]
fn the_whole_balance_can_be_withdrawn() {
    let user = alice();
    let mut state = funded(&user, 100);
    let callees = vec![payout("oranj", &user, 100)];
    assert_eq!(state.withdraw(100, &user, &"oranj".to_string(), &callees), Ok(Outcome::Withdrawn { transfer: 0 }));
    assert_eq!(oranj(&state, &user), Some(0));
}

#[test]
fn a_withdrawal_above_the_balance_is_refused() {
    let user = alice();
    let mut state = funded(&user, 100);
    let before = snapshot(&state);
    let callees = vec![payout("oranj", &user, 101), payout("vitamin", &user, 1)];
    assert_eq!(state.withdraw(101, &user, &"oranj".to_string(), &callees), Err(ErrorKind::InsufficientFunds));
    assert_eq!(state.withdraw(1, &user, &"vitamin".to_string(), &callees), Err(ErrorKind::InsufficientFunds));
    assert_eq!(snapshot(&state), before);
}

#[test]
fn a_withdrawal_is_refused_while_a_game_is_open() {
    let user = alice();
    let mut state = funded(&user, 100);
    state.new_game_with_cards(&user, 10, &[5, 6, 7, 8]).unwrap();
    let before = snapshot(&state);
    let callees = vec![payout("oranj", &user, 10)];
    assert_eq!(state.withdraw(10, &user, &"oranj".to_string(), &callees), Err(ErrorKind::GameInProgress));
    assert_eq!(snapshot(&state), before);
}

#[test]
fn a_withdrawal_of_an_unknown_token_is_refused() {
    let user = alice();
    let mut state = funded(&user, 100);
    let before = snapshot(&state);
    let callees = vec![payout("gold", &user, 10)];
    assert_eq!(state.withdraw(10, &user, &"gold".to_string(), &callees), Err(ErrorKind::InvalidToken));
    assert_eq!(snapshot(&state), before);
}

#[test]
fn a_withdrawal_needs_its_transfer() {
    let user = alice();
    let mut state = funded(&user, 100);
    let before = snapshot(&state);
    let token = "oranj".to_string();
    assert_eq!(state.withdraw(10, &user, &token, &vec![]), Err(ErrorKind::TransferMismatch));
    assert_eq!(state.withdraw(10, &user, &token, &vec![payout("oranj", &user, 11)]), Err(ErrorKind::TransferMismatch));
    assert_eq!(state.withdraw(10, &user, &token, &vec![payout("vitamin", &user, 10)]), Err(ErrorKind::TransferMismatch));
    assert_eq!(state.withdraw(10, &user, &token, &vec![payout("oranj", &"bob".to_string(), 10)]), Err(ErrorKind::TransferMismatch));
    assert_eq!(state.withdraw(10, &user, &token, &deposit_blobs(&user, 10)), Err(ErrorKind::TransferMismatch));
    assert_eq!(snapshot(&state), before);
}

#[test]
fn cleaning_removes_finished_tables_and_empty_balances() {
    let mut state = BlackJack::default();
    let a = "a".to_string();
    let b = "b".to_string();
    let c = "c".to_string();
    state.oranj_balances.insert(&a, 10);
    state.oranj_balances.insert(&b, 100);
    state.oranj_balances.insert(&c, 0);
    state.vitamin_balances.insert(&a, 0);
    state.vitamin_balances.insert(&c, 3);
    state.new_game_with_cards(&a, 10, &[5, 6, 7, 8]).unwrap();
    state.new_game_with_cards(&b, 10, &[5, 1, 6, 10]).unwrap();
    state.clean();
    assert_eq!(state.tables.len(), 1);
    assert_eq!(table(&state, &a).state, TableState::Ongoing);
    assert!(state.tables.get(&b).is_none());
    assert_eq!(oranj(&state, &a), None);
    assert_eq!(oranj(&state, &b), Some(90));
    assert_eq!(oranj(&state, &c), None);
    assert_eq!(vitamin(&state, &a), None);
    assert_eq!(vitamin(&state, &c), Some(3));
}

#[test]
fn cleaning_twice_is_cleaning_once() {
    let mut state = BlackJack::default();
    let a = "a".to_string();
    let b = "b".to_string();
    state.oranj_balances.insert(&a, 10);
    state.oranj_balances.insert(&b, 100);
    state.vitamin_balances.insert(&a, 0);
    state.new_game_with_cards(&a, 10, &[5, 6, 7, 8]).unwrap();
    state.new_game_with_cards(&b, 10, &[1, 5, 10, 6]).unwrap();
    assert_eq!(state.execute(&call(&a, BlackJackAction::CleanTick(1), Some(b"h"))), Ok(Outcome::Cleaned));
    let once = snapshot(&state);
    assert_eq!(state.execute(&call(&b, BlackJackAction::CleanTick(2), Some(b"k"))), Ok(Outcome::Cleaned));
    assert_eq!(snapshot(&state), once);
    state.clean();
    assert_eq!(snapshot(&state), once);
}

#[test]
fn every_action_but_a_clean_up_needs_its_context() {
    let user = alice();
    let mut state = funded(&user, 100);
    let before = snapshot(&state);
    for action in [
        BlackJackAction::Init(10),
        BlackJackAction::Hit,
        BlackJackAction::Stand,
        BlackJackAction::DoubleDown,
        BlackJackAction::Deposit(10),
        BlackJackAction::Withdraw(10, "oranj".to_string()),
    ] {
        assert_eq!(state.execute(&call(&user, action, None)), Err(ErrorKind::MissingContext));
    }
    assert_eq!(snapshot(&state), before);
}

#[test]
fn a_clean_up_needs_no_context() {
    let a = "a".to_string();
    let b = "b".to_string();
    let c = "c".to_string();
    let mut state = BlackJack::default();
    state.oranj_balances.insert(&a, 10);
    state.oranj_balances.insert(&b, 100);
    state.oranj_balances.insert(&c, 0);
    state.vitamin_balances.insert(&a, 0);
    state.new_game_with_cards(&a, 10, &[5, 6, 7, 8]).unwrap();
    state.new_game_with_cards(&b, 10, &[1, 5, 10, 6]).unwrap();
    assert_eq!(table(&state, &a).state, TableState::Ongoing);
    assert_eq!(table(&state, &b).state, TableState::Won);

    assert_eq!(state.execute(&call(&c, BlackJackAction::CleanTick(1), None)), Ok(Outcome::Cleaned));
    assert_eq!(state.tables.len(), 1);
    assert_eq!(table(&state, &a).user, vec![5, 7]);
    assert_eq!(table(&state, &a).state, TableState::Ongoing);
    assert!(state.tables.get(&b).is_none());
    assert_eq!(oranj(&state, &a), None);
    assert_eq!(oranj(&state, &b), Some(100));
    assert_eq!(oranj(&state, &c), None);
    assert_eq!(vitamin(&state, &a), None);
    assert_eq!(vitamin(&state, &b), Some(10));

    let once = snapshot(&state);
    assert_eq!(state.execute(&call(&a, BlackJackAction::CleanTick(2), None)), Ok(Outcome::Cleaned));
    assert_eq!(snapshot(&state), once);
    assert_eq!(
        state.execute(&call(&a, BlackJackAction::CleanTick(3), Some(b"h"))),
        Ok(Outcome::Cleaned)
    );
    assert_eq!(snapshot(&state), once);
}

#[test]
fn execute_runs_the_action_that_is_asked() {
    let user = alice();
    let mut state = BlackJack::default();
    let mut deposit = call(&user, BlackJackAction::Deposit(100), Some(b"h0"));
    deposit.blobs = deposit_blobs(&user, 100);
    assert_eq!(state.execute(&deposit), Ok(Outcome::Deposited));
    assert_eq!(oranj(&state, &user), Some(100));

    let mut by_hand = state.clone();
    let started = state.execute(&call(&user, BlackJackAction::Init(10), Some(b"h1")));
    assert_eq!(started, by_hand.new_game(&user, b"h1", 10));
    assert_eq!(snapshot(&state), snapshot(&by_hand));

    if started == Ok(Outcome::Ongoing) {
        let hit = state.execute(&call(&user, BlackJackAction::Hit, Some(b"h2")));
        assert_eq!(hit, by_hand.hit(&user, b"h2"));
        assert_eq!(snapshot(&state), snapshot(&by_hand));
        if hit == Ok(Outcome::Ongoing) {
            let stood = state.execute(&call(&user, BlackJackAction::Stand, Some(b"h3")));
            assert_eq!(stood, by_hand.stand(&user));
            assert_eq!(snapshot(&state), snapshot(&by_hand));
        }
    }

    state.tables.insert(&user, Table { state: TableState::Lost, ..Table::default() });
    let held = oranj(&state, &user).unwrap();
    let mut withdraw = call(&user, BlackJackAction::Withdraw(held, "oranj".to_string()), Some(b"h4"));
    withdraw.callees = vec![payout("oranj", &user, held as u128)];
    assert_eq!(state.execute(&withdraw), Ok(Outcome::Withdrawn { transfer: 0 }));
    assert_eq!(oranj(&state, &user), Some(0));
}

#[test]
fn execute_runs_a_double_down() {
    let user = alice();
    let mut state = funded(&user, 100);
    state.new_game_with_cards(&user, 10, &[2, 2, 3, 3]).unwrap();
    let mut by_hand = state.clone();
    let res = state.execute(&call(&user, BlackJackAction::DoubleDown, Some(b"h")));
    assert_eq!(res, by_hand.double_down(&user));
    assert_eq!(snapshot(&state), snapshot(&by_hand));
}

#[test]
fn no_action_overdraws_a_balance() {
    let user = alice();
    let mut state = funded(&user, 25);
    assert_eq!(state.new_game_with_cards(&user, 26, &[5, 6, 7, 8]), Err(ErrorKind::InsufficientFunds));
    assert_eq!(oranj(&state, &user), Some(25));
    assert_eq!(state.withdraw(26, &user, &"oranj".to_string(), &vec![payout("oranj", &user, 26)]), Err(ErrorKind::InsufficientFunds));
    assert_eq!(oranj(&state, &user), Some(25));
    assert_eq!(state.new_game_with_cards(&user, 20, &[5, 6, 7, 8]), Ok(Outcome::Ongoing));
    assert_eq!(oranj(&state, &user), Some(5));
    assert_eq!(state.double_down_with_cards(&user, &[2, 5]), Err(ErrorKind::InsufficientFunds));
    assert_eq!(oranj(&state, &user), Some(5));
    assert_eq!(table(&state, &user).bet, 20);
}

#[test]
fn the_default_house() {
    let state = BlackJack::default();
    assert_eq!(state.rules, Rules { min_bet: 10, bank_draws_on_hit: false, reward_on_push: false });
    assert_eq!(Rules::default(), state.rules);
    assert_eq!(state.tables.len(), 0);
    assert_eq!(state.oranj_balances.len(), 0);
    assert_eq!(state.vitamin_balances.len(), 0);
    assert!(!state.has_open_table(&alice()));
    assert_eq!(TableState::default(), TableState::Ongoing);
    let t = Table::default();
    assert_eq!((t.bank.len(), t.user.len(), t.bet, t.state), (0, 0, 0, TableState::Ongoing));
}
