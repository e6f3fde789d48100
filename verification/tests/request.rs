use blackjack::action::BlackJackAction;
use blackjack::engine::BlackJack;
use blackjack::request::{request_blobs, verdict_of, Payload, PlannedBlob, TxEvent, Verdict};
use blackjack::table::TableState;

fn alice() -> String {
    "alice".to_string()
}

fn house() -> String {
    "blackjack".to_string()
}

fn transfer_of(blob: &PlannedBlob) -> (String, String, u128) {
    match &blob.payload {
        Payload::Transfer(t) => (t.sender.clone(), t.recipient.clone(), t.amount),
        Payload::Action(_) => panic!("the blob carries no transfer"),
    }
}

fn action_of(blob: &PlannedBlob) -> BlackJackAction {
    match &blob.payload {
        Payload::Action(action) => action.clone(),
        Payload::Transfer(_) => panic!("the blob carries no action"),
    }
}

#[test]
fn a_plain_request_goes_alone() {
    let actions = vec![
        BlackJackAction::Init(10),
        BlackJackAction::Hit,
        BlackJackAction::Stand,
        BlackJackAction::DoubleDown,
        BlackJackAction::CleanTick(7),
    ];
    for action in actions {
        let blobs = request_blobs(action.clone(), &alice(), &house());
        assert_eq!(blobs.len(), 1);
        assert_eq!(blobs[0].contract_name, "blackjack");
        assert_eq!(action_of(&blobs[0]), action);
        assert_eq!(blobs[0].caller, None);
        assert_eq!(blobs[0].callees, None);
    }
}

#[test]
fn a_deposit_is_followed_by_its_transfer() {
    let blobs = request_blobs(BlackJackAction::Deposit(25), &alice(), &house());
    assert_eq!(blobs.len(), 2);
    assert_eq!(blobs[0].contract_name, "blackjack");
    assert_eq!(action_of(&blobs[0]), BlackJackAction::Deposit(25));
    assert_eq!((blobs[0].caller, blobs[0].callees.clone()), (None, None));
    assert_eq!(blobs[1].contract_name, "oranj");
    assert_eq!(transfer_of(&blobs[1]), ("alice".to_string(), "blackjack".to_string(), 25));
    assert_eq!((blobs[1].caller, blobs[1].callees.clone()), (None, None));
}

#[test]
fn a_withdrawal_calls_for_its_transfer() {
    let action = BlackJackAction::Withdraw(40, "vitamin".to_string());
    let blobs = request_blobs(action.clone(), &alice(), &house());
    assert_eq!(blobs.len(), 2);
    assert_eq!(blobs[0].contract_name, "blackjack");
    assert_eq!(action_of(&blobs[0]), action);
    assert_eq!((blobs[0].caller, blobs[0].callees.clone()), (None, Some(vec![1])));
    assert_eq!(blobs[1].contract_name, "vitamin");
    assert_eq!(transfer_of(&blobs[1]), ("blackjack".to_string(), "alice".to_string(), 40));
    assert_eq!((blobs[1].caller, blobs[1].callees.clone()), (Some(0), None));
}

#[test]
fn news_of_another_transaction_is_waited_out() {
    let state = BlackJack::default();
    let event = TxEvent::SuccessTx(vec![1, 2, 3], state);
    assert!(matches!(verdict_of(&event, &vec![1, 2, 4], &alice()), Verdict::Waiting));
    let event = TxEvent::FailedTx(vec![1, 2, 3], "no".to_string());
    assert!(matches!(verdict_of(&event, &vec![1, 2], &alice()), Verdict::Waiting));
}

#[test]
fn a_transaction_that_ran_shows_the_table_it_left() {
    let mut state = BlackJack::default();
    state.oranj_balances.insert(&alice(), 100);
    state.new_game_with_cards(&alice(), 10, &[5, 6, 7, 8]).unwrap();
    let event = TxEvent::SuccessTx(vec![9, 9], state);
    match verdict_of(&event, &vec![9, 9], &alice()) {
        Verdict::Done(shown) => {
            assert_eq!((shown.user, shown.user_count), (vec![5, 7], 12));
            assert_eq!((shown.bank, shown.bank_count), (vec![6, 8], 14));
            assert_eq!((shown.bet, shown.state, shown.balance), (10, TableState::Ongoing, 90));
        }
        _ => panic!("the transaction ran"),
    }
}

#[test]
fn a_transaction_that_failed_tells_its_reason() {
    let event = TxEvent::FailedTx(vec![9, 9], "Insufficient balance".to_string());
    match verdict_of(&event, &vec![9, 9], &alice()) {
        Verdict::Failed(reason) => assert_eq!(reason, "Insufficient balance"),
        _ => panic!("the transaction failed"),
    }
}
