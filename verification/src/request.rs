//! A player's request on its way: the blobs of the transaction that carries
//! it, and what the player is told once the transaction was run.

use crate::action::{same_bytes, stake_token, ActionView, BlackJackAction, Transfer, TransferView};
use crate::api::{shows, ApiTable};
use crate::engine::BlackJack;
use vstd::prelude::*;

verus! {

/// What a blob of a request carries: the request itself, for the house, or a
/// transfer, for the contract of a token.
#[derive(Debug)]
pub enum Payload {
    Action(BlackJackAction),
    Transfer(Transfer),
}

/// A payload as a mathematical value.
pub enum PayloadView {
    Action(ActionView),
    Transfer(TransferView),
}

impl View for Payload {
    type V = PayloadView;

    open spec fn view(&self) -> PayloadView {
        match self {
            Payload::Action(action) => PayloadView::Action(action@),
            Payload::Transfer(transfer) => PayloadView::Transfer(transfer@),
        }
    }
}

/// One blob of a request before it is encoded.
#[derive(Debug)]
pub struct PlannedBlob {
    /// The contract that the blob addresses.
    pub contract_name: String,
    pub payload: Payload,
    /// The place, in the transaction, of the blob that calls for this one.
    pub caller: Option<usize>,
    /// The places, in the transaction, of the blobs that this one calls for.
    pub callees: Option<Vec<usize>>,
}

/// A planned blob as a mathematical value.
pub struct PlannedView {
    pub contract_name: Seq<char>,
    pub payload: PayloadView,
    pub caller: Option<usize>,
    pub callees: Option<Seq<usize>>,
}

impl View for PlannedBlob {
    type V = PlannedView;

    open spec fn view(&self) -> PlannedView {
        PlannedView {
            contract_name: self.contract_name@,
            payload: self.payload@,
            caller: self.caller,
            callees: match self.callees {
                Some(places) => Some(places@),
                None => None,
            },
        }
    }
}

/// The planned blobs `blobs` as mathematical values.
pub open spec fn planned_views(blobs: Seq<PlannedBlob>) -> Seq<PlannedView> {
    Seq::new(blobs.len(), |i: int| blobs[i]@)
}

/// The blob that carries `action` to the house alone.
pub open spec fn plain_request(action: ActionView, house: Seq<char>) -> PlannedView {
    PlannedView {
        contract_name: house,
        payload: PayloadView::Action(action),
        caller: None,
        callees: None,
    }
}

/// The blobs that the request `action` of `identity` puts at the front of
/// its transaction, for a house registered as `house`.
///
/// A deposit is followed by the transfer of the amount, in the wagered token,
/// from the player to the house. A withdrawal calls for the blob behind it,
/// which is the transfer of the amount, in the token of the withdrawal, from
/// the house to the player. Every other request goes alone.
pub open spec fn planned(action: ActionView, identity: Seq<char>, house: Seq<char>) -> Seq<
    PlannedView,
> {
    match action {
        ActionView::Deposit(amount) => seq![
            plain_request(action, house),
            PlannedView {
                contract_name: stake_token(),
                payload: PayloadView::Transfer(
                    TransferView { sender: identity, recipient: house, amount: amount as u128 },
                ),
                caller: None,
                callees: None,
            },
        ],
        ActionView::Withdraw(amount, token) => seq![
            PlannedView { callees: Some(seq![1usize]), ..plain_request(action, house) },
            PlannedView {
                contract_name: token,
                payload: PayloadView::Transfer(
                    TransferView { sender: house, recipient: identity, amount: amount as u128 },
                ),
                caller: Some(0usize),
                callees: None,
            },
        ],
        _ => seq![plain_request(action, house)],
    }
}

/// The blobs that the request `action` of `identity` puts at the front of
/// its transaction, for a house registered as `house`.
pub fn request_blobs(action: BlackJackAction, identity: &String, house: &String) -> (blobs: Vec<
    PlannedBlob,
>)
    ensures
        planned_views(blobs@) == planned(action@, identity@, house@),
{
    let mut blobs: Vec<PlannedBlob> = Vec::new();
    let ghost asked = action@;
    let second = match &action {
        BlackJackAction::Deposit(amount) => Some(
            PlannedBlob {
                contract_name: "oranj".to_owned(),
                payload: Payload::Transfer(
                    Transfer {
                        sender: identity.clone(),
                        recipient: house.clone(),
                        amount: *amount as u128,
                    },
                ),
                caller: None,
                callees: None,
            },
        ),
        BlackJackAction::Withdraw(amount, token) => Some(
            PlannedBlob {
                contract_name: token.clone(),
                payload: Payload::Transfer(
                    Transfer {
                        sender: house.clone(),
                        recipient: identity.clone(),
                        amount: *amount as u128,
                    },
                ),
                caller: Some(0),
                callees: None,
            },
        ),
        _ => None,
    };
    let callees = match &action {
        BlackJackAction::Withdraw(_, _) => {
            let mut places: Vec<usize> = Vec::new();
            places.push(1);
            assert(places@ =~= seq![1usize]);
            Some(places)
        },
        _ => None,
    };
    blobs.push(
        PlannedBlob {
            contract_name: house.clone(),
            payload: Payload::Action(action),
            caller: None,
            callees,
        },
    );
    match second {
        Some(transfer) => {
            blobs.push(transfer);
        },
        None => {},
    }
    assert(planned_views(blobs@) =~= planned(asked, identity@, house@));
    blobs
}

/// What the ordering service tells of a transaction once it was run: the
/// state that it left, or the reason for which it failed.
pub enum TxEvent {
    SuccessTx(Vec<u8>, BlackJack),
    FailedTx(Vec<u8>, String),
}

/// What a player who waits for a transaction learns from one piece of news.
pub enum Verdict {
    /// The news is about another transaction: the player waits on.
    Waiting,
    /// The transaction was run: the table and the balance that it left.
    Done(ApiTable),
    /// The transaction failed, for the given reason.
    Failed(String),
}

/// What `identity`, who waits for the transaction `tx_hash`, learns from
/// `event`.
pub fn verdict_of(event: &TxEvent, tx_hash: &Vec<u8>, identity: &String) -> (verdict: Verdict)
    ensures
        match event {
            TxEvent::SuccessTx(hash, state) => if hash@ == tx_hash@ {
                verdict matches Verdict::Done(shown) && shows(shown, state@, identity@)
            } else {
                verdict is Waiting
            },
            TxEvent::FailedTx(hash, reason) => if hash@ == tx_hash@ {
                verdict matches Verdict::Failed(told) && told@ == reason@
            } else {
                verdict is Waiting
            },
        },
{
    match event {
        TxEvent::SuccessTx(hash, state) => {
            if same_bytes(hash, tx_hash) {
                Verdict::Done(ApiTable::of(state, identity))
            } else {
                Verdict::Waiting
            }
        },
        TxEvent::FailedTx(hash, reason) => {
            if same_bytes(hash, tx_hash) {
                Verdict::Failed(reason.clone())
            } else {
                Verdict::Waiting
            }
        },
    }
}

} // verus!
