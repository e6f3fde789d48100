//! What a player can ask for, and what the engine is handed with the
//! request.

use vstd::prelude::*;

verus! {

/// The token that is wagered.
pub open spec fn stake_token() -> Seq<char> {
    "oranj"@
}

/// The token that a win is rewarded in.
pub open spec fn reward_token() -> Seq<char> {
    "vitamin"@
}

/// The name under which the house pays a withdrawal out.
pub open spec fn house_name() -> Seq<char> {
    "blackjack"@
}

/// One request of a player.
#[derive(Debug, PartialEq)]
pub enum BlackJackAction {
    /// Starts a game with the given bet.
    Init(u32),
    /// Takes one more card.
    Hit,
    /// Takes no more cards: the bank plays and the game ends.
    Stand,
    /// Doubles the bet, takes one last card, and lets the bank play.
    DoubleDown,
    /// Adds the given amount of the wagered token to the balance.
    Deposit(u32),
    /// Takes the given amount of the named token out of its balance.
    Withdraw(u32, String),
    /// Removes finished tables and empty balances. The number tells two such
    /// requests apart and is not read.
    CleanTick(u128),
}

/// A request as a mathematical value.
pub enum ActionView {
    Init(u32),
    Hit,
    Stand,
    DoubleDown,
    Deposit(u32),
    Withdraw(u32, Seq<char>),
    CleanTick(u128),
}

impl View for BlackJackAction {
    type V = ActionView;

    open spec fn view(&self) -> ActionView {
        match self {
            BlackJackAction::Init(bet) => ActionView::Init(*bet),
            BlackJackAction::Hit => ActionView::Hit,
            BlackJackAction::Stand => ActionView::Stand,
            BlackJackAction::DoubleDown => ActionView::DoubleDown,
            BlackJackAction::Deposit(amount) => ActionView::Deposit(*amount),
            BlackJackAction::Withdraw(amount, token) => ActionView::Withdraw(*amount, token@),
            BlackJackAction::CleanTick(nonce) => ActionView::CleanTick(*nonce),
        }
    }
}

impl Clone for BlackJackAction {
    fn clone(&self) -> (copy: Self)
        ensures
            copy@ == self@,
    {
        match self {
            BlackJackAction::Init(bet) => BlackJackAction::Init(*bet),
            BlackJackAction::Hit => BlackJackAction::Hit,
            BlackJackAction::Stand => BlackJackAction::Stand,
            BlackJackAction::DoubleDown => BlackJackAction::DoubleDown,
            BlackJackAction::Deposit(amount) => BlackJackAction::Deposit(*amount),
            BlackJackAction::Withdraw(amount, token) => BlackJackAction::Withdraw(
                *amount,
                token.clone(),
            ),
            BlackJackAction::CleanTick(nonce) => BlackJackAction::CleanTick(*nonce),
        }
    }
}

/// A transfer of tokens from one identity to another, as a token contract
/// records it.
#[derive(Debug)]
pub struct Transfer {
    pub sender: String,
    pub recipient: String,
    pub amount: u128,
}

/// A transfer as a mathematical value.
pub struct TransferView {
    pub sender: Seq<char>,
    pub recipient: Seq<char>,
    pub amount: u128,
}

impl View for Transfer {
    type V = TransferView;

    open spec fn view(&self) -> TransferView {
        TransferView { sender: self.sender@, recipient: self.recipient@, amount: self.amount }
    }
}

impl Clone for Transfer {
    fn clone(&self) -> (copy: Self)
        ensures
            copy@ == self@,
    {
        Transfer {
            sender: self.sender.clone(),
            recipient: self.recipient.clone(),
            amount: self.amount,
        }
    }
}

/// One blob of a transaction, as far as the engine reads it: the contract
/// that it addresses, and the transfer that it asks of that contract, if it
/// asks for one.
#[derive(Debug)]
pub struct Blob {
    pub contract_name: String,
    pub transfer: Option<Transfer>,
}

/// A blob as a mathematical value.
pub struct BlobView {
    pub contract_name: Seq<char>,
    pub transfer: Option<TransferView>,
}

impl View for Blob {
    type V = BlobView;

    open spec fn view(&self) -> BlobView {
        BlobView {
            contract_name: self.contract_name@,
            transfer: match self.transfer {
                Some(transfer) => Some(transfer@),
                None => None,
            },
        }
    }
}

impl Clone for Blob {
    fn clone(&self) -> (copy: Self)
        ensures
            copy@ == self@,
    {
        Blob {
            contract_name: self.contract_name.clone(),
            transfer: match &self.transfer {
                Some(transfer) => Some(transfer.clone()),
                None => None,
            },
        }
    }
}

/// The blobs `blobs` as mathematical values.
pub open spec fn blob_views(blobs: Seq<Blob>) -> Seq<BlobView> {
    Seq::new(blobs.len(), |i: int| blobs[i]@)
}

/// A copy of `blobs`.
pub fn copy_blobs(blobs: &Vec<Blob>) -> (copy: Vec<Blob>)
    ensures
        blob_views(copy@) == blob_views(blobs@),
{
    let mut copy: Vec<Blob> = Vec::new();
    let mut at: usize = 0;
    while at < blobs.len()
        invariant
            at <= blobs.len(),
            copy@.len() == at,
            forall|i: int| 0 <= i < at ==> (#[trigger] copy@[i])@ == blobs@[i]@,
        decreases blobs.len() - at,
    {
        copy.push(blobs[at].clone());
        at += 1;
    }
    assert(blob_views(copy@) =~= blob_views(blobs@));
    copy
}

/// A copy of `bytes`.
pub fn copy_bytes(bytes: &Vec<u8>) -> (copy: Vec<u8>)
    ensures
        copy@ == bytes@,
{
    let mut copy: Vec<u8> = Vec::new();
    let mut at: usize = 0;
    while at < bytes.len()
        invariant
            at <= bytes.len(),
            copy@ == bytes@.take(at as int),
        decreases bytes.len() - at,
    {
        copy.push(bytes[at]);
        assert(bytes@.take(at as int).push(bytes[at as int]) == bytes@.take(at + 1));
        at += 1;
    }
    assert(bytes@.take(at as int) == bytes@);
    copy
}

/// Whether `a` and `b` hold the same bytes.
pub fn same_bytes(a: &Vec<u8>, b: &Vec<u8>) -> (same: bool)
    ensures
        same == (a@ == b@),
{
    if a.len() != b.len() {
        return false;
    }
    let mut at: usize = 0;
    while at < a.len()
        invariant
            a@.len() == b@.len(),
            at <= a@.len(),
            forall|k: int| 0 <= k < at ==> a@[k] == b@[k],
        decreases a@.len() - at,
    {
        if a[at] != b[at] {
            return false;
        }
        at += 1;
    }
    assert(a@ =~= b@);
    true
}

/// One action of one identity, with all that the engine reads to run it.
#[derive(Debug)]
pub struct Calldata {
    /// Who asks.
    pub identity: String,
    /// What is asked.
    pub action: BlackJackAction,
    /// The name under which the house is registered.
    pub contract_name: String,
    /// The blobs of the transaction that carries the action, in their order.
    pub blobs: Vec<Blob>,
    /// The blobs of the transaction that the action itself called for.
    pub callees: Vec<Blob>,
    /// The hash of the block that holds the transaction: the seed of the
    /// cards. `None` where the transaction came without its context.
    pub block_hash: Option<Vec<u8>>,
}

/// A call as a mathematical value.
pub struct CalldataView {
    pub identity: Seq<char>,
    pub action: ActionView,
    pub contract_name: Seq<char>,
    pub blobs: Seq<BlobView>,
    pub callees: Seq<BlobView>,
    pub block_hash: Option<Seq<u8>>,
}

impl View for Calldata {
    type V = CalldataView;

    open spec fn view(&self) -> CalldataView {
        CalldataView {
            identity: self.identity@,
            action: self.action@,
            contract_name: self.contract_name@,
            blobs: blob_views(self.blobs@),
            callees: blob_views(self.callees@),
            block_hash: match self.block_hash {
                Some(hash) => Some(hash@),
                None => None,
            },
        }
    }
}

impl Clone for Calldata {
    fn clone(&self) -> (copy: Self)
        ensures
            copy@ == self@,
    {
        Calldata {
            identity: self.identity.clone(),
            action: self.action.clone(),
            contract_name: self.contract_name.clone(),
            blobs: copy_blobs(&self.blobs),
            callees: copy_blobs(&self.callees),
            block_hash: match &self.block_hash {
                Some(hash) => Some(copy_bytes(hash)),
                None => None,
            },
        }
    }
}

} // verus!
