//! Records held by the ledger, their ghost views, and the error kinds.

use vstd::prelude::*;

verus! {

/// Lifecycle state of an escrow transaction.
///
/// `Init` is set at creation; `Processing` means the buyer has confirmed
/// sending the payment; `Success` and `Cancelled` are terminal.
#[derive(Clone, Copy, Debug, PartialEq, Eq, Structural)]
pub enum TxState {
    Init,
    Processing,
    Success,
    Cancelled,
}

/// Why an operation was rejected.  Every rejection leaves the ledger
/// exactly as it was: no operation applies a partial mutation.
#[derive(Clone, Copy, Debug, PartialEq, Eq, Structural)]
pub enum P2pError {
    /// The named account was never deposited into.
    AccountNotFound,
    /// No transaction is stored under the given identifier.
    TransactionNotFound,
    /// The caller is not the party allowed to trigger this transition.
    Unauthorized,
    /// The transition is not legal from the transaction's current state;
    /// the payload names that state.
    InvalidState(TxState),
    /// A zero amount was given.
    InvalidAmount,
    /// A zero price was given.
    InvalidPrice,
    /// The account's balance does not cover the requested amount.
    InsufficientFunds,
    /// The seller's listed `available` does not cover the requested amount.
    InsufficientListing,
    /// Listing requires a payment method to have been set first.
    PaymentMethodRequired,
    /// An account may not vote on itself.
    SelfVote,
    /// The vote direction encoding is neither up (`1`) nor down (`-1`).
    InvalidValue,
    /// The generated transaction identifier is already in use; the order
    /// is rejected rather than overwriting the stored transaction.
    IdCollision,
}

/// One participant's ledger entry.
pub struct AccountInformation {
    /// Funds fully owned and spendable by withdrawal or settlement.
    pub balance: u128,
    /// Funds currently listed for sale, reserved out of `balance`.
    pub available: u128,
    /// Price per unit of the current listing; meaningless when
    /// `available == 0`.
    pub price: u128,
    /// Identifiers of transactions this account entered as buyer,
    /// append-only, oldest first.
    pub history_buy: Vec<String>,
    /// Identifiers of transactions this account entered as seller,
    /// append-only, oldest first.
    pub history_sell: Vec<String>,
    /// Opaque payment-method descriptor; must be non-empty before listing.
    pub bank_number: String,
    /// Opaque payment-method descriptor; must be non-empty before listing.
    pub bank_name: String,
    /// Reputation: up votes received, monotonically non-decreasing.
    pub vote_up: u128,
    /// Reputation: down votes received, monotonically non-decreasing.
    pub vote_down: u128,
}

/// Ghost image of an [`AccountInformation`].
#[verifier::ext_equal]
pub struct AccountView {
    pub balance: u128,
    pub available: u128,
    pub price: u128,
    pub history_buy: Seq<Seq<char>>,
    pub history_sell: Seq<Seq<char>>,
    pub bank_number: Seq<char>,
    pub bank_name: Seq<char>,
    pub vote_up: u128,
    pub vote_down: u128,
}

impl View for AccountInformation {
    type V = AccountView;

    open spec fn view(&self) -> AccountView {
        AccountView {
            balance: self.balance,
            available: self.available,
            price: self.price,
            history_buy: self.history_buy.deep_view(),
            history_sell: self.history_sell.deep_view(),
            bank_number: self.bank_number@,
            bank_name: self.bank_name@,
            vote_up: self.vote_up,
            vote_down: self.vote_down,
        }
    }
}

impl AccountView {
    /// A freshly created account: all numeric fields zero, empty strings,
    /// no history.
    pub open spec fn fresh() -> AccountView {
        AccountView {
            balance: 0,
            available: 0,
            price: 0,
            history_buy: Seq::empty(),
            history_sell: Seq::empty(),
            bank_number: Seq::empty(),
            bank_name: Seq::empty(),
            vote_up: 0,
            vote_down: 0,
        }
    }

    /// Whether a payment method has been recorded: both descriptor fields
    /// are non-empty.
    pub open spec fn has_payment_method(self) -> bool {
        self.bank_number.len() > 0 && self.bank_name.len() > 0
    }
}

/// One escrow record, linking a buyer and a seller for a fixed amount.
pub struct History {
    /// Identifier of the buying account; immutable after creation.
    pub buyer: String,
    /// Identifier of the selling account; immutable after creation.
    pub seller: String,
    /// Quantity of funds in escrow; immutable after creation.
    pub amount: u128,
    /// Current lifecycle state.
    pub state: TxState,
}

/// Ghost image of a [`History`] record.
#[verifier::ext_equal]
pub struct TxView {
    pub buyer: Seq<char>,
    pub seller: Seq<char>,
    pub amount: u128,
    pub state: TxState,
}

impl View for History {
    type V = TxView;

    open spec fn view(&self) -> TxView {
        TxView {
            buyer: self.buyer@,
            seller: self.seller@,
            amount: self.amount,
            state: self.state,
        }
    }
}

/// Public projection of an account, as shown in the order book.
pub struct SellInformation {
    pub balance: u128,
    pub available: u128,
    pub price: u128,
    pub bank_number: String,
    pub bank_name: String,
    pub vote_up: u128,
    pub vote_down: u128,
}

/// Ghost image of a [`SellInformation`].
#[verifier::ext_equal]
pub struct SellView {
    pub balance: u128,
    pub available: u128,
    pub price: u128,
    pub bank_number: Seq<char>,
    pub bank_name: Seq<char>,
    pub vote_up: u128,
    pub vote_down: u128,
}

impl View for SellInformation {
    type V = SellView;

    open spec fn view(&self) -> SellView {
        SellView {
            balance: self.balance,
            available: self.available,
            price: self.price,
            bank_number: self.bank_number@,
            bank_name: self.bank_name@,
            vote_up: self.vote_up,
            vote_down: self.vote_down,
        }
    }
}

impl AccountView {
    /// The projection of this account that the query layer reports.
    pub open spec fn as_sell_view(self) -> SellView {
        SellView {
            balance: self.balance,
            available: self.available,
            price: self.price,
            bank_number: self.bank_number,
            bank_name: self.bank_name,
            vote_up: self.vote_up,
            vote_down: self.vote_down,
        }
    }
}

} // verus!
