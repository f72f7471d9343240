//! Laws of the ledger, stated and proved over the model of
//! [`crate::model`]: what the escrow lifecycle conserves, which
//! transitions each state admits, and who may trigger them.

use vstd::prelude::*;
use crate::model::{
    LedgerView, key_index, lemma_set_key, lemma_push_key, lemma_sum_balances_update,
};
use crate::types::{AccountView, TxView, TxState, P2pError};
use crate::ident::spec_tx_id;

verus! {

/// Conservation: a full buy-and-settle round — `order_buy`, then
/// `confirm_sent` by the buyer, then `confirm_received` by the seller —
/// raises the buyer's balance by exactly the escrowed amount, lowers the
/// seller's by the same amount, touches no other balance, and leaves the
/// total of all balances unchanged.  The two confirmations are owed:
/// their checks pass on the intermediate ledgers.
pub proof fn lemma_conservation(
    m0: LedgerView,
    buyer: Seq<char>,
    seller: Seq<char>,
    amount: u128,
    block_height: u64,
    timestamp: u64,
)
    requires
        m0.wf(),
        buyer != seller,
        m0.order_buy_check(
            buyer, seller, amount,
            spec_tx_id(buyer, seller, amount, block_height, timestamp),
        ) is None,
        m0.acct(seller).balance >= amount,
        m0.acct(buyer).balance + amount <= u128::MAX,
    ensures
        ({
            let id = spec_tx_id(buyer, seller, amount, block_height, timestamp);
            let m1 = m0.order_buy_tr(buyer, seller, amount, id);
            let m2 = m1.confirm_sent_tr(id);
            let m3 = m2.confirm_received_tr(id);
            m1.confirm_sent_check(buyer, id) is None
                && m2.confirm_received_check(seller, id) is None
                && m3.acct(buyer).balance == m0.acct(buyer).balance + amount
                && m3.acct(seller).balance == m0.acct(seller).balance - amount
                && (forall|k: Seq<char>|
                    m0.has_acct(k) && k != buyer && k != seller
                        ==> m3.acct(k).balance == m0.acct(k).balance)
                && m3.total_balance() == m0.total_balance()
        }),
{
    let id = spec_tx_id(buyer, seller, amount, block_height, timestamp);
    let s0 = m0.acct(seller);
    let sv = AccountView {
        available: (s0.available - amount) as u128,
        history_sell: s0.history_sell.push(id),
        ..s0
    };
    lemma_set_key(m0.accounts, seller, sv);
    lemma_sum_balances_update(
        m0.accounts, key_index(m0.accounts, seller), (seller, sv),
    );
    let a1 = crate::model::set_key(m0.accounts, seller, sv);
    let b0 = crate::model::lookup(a1, buyer);
    let bv = AccountView { history_buy: b0.history_buy.push(id), ..b0 };
    lemma_set_key(a1, buyer, bv);
    lemma_sum_balances_update(a1, key_index(a1, buyer), (buyer, bv));
    let txv = TxView { buyer: buyer, seller: seller, amount: amount, state: TxState::Init };
    lemma_push_key(m0.historys, id, txv);
    let m1 = m0.order_buy_tr(buyer, seller, amount, id);
    assert(m1.accounts =~= crate::model::set_key(a1, buyer, bv));
    assert(m1.historys =~= m0.historys.push((id, txv)));
    assert(m1.tx(id) == txv);
    assert(m1.confirm_sent_check(buyer, id) is None);

    // The buyer's confirmation only flips the transaction's state.
    let t1 = TxView { state: TxState::Processing, ..txv };
    lemma_set_key(m1.historys, id, t1);
    let m2 = m1.confirm_sent_tr(id);
    assert(m2.accounts =~= m1.accounts);
    assert(m2.tx(id) == t1);
    assert(m2.confirm_received_check(seller, id) is None);

    // Settlement moves the amount between the two balances.
    assert(m2.acct(seller) == sv);
    assert(m2.acct(buyer) == bv);
    assert(sv.balance == m0.acct(seller).balance);
    assert(bv.balance == m0.acct(buyer).balance);
    let sv2 = AccountView { balance: (sv.balance - amount) as u128, ..sv };
    lemma_set_key(m2.accounts, seller, sv2);
    lemma_sum_balances_update(
        m2.accounts, key_index(m2.accounts, seller), (seller, sv2),
    );
    let a2 = crate::model::set_key(m2.accounts, seller, sv2);
    let bv2 = AccountView {
        balance: (crate::model::lookup(a2, buyer).balance + amount) as u128,
        ..crate::model::lookup(a2, buyer)
    };
    lemma_set_key(a2, buyer, bv2);
    lemma_sum_balances_update(a2, key_index(a2, buyer), (buyer, bv2));
    let m3 = m2.confirm_received_tr(id);
    lemma_set_key(m2.historys, id, TxView { state: TxState::Success, ..t1 });
    assert(m3.accounts =~= crate::model::set_key(a2, buyer, bv2));
    assert(m3.acct(buyer).balance == m0.acct(buyer).balance + amount);
    assert(m3.acct(seller).balance == m0.acct(seller).balance - amount);
    assert(m3.total_balance() == m0.total_balance());
}

/// From `Init`, exactly the buyer's two moves are open: `confirm_sent`
/// and `cancel_order_buy` succeed for the buyer and fail with
/// `Unauthorized` for anyone else, while `confirm_received` is rejected
/// with `InvalidState` whoever calls it.
pub proof fn lemma_init_transitions(m: LedgerView, caller: Seq<char>, id: Seq<char>)
    requires
        m.wf(),
        m.has_tx(id),
        m.tx(id).state == TxState::Init,
    ensures
        m.confirm_sent_check(caller, id) is None <==> caller == m.tx(id).buyer,
        m.cancel_order_buy_check(caller, id) is None <==> caller == m.tx(id).buyer,
        caller != m.tx(id).buyer
            ==> m.confirm_sent_check(caller, id) == Some(P2pError::Unauthorized),
        caller != m.tx(id).buyer
            ==> m.cancel_order_buy_check(caller, id) == Some(P2pError::Unauthorized),
        m.confirm_received_check(caller, id)
            == Some(P2pError::InvalidState(TxState::Init)),
{
}

/// From `Processing`, only the seller's `confirm_received` is open:
/// anyone else gets `Unauthorized`, and `confirm_sent` and
/// `cancel_order_buy` are rejected with `InvalidState` whoever calls
/// them — once the payment is on its way, the order cannot be cancelled.
pub proof fn lemma_processing_transitions(m: LedgerView, caller: Seq<char>, id: Seq<char>)
    requires
        m.wf(),
        m.has_tx(id),
        m.tx(id).state == TxState::Processing,
    ensures
        m.confirm_received_check(caller, id) is None <==> caller == m.tx(id).seller,
        caller != m.tx(id).seller
            ==> m.confirm_received_check(caller, id) == Some(P2pError::Unauthorized),
        m.confirm_sent_check(caller, id)
            == Some(P2pError::InvalidState(TxState::Processing)),
        m.cancel_order_buy_check(caller, id)
            == Some(P2pError::InvalidState(TxState::Processing)),
{
}

/// `Success` and `Cancelled` are terminal: every transition is rejected
/// with `InvalidState`, whoever calls it.  Replaying a confirmation on a
/// settled transaction therefore fails, and (by the operations'
/// contracts) a failed call leaves the ledger untouched.
pub proof fn lemma_terminal_states_reject(m: LedgerView, caller: Seq<char>, id: Seq<char>)
    requires
        m.wf(),
        m.has_tx(id),
        m.tx(id).state == TxState::Success || m.tx(id).state == TxState::Cancelled,
    ensures
        m.confirm_sent_check(caller, id) == Some(P2pError::InvalidState(m.tx(id).state)),
        m.confirm_received_check(caller, id) == Some(P2pError::InvalidState(m.tx(id).state)),
        m.cancel_order_buy_check(caller, id) == Some(P2pError::InvalidState(m.tx(id).state)),
{
}

/// Listing: a successful `order_sell` moves exactly `amount` from
/// `balance` into `available` and records the price; afterwards a buy
/// order for more than the remaining `available` is rejected with
/// `InsufficientListing`.
pub proof fn lemma_listing(
    m0: LedgerView,
    seller: Seq<char>,
    amount: u128,
    price: u128,
    buyer: Seq<char>,
    amount2: u128,
    id: Seq<char>,
)
    requires
        m0.wf(),
        m0.order_sell_check(seller, amount, price) is None,
        m0.acct(seller).available + amount <= u128::MAX,
    ensures
        ({
            let m1 = m0.order_sell_tr(seller, amount, price);
            m1.acct(seller).available == m0.acct(seller).available + amount
                && m1.acct(seller).balance == m0.acct(seller).balance - amount
                && m1.acct(seller).price == price
                && (amount2 > 0 && amount2 > m1.acct(seller).available
                    ==> m1.order_buy_check(buyer, seller, amount2, id)
                        == Some(P2pError::InsufficientListing))
        }),
{
    let sv = AccountView {
        balance: (m0.acct(seller).balance - amount) as u128,
        available: (m0.acct(seller).available + amount) as u128,
        price: price,
        ..m0.acct(seller)
    };
    lemma_set_key(m0.accounts, seller, sv);
}

/// Voting for oneself is always rejected with `SelfVote`, whatever the
/// ledger holds and whatever the direction.
pub proof fn lemma_self_vote(m: LedgerView, caller: Seq<char>, value: i8)
    ensures
        m.vote_check(caller, caller, value) == Some(P2pError::SelfVote),
{
}

/// A down vote from someone else on a freshly created account leaves it
/// with one down vote and no up votes.
pub proof fn lemma_vote_fresh(
    m0: LedgerView,
    voter: Seq<char>,
    target: Seq<char>,
    amount: u128,
)
    requires
        m0.wf(),
        !m0.has_acct(target),
        voter != target,
    ensures
        ({
            let m1 = m0.deposit_tr(target, amount);
            m1.vote_check(voter, target, -1i8) is None
                && m1.vote_tr(target, -1i8).acct(target).vote_down == 1
                && m1.vote_tr(target, -1i8).acct(target).vote_up == 0
        }),
{
    let fresh = AccountView { balance: amount, ..AccountView::fresh() };
    lemma_push_key(m0.accounts, target, fresh);
    let m1 = m0.deposit_tr(target, amount);
    assert(m1.acct(target) == fresh);
    let voted = AccountView { vote_down: 1u128, ..fresh };
    lemma_set_key(m1.accounts, target, voted);
    assert(m1.vote_tr(target, -1i8).acct(target) =~~= voted);
}

} // verus!
