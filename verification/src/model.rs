//! The mathematical model of the ledger: an association sequence of
//! accounts and one of transactions, the well-formedness invariant, and
//! for every operation a `..._check` function giving the error it is
//! rejected with (if any) and a `..._tr` function giving the state it
//! moves the ledger to.  The executable operations promise exactly these
//! outcomes.

use vstd::prelude::*;
use crate::types::{AccountView, TxView, TxState, P2pError};

verus! {

/// No two entries share a key.
pub open spec fn keys_unique<V>(s: Seq<(Seq<char>, V)>) -> bool {
    forall|i: int, j: int|
        0 <= i < s.len() && 0 <= j < s.len() && i != j ==> s[i].0 != s[j].0
}

/// Some entry has key `k`.
pub open spec fn has_key<V>(s: Seq<(Seq<char>, V)>, k: Seq<char>) -> bool {
    exists|i: int| 0 <= i < s.len() && s[i].0 == k
}

/// The index of the entry with key `k`.
pub open spec fn key_index<V>(s: Seq<(Seq<char>, V)>, k: Seq<char>) -> int {
    choose|i: int| 0 <= i < s.len() && s[i].0 == k
}

/// The value stored under key `k`.
pub open spec fn lookup<V>(s: Seq<(Seq<char>, V)>, k: Seq<char>) -> V {
    s[key_index(s, k)].1
}

/// The sequence with the value under `k` replaced by `v`.
pub open spec fn set_key<V>(s: Seq<(Seq<char>, V)>, k: Seq<char>, v: V) -> Seq<(Seq<char>, V)> {
    s.update(key_index(s, k), (k, v))
}

pub proof fn lemma_key_index_of<V>(s: Seq<(Seq<char>, V)>, k: Seq<char>, i: int)
    requires
        keys_unique(s),
        0 <= i < s.len(),
        s[i].0 == k,
    ensures
        has_key(s, k),
        key_index(s, k) == i,
{
    assert(has_key(s, k));
    let j = key_index(s, k);
    assert(0 <= j < s.len() && s[j].0 == k);
}

pub proof fn lemma_set_key<V>(s: Seq<(Seq<char>, V)>, k: Seq<char>, v: V)
    requires
        keys_unique(s),
        has_key(s, k),
    ensures
        keys_unique(set_key(s, k, v)),
        set_key(s, k, v).len() == s.len(),
        forall|k2: Seq<char>| has_key(set_key(s, k, v), k2) == has_key(s, k2),
        forall|k2: Seq<char>|
            has_key(s, k2) ==> key_index::<V>(set_key(s, k, v), k2) == key_index::<V>(s, k2),
        lookup(set_key(s, k, v), k) == v,
        forall|k2: Seq<char>|
            has_key(s, k2) && k2 != k ==> lookup(set_key(s, k, v), k2) == lookup(s, k2),
{
    let i = key_index(s, k);
    assert(0 <= i < s.len() && s[i].0 == k);
    let s2 = set_key(s, k, v);
    assert forall|k2: Seq<char>| has_key(s2, k2) implies has_key(s, k2) by {
        let j = choose|j: int| 0 <= j < s2.len() && s2[j].0 == k2;
        if j == i {
            assert(s[i].0 == k2);
        } else {
            assert(s[j].0 == k2);
        }
    }
    assert forall|k2: Seq<char>| has_key(s, k2) implies has_key(s2, k2) by {
        let j = choose|j: int| 0 <= j < s.len() && s[j].0 == k2;
        if j == i {
            assert(s2[i].0 == k2);
        } else {
            assert(s2[j].0 == k2);
        }
    }
    assert forall|k2: Seq<char>| has_key(s, k2) implies
        key_index::<V>(s2, k2) == key_index::<V>(s, k2) by {
        let j = key_index(s, k2);
        assert(0 <= j < s.len() && s[j].0 == k2);
        assert(s2[j].0 == k2);
        lemma_key_index_unique(s2, k2, j);
    }
    assert(lookup(s2, k) == v);
}

/// With unique keys, any index holding `k` is the looked-up index.
pub proof fn lemma_key_index_unique<V>(s: Seq<(Seq<char>, V)>, k: Seq<char>, i: int)
    requires
        keys_unique(s),
        0 <= i < s.len(),
        s[i].0 == k,
    ensures
        key_index(s, k) == i,
{
    lemma_key_index_of(s, k, i);
}

pub proof fn lemma_push_key<V>(s: Seq<(Seq<char>, V)>, k: Seq<char>, v: V)
    requires
        keys_unique(s),
        !has_key(s, k),
    ensures
        keys_unique(s.push((k, v))),
        has_key(s.push((k, v)), k),
        lookup(s.push((k, v)), k) == v,
        forall|k2: Seq<char>| k2 != k ==> has_key(s.push((k, v)), k2) == has_key(s, k2),
        forall|k2: Seq<char>|
            has_key(s, k2) ==> lookup(s.push((k, v)), k2) == lookup(s, k2)
                && key_index::<V>(s.push((k, v)), k2) == key_index::<V>(s, k2),
{
    let s2 = s.push((k, v));
    assert forall|i: int| 0 <= i < s.len() implies s[i] == s2[i] by {}
    assert(s2[s.len() as int].0 == k);
    assert forall|i: int, j: int|
        0 <= i < s2.len() && 0 <= j < s2.len() && i != j implies s2[i].0 != s2[j].0 by {
        if i < s.len() && j < s.len() {
            assert(s[i].0 != s[j].0);
        } else if i < s.len() {
            assert(s2[j].0 == k);
            assert(has_key(s, s[i].0));
        } else if j < s.len() {
            assert(s2[i].0 == k);
            assert(has_key(s, s[j].0));
        }
    }
    lemma_key_index_unique(s2, k, s.len() as int);
    assert forall|k2: Seq<char>| k2 != k && has_key(s2, k2) implies has_key(s, k2) by {
        let j = choose|j: int| 0 <= j < s2.len() && s2[j].0 == k2;
        assert(j != s.len());
        assert(s[j].0 == k2);
    }
    assert forall|k2: Seq<char>| has_key(s, k2) implies has_key(s2, k2)
        && lookup(s2, k2) == lookup(s, k2)
        && key_index::<V>(s2, k2) == key_index::<V>(s, k2) by {
        let j = key_index(s, k2);
        assert(0 <= j < s.len() && s[j].0 == k2);
        assert(s2[j].0 == k2);
        lemma_key_index_unique(s2, k2, j);
    }
}

/// The whole ledger: accounts and stored transactions, each an
/// association sequence in insertion order.
#[verifier::ext_equal]
pub struct LedgerView {
    pub accounts: Seq<(Seq<char>, AccountView)>,
    pub historys: Seq<(Seq<char>, TxView)>,
}

/// The sum of all account balances.
pub open spec fn sum_balances(s: Seq<(Seq<char>, AccountView)>) -> int
    decreases s.len(),
{
    if s.len() == 0 {
        0
    } else {
        sum_balances(s.drop_last()) + s.last().1.balance
    }
}

pub proof fn lemma_sum_balances_update(s: Seq<(Seq<char>, AccountView)>, i: int, e: (Seq<char>, AccountView))
    requires
        0 <= i < s.len(),
    ensures
        sum_balances(s.update(i, e))
            == sum_balances(s) + e.1.balance - s[i].1.balance,
    decreases s.len(),
{
    let s2 = s.update(i, e);
    if i == s.len() - 1 {
        assert(s2.drop_last() =~= s.drop_last());
    } else {
        assert(s2.drop_last() =~= s.drop_last().update(i, e));
        lemma_sum_balances_update(s.drop_last(), i, e);
    }
}

pub proof fn lemma_sum_balances_push(s: Seq<(Seq<char>, AccountView)>, e: (Seq<char>, AccountView))
    ensures
        sum_balances(s.push(e)) == sum_balances(s) + e.1.balance,
{
    assert(s.push(e).drop_last() =~= s);
}

impl LedgerView {
    /// The empty ledger.
    pub open spec fn empty() -> LedgerView {
        LedgerView { accounts: Seq::empty(), historys: Seq::empty() }
    }

    pub open spec fn has_acct(self, id: Seq<char>) -> bool {
        has_key(self.accounts, id)
    }

    pub open spec fn acct(self, id: Seq<char>) -> AccountView {
        lookup(self.accounts, id)
    }

    pub open spec fn has_tx(self, id: Seq<char>) -> bool {
        has_key(self.historys, id)
    }

    pub open spec fn tx(self, id: Seq<char>) -> TxView {
        lookup(self.historys, id)
    }

    pub open spec fn set_acct(self, id: Seq<char>, a: AccountView) -> LedgerView {
        LedgerView { accounts: set_key(self.accounts, id, a), historys: self.historys }
    }

    pub open spec fn set_tx(self, id: Seq<char>, t: TxView) -> LedgerView {
        LedgerView { accounts: self.accounts, historys: set_key(self.historys, id, t) }
    }

    /// The sum of every account's `balance`.
    pub open spec fn total_balance(self) -> int {
        sum_balances(self.accounts)
    }

    /// Well-formedness: keys are unique on both tables, both parties of
    /// every stored transaction have accounts, and every identifier in a
    /// history sequence resolves against the transaction table.
    pub open spec fn wf(self) -> bool {
        &&& keys_unique(self.accounts)
        &&& keys_unique(self.historys)
        &&& forall|i: int| 0 <= i < self.historys.len()
            ==> self.has_acct(#[trigger] self.historys[i].1.buyer)
                && self.has_acct(self.historys[i].1.seller)
        &&& forall|i: int, j: int|
            0 <= i < self.accounts.len()
                && 0 <= j < self.accounts[i].1.history_buy.len()
            ==> self.has_tx(#[trigger] self.accounts[i].1.history_buy[j])
        &&& forall|i: int, j: int|
            0 <= i < self.accounts.len()
                && 0 <= j < self.accounts[i].1.history_sell.len()
            ==> self.has_tx(#[trigger] self.accounts[i].1.history_sell[j])
    }

    // ---- deposit -------------------------------------------------------

    /// Deposit never fails: it creates the account on first use.
    pub open spec fn deposit_tr(self, caller: Seq<char>, amount: u128) -> LedgerView {
        if self.has_acct(caller) {
            self.set_acct(caller, AccountView {
                balance: (self.acct(caller).balance + amount) as u128,
                ..self.acct(caller)
            })
        } else {
            LedgerView {
                accounts: self.accounts.push((caller, AccountView {
                    balance: amount,
                    ..AccountView::fresh()
                })),
                historys: self.historys,
            }
        }
    }

    // ---- withdraw ------------------------------------------------------

    pub open spec fn withdraw_check(self, caller: Seq<char>, amount: u128) -> Option<P2pError> {
        if !self.has_acct(caller) {
            Some(P2pError::AccountNotFound)
        } else if self.acct(caller).balance < amount {
            Some(P2pError::InsufficientFunds)
        } else {
            None
        }
    }

    pub open spec fn withdraw_tr(self, caller: Seq<char>, amount: u128) -> LedgerView {
        self.set_acct(caller, AccountView {
            balance: (self.acct(caller).balance - amount) as u128,
            ..self.acct(caller)
        })
    }

    // ---- set_bank_account ----------------------------------------------

    pub open spec fn set_bank_account_check(self, caller: Seq<char>) -> Option<P2pError> {
        if !self.has_acct(caller) {
            Some(P2pError::AccountNotFound)
        } else {
            None
        }
    }

    pub open spec fn set_bank_account_tr(
        self,
        caller: Seq<char>,
        number: Seq<char>,
        name: Seq<char>,
    ) -> LedgerView {
        self.set_acct(caller, AccountView {
            bank_number: number,
            bank_name: name,
            ..self.acct(caller)
        })
    }

    // ---- order_sell ----------------------------------------------------

    pub open spec fn order_sell_check(
        self,
        caller: Seq<char>,
        amount: u128,
        price: u128,
    ) -> Option<P2pError> {
        if amount == 0 {
            Some(P2pError::InvalidAmount)
        } else if price == 0 {
            Some(P2pError::InvalidPrice)
        } else if !self.has_acct(caller) {
            Some(P2pError::AccountNotFound)
        } else if !self.acct(caller).has_payment_method() {
            Some(P2pError::PaymentMethodRequired)
        } else if self.acct(caller).balance < amount {
            Some(P2pError::InsufficientFunds)
        } else {
            None
        }
    }

    /// Listing reserves `amount` out of `balance` into `available` and
    /// records the asked price.
    pub open spec fn order_sell_tr(self, caller: Seq<char>, amount: u128, price: u128) -> LedgerView {
        self.set_acct(caller, AccountView {
            balance: (self.acct(caller).balance - amount) as u128,
            available: (self.acct(caller).available + amount) as u128,
            price: price,
            ..self.acct(caller)
        })
    }

    // ---- order_buy -----------------------------------------------------

    pub open spec fn order_buy_check(
        self,
        buyer: Seq<char>,
        seller: Seq<char>,
        amount: u128,
        id: Seq<char>,
    ) -> Option<P2pError> {
        if !self.has_acct(seller) {
            Some(P2pError::AccountNotFound)
        } else if amount == 0 {
            Some(P2pError::InvalidAmount)
        } else if self.acct(seller).available < amount {
            Some(P2pError::InsufficientListing)
        } else if !self.has_acct(buyer) {
            Some(P2pError::AccountNotFound)
        } else if self.has_tx(id) {
            Some(P2pError::IdCollision)
        } else {
            None
        }
    }

    /// A buy order takes `amount` out of the seller's listing, records
    /// the new transaction in state `Init`, and appends its identifier to
    /// both parties' histories.
    pub open spec fn order_buy_tr(
        self,
        buyer: Seq<char>,
        seller: Seq<char>,
        amount: u128,
        id: Seq<char>,
    ) -> LedgerView {
        let s0 = self.acct(seller);
        let m1 = self.set_acct(seller, AccountView {
            available: (s0.available - amount) as u128,
            history_sell: s0.history_sell.push(id),
            ..s0
        });
        let b0 = m1.acct(buyer);
        let m2 = m1.set_acct(buyer, AccountView {
            history_buy: b0.history_buy.push(id),
            ..b0
        });
        LedgerView {
            accounts: m2.accounts,
            historys: m2.historys.push((id, TxView {
                buyer: buyer,
                seller: seller,
                amount: amount,
                state: TxState::Init,
            })),
        }
    }

    // ---- confirm_sent --------------------------------------------------

    pub open spec fn confirm_sent_check(self, caller: Seq<char>, id: Seq<char>) -> Option<P2pError> {
        if !self.has_tx(id) {
            Some(P2pError::TransactionNotFound)
        } else if self.tx(id).state != TxState::Init {
            Some(P2pError::InvalidState(self.tx(id).state))
        } else if caller != self.tx(id).buyer {
            Some(P2pError::Unauthorized)
        } else {
            None
        }
    }

    pub open spec fn confirm_sent_tr(self, id: Seq<char>) -> LedgerView {
        self.set_tx(id, TxView { state: TxState::Processing, ..self.tx(id) })
    }

    // ---- confirm_received ----------------------------------------------

    pub open spec fn confirm_received_check(
        self,
        caller: Seq<char>,
        id: Seq<char>,
    ) -> Option<P2pError> {
        if !self.has_tx(id) {
            Some(P2pError::TransactionNotFound)
        } else if self.tx(id).state != TxState::Processing {
            Some(P2pError::InvalidState(self.tx(id).state))
        } else if caller != self.tx(id).seller {
            Some(P2pError::Unauthorized)
        } else {
            None
        }
    }

    /// Settlement: `amount` moves from the seller's `balance` to the
    /// buyer's, and the transaction becomes `Success`.  The seller's
    /// balance is debited first, so when buyer and seller are one
    /// account the two moves cancel out.
    pub open spec fn confirm_received_tr(self, id: Seq<char>) -> LedgerView {
        let t = self.tx(id);
        let s0 = self.acct(t.seller);
        let m1 = self.set_acct(t.seller, AccountView {
            balance: (s0.balance - t.amount) as u128,
            ..s0
        });
        let b0 = m1.acct(t.buyer);
        let m2 = m1.set_acct(t.buyer, AccountView {
            balance: (b0.balance + t.amount) as u128,
            ..b0
        });
        m2.set_tx(id, TxView { state: TxState::Success, ..t })
    }

    // ---- cancel_order_buy ----------------------------------------------

    pub open spec fn cancel_order_buy_check(
        self,
        caller: Seq<char>,
        id: Seq<char>,
    ) -> Option<P2pError> {
        if !self.has_tx(id) {
            Some(P2pError::TransactionNotFound)
        } else if self.tx(id).state != TxState::Init {
            Some(P2pError::InvalidState(self.tx(id).state))
        } else if caller != self.tx(id).buyer {
            Some(P2pError::Unauthorized)
        } else {
            None
        }
    }

    /// Cancelling a buy order returns `amount` to the seller's listing
    /// and makes the transaction `Cancelled`.
    pub open spec fn cancel_order_buy_tr(self, id: Seq<char>) -> LedgerView {
        let t = self.tx(id);
        let s0 = self.acct(t.seller);
        let m1 = self.set_acct(t.seller, AccountView {
            available: (s0.available + t.amount) as u128,
            ..s0
        });
        m1.set_tx(id, TxView { state: TxState::Cancelled, ..t })
    }

    // ---- cancel_order_sell ---------------------------------------------

    pub open spec fn cancel_order_sell_check(self, caller: Seq<char>) -> Option<P2pError> {
        if !self.has_acct(caller) {
            Some(P2pError::AccountNotFound)
        } else if self.acct(caller).available == 0 {
            Some(P2pError::InsufficientListing)
        } else {
            None
        }
    }

    /// Delisting zeroes `available` and `price` without restoring
    /// `balance`; listed funds return to the seller only through a
    /// buyer's cancellation.
    pub open spec fn cancel_order_sell_tr(self, caller: Seq<char>) -> LedgerView {
        self.set_acct(caller, AccountView {
            available: 0,
            price: 0,
            ..self.acct(caller)
        })
    }

    // ---- vote ----------------------------------------------------------

    pub open spec fn vote_check(
        self,
        caller: Seq<char>,
        target: Seq<char>,
        value: i8,
    ) -> Option<P2pError> {
        if caller == target {
            Some(P2pError::SelfVote)
        } else if !self.has_acct(target) {
            Some(P2pError::AccountNotFound)
        } else if value != 1 && value != -1 {
            Some(P2pError::InvalidValue)
        } else {
            None
        }
    }

    pub open spec fn vote_tr(self, target: Seq<char>, value: i8) -> LedgerView {
        let a = self.acct(target);
        if value == 1 {
            self.set_acct(target, AccountView { vote_up: (a.vote_up + 1) as u128, ..a })
        } else {
            self.set_acct(target, AccountView { vote_down: (a.vote_down + 1) as u128, ..a })
        }
    }

    // ---- queries -------------------------------------------------------

    /// The order book: the projection of every account with a live
    /// listing, in ledger order.
    pub open spec fn order_book(self) -> Seq<crate::types::SellView> {
        order_book_of(self.accounts)
    }
}

/// Every identifier in an account's histories resolves against the
/// transaction table.
pub proof fn lemma_wf_acct_histories(m: LedgerView, id: Seq<char>)
    requires
        m.wf(),
        m.has_acct(id),
    ensures
        forall|j: int| 0 <= j < m.acct(id).history_buy.len()
            ==> m.has_tx(#[trigger] m.acct(id).history_buy[j]),
        forall|j: int| 0 <= j < m.acct(id).history_sell.len()
            ==> m.has_tx(#[trigger] m.acct(id).history_sell[j]),
{
    let i = key_index(m.accounts, id);
    assert(0 <= i < m.accounts.len() && m.accounts[i].0 == id);
    assert(m.accounts[i].1 == m.acct(id));
}

/// Replacing one account's record preserves well-formedness as long as
/// every identifier in the new record's histories still resolves.
#[verifier::rlimit(50)]
pub proof fn lemma_wf_set_acct(m: LedgerView, id: Seq<char>, a: AccountView)
    requires
        m.wf(),
        m.has_acct(id),
        forall|j: int| 0 <= j < a.history_buy.len()
            ==> m.has_tx(#[trigger] a.history_buy[j]),
        forall|j: int| 0 <= j < a.history_sell.len()
            ==> m.has_tx(#[trigger] a.history_sell[j]),
    ensures
        m.set_acct(id, a).wf(),
        m.set_acct(id, a).accounts.len() == m.accounts.len(),
        m.set_acct(id, a).historys == m.historys,
        m.set_acct(id, a).acct(id) == a,
        forall|k: Seq<char>| m.set_acct(id, a).has_acct(k) == m.has_acct(k),
        forall|k: Seq<char>|
            m.has_acct(k) && k != id ==> m.set_acct(id, a).acct(k) == m.acct(k),
        forall|k: Seq<char>| m.has_acct(k)
            ==> key_index::<AccountView>(m.set_acct(id, a).accounts, k)
                == key_index::<AccountView>(m.accounts, k),
        m.set_acct(id, a).total_balance()
            == m.total_balance() + a.balance - m.acct(id).balance,
{
    lemma_set_key(m.accounts, id, a);
    let i = key_index(m.accounts, id);
    lemma_sum_balances_update(m.accounts, i, (id, a));
    let m2 = m.set_acct(id, a);
    assert forall|p: int| 0 <= p < m2.historys.len() implies
        m2.has_acct(#[trigger] m2.historys[p].1.buyer)
            && m2.has_acct(m2.historys[p].1.seller) by {
        assert(m.has_acct(m.historys[p].1.buyer));
        assert(m.has_acct(m.historys[p].1.seller));
    }
    assert forall|p: int, j: int|
        0 <= p < m2.accounts.len() && 0 <= j < m2.accounts[p].1.history_buy.len()
        implies m2.has_tx(#[trigger] m2.accounts[p].1.history_buy[j]) by {
        if p == i {
            assert(m2.accounts[p].1 == a);
        } else {
            assert(m2.accounts[p] == m.accounts[p]);
        }
    }
    assert forall|p: int, j: int|
        0 <= p < m2.accounts.len() && 0 <= j < m2.accounts[p].1.history_sell.len()
        implies m2.has_tx(#[trigger] m2.accounts[p].1.history_sell[j]) by {
        if p == i {
            assert(m2.accounts[p].1 == a);
        } else {
            assert(m2.accounts[p] == m.accounts[p]);
        }
    }
}

/// Adding an account under a fresh identifier preserves well-formedness
/// as long as every identifier in its histories resolves.
#[verifier::rlimit(50)]
pub proof fn lemma_wf_push_acct(m: LedgerView, id: Seq<char>, a: AccountView)
    requires
        m.wf(),
        !m.has_acct(id),
        forall|j: int| 0 <= j < a.history_buy.len()
            ==> m.has_tx(#[trigger] a.history_buy[j]),
        forall|j: int| 0 <= j < a.history_sell.len()
            ==> m.has_tx(#[trigger] a.history_sell[j]),
    ensures
        (LedgerView { accounts: m.accounts.push((id, a)), historys: m.historys }).wf(),
        (LedgerView { accounts: m.accounts.push((id, a)), historys: m.historys }).has_acct(id),
        (LedgerView { accounts: m.accounts.push((id, a)), historys: m.historys }).acct(id) == a,
        forall|k: Seq<char>| k != id
            ==> (LedgerView { accounts: m.accounts.push((id, a)), historys: m.historys })
                .has_acct(k) == m.has_acct(k),
        forall|k: Seq<char>| m.has_acct(k)
            ==> (LedgerView { accounts: m.accounts.push((id, a)), historys: m.historys })
                .acct(k) == m.acct(k),
        (LedgerView { accounts: m.accounts.push((id, a)), historys: m.historys })
            .total_balance() == m.total_balance() + a.balance,
{
    lemma_push_key(m.accounts, id, a);
    lemma_sum_balances_push(m.accounts, (id, a));
    let m2 = LedgerView { accounts: m.accounts.push((id, a)), historys: m.historys };
    assert forall|p: int| 0 <= p < m2.historys.len() implies
        m2.has_acct(#[trigger] m2.historys[p].1.buyer)
            && m2.has_acct(m2.historys[p].1.seller) by {
        assert(m.has_acct(m.historys[p].1.buyer));
        assert(m.has_acct(m.historys[p].1.seller));
    }
    assert forall|p: int, j: int|
        0 <= p < m2.accounts.len() && 0 <= j < m2.accounts[p].1.history_buy.len()
        implies m2.has_tx(#[trigger] m2.accounts[p].1.history_buy[j]) by {
        if p < m.accounts.len() {
            assert(m2.accounts[p] == m.accounts[p]);
        } else {
            assert(m2.accounts[p].1 == a);
        }
    }
    assert forall|p: int, j: int|
        0 <= p < m2.accounts.len() && 0 <= j < m2.accounts[p].1.history_sell.len()
        implies m2.has_tx(#[trigger] m2.accounts[p].1.history_sell[j]) by {
        if p < m.accounts.len() {
            assert(m2.accounts[p] == m.accounts[p]);
        } else {
            assert(m2.accounts[p].1 == a);
        }
    }
}

/// Replacing one stored transaction preserves well-formedness as long as
/// both its parties still have accounts.
#[verifier::rlimit(50)]
pub proof fn lemma_wf_set_tx(m: LedgerView, id: Seq<char>, t: TxView)
    requires
        m.wf(),
        m.has_tx(id),
        m.has_acct(t.buyer),
        m.has_acct(t.seller),
    ensures
        m.set_tx(id, t).wf(),
        m.set_tx(id, t).accounts == m.accounts,
        m.set_tx(id, t).tx(id) == t,
        forall|k: Seq<char>| m.set_tx(id, t).has_tx(k) == m.has_tx(k),
        forall|k: Seq<char>| m.has_tx(k) && k != id ==> m.set_tx(id, t).tx(k) == m.tx(k),
        m.set_tx(id, t).total_balance() == m.total_balance(),
{
    lemma_set_key(m.historys, id, t);
    let i = key_index(m.historys, id);
    let m2 = m.set_tx(id, t);
    assert forall|p: int| 0 <= p < m2.historys.len() implies
        m2.has_acct(#[trigger] m2.historys[p].1.buyer)
            && m2.has_acct(m2.historys[p].1.seller) by {
        if p == i {
            assert(m2.historys[p].1 == t);
        } else {
            assert(m2.historys[p] == m.historys[p]);
        }
    }
    assert forall|p: int, j: int|
        0 <= p < m2.accounts.len() && 0 <= j < m2.accounts[p].1.history_buy.len()
        implies m2.has_tx(#[trigger] m2.accounts[p].1.history_buy[j]) by {
        assert(m.has_tx(m.accounts[p].1.history_buy[j]));
    }
    assert forall|p: int, j: int|
        0 <= p < m2.accounts.len() && 0 <= j < m2.accounts[p].1.history_sell.len()
        implies m2.has_tx(#[trigger] m2.accounts[p].1.history_sell[j]) by {
        assert(m.has_tx(m.accounts[p].1.history_sell[j]));
    }
    assert(keys_unique(m2.accounts));
    assert(keys_unique(m2.historys));
    assert(forall|p: int| 0 <= p < m2.historys.len()
        ==> m2.has_acct(#[trigger] m2.historys[p].1.buyer)
            && m2.has_acct(m2.historys[p].1.seller));
    assert(forall|p: int, j: int|
        0 <= p < m2.accounts.len() && 0 <= j < m2.accounts[p].1.history_buy.len()
        ==> m2.has_tx(#[trigger] m2.accounts[p].1.history_buy[j]));
    assert(forall|p: int, j: int|
        0 <= p < m2.accounts.len() && 0 <= j < m2.accounts[p].1.history_sell.len()
        ==> m2.has_tx(#[trigger] m2.accounts[p].1.history_sell[j]));
    assert(m2.wf());
}

/// Storing a transaction under a fresh identifier preserves
/// well-formedness as long as both its parties have accounts.
#[verifier::rlimit(50)]
pub proof fn lemma_wf_push_tx(m: LedgerView, id: Seq<char>, t: TxView)
    requires
        m.wf(),
        !m.has_tx(id),
        m.has_acct(t.buyer),
        m.has_acct(t.seller),
    ensures
        (LedgerView { accounts: m.accounts, historys: m.historys.push((id, t)) }).wf(),
        (LedgerView { accounts: m.accounts, historys: m.historys.push((id, t)) }).has_tx(id),
        (LedgerView { accounts: m.accounts, historys: m.historys.push((id, t)) }).tx(id) == t,
        forall|k: Seq<char>| k != id
            ==> (LedgerView { accounts: m.accounts, historys: m.historys.push((id, t)) })
                .has_tx(k) == m.has_tx(k),
        forall|k: Seq<char>| m.has_tx(k)
            ==> (LedgerView { accounts: m.accounts, historys: m.historys.push((id, t)) })
                .tx(k) == m.tx(k),
        (LedgerView { accounts: m.accounts, historys: m.historys.push((id, t)) })
            .total_balance() == m.total_balance(),
{
    lemma_push_key(m.historys, id, t);
    let m2 = LedgerView { accounts: m.accounts, historys: m.historys.push((id, t)) };
    assert forall|p: int| 0 <= p < m2.historys.len() implies
        m2.has_acct(#[trigger] m2.historys[p].1.buyer)
            && m2.has_acct(m2.historys[p].1.seller) by {
        if p < m.historys.len() {
            assert(m2.historys[p] == m.historys[p]);
            assert(m.has_acct(m.historys[p].1.buyer));
            assert(m.has_acct(m.historys[p].1.seller));
        } else {
            assert(m2.historys[p].1 == t);
        }
    }
    assert forall|p: int, j: int|
        0 <= p < m2.accounts.len() && 0 <= j < m2.accounts[p].1.history_buy.len()
        implies m2.has_tx(#[trigger] m2.accounts[p].1.history_buy[j]) by {
        assert(m.has_tx(m.accounts[p].1.history_buy[j]));
    }
    assert forall|p: int, j: int|
        0 <= p < m2.accounts.len() && 0 <= j < m2.accounts[p].1.history_sell.len()
        implies m2.has_tx(#[trigger] m2.accounts[p].1.history_sell[j]) by {
        assert(m.has_tx(m.accounts[p].1.history_sell[j]));
    }
    assert(keys_unique(m2.accounts));
    assert(keys_unique(m2.historys));
    assert(forall|p: int| 0 <= p < m2.historys.len()
        ==> m2.has_acct(#[trigger] m2.historys[p].1.buyer)
            && m2.has_acct(m2.historys[p].1.seller));
    assert(forall|p: int, j: int|
        0 <= p < m2.accounts.len() && 0 <= j < m2.accounts[p].1.history_buy.len()
        ==> m2.has_tx(#[trigger] m2.accounts[p].1.history_buy[j]));
    assert(forall|p: int, j: int|
        0 <= p < m2.accounts.len() && 0 <= j < m2.accounts[p].1.history_sell.len()
        ==> m2.has_tx(#[trigger] m2.accounts[p].1.history_sell[j]));
    assert(m2.wf());
}

/// The projections of the accounts with `available > 0`, in order.
pub open spec fn order_book_of(
    s: Seq<(Seq<char>, AccountView)>,
) -> Seq<crate::types::SellView>
    decreases s.len(),
{
    if s.len() == 0 {
        Seq::empty()
    } else if s.last().1.available > 0 {
        order_book_of(s.drop_last()).push(s.last().1.as_sell_view())
    } else {
        order_book_of(s.drop_last())
    }
}

} // verus!
