//! The ledger engine: accounts, stored transactions, and the escrow
//! state machine over them.  Every operation is a single atomic call: it
//! validates, then either mutates and returns `Ok`, or leaves the ledger
//! untouched and returns the error.  Each contract promises exactly the
//! outcome given by the operation's `..._check` and `..._tr` functions
//! of [`crate::model`].

use vstd::prelude::*;
use crate::model::{
    LedgerView, keys_unique, key_index, lemma_key_index_unique, lemma_wf_acct_histories,
    lemma_wf_set_acct, lemma_wf_push_acct, lemma_wf_set_tx, lemma_wf_push_tx,
};
use crate::types::{AccountInformation, AccountView, History, P2pError, SellInformation, TxState, TxView};
use crate::ident::{spec_tx_id, generate_id, wall_clock_tx_id};

verus! {

/// The escrow ledger: every account and every transaction, in insertion
/// order.  Its abstract value is a [`LedgerView`]; all operations keep
/// [`LedgerView::wf`].
pub struct SimpleP2P {
    accounts: Vec<(String, AccountInformation)>,
    historys: Vec<(String, History)>,
}

impl View for SimpleP2P {
    type V = LedgerView;

    closed spec fn view(&self) -> LedgerView {
        LedgerView {
            accounts: self.accounts@.map_values(
                |p: (String, AccountInformation)| (p.0@, p.1@),
            ),
            historys: self.historys@.map_values(|p: (String, History)| (p.0@, p.1@)),
        }
    }
}

impl SimpleP2P {
    /// An empty ledger: no accounts, no transactions.
    pub fn new() -> (r: SimpleP2P)
        ensures
            r@ == LedgerView::empty(),
            r@.wf(),
    {
        let r = SimpleP2P { accounts: Vec::new(), historys: Vec::new() };
        proof {
            assert(r@.accounts =~= LedgerView::empty().accounts);
            assert(r@.historys =~= LedgerView::empty().historys);
            assert(r@ =~= LedgerView::empty());
        }
        r
    }

    /// Finds the position of an account entry.
    fn find_acct(&self, id: &String) -> (r: Option<usize>)
        requires
            keys_unique(self@.accounts),
        ensures
            (match r {
                Some(i) => self@.has_acct(id@)
                    && i < self@.accounts.len()
                    && self@.accounts[i as int].0 == id@
                    && key_index(self@.accounts, id@) == i as int,
                None => !self@.has_acct(id@),
            }),
    {
        let n = self.accounts.len();
        let mut i: usize = 0;
        while i < n
            invariant
                n == self@.accounts.len(),
                i <= n,
                keys_unique(self@.accounts),
                forall|j: int| 0 <= j < i ==> self@.accounts[j].0 != id@,
            decreases n - i,
        {
            if self.accounts[i].0 == *id {
                proof {
                    assert(self.accounts@[i as int].0@ == id@);
                    assert(self@.accounts[i as int].0 == id@);
                    lemma_key_index_unique(self@.accounts, id@, i as int);
                    assert(self@.has_acct(id@));
                }
                return Some(i);
            }
            i = i + 1;
        }
        None
    }

    /// Finds the position of a stored transaction.
    fn find_tx(&self, id: &String) -> (r: Option<usize>)
        requires
            keys_unique(self@.historys),
        ensures
            (match r {
                Some(i) => self@.has_tx(id@)
                    && i < self@.historys.len()
                    && self@.historys[i as int].0 == id@
                    && key_index(self@.historys, id@) == i as int,
                None => !self@.has_tx(id@),
            }),
    {
        let n = self.historys.len();
        let mut i: usize = 0;
        while i < n
            invariant
                n == self@.historys.len(),
                i <= n,
                keys_unique(self@.historys),
                forall|j: int| 0 <= j < i ==> self@.historys[j].0 != id@,
            decreases n - i,
        {
            if self.historys[i].0 == *id {
                proof {
                    assert(self.historys@[i as int].0@ == id@);
                    assert(self@.historys[i as int].0 == id@);
                    lemma_key_index_unique(self@.historys, id@, i as int);
                    assert(self@.has_tx(id@));
                }
                return Some(i);
            }
            i = i + 1;
        }
        None
    }

    /// Deposits `amount` into the caller's account, creating the account
    /// on first use with all other fields zero and empty.
    pub fn deposit(&mut self, caller: String, amount: u128)
        requires
            old(self)@.wf(),
            old(self)@.has_acct(caller@)
                ==> old(self)@.acct(caller@).balance + amount <= u128::MAX,
        ensures
            final(self)@.wf(),
            final(self)@ == old(self)@.deposit_tr(caller@, amount),
            final(self)@.has_acct(caller@),
            final(self)@.acct(caller@).balance == (if old(self)@.has_acct(caller@) {
                old(self)@.acct(caller@).balance + amount
            } else {
                amount as int
            }),
            final(self)@.total_balance() == old(self)@.total_balance() + amount,
    {
        match self.find_acct(&caller) {
            Some(i) => {
                let (key, a) = self.accounts.remove(i);
                let a2 = AccountInformation { balance: a.balance + amount, ..a };
                proof {
                    assert(a2@ =~~= (AccountView {
                        balance: (old(self)@.acct(caller@).balance + amount) as u128,
                        ..old(self)@.acct(caller@)
                    }));
                    lemma_wf_acct_histories(old(self)@, caller@);
                    lemma_wf_set_acct(old(self)@, caller@, a2@);
                }
                self.accounts.insert(i, (key, a2));
                proof {
                    assert(self@.accounts
                        =~= old(self)@.accounts.update(i as int, (caller@, a2@)));
                    assert(self@ =~= old(self)@.deposit_tr(caller@, amount));
                }
            },
            None => {
                let a2 = AccountInformation {
                    balance: amount,
                    available: 0,
                    price: 0,
                    history_buy: Vec::new(),
                    history_sell: Vec::new(),
                    bank_number: String::new(),
                    bank_name: String::new(),
                    vote_up: 0,
                    vote_down: 0,
                };
                proof {
                    assert(a2@ =~~= (AccountView { balance: amount, ..AccountView::fresh() }));
                    lemma_wf_push_acct(old(self)@, caller@, a2@);
                }
                self.accounts.push((caller, a2));
                proof {
                    assert(self@.accounts =~= old(self)@.accounts.push(
                        (caller@, AccountView { balance: amount, ..AccountView::fresh() }),
                    ));
                    assert(self@ =~= old(self)@.deposit_tr(caller@, amount));
                }
            },
        }
    }

    /// Withdraws `amount` from the caller's balance.  The ledger commits
    /// the decrement; actually paying the amount out is the host's task.
    pub fn withdraw(&mut self, caller: String, amount: u128) -> (r: Result<(), P2pError>)
        requires
            old(self)@.wf(),
        ensures
            final(self)@.wf(),
            (match old(self)@.withdraw_check(caller@, amount) {
                Some(e) => r == Err::<(), P2pError>(e) && final(self)@ == old(self)@,
                None => r == Ok::<(), P2pError>(())
                    && final(self)@ == old(self)@.withdraw_tr(caller@, amount)
                    && final(self)@.acct(caller@).balance
                        == old(self)@.acct(caller@).balance - amount
                    && final(self)@.total_balance() == old(self)@.total_balance() - amount,
            }),
    {
        let i = match self.find_acct(&caller) {
            Some(i) => i,
            None => { return Err(P2pError::AccountNotFound); },
        };
        proof {
            assert(self@.accounts[i as int].1 == self@.acct(caller@));
        }
        if self.accounts[i].1.balance < amount {
            return Err(P2pError::InsufficientFunds);
        }
        let (key, a) = self.accounts.remove(i);
        let a2 = AccountInformation { balance: a.balance - amount, ..a };
        proof {
            assert(a2@ =~~= (AccountView {
                balance: (old(self)@.acct(caller@).balance - amount) as u128,
                ..old(self)@.acct(caller@)
            }));
            lemma_wf_acct_histories(old(self)@, caller@);
            lemma_wf_set_acct(old(self)@, caller@, a2@);
        }
        self.accounts.insert(i, (key, a2));
        proof {
            assert(self@.accounts =~= old(self)@.accounts.update(i as int, (caller@, a2@)));
            assert(self@ =~= old(self)@.withdraw_tr(caller@, amount));
        }
        Ok(())
    }

    /// Records the caller's payment method, overwriting any earlier one.
    pub fn set_bank_account(
        &mut self,
        caller: String,
        number: String,
        bank_name: String,
    ) -> (r: Result<(), P2pError>)
        requires
            old(self)@.wf(),
        ensures
            final(self)@.wf(),
            (match old(self)@.set_bank_account_check(caller@) {
                Some(e) => r == Err::<(), P2pError>(e) && final(self)@ == old(self)@,
                None => r == Ok::<(), P2pError>(())
                    && final(self)@
                        == old(self)@.set_bank_account_tr(caller@, number@, bank_name@)
                    && final(self)@.acct(caller@).bank_number == number@
                    && final(self)@.acct(caller@).bank_name == bank_name@
                    && final(self)@.total_balance() == old(self)@.total_balance(),
            }),
    {
        let i = match self.find_acct(&caller) {
            Some(i) => i,
            None => { return Err(P2pError::AccountNotFound); },
        };
        let (key, a) = self.accounts.remove(i);
        let a2 = AccountInformation { bank_number: number, bank_name: bank_name, ..a };
        proof {
            assert(a2@ =~~= (AccountView {
                bank_number: a2.bank_number@,
                bank_name: a2.bank_name@,
                ..old(self)@.acct(caller@)
            }));
            lemma_wf_acct_histories(old(self)@, caller@);
            lemma_wf_set_acct(old(self)@, caller@, a2@);
        }
        self.accounts.insert(i, (key, a2));
        proof {
            assert(self@.accounts =~= old(self)@.accounts.update(i as int, (caller@, a2@)));
            assert(self@ =~= old(self)@.set_bank_account_tr(
                caller@, a2.bank_number@, a2.bank_name@,
            ));
        }
        Ok(())
    }

    /// Lists `amount` units for sale at `price` per unit: reserves
    /// `amount` out of `balance` into `available` and records the price.
    pub fn order_sell(&mut self, caller: String, amount: u128, price: u128) -> (r: Result<(), P2pError>)
        requires
            old(self)@.wf(),
            old(self)@.order_sell_check(caller@, amount, price) is None
                ==> old(self)@.acct(caller@).available + amount <= u128::MAX,
        ensures
            final(self)@.wf(),
            (match old(self)@.order_sell_check(caller@, amount, price) {
                Some(e) => r == Err::<(), P2pError>(e) && final(self)@ == old(self)@,
                None => r == Ok::<(), P2pError>(())
                    && final(self)@ == old(self)@.order_sell_tr(caller@, amount, price)
                    && final(self)@.acct(caller@).available
                        == old(self)@.acct(caller@).available + amount
                    && final(self)@.acct(caller@).balance
                        == old(self)@.acct(caller@).balance - amount
                    && final(self)@.acct(caller@).price == price
                    && final(self)@.total_balance() == old(self)@.total_balance() - amount,
            }),
    {
        if amount == 0 {
            return Err(P2pError::InvalidAmount);
        }
        if price == 0 {
            return Err(P2pError::InvalidPrice);
        }
        let i = match self.find_acct(&caller) {
            Some(i) => i,
            None => { return Err(P2pError::AccountNotFound); },
        };
        proof {
            assert(self@.accounts[i as int].1 == self@.acct(caller@));
        }
        if self.accounts[i].1.bank_number.as_str().is_empty()
            || self.accounts[i].1.bank_name.as_str().is_empty() {
            return Err(P2pError::PaymentMethodRequired);
        }
        if self.accounts[i].1.balance < amount {
            return Err(P2pError::InsufficientFunds);
        }
        let (key, a) = self.accounts.remove(i);
        let a2 = AccountInformation {
            balance: a.balance - amount,
            available: a.available + amount,
            price: price,
            ..a
        };
        proof {
            assert(a2@ =~~= (AccountView {
                balance: (old(self)@.acct(caller@).balance - amount) as u128,
                available: (old(self)@.acct(caller@).available + amount) as u128,
                price: price,
                ..old(self)@.acct(caller@)
            }));
            lemma_wf_acct_histories(old(self)@, caller@);
            lemma_wf_set_acct(old(self)@, caller@, a2@);
        }
        self.accounts.insert(i, (key, a2));
        proof {
            assert(self@.accounts =~= old(self)@.accounts.update(i as int, (caller@, a2@)));
            assert(self@ =~= old(self)@.order_sell_tr(caller@, amount, price));
        }
        Ok(())
    }

    /// Takes the caller's listing off the order book: zeroes `available`
    /// and `price`.  The listed funds do not return to `balance`; they
    /// come back to the seller only through a buyer's cancellation.
    pub fn cancel_order_sell(&mut self, caller: String) -> (r: Result<(), P2pError>)
        requires
            old(self)@.wf(),
        ensures
            final(self)@.wf(),
            (match old(self)@.cancel_order_sell_check(caller@) {
                Some(e) => r == Err::<(), P2pError>(e) && final(self)@ == old(self)@,
                None => r == Ok::<(), P2pError>(())
                    && final(self)@ == old(self)@.cancel_order_sell_tr(caller@)
                    && final(self)@.acct(caller@).available == 0
                    && final(self)@.acct(caller@).price == 0
                    && final(self)@.acct(caller@).balance
                        == old(self)@.acct(caller@).balance
                    && final(self)@.total_balance() == old(self)@.total_balance(),
            }),
    {
        let i = match self.find_acct(&caller) {
            Some(i) => i,
            None => { return Err(P2pError::AccountNotFound); },
        };
        proof {
            assert(self@.accounts[i as int].1 == self@.acct(caller@));
        }
        if self.accounts[i].1.available == 0 {
            return Err(P2pError::InsufficientListing);
        }
        let (key, a) = self.accounts.remove(i);
        let a2 = AccountInformation { available: 0, price: 0, ..a };
        proof {
            assert(a2@ =~~= (AccountView {
                available: 0,
                price: 0,
                ..old(self)@.acct(caller@)
            }));
            lemma_wf_acct_histories(old(self)@, caller@);
            lemma_wf_set_acct(old(self)@, caller@, a2@);
        }
        self.accounts.insert(i, (key, a2));
        proof {
            assert(self@.accounts =~= old(self)@.accounts.update(i as int, (caller@, a2@)));
            assert(self@ =~= old(self)@.cancel_order_sell_tr(caller@));
        }
        Ok(())
    }

    /// Opens a buy order against `seller_id`'s listing: takes `amount`
    /// out of the seller's `available`, stores a new transaction in state
    /// `Init` under an identifier derived from the parties, the amount
    /// and the host-supplied nonce, appends that identifier to both
    /// parties' histories, and returns it.
    pub fn order_buy(
        &mut self,
        caller: String,
        seller_id: String,
        amount: u128,
        block_height: u64,
        timestamp: u64,
    ) -> (r: Result<String, P2pError>)
        requires
            old(self)@.wf(),
        ensures
            final(self)@.wf(),
            (match old(self)@.order_buy_check(
                caller@, seller_id@, amount,
                spec_tx_id(caller@, seller_id@, amount, block_height, timestamp),
            ) {
                Some(e) => r == Err::<String, P2pError>(e) && final(self)@ == old(self)@,
                None => r matches Ok(id)
                    && id@ == spec_tx_id(caller@, seller_id@, amount, block_height, timestamp)
                    && final(self)@ == old(self)@.order_buy_tr(
                        caller@, seller_id@, amount,
                        spec_tx_id(caller@, seller_id@, amount, block_height, timestamp),
                    )
                    && final(self)@.has_tx(id@)
                    && final(self)@.tx(id@) == (TxView {
                        buyer: caller@,
                        seller: seller_id@,
                        amount: amount,
                        state: TxState::Init,
                    })
                    && final(self)@.acct(seller_id@).available
                        == old(self)@.acct(seller_id@).available - amount
                    && final(self)@.acct(caller@).history_buy
                        == old(self)@.acct(caller@).history_buy.push(id@)
                    && final(self)@.acct(seller_id@).history_sell
                        == old(self)@.acct(seller_id@).history_sell.push(id@)
                    && final(self)@.total_balance() == old(self)@.total_balance(),
            }),
    {
        let ghost m0 = self@;
        let si = match self.find_acct(&seller_id) {
            Some(i) => i,
            None => { return Err(P2pError::AccountNotFound); },
        };
        if amount == 0 {
            return Err(P2pError::InvalidAmount);
        }
        proof {
            assert(self@.accounts[si as int].1 == self@.acct(seller_id@));
        }
        if self.accounts[si].1.available < amount {
            return Err(P2pError::InsufficientListing);
        }
        let bi = match self.find_acct(&caller) {
            Some(i) => i,
            None => { return Err(P2pError::AccountNotFound); },
        };
        let id = generate_id(caller.as_str(), seller_id.as_str(), amount, block_height, timestamp);
        let ghost idv = spec_tx_id(caller@, seller_id@, amount, block_height, timestamp);
        if self.find_tx(&id).is_some() {
            return Err(P2pError::IdCollision);
        }
        let ghost txv = TxView {
            buyer: caller@,
            seller: seller_id@,
            amount: amount,
            state: TxState::Init,
        };
        proof {
            lemma_wf_push_tx(m0, idv, txv);
        }
        let record = History {
            buyer: caller.clone(),
            seller: seller_id.clone(),
            amount: amount,
            state: TxState::Init,
        };
        self.historys.push((id.clone(), record));
        let ghost m1 = LedgerView { accounts: m0.accounts, historys: m0.historys.push((idv, txv)) };
        proof {
            assert(self@.historys =~= m1.historys);
            assert(self@ =~= m1);
        }
        // Seller: take the amount off the listing, record the sale.
        let ghost s0 = m1.acct(seller_id@);
        let (skey, mut sa) = self.accounts.remove(si);
        sa.available = sa.available - amount;
        sa.history_sell.push(id.clone());
        let ghost sv = AccountView {
            available: (s0.available - amount) as u128,
            history_sell: s0.history_sell.push(idv),
            ..s0
        };
        proof {
            assert(sa@ =~~= sv);
            lemma_wf_acct_histories(m1, seller_id@);
            lemma_wf_set_acct(m1, seller_id@, sv);
        }
        self.accounts.insert(si, (skey, sa));
        let ghost m2 = m1.set_acct(seller_id@, sv);
        proof {
            assert(self@.accounts =~= m1.accounts.update(si as int, (seller_id@, sv)));
            assert(self@ =~= m2);
        }
        // Buyer: record the purchase.
        let ghost b0 = m2.acct(caller@);
        let (bkey, mut ba) = self.accounts.remove(bi);
        ba.history_buy.push(id.clone());
        let ghost bv = AccountView { history_buy: b0.history_buy.push(idv), ..b0 };
        proof {
            assert(m1.accounts == m0.accounts);
            assert(m1.has_acct(caller@));
            assert(key_index(m1.accounts, caller@) == bi as int);
            assert(key_index(m2.accounts, caller@) == bi as int);
            assert(ba@ =~~= bv);
            lemma_wf_acct_histories(m2, caller@);
            lemma_wf_set_acct(m2, caller@, bv);
        }
        self.accounts.insert(bi, (bkey, ba));
        let ghost m3 = m2.set_acct(caller@, bv);
        proof {
            assert(self@.accounts =~= m2.accounts.update(bi as int, (caller@, bv)));
            assert(self@ =~= m3);
            assert(self@.accounts =~= m0.order_buy_tr(caller@, seller_id@, amount, idv).accounts);
            assert(self@.historys =~= m0.order_buy_tr(caller@, seller_id@, amount, idv).historys);
            assert(self@ =~= m0.order_buy_tr(caller@, seller_id@, amount, idv));
            assert(self@.historys == m1.historys);
            assert(self@.tx(idv) == txv);
            assert(self@.acct(caller@) == bv);
            if caller@ == seller_id@ {
                assert(bv.available == sv.available);
                assert(bv.history_sell == sv.history_sell);
            } else {
                assert(m1.has_acct(seller_id@));
                assert(m2.has_acct(seller_id@));
                assert(m2.acct(seller_id@) == sv);
                assert(self@.acct(seller_id@) == m2.acct(seller_id@));
            }
            assert(m1.acct(seller_id@) == m0.acct(seller_id@));
            assert(m2.acct(caller@) == b0);
            assert(sv.balance == m0.acct(seller_id@).balance);
            assert(bv.balance == b0.balance);
            assert(m1.total_balance() == m0.total_balance());
            assert(self@.total_balance() == m0.total_balance());
        }
        Ok(id)
    }

    /// The buyer confirms having sent the payment: the transaction moves
    /// from `Init` to `Processing`.
    pub fn confirm_sent(&mut self, caller: String, tx: String) -> (r: Result<(), P2pError>)
        requires
            old(self)@.wf(),
        ensures
            final(self)@.wf(),
            (match old(self)@.confirm_sent_check(caller@, tx@) {
                Some(e) => r == Err::<(), P2pError>(e) && final(self)@ == old(self)@,
                None => r == Ok::<(), P2pError>(())
                    && final(self)@ == old(self)@.confirm_sent_tr(tx@)
                    && final(self)@.tx(tx@).state == TxState::Processing
                    && final(self)@.accounts == old(self)@.accounts,
            }),
    {
        let i = match self.find_tx(&tx) {
            Some(i) => i,
            None => { return Err(P2pError::TransactionNotFound); },
        };
        proof {
            assert(self@.historys[i as int].1 == self@.tx(tx@));
        }
        let st = self.historys[i].1.state;
        if st != TxState::Init {
            return Err(P2pError::InvalidState(st));
        }
        if caller != self.historys[i].1.buyer {
            return Err(P2pError::Unauthorized);
        }
        let (key, t) = self.historys.remove(i);
        let t2 = History { state: TxState::Processing, ..t };
        proof {
            assert(t2@ =~~= (TxView { state: TxState::Processing, ..old(self)@.tx(tx@) }));
            assert(old(self)@.has_acct(old(self)@.historys[i as int].1.buyer));
            assert(old(self)@.has_acct(old(self)@.historys[i as int].1.seller));
            lemma_wf_set_tx(old(self)@, tx@, t2@);
        }
        self.historys.insert(i, (key, t2));
        proof {
            assert(self@.historys =~= old(self)@.historys.update(i as int, (tx@, t2@)));
            assert(self@ =~= old(self)@.confirm_sent_tr(tx@));
        }
        Ok(())
    }

    /// The seller confirms having received the payment: `amount` moves
    /// from the seller's `balance` to the buyer's and the transaction
    /// becomes `Success`.  This is the only operation that moves value
    /// between accounts.
    pub fn confirm_received(&mut self, caller: String, tx: String) -> (r: Result<(), P2pError>)
        requires
            old(self)@.wf(),
            old(self)@.confirm_received_check(caller@, tx@) is None ==> (
                old(self)@.acct(old(self)@.tx(tx@).seller).balance >= old(self)@.tx(tx@).amount
                && (old(self)@.tx(tx@).buyer != old(self)@.tx(tx@).seller
                    ==> old(self)@.acct(old(self)@.tx(tx@).buyer).balance
                        + old(self)@.tx(tx@).amount <= u128::MAX)
            ),
        ensures
            final(self)@.wf(),
            (match old(self)@.confirm_received_check(caller@, tx@) {
                Some(e) => r == Err::<(), P2pError>(e) && final(self)@ == old(self)@,
                None => r == Ok::<(), P2pError>(())
                    && final(self)@ == old(self)@.confirm_received_tr(tx@)
                    && final(self)@.tx(tx@).state == TxState::Success
                    && final(self)@.total_balance() == old(self)@.total_balance()
                    && (old(self)@.tx(tx@).buyer != old(self)@.tx(tx@).seller ==> (
                        final(self)@.acct(old(self)@.tx(tx@).buyer).balance
                            == old(self)@.acct(old(self)@.tx(tx@).buyer).balance
                                + old(self)@.tx(tx@).amount
                        && final(self)@.acct(old(self)@.tx(tx@).seller).balance
                            == old(self)@.acct(old(self)@.tx(tx@).seller).balance
                                - old(self)@.tx(tx@).amount
                    )),
            }),
    {
        let ghost m0 = self@;
        let ti = match self.find_tx(&tx) {
            Some(i) => i,
            None => { return Err(P2pError::TransactionNotFound); },
        };
        proof {
            assert(self@.historys[ti as int].1 == self@.tx(tx@));
        }
        let st = self.historys[ti].1.state;
        if st != TxState::Processing {
            return Err(P2pError::InvalidState(st));
        }
        if caller != self.historys[ti].1.seller {
            return Err(P2pError::Unauthorized);
        }
        let ghost t0 = m0.tx(tx@);
        proof {
            assert(m0.has_acct(m0.historys[ti as int].1.buyer));
            assert(m0.has_acct(m0.historys[ti as int].1.seller));
        }
        let seller_key = self.historys[ti].1.seller.clone();
        let buyer_key = self.historys[ti].1.buyer.clone();
        let amount = self.historys[ti].1.amount;
        // Seller pays out.
        let si = match self.find_acct(&seller_key) {
            Some(i) => i,
            None => { proof { assert(false); } return Err(P2pError::AccountNotFound); },
        };
        let ghost s0 = m0.acct(t0.seller);
        let (skey, mut sa) = self.accounts.remove(si);
        sa.balance = sa.balance - amount;
        let ghost sv = AccountView { balance: (s0.balance - t0.amount) as u128, ..s0 };
        proof {
            assert(sa@ =~~= sv);
            lemma_wf_acct_histories(m0, t0.seller);
            lemma_wf_set_acct(m0, t0.seller, sv);
        }
        self.accounts.insert(si, (skey, sa));
        let ghost m1 = m0.set_acct(t0.seller, sv);
        proof {
            assert(self@.accounts =~= m0.accounts.update(si as int, (t0.seller, sv)));
            assert(self@ =~= m1);
        }
        // Buyer is credited.
        let bi = match self.find_acct(&buyer_key) {
            Some(i) => i,
            None => { proof { assert(false); } return Err(P2pError::AccountNotFound); },
        };
        let ghost b0 = m1.acct(t0.buyer);
        let (bkey, mut ba) = self.accounts.remove(bi);
        ba.balance = ba.balance + amount;
        let ghost bv = AccountView { balance: (b0.balance + t0.amount) as u128, ..b0 };
        proof {
            assert(ba@ =~~= bv);
            lemma_wf_acct_histories(m1, t0.buyer);
            lemma_wf_set_acct(m1, t0.buyer, bv);
        }
        self.accounts.insert(bi, (bkey, ba));
        let ghost m2 = m1.set_acct(t0.buyer, bv);
        proof {
            assert(self@.accounts =~= m1.accounts.update(bi as int, (t0.buyer, bv)));
            assert(self@ =~= m2);
        }
        // The transaction is settled.
        let (tkey, t) = self.historys.remove(ti);
        let t2 = History { state: TxState::Success, ..t };
        proof {
            assert(t2@ =~~= (TxView { state: TxState::Success, ..t0 }));
            lemma_wf_set_tx(m2, tx@, t2@);
        }
        self.historys.insert(ti, (tkey, t2));
        proof {
            assert(self@.historys =~= m2.historys.update(ti as int, (tx@, t2@)));
            assert(self@ =~= m2.set_tx(tx@, t2@));
            assert(self@ =~= m0.confirm_received_tr(tx@));
        }
        Ok(())
    }

    /// The buyer cancels a buy order that is still in `Init`: the amount
    /// returns to the seller's listing and the transaction becomes
    /// `Cancelled`.  Once the buyer has confirmed sending, cancellation
    /// is no longer allowed.
    pub fn cancel_order_buy(&mut self, caller: String, tx: String) -> (r: Result<(), P2pError>)
        requires
            old(self)@.wf(),
            old(self)@.cancel_order_buy_check(caller@, tx@) is None
                ==> old(self)@.acct(old(self)@.tx(tx@).seller).available
                    + old(self)@.tx(tx@).amount <= u128::MAX,
        ensures
            final(self)@.wf(),
            (match old(self)@.cancel_order_buy_check(caller@, tx@) {
                Some(e) => r == Err::<(), P2pError>(e) && final(self)@ == old(self)@,
                None => r == Ok::<(), P2pError>(())
                    && final(self)@ == old(self)@.cancel_order_buy_tr(tx@)
                    && final(self)@.tx(tx@).state == TxState::Cancelled
                    && final(self)@.acct(old(self)@.tx(tx@).seller).available
                        == old(self)@.acct(old(self)@.tx(tx@).seller).available
                            + old(self)@.tx(tx@).amount
                    && final(self)@.total_balance() == old(self)@.total_balance(),
            }),
    {
        let ghost m0 = self@;
        let ti = match self.find_tx(&tx) {
            Some(i) => i,
            None => { return Err(P2pError::TransactionNotFound); },
        };
        proof {
            assert(self@.historys[ti as int].1 == self@.tx(tx@));
        }
        let st = self.historys[ti].1.state;
        if st != TxState::Init {
            return Err(P2pError::InvalidState(st));
        }
        if caller != self.historys[ti].1.buyer {
            return Err(P2pError::Unauthorized);
        }
        let ghost t0 = m0.tx(tx@);
        proof {
            assert(m0.has_acct(m0.historys[ti as int].1.buyer));
            assert(m0.has_acct(m0.historys[ti as int].1.seller));
        }
        let seller_key = self.historys[ti].1.seller.clone();
        let amount = self.historys[ti].1.amount;
        // The escrowed amount returns to the seller's listing.
        let si = match self.find_acct(&seller_key) {
            Some(i) => i,
            None => { proof { assert(false); } return Err(P2pError::AccountNotFound); },
        };
        let ghost s0 = m0.acct(t0.seller);
        let (skey, mut sa) = self.accounts.remove(si);
        sa.available = sa.available + amount;
        let ghost sv = AccountView { available: (s0.available + t0.amount) as u128, ..s0 };
        proof {
            assert(sa@ =~~= sv);
            lemma_wf_acct_histories(m0, t0.seller);
            lemma_wf_set_acct(m0, t0.seller, sv);
        }
        self.accounts.insert(si, (skey, sa));
        let ghost m1 = m0.set_acct(t0.seller, sv);
        proof {
            assert(self@.accounts =~= m0.accounts.update(si as int, (t0.seller, sv)));
            assert(self@ =~= m1);
        }
        // The transaction is cancelled.
        let (tkey, t) = self.historys.remove(ti);
        let t2 = History { state: TxState::Cancelled, ..t };
        proof {
            assert(t2@ =~~= (TxView { state: TxState::Cancelled, ..t0 }));
            lemma_wf_set_tx(m1, tx@, t2@);
        }
        self.historys.insert(ti, (tkey, t2));
        proof {
            assert(self@.historys =~= m1.historys.update(ti as int, (tx@, t2@)));
            assert(self@ =~= m1.set_tx(tx@, t2@));
            assert(self@ =~= m0.cancel_order_buy_tr(tx@));
        }
        Ok(())
    }

    /// Casts one vote on another account: `1` votes up, `-1` votes down,
    /// anything else is rejected.  Repeat votes are not deduplicated.
    pub fn vote(&mut self, caller: String, account_id: String, value: i8) -> (r: Result<(), P2pError>)
        requires
            old(self)@.wf(),
            old(self)@.vote_check(caller@, account_id@, value) is None ==> (
                (value == 1 ==> old(self)@.acct(account_id@).vote_up < u128::MAX)
                && (value == -1 ==> old(self)@.acct(account_id@).vote_down < u128::MAX)
            ),
        ensures
            final(self)@.wf(),
            (match old(self)@.vote_check(caller@, account_id@, value) {
                Some(e) => r == Err::<(), P2pError>(e) && final(self)@ == old(self)@,
                None => r == Ok::<(), P2pError>(())
                    && final(self)@ == old(self)@.vote_tr(account_id@, value)
                    && (value == 1 ==> final(self)@.acct(account_id@).vote_up
                        == old(self)@.acct(account_id@).vote_up + 1
                        && final(self)@.acct(account_id@).vote_down
                            == old(self)@.acct(account_id@).vote_down)
                    && (value == -1 ==> final(self)@.acct(account_id@).vote_down
                        == old(self)@.acct(account_id@).vote_down + 1
                        && final(self)@.acct(account_id@).vote_up
                            == old(self)@.acct(account_id@).vote_up)
                    && final(self)@.total_balance() == old(self)@.total_balance(),
            }),
    {
        if caller == account_id {
            return Err(P2pError::SelfVote);
        }
        let i = match self.find_acct(&account_id) {
            Some(i) => i,
            None => { return Err(P2pError::AccountNotFound); },
        };
        if value != 1 && value != -1 {
            return Err(P2pError::InvalidValue);
        }
        proof {
            assert(self@.accounts[i as int].1 == self@.acct(account_id@));
        }
        let (key, a) = self.accounts.remove(i);
        let a2 = if value == 1 {
            AccountInformation { vote_up: a.vote_up + 1, ..a }
        } else {
            AccountInformation { vote_down: a.vote_down + 1, ..a }
        };
        proof {
            if value == 1 {
                assert(a2@ =~~= (AccountView {
                    vote_up: (old(self)@.acct(account_id@).vote_up + 1) as u128,
                    ..old(self)@.acct(account_id@)
                }));
            } else {
                assert(a2@ =~~= (AccountView {
                    vote_down: (old(self)@.acct(account_id@).vote_down + 1) as u128,
                    ..old(self)@.acct(account_id@)
                }));
            }
            lemma_wf_acct_histories(old(self)@, account_id@);
            lemma_wf_set_acct(old(self)@, account_id@, a2@);
        }
        self.accounts.insert(i, (key, a2));
        proof {
            assert(self@.accounts =~= old(self)@.accounts.update(i as int, (account_id@, a2@)));
            assert(self@ =~= old(self)@.vote_tr(account_id@, value));
        }
        Ok(())
    }

    /// The order book: the public projection of every account whose
    /// listing is live (`available > 0`), in ledger order.
    pub fn get_order_sell(&self) -> (r: Vec<SellInformation>)
        ensures
            r@.map_values(|s: SellInformation| s@) == self@.order_book(),
    {
        let n = self.accounts.len();
        let mut r: Vec<SellInformation> = Vec::new();
        let mut i: usize = 0;
        while i < n
            invariant
                n == self@.accounts.len(),
                i <= n,
                r@.map_values(|s: SellInformation| s@)
                    == crate::model::order_book_of(self@.accounts.take(i as int)),
            decreases n - i,
        {
            let a = &self.accounts[i].1;
            if a.available > 0 {
                r.push(SellInformation {
                    balance: a.balance,
                    available: a.available,
                    price: a.price,
                    bank_number: a.bank_number.clone(),
                    bank_name: a.bank_name.clone(),
                    vote_up: a.vote_up,
                    vote_down: a.vote_down,
                });
            }
            i = i + 1;
            proof {
                assert(self@.accounts.take(i as int).drop_last()
                    =~= self@.accounts.take(i - 1));
                assert(self@.accounts.take(i as int).last() == self@.accounts[i - 1]);
                assert(r@.map_values(|s: SellInformation| s@)
                    =~= crate::model::order_book_of(self@.accounts.take(i as int)));
            }
        }
        proof {
            assert(self@.accounts.take(n as int) =~= self@.accounts);
        }
        r
    }

    /// The public projection of one account.
    pub fn get_account(&self, account_id: String) -> (r: Result<SellInformation, P2pError>)
        requires
            self@.wf(),
        ensures
            (match r {
                Ok(v) => self@.has_acct(account_id@)
                    && v@ == self@.acct(account_id@).as_sell_view(),
                Err(e) => !self@.has_acct(account_id@)
                    && e == P2pError::AccountNotFound,
            }),
    {
        let i = match self.find_acct(&account_id) {
            Some(i) => i,
            None => { return Err(P2pError::AccountNotFound); },
        };
        proof {
            assert(self@.accounts[i as int].1 == self@.acct(account_id@));
        }
        let a = &self.accounts[i].1;
        Ok(SellInformation {
            balance: a.balance,
            available: a.available,
            price: a.price,
            bank_number: a.bank_number.clone(),
            bank_name: a.bank_name.clone(),
            vote_up: a.vote_up,
            vote_down: a.vote_down,
        })
    }

    /// One stored transaction, by identifier.
    pub fn get_transaction(&self, tx: &String) -> (r: Result<History, P2pError>)
        requires
            self@.wf(),
        ensures
            (match r {
                Ok(t) => self@.has_tx(tx@) && t@ == self@.tx(tx@),
                Err(e) => !self@.has_tx(tx@) && e == P2pError::TransactionNotFound,
            }),
    {
        let i = match self.find_tx(tx) {
            Some(i) => i,
            None => { return Err(P2pError::TransactionNotFound); },
        };
        proof {
            assert(self@.historys[i as int].1 == self@.tx(tx@));
        }
        let t = &self.historys[i].1;
        Ok(History {
            buyer: t.buyer.clone(),
            seller: t.seller.clone(),
            amount: t.amount,
            state: t.state,
        })
    }

    /// Every transaction the account entered as buyer, oldest first,
    /// resolved against the transaction table.
    pub fn get_history_buy(&self, account_id: String) -> (r: Result<Vec<History>, P2pError>)
        requires
            self@.wf(),
        ensures
            (match r {
                Ok(v) => self@.has_acct(account_id@)
                    && v@.len() == self@.acct(account_id@).history_buy.len()
                    && forall|j: int| 0 <= j < v@.len()
                        ==> v@[j]@ == self@.tx(
                            #[trigger] self@.acct(account_id@).history_buy[j],
                        ),
                Err(e) => !self@.has_acct(account_id@)
                    && e == P2pError::AccountNotFound,
            }),
    {
        let i = match self.find_acct(&account_id) {
            Some(i) => i,
            None => { return Err(P2pError::AccountNotFound); },
        };
        proof {
            assert(self@.accounts[i as int].1 == self@.acct(account_id@));
            lemma_wf_acct_histories(self@, account_id@);
        }
        let n = self.accounts[i].1.history_buy.len();
        let mut r: Vec<History> = Vec::new();
        let mut j: usize = 0;
        while j < n
            invariant
                self@.wf(),
                self@.has_acct(account_id@),
                i < self@.accounts.len(),
                self@.accounts[i as int].1 == self@.acct(account_id@),
                n == self@.acct(account_id@).history_buy.len(),
                n == self.accounts@[i as int].1.history_buy@.len(),
                j <= n,
                r@.len() == j,
                forall|p: int| 0 <= p < j
                    ==> r@[p]@ == self@.tx(
                        #[trigger] self@.acct(account_id@).history_buy[p],
                    ),
                forall|p: int| 0 <= p < n
                    ==> self@.has_tx(#[trigger] self@.acct(account_id@).history_buy[p]),
            decreases n - j,
        {
            let tid = &self.accounts[i].1.history_buy[j];
            proof {
                assert(tid@ == self@.acct(account_id@).history_buy[j as int]);
            }
            let ti = match self.find_tx(tid) {
                Some(t) => t,
                None => { proof { assert(false); } return Err(P2pError::AccountNotFound); },
            };
            proof {
                assert(self@.historys[ti as int].1 == self@.tx(tid@));
            }
            let t = &self.historys[ti].1;
            r.push(History {
                buyer: t.buyer.clone(),
                seller: t.seller.clone(),
                amount: t.amount,
                state: t.state,
            });
            j = j + 1;
        }
        Ok(r)
    }

    /// Every transaction the account entered as seller, oldest first,
    /// resolved against the transaction table.
    pub fn get_history_sell(&self, account_id: String) -> (r: Result<Vec<History>, P2pError>)
        requires
            self@.wf(),
        ensures
            (match r {
                Ok(v) => self@.has_acct(account_id@)
                    && v@.len() == self@.acct(account_id@).history_sell.len()
                    && forall|j: int| 0 <= j < v@.len()
                        ==> v@[j]@ == self@.tx(
                            #[trigger] self@.acct(account_id@).history_sell[j],
                        ),
                Err(e) => !self@.has_acct(account_id@)
                    && e == P2pError::AccountNotFound,
            }),
    {
        let i = match self.find_acct(&account_id) {
            Some(i) => i,
            None => { return Err(P2pError::AccountNotFound); },
        };
        proof {
            assert(self@.accounts[i as int].1 == self@.acct(account_id@));
            lemma_wf_acct_histories(self@, account_id@);
        }
        let n = self.accounts[i].1.history_sell.len();
        let mut r: Vec<History> = Vec::new();
        let mut j: usize = 0;
        while j < n
            invariant
                self@.wf(),
                self@.has_acct(account_id@),
                i < self@.accounts.len(),
                self@.accounts[i as int].1 == self@.acct(account_id@),
                n == self@.acct(account_id@).history_sell.len(),
                n == self.accounts@[i as int].1.history_sell@.len(),
                j <= n,
                r@.len() == j,
                forall|p: int| 0 <= p < j
                    ==> r@[p]@ == self@.tx(
                        #[trigger] self@.acct(account_id@).history_sell[p],
                    ),
                forall|p: int| 0 <= p < n
                    ==> self@.has_tx(#[trigger] self@.acct(account_id@).history_sell[p]),
            decreases n - j,
        {
            let tid = &self.accounts[i].1.history_sell[j];
            proof {
                assert(tid@ == self@.acct(account_id@).history_sell[j as int]);
            }
            let ti = match self.find_tx(tid) {
                Some(t) => t,
                None => { proof { assert(false); } return Err(P2pError::AccountNotFound); },
            };
            proof {
                assert(self@.historys[ti as int].1 == self@.tx(tid@));
            }
            let t = &self.historys[ti].1;
            r.push(History {
                buyer: t.buyer.clone(),
                seller: t.seller.clone(),
                amount: t.amount,
                state: t.state,
            });
            j = j + 1;
        }
        Ok(r)
    }

    /// Derives an identifier from the parties and amount, with the
    /// current wall-clock second as the timestamp component of the nonce
    /// and a zero block height.  The host clock, never the caller,
    /// supplies the time.
    pub fn get_hash(buyer: &String, seller: &String, amount: &u128) -> (r: String)
        ensures
            exists|t: u64| r@ == spec_tx_id(buyer@, seller@, *amount, 0, t),
            r@.len() == 64,
    {
        wall_clock_tx_id(buyer, seller, amount)
    }
}

} // verus!
