use simple_p2p::ledger::SimpleP2P;
use simple_p2p::types::{P2pError, TxState};

fn id(s: &str) -> String {
    s.to_string()
}

/// A ledger where `a` holds a funded, listed account (balance 50,
/// available 50 at price 2 after listing 50 of 100) and `b` holds 10.
fn listed_ledger() -> SimpleP2P {
    let mut p = SimpleP2P::new();
    p.deposit(id("a"), 100);
    p.set_bank_account(id("a"), id("12-34"), id("bank")).unwrap();
    p.order_sell(id("a"), 50, 2).unwrap();
    p.deposit(id("b"), 10);
    p
}

fn balance_of(p: &SimpleP2P, who: &str) -> u128 {
    p.get_account(id(who)).unwrap().balance
}

fn available_of(p: &SimpleP2P, who: &str) -> u128 {
    p.get_account(id(who)).unwrap().available
}

#[test]
fn deposit_creates_account() {
    let mut p = SimpleP2P::new();
    assert!(matches!(p.get_account(id("a")), Err(P2pError::AccountNotFound)));
    p.deposit(id("a"), 7);
    let v = p.get_account(id("a")).unwrap();
    assert_eq!(v.balance, 7);
    assert_eq!(v.available, 0);
    assert_eq!(v.price, 0);
    assert_eq!(v.vote_up, 0);
    assert_eq!(v.vote_down, 0);
    assert_eq!(v.bank_number, "");
    assert_eq!(v.bank_name, "");
    p.deposit(id("a"), 5);
    assert_eq!(balance_of(&p, "a"), 12);
}

#[test]
fn withdraw_decrements_or_fails() {
    let mut p = SimpleP2P::new();
    assert_eq!(p.withdraw(id("a"), 1), Err(P2pError::AccountNotFound));
    p.deposit(id("a"), 10);
    assert_eq!(p.withdraw(id("a"), 11), Err(P2pError::InsufficientFunds));
    assert_eq!(p.withdraw(id("a"), 4), Ok(()));
    assert_eq!(balance_of(&p, "a"), 6);
}

#[test]
fn listing_requirements() {
    let mut p = SimpleP2P::new();
    assert_eq!(p.order_sell(id("a"), 0, 2), Err(P2pError::InvalidAmount));
    assert_eq!(p.order_sell(id("a"), 5, 0), Err(P2pError::InvalidPrice));
    assert_eq!(p.order_sell(id("a"), 5, 2), Err(P2pError::AccountNotFound));
    p.deposit(id("a"), 10);
    assert_eq!(p.order_sell(id("a"), 5, 2), Err(P2pError::PaymentMethodRequired));
    assert_eq!(
        p.set_bank_account(id("missing"), id("1"), id("b")),
        Err(P2pError::AccountNotFound)
    );
    p.set_bank_account(id("a"), id("12-34"), id("bank")).unwrap();
    assert_eq!(p.order_sell(id("a"), 11, 2), Err(P2pError::InsufficientFunds));
    assert_eq!(p.order_sell(id("a"), 5, 2), Ok(()));
    assert_eq!(balance_of(&p, "a"), 5);
    assert_eq!(available_of(&p, "a"), 5);
    assert_eq!(p.get_account(id("a")).unwrap().price, 2);
}

#[test]
fn listing_then_overbuying_fails() {
    let p0 = listed_ledger();
    // `available` rose by the listed amount and `balance` fell by it.
    assert_eq!(available_of(&p0, "a"), 50);
    assert_eq!(balance_of(&p0, "a"), 50);
    let mut p = p0;
    let r = p.order_buy(id("b"), id("a"), 51, 1, 1);
    assert_eq!(r.unwrap_err(), P2pError::InsufficientListing);
    // An exact buy of the remainder is accepted.
    assert!(p.order_buy(id("b"), id("a"), 50, 1, 1).is_ok());
    assert_eq!(available_of(&p, "a"), 0);
}

#[test]
fn order_buy_requirements() {
    let mut p = SimpleP2P::new();
    assert_eq!(
        p.order_buy(id("b"), id("a"), 5, 1, 1).unwrap_err(),
        P2pError::AccountNotFound
    );
    p = listed_ledger();
    assert_eq!(
        p.order_buy(id("b"), id("a"), 0, 1, 1).unwrap_err(),
        P2pError::InvalidAmount
    );
    assert_eq!(
        p.order_buy(id("nobody"), id("a"), 5, 1, 1).unwrap_err(),
        P2pError::AccountNotFound
    );
}

#[test]
fn full_settlement_scenario() {
    let mut p = listed_ledger();
    let tx = p.order_buy(id("b"), id("a"), 50, 7, 99).unwrap();
    let t = p.get_transaction(&tx).unwrap();
    assert_eq!(t.buyer, "b");
    assert_eq!(t.seller, "a");
    assert_eq!(t.amount, 50);
    assert_eq!(t.state, TxState::Init);
    assert_eq!(available_of(&p, "a"), 0);

    assert_eq!(p.confirm_sent(id("b"), tx.clone()), Ok(()));
    assert_eq!(p.get_transaction(&tx).unwrap().state, TxState::Processing);

    assert_eq!(p.confirm_received(id("a"), tx.clone()), Ok(()));
    assert_eq!(p.get_transaction(&tx).unwrap().state, TxState::Success);
    assert_eq!(balance_of(&p, "a"), 0);
    assert_eq!(balance_of(&p, "b"), 60);
}

#[test]
fn settlement_conserves_total_balance() {
    let mut p = listed_ledger();
    let total_before = balance_of(&p, "a") + balance_of(&p, "b");
    let tx = p.order_buy(id("b"), id("a"), 30, 1, 1).unwrap();
    p.confirm_sent(id("b"), tx.clone()).unwrap();
    p.confirm_received(id("a"), tx).unwrap();
    let total_after = balance_of(&p, "a") + balance_of(&p, "b");
    assert_eq!(total_before, total_after);
    assert_eq!(balance_of(&p, "a"), 20);
    assert_eq!(balance_of(&p, "b"), 40);
}

#[test]
fn cancel_scenario() {
    let mut p = listed_ledger();
    let tx = p.order_buy(id("b"), id("a"), 50, 7, 99).unwrap();
    assert_eq!(available_of(&p, "a"), 0);
    assert_eq!(p.cancel_order_buy(id("b"), tx.clone()), Ok(()));
    assert_eq!(p.get_transaction(&tx).unwrap().state, TxState::Cancelled);
    assert_eq!(available_of(&p, "a"), 50);
    assert_eq!(balance_of(&p, "a"), 50);
    assert_eq!(balance_of(&p, "b"), 10);
}

#[test]
fn authorization_is_enforced() {
    let mut p = listed_ledger();
    let tx = p.order_buy(id("b"), id("a"), 50, 7, 99).unwrap();
    // Only the buyer may confirm sending or cancel.
    assert_eq!(p.confirm_sent(id("a"), tx.clone()), Err(P2pError::Unauthorized));
    assert_eq!(p.cancel_order_buy(id("a"), tx.clone()), Err(P2pError::Unauthorized));
    p.confirm_sent(id("b"), tx.clone()).unwrap();
    // Only the seller may confirm receipt.
    assert_eq!(p.confirm_received(id("b"), tx.clone()), Err(P2pError::Unauthorized));
    assert_eq!(p.confirm_received(id("a"), tx), Ok(()));
}

#[test]
fn state_machine_rejects_out_of_order_moves() {
    let mut p = listed_ledger();
    let tx = p.order_buy(id("b"), id("a"), 50, 7, 99).unwrap();
    // From Init, receipt cannot be confirmed yet.
    assert_eq!(
        p.confirm_received(id("a"), tx.clone()),
        Err(P2pError::InvalidState(TxState::Init))
    );
    p.confirm_sent(id("b"), tx.clone()).unwrap();
    // From Processing, neither a repeat confirmation nor a cancellation.
    assert_eq!(
        p.confirm_sent(id("b"), tx.clone()),
        Err(P2pError::InvalidState(TxState::Processing))
    );
    assert_eq!(
        p.cancel_order_buy(id("b"), tx.clone()),
        Err(P2pError::InvalidState(TxState::Processing))
    );
}

#[test]
fn terminal_states_reject_replays() {
    let mut p = listed_ledger();
    let tx = p.order_buy(id("b"), id("a"), 50, 7, 99).unwrap();
    p.confirm_sent(id("b"), tx.clone()).unwrap();
    p.confirm_received(id("a"), tx.clone()).unwrap();
    let a_before = balance_of(&p, "a");
    let b_before = balance_of(&p, "b");
    // Replaying the settlement fails and moves nothing.
    assert_eq!(
        p.confirm_received(id("a"), tx.clone()),
        Err(P2pError::InvalidState(TxState::Success))
    );
    assert_eq!(
        p.confirm_sent(id("b"), tx.clone()),
        Err(P2pError::InvalidState(TxState::Success))
    );
    assert_eq!(
        p.cancel_order_buy(id("b"), tx.clone()),
        Err(P2pError::InvalidState(TxState::Success))
    );
    assert_eq!(balance_of(&p, "a"), a_before);
    assert_eq!(balance_of(&p, "b"), b_before);

    // A cancelled transaction is just as final.
    let mut q = listed_ledger();
    let tx2 = q.order_buy(id("b"), id("a"), 20, 1, 2).unwrap();
    q.cancel_order_buy(id("b"), tx2.clone()).unwrap();
    assert_eq!(
        q.cancel_order_buy(id("b"), tx2.clone()),
        Err(P2pError::InvalidState(TxState::Cancelled))
    );
    assert_eq!(
        q.confirm_sent(id("b"), tx2),
        Err(P2pError::InvalidState(TxState::Cancelled))
    );
}

#[test]
fn unknown_transaction_is_reported() {
    let mut p = listed_ledger();
    let bogus = id("0123");
    assert_eq!(p.confirm_sent(id("b"), bogus.clone()), Err(P2pError::TransactionNotFound));
    assert_eq!(p.confirm_received(id("a"), bogus.clone()), Err(P2pError::TransactionNotFound));
    assert_eq!(p.cancel_order_buy(id("b"), bogus.clone()), Err(P2pError::TransactionNotFound));
    assert!(matches!(p.get_transaction(&bogus), Err(P2pError::TransactionNotFound)));
}

#[test]
fn delist_zeroes_listing_without_refund() {
    let mut p = listed_ledger();
    assert_eq!(p.cancel_order_sell(id("a")), Ok(()));
    let v = p.get_account(id("a")).unwrap();
    assert_eq!(v.available, 0);
    assert_eq!(v.price, 0);
    // The listed funds are not restored to the balance.
    assert_eq!(v.balance, 50);
    // With no listing left, delisting again is rejected.
    assert_eq!(p.cancel_order_sell(id("a")), Err(P2pError::InsufficientListing));
    assert_eq!(p.cancel_order_sell(id("ghost")), Err(P2pError::AccountNotFound));
}

#[test]
fn voting_rules() {
    let mut p = SimpleP2P::new();
    p.deposit(id("a"), 1);
    // Voting for oneself always fails, whatever the direction.
    assert_eq!(p.vote(id("a"), id("a"), 1), Err(P2pError::SelfVote));
    assert_eq!(p.vote(id("a"), id("a"), -1), Err(P2pError::SelfVote));
    assert_eq!(p.vote(id("b"), id("missing"), 1), Err(P2pError::AccountNotFound));
    assert_eq!(p.vote(id("b"), id("a"), 3), Err(P2pError::InvalidValue));
    assert_eq!(p.vote(id("b"), id("a"), 0), Err(P2pError::InvalidValue));
    // A down vote on a fresh account: one down, no up.
    assert_eq!(p.vote(id("b"), id("a"), -1), Ok(()));
    let v = p.get_account(id("a")).unwrap();
    assert_eq!(v.vote_down, 1);
    assert_eq!(v.vote_up, 0);
    // Votes accumulate without deduplication.
    assert_eq!(p.vote(id("b"), id("a"), 1), Ok(()));
    assert_eq!(p.vote(id("b"), id("a"), 1), Ok(()));
    let v = p.get_account(id("a")).unwrap();
    assert_eq!(v.vote_up, 2);
    assert_eq!(v.vote_down, 1);
}

#[test]
fn order_book_lists_live_listings_only() {
    let mut p = SimpleP2P::new();
    assert!(p.get_order_sell().is_empty());
    p.deposit(id("a"), 100);
    p.set_bank_account(id("a"), id("11"), id("first")).unwrap();
    p.order_sell(id("a"), 40, 3).unwrap();
    p.deposit(id("b"), 5);
    p.deposit(id("c"), 80);
    p.set_bank_account(id("c"), id("22"), id("second")).unwrap();
    p.order_sell(id("c"), 10, 9).unwrap();
    let book = p.get_order_sell();
    assert_eq!(book.len(), 2);
    assert_eq!(book[0].available, 40);
    assert_eq!(book[0].price, 3);
    assert_eq!(book[0].balance, 60);
    assert_eq!(book[0].bank_number, "11");
    assert_eq!(book[1].available, 10);
    assert_eq!(book[1].price, 9);
    assert_eq!(book[1].bank_name, "second");
}

#[test]
fn histories_resolve_to_transactions() {
    let mut p = listed_ledger();
    let tx1 = p.order_buy(id("b"), id("a"), 10, 1, 1).unwrap();
    let tx2 = p.order_buy(id("b"), id("a"), 20, 1, 2).unwrap();
    assert_ne!(tx1, tx2);
    let buys = p.get_history_buy(id("b")).unwrap();
    assert_eq!(buys.len(), 2);
    assert_eq!(buys[0].amount, 10);
    assert_eq!(buys[1].amount, 20);
    assert_eq!(buys[0].buyer, "b");
    assert_eq!(buys[0].seller, "a");
    let sells = p.get_history_sell(id("a")).unwrap();
    assert_eq!(sells.len(), 2);
    assert_eq!(sells[0].amount, 10);
    assert_eq!(sells[1].amount, 20);
    assert!(p.get_history_buy(id("a")).unwrap().is_empty());
    assert!(p.get_history_sell(id("b")).unwrap().is_empty());
    assert!(matches!(p.get_history_buy(id("zz")), Err(P2pError::AccountNotFound)));
    assert!(matches!(p.get_history_sell(id("zz")), Err(P2pError::AccountNotFound)));
}
