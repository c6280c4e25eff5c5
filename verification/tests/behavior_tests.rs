use payment_engine::account::Account;
use payment_engine::amount::Amount;
use payment_engine::registry::LedgerRegistry;
use payment_engine::transaction::Transaction;

fn record(kind: &str, client: u16, tx: u32, units: i128, scale: u32) -> Transaction {
    let mut t = Transaction::new(tx);
    t.type_ = String::from(kind);
    t.client_id = client;
    t.amount = Amount::new(units, scale);
    t
}

#[test]
fn test_no_disputes_total_equals_available() {
    // Deposits and withdrawals only: held stays zero and total == available.
    let mut account = Account::new(7);
    account.add_transaction(record("deposit", 7, 1, 500, 2));
    account.add_transaction(record("withdrawal", 7, 2, 125, 2));
    account.add_transaction(record("deposit", 7, 3, 50, 2));
    account.process_transactions();
    assert_eq!(account.available.to_decimal_string(), "4.25");
    assert_eq!(account.total.to_decimal_string(), "4.25");
    assert_eq!(account.held.to_decimal_string(), "0.0000");
    assert!(!account.locked);
}

#[test]
fn test_total_is_available_plus_held() {
    // With a dispute pending, total == available + held.
    let mut account = Account::new(1);
    account.add_transaction(record("deposit", 1, 1, 300, 2));
    account.add_transaction(record("deposit", 1, 2, 200, 2));
    account.add_transaction(record("dispute", 1, 1, 0, 2));
    account.process_transactions();
    assert_eq!(account.available.to_decimal_string(), "2.00");
    assert_eq!(account.held.to_decimal_string(), "3.00");
    assert_eq!(account.total.to_decimal_string(), "5.00");
}

#[test]
fn test_withdrawal_of_exact_balance_rejected() {
    // A withdrawal of exactly the available balance fails the strict
    // greater-than-zero rule and changes nothing.
    let mut account = Account::new(1);
    account.add_transaction(record("deposit", 1, 1, 200, 2));
    account.add_transaction(record("withdrawal", 1, 2, 200, 2));
    account.process_transactions();
    assert_eq!(account.available.to_decimal_string(), "2.00");
    assert_eq!(account.total.to_decimal_string(), "2.00");
}

#[test]
fn test_overdraft_rejected() {
    let mut account = Account::new(1);
    account.add_transaction(record("deposit", 1, 1, 100, 2));
    account.add_transaction(record("withdrawal", 1, 2, 500, 2));
    account.process_transactions();
    assert_eq!(account.available.to_decimal_string(), "1.00");
    assert_eq!(account.total.to_decimal_string(), "1.00");
}

#[test]
fn test_dispute_unknown_tx_is_noop() {
    let mut account = Account::new(1);
    account.add_transaction(record("deposit", 1, 1, 300, 2));
    account.add_transaction(record("dispute", 1, 99, 0, 2));
    account.add_transaction(record("resolve", 1, 98, 0, 2));
    account.add_transaction(record("chargeback", 1, 97, 0, 2));
    account.process_transactions();
    assert_eq!(account.available.to_decimal_string(), "3.00");
    assert_eq!(account.held.to_decimal_string(), "0.0000");
    assert_eq!(account.total.to_decimal_string(), "3.00");
    assert!(!account.locked);
}

#[test]
fn test_unknown_kind_is_skipped() {
    let mut account = Account::new(1);
    account.add_transaction(record("deposit", 1, 1, 300, 2));
    account.add_transaction(record("transfer", 1, 2, 100, 2));
    account.process_transactions();
    assert_eq!(account.available.to_decimal_string(), "3.00");
    assert_eq!(account.total.to_decimal_string(), "3.00");
}

#[test]
fn test_replay_twice_doubles_effects() {
    // A second replay — violating the replay-once contract — applies every
    // effect again on top of the settled balances.
    let mut account = Account::new(1);
    account.add_transaction(record("deposit", 1, 1, 200, 2));
    account.process_transactions();
    assert_eq!(account.total.to_decimal_string(), "2.00");
    account.process_transactions();
    assert_eq!(account.available.to_decimal_string(), "4.00");
    assert_eq!(account.total.to_decimal_string(), "4.00");
}

#[test]
fn test_round_half_even() {
    // 0.00015 rounds up to 0.0002; 0.00005 rounds down to the even 0.0000.
    let mut up = Account::new(1);
    up.total = Amount::new(15, 5);
    up.round();
    assert_eq!(up.total.to_decimal_string(), "0.0002");
    let mut down = Account::new(1);
    down.total = Amount::new(5, 5);
    down.round();
    assert_eq!(down.total.to_decimal_string(), "0.0000");
}

#[test]
fn test_round_keeps_small_scales() {
    let mut account = Account::new(1);
    account.total = Amount::new(125, 2);
    account.round();
    assert_eq!(account.total.to_decimal_string(), "1.25");
}

#[test]
fn test_registry_routes_by_client() {
    let mut reg = LedgerRegistry::new();
    reg.add_record(record("deposit", 2, 1, 100, 2));
    reg.add_record(record("deposit", 1, 2, 300, 2));
    reg.add_record(record("withdrawal", 1, 3, 100, 2));
    reg.add_record(record("deposit", 2, 4, 50, 2));
    reg.process_all();
    let rows = reg.summary_rows();
    assert_eq!(rows.len(), 2);
    // Ascending client order.
    assert_eq!(rows[0].client, 1);
    assert_eq!(rows[0].available, "2.00");
    assert_eq!(rows[0].held, "0.0000");
    assert_eq!(rows[0].total, "2.00");
    assert!(!rows[0].locked);
    assert_eq!(rows[1].client, 2);
    assert_eq!(rows[1].available, "1.50");
    assert_eq!(rows[1].total, "1.50");
}

#[test]
fn test_partitioned_replay_matches_any_order() {
    // The same transaction set partitioned across two ledgers settles to the
    // same per-client balances whichever ledger is replayed first.
    let stream = [
        ("deposit", 1u16, 1u32, 300i128),
        ("deposit", 2, 2, 200),
        ("withdrawal", 1, 3, 100),
        ("dispute", 2, 2, 0),
        ("deposit", 1, 4, 50),
    ];
    let mut first = LedgerRegistry::new();
    for (kind, client, tx, units) in stream {
        first.add_record(record(kind, client, tx, units, 2));
    }
    // Replay in ascending order through the registry.
    first.process_all();
    // Replay the partitions one by one, in the opposite order.
    let mut a1 = Account::new(1);
    let mut a2 = Account::new(2);
    for (kind, client, tx, units) in stream {
        let t = record(kind, client, tx, units, 2);
        if client == 1 {
            a1.add_transaction(t);
        } else {
            a2.add_transaction(t);
        }
    }
    a2.process_transactions();
    a1.process_transactions();
    let rows = first.summary_rows();
    assert_eq!(rows[0].available, a1.available.to_decimal_string());
    assert_eq!(rows[0].held, a1.held.to_decimal_string());
    assert_eq!(rows[0].total, a1.total.to_decimal_string());
    assert_eq!(rows[0].locked, a1.locked);
    assert_eq!(rows[1].available, a2.available.to_decimal_string());
    assert_eq!(rows[1].held, a2.held.to_decimal_string());
    assert_eq!(rows[1].total, a2.total.to_decimal_string());
    assert_eq!(rows[1].locked, a2.locked);
}

#[test]
fn test_add_records_batch_matches_one_by_one() {
    let stream = [
        ("deposit", 3u16, 1u32, 700i128),
        ("deposit", 9, 2, 400),
        ("withdrawal", 3, 3, 200),
        ("dispute", 9, 2, 0),
    ];
    let mut batch = LedgerRegistry::new();
    let mut records = Vec::new();
    for (kind, client, tx, units) in stream {
        records.push(record(kind, client, tx, units, 2));
    }
    batch.add_records(records);
    let mut single = LedgerRegistry::new();
    for (kind, client, tx, units) in stream {
        single.add_record(record(kind, client, tx, units, 2));
    }
    batch.process_all();
    single.process_all();
    let b = batch.summary_rows();
    let s = single.summary_rows();
    assert_eq!(b.len(), s.len());
    for (rb, rs) in b.iter().zip(s.iter()) {
        assert_eq!(rb.client, rs.client);
        assert_eq!(rb.available, rs.available);
        assert_eq!(rb.held, rs.held);
        assert_eq!(rb.total, rs.total);
        assert_eq!(rb.locked, rs.locked);
    }
    assert_eq!(b[0].client, 3);
    assert_eq!(b[0].available, "5.00");
    assert_eq!(b[1].client, 9);
    assert_eq!(b[1].held, "4.00");
    assert_eq!(b[1].total, "4.00");
    assert_eq!(b[1].available, "0.0000");
}

#[test]
fn test_zero_amount_defaults() {
    // A record built with no amount carries zero at scale four, and a fresh
    // ledger renders all balances as 0.0000.
    let t = Transaction::new(5);
    assert_eq!(t.amount.to_decimal_string(), "0.0000");
    let account = Account::new(3);
    assert_eq!(account.available.to_decimal_string(), "0.0000");
    assert_eq!(account.held.to_decimal_string(), "0.0000");
    assert_eq!(account.total.to_decimal_string(), "0.0000");
    assert!(!account.locked);
}

#[test]
fn test_locked_account_still_processes() {
    // A chargeback locks the account, but the lock does not block records
    // later in the same replay pass.
    let mut account = Account::new(1);
    account.add_transaction(record("deposit", 1, 1, 300, 2));
    account.add_transaction(record("dispute", 1, 1, 0, 2));
    account.add_transaction(record("chargeback", 1, 1, 0, 2));
    account.add_transaction(record("deposit", 1, 2, 100, 2));
    account.process_transactions();
    assert!(account.locked);
    assert_eq!(account.available.to_decimal_string(), "1.00");
    assert_eq!(account.total.to_decimal_string(), "1.00");
}
