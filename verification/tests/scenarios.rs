//! End-to-end scenarios on the kernel store, driven with explicit clocks.

use pos_kernel::codec::{encode_record, parse_wal};
use pos_kernel::currency::Currency;
use pos_kernel::result::ResultCode;
use pos_kernel::store::{KernelConfig, LegalKernelStore};

const T0: u64 = 1_000_000_000_000;

fn fresh_store() -> LegalKernelStore {
    LegalKernelStore::new(KernelConfig::default())
}

fn usd() -> Currency {
    Currency::new("USD", 2).unwrap()
}

#[test]
fn single_item_cash_sale() {
    let mut store = fresh_store();
    let h = store
        .begin_transaction_legal("STORE01".to_string(), usd(), T0)
        .unwrap();
    store
        .add_line_legal(h, "COFFEE".to_string(), 1, 350, T0 + 1)
        .unwrap();
    store.add_cash_tender_legal(h, 500, T0 + 2).unwrap();
    let (total, tendered, change, state) = store.get_transaction_totals(h).unwrap();
    assert_eq!(total, 350);
    assert_eq!(tendered, 500);
    assert_eq!(change, 150);
    assert_eq!(state, 1); // Committed
}

#[test]
fn zero_decimal_currency() {
    let mut store = fresh_store();
    let jpy = Currency::new("JPY", 0).unwrap();
    let h = store
        .begin_transaction_legal("STORE01".to_string(), jpy, T0)
        .unwrap();
    store
        .add_line_legal(h, "BENTO".to_string(), 2, 850, T0 + 1)
        .unwrap();
    store.add_cash_tender_legal(h, 2000, T0 + 2).unwrap();
    let (total, tendered, change, state) = store.get_transaction_totals(h).unwrap();
    assert_eq!(total, 1700);
    assert_eq!(tendered, 2000);
    assert_eq!(change, 300);
    assert_eq!(state, 1);
    assert_eq!(store.get_currency_decimal_places(h).unwrap(), 0);
}

#[test]
fn modifier_with_cascade_void() {
    let mut store = fresh_store();
    let h = store
        .begin_transaction_legal("STORE01".to_string(), usd(), T0)
        .unwrap();
    store
        .add_line_legal(h, "BURGER".to_string(), 1, 800, T0 + 1)
        .unwrap();
    store
        .add_child_line_legal(h, "CHEESE".to_string(), 1, 100, 1, T0 + 2)
        .unwrap();
    store
        .add_child_line_legal(h, "BACON".to_string(), 1, 200, 1, T0 + 3)
        .unwrap();
    store
        .void_line_with_cascade(h, 1, "customer changed mind", T0 + 4)
        .unwrap();
    let (total, _, _, _) = store.get_transaction_totals(h).unwrap();
    assert_eq!(total, 0);
    assert_eq!(store.get_line_count_legal(h).unwrap(), 6);
    // The void entries land deepest-first: BACON (line 3), CHEESE (line 2),
    // then the BURGER itself (line 1).
    let (sku4, qty4, unit4, _) = store.get_line_item_legal(h, 3).unwrap();
    assert_eq!((sku4.as_str(), qty4, unit4), ("BACON", -1, 200));
    let (sku5, qty5, unit5, _) = store.get_line_item_legal(h, 4).unwrap();
    assert_eq!((sku5.as_str(), qty5, unit5), ("CHEESE", -1, 100));
    let (sku6, qty6, unit6, _) = store.get_line_item_legal(h, 5).unwrap();
    assert_eq!((sku6.as_str(), qty6, unit6), ("BURGER", -1, 800));
}

#[test]
fn adjustment_to_higher_quantity() {
    let mut store = fresh_store();
    let h = store
        .begin_transaction_legal("STORE01".to_string(), usd(), T0)
        .unwrap();
    store
        .add_line_legal(h, "APPLE".to_string(), 3, 60, T0 + 1)
        .unwrap();
    store.update_line_quantity_legal(h, 1, 5, T0 + 2).unwrap();
    let (total, _, _, _) = store.get_transaction_totals(h).unwrap();
    assert_eq!(total, 300);
    assert_eq!(store.get_line_count_legal(h).unwrap(), 2);
    let (_, qty, unit, _) = store.get_line_item_legal(h, 1).unwrap();
    assert_eq!(qty, 2);
    assert_eq!(unit, 60);
}

#[test]
fn insufficient_tender_then_topup() {
    let mut store = fresh_store();
    let h = store
        .begin_transaction_legal("STORE01".to_string(), usd(), T0)
        .unwrap();
    store
        .add_line_legal(h, "X".to_string(), 1, 1000, T0 + 1)
        .unwrap();
    store.add_cash_tender_legal(h, 600, T0 + 2).unwrap();
    let (_, tendered, change, state) = store.get_transaction_totals(h).unwrap();
    assert_eq!(tendered, 600);
    assert_eq!(change, 0);
    assert_eq!(state, 0); // still Building
    store.add_cash_tender_legal(h, 500, T0 + 3).unwrap();
    let (_, tendered2, change2, state2) = store.get_transaction_totals(h).unwrap();
    assert_eq!(tendered2, 1100);
    assert_eq!(change2, 100);
    assert_eq!(state2, 1); // Committed
}

#[test]
fn crash_after_commit_record() {
    // Build a kernel, mirror every log record to "disk" as it is appended,
    // then pretend the process dies right after the commit record is durable.
    let mut store = fresh_store();
    let h = store
        .begin_transaction_legal("STORE01".to_string(), usd(), T0)
        .unwrap();
    store
        .add_line_legal(h, "COFFEE".to_string(), 1, 350, T0 + 1)
        .unwrap();
    store.add_cash_tender_legal(h, 500, T0 + 2).unwrap();
    let mut disk = String::new();
    let mut i: usize = 0;
    while (i as u64) < store.last_sequence() {
        disk.push_str(encode_record(store.wal_record(i)).as_str());
        i += 1;
    }
    drop(store); // the crash

    let records = parse_wal(disk.as_str());
    assert_eq!(records.len(), 4); // begin, line, tender, commit
    let recovered = LegalKernelStore::recover(records, KernelConfig::default(), T0 + 10);
    let (total, tendered, change, state) = recovered.get_transaction_totals(h).unwrap();
    assert_eq!(total, 350);
    assert_eq!(tendered, 500);
    assert_eq!(change, 150);
    assert_eq!(state, 1); // Committed survives the crash
}

#[test]
fn abort_is_not_repeatable() {
    let mut store = fresh_store();
    let h = store
        .begin_transaction_legal("STORE01".to_string(), usd(), T0)
        .unwrap();
    store
        .add_line_legal(h, "X".to_string(), 1, 100, T0 + 1)
        .unwrap();
    store
        .abort_transaction(h, "cancelled".to_string(), T0 + 2)
        .unwrap();
    let before = store.get_transaction_totals(h).unwrap();
    let seq_before = store.last_sequence();
    let second = store.abort_transaction(h, "again".to_string(), T0 + 3);
    assert_eq!(second, Err(ResultCode::InvalidState));
    assert_eq!(store.get_transaction_totals(h).unwrap(), before);
    assert_eq!(store.last_sequence(), seq_before);
    assert_eq!(before.3, 2); // Aborted
}

#[test]
fn queries_are_idempotent_between_mutations() {
    let mut store = fresh_store();
    let h = store
        .begin_transaction_legal("STORE01".to_string(), usd(), T0)
        .unwrap();
    store
        .add_line_legal(h, "PEN".to_string(), 2, 125, T0 + 1)
        .unwrap();
    let first = store.get_transaction_totals(h).unwrap();
    let second = store.get_transaction_totals(h).unwrap();
    let third = store.get_transaction_totals(h).unwrap();
    assert_eq!(first, second);
    assert_eq!(second, third);
    assert_eq!(first, (250, 0, 0, 0));
}
