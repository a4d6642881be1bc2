//! Unit tests for validation, error codes, timeouts, handles and the line
//! model.

use pos_kernel::currency::Currency;
use pos_kernel::result::{PkResult, ResultCode};
use pos_kernel::store::{KernelConfig, LegalKernelStore};
use pos_kernel::PK_INVALID_HANDLE;

const T0: u64 = 5_000_000_000_000;

fn usd() -> Currency {
    Currency::new("USD", 2).unwrap()
}

fn store_with(config: KernelConfig) -> LegalKernelStore {
    LegalKernelStore::new(config)
}

#[test]
fn currency_validation() {
    assert!(Currency::new("USD", 2).is_ok());
    assert!(Currency::new("JPY", 0).is_ok());
    assert_eq!(
        Currency::new("US", 2).unwrap_err(),
        ResultCode::ValidationFailed
    );
    assert_eq!(
        Currency::new("", 2).unwrap_err(),
        ResultCode::ValidationFailed
    );
    assert_eq!(
        Currency::new("EURO", 2).unwrap_err(),
        ResultCode::ValidationFailed
    );
    assert_eq!(
        Currency::new("USD", 5).unwrap_err(),
        ResultCode::ValidationFailed
    );
    let c = Currency::new("usd", 2).unwrap();
    assert_eq!(c.code(), "USD");
    assert_eq!(c.decimal_places(), 2);
}

#[test]
fn result_codes_are_stable() {
    assert_eq!(ResultCode::Success.as_code(), 0);
    assert_eq!(ResultCode::NotFound.as_code(), 1);
    assert_eq!(ResultCode::InvalidState.as_code(), 2);
    assert_eq!(ResultCode::ValidationFailed.as_code(), 3);
    assert_eq!(ResultCode::InsufficientBuffer.as_code(), 4);
    assert_eq!(ResultCode::TimedOut.as_code(), 5);
    assert_eq!(ResultCode::RecoveryFailed.as_code(), 6);
    assert_eq!(ResultCode::InternalError.as_code(), 255);
    assert!(PkResult::ok().is_ok());
    assert!(!PkResult::err(ResultCode::NotFound).is_ok());
    assert_eq!(PkResult::err(ResultCode::TimedOut).code, 5);
}

#[test]
fn line_validation_errors() {
    let mut store = store_with(KernelConfig::default());
    let h = store
        .begin_transaction_legal("S".to_string(), usd(), T0)
        .unwrap();
    assert_eq!(
        store.add_line_legal(h, "".to_string(), 1, 100, T0 + 1),
        Err(ResultCode::ValidationFailed)
    );
    assert_eq!(
        store.add_line_legal(h, "X".to_string(), 0, 100, T0 + 1),
        Err(ResultCode::ValidationFailed)
    );
    assert_eq!(
        store.add_line_legal(h, "X".to_string(), -1, 100, T0 + 1),
        Err(ResultCode::ValidationFailed)
    );
    assert_eq!(
        store.add_line_legal(h, "X".to_string(), 1, -5, T0 + 1),
        Err(ResultCode::ValidationFailed)
    );
    assert_eq!(
        store.add_line_legal(99, "X".to_string(), 1, 100, T0 + 1),
        Err(ResultCode::NotFound)
    );
    assert_eq!(
        store.add_line_legal(0, "X".to_string(), 1, 100, T0 + 1),
        Err(ResultCode::NotFound)
    );
    // a missing parent fails validation
    assert_eq!(
        store.add_child_line_legal(h, "X".to_string(), 1, 100, 7, T0 + 1),
        Err(ResultCode::ValidationFailed)
    );
    assert_eq!(
        store.add_cash_tender_legal(h, 0, T0 + 2),
        Err(ResultCode::ValidationFailed)
    );
    assert_eq!(
        store.add_cash_tender_legal(h, -10, T0 + 2),
        Err(ResultCode::ValidationFailed)
    );
}

#[test]
fn committed_transactions_are_frozen() {
    let mut store = store_with(KernelConfig::default());
    let h = store
        .begin_transaction_legal("S".to_string(), usd(), T0)
        .unwrap();
    store
        .add_line_legal(h, "X".to_string(), 1, 100, T0 + 1)
        .unwrap();
    store.add_cash_tender_legal(h, 100, T0 + 2).unwrap();
    assert_eq!(
        store.add_line_legal(h, "Y".to_string(), 1, 100, T0 + 3),
        Err(ResultCode::InvalidState)
    );
    assert_eq!(
        store.add_cash_tender_legal(h, 100, T0 + 3),
        Err(ResultCode::InvalidState)
    );
    assert_eq!(
        store.void_line_with_cascade(h, 1, "no", T0 + 3),
        Err(ResultCode::InvalidState)
    );
    assert_eq!(
        store.update_line_quantity_legal(h, 1, 2, T0 + 3),
        Err(ResultCode::InvalidState)
    );
    assert_eq!(
        store.commit_transaction(h, T0 + 3),
        Err(ResultCode::InvalidState)
    );
}

#[test]
fn void_errors() {
    let mut store = store_with(KernelConfig::default());
    let h = store
        .begin_transaction_legal("S".to_string(), usd(), T0)
        .unwrap();
    store
        .add_line_legal(h, "X".to_string(), 2, 100, T0 + 1)
        .unwrap();
    assert_eq!(
        store.void_line_with_cascade(h, 9, "gone", T0 + 2),
        Err(ResultCode::NotFound)
    );
    store.void_line_with_cascade(h, 1, "gone", T0 + 3).unwrap();
    // voiding twice is rejected, and a void entry itself cannot be voided
    assert_eq!(
        store.void_line_with_cascade(h, 1, "again", T0 + 4),
        Err(ResultCode::InvalidState)
    );
    assert_eq!(
        store.void_line_with_cascade(h, 2, "void the void", T0 + 4),
        Err(ResultCode::NotFound)
    );
    let (total, _, _, _) = store.get_transaction_totals(h).unwrap();
    assert_eq!(total, 0);
}

#[test]
fn single_void_keeps_children() {
    let mut store = store_with(KernelConfig::default());
    let h = store
        .begin_transaction_legal("S".to_string(), usd(), T0)
        .unwrap();
    store
        .add_line_legal(h, "COMBO".to_string(), 1, 500, T0 + 1)
        .unwrap();
    store
        .add_child_line_legal(h, "SIDE".to_string(), 1, 150, 1, T0 + 2)
        .unwrap();
    store
        .void_line_item_legal(h, 2, "dropped side".to_string(), T0 + 3)
        .unwrap();
    let (total, _, _, _) = store.get_transaction_totals(h).unwrap();
    assert_eq!(total, 500);
    assert_eq!(store.get_line_count_legal(h).unwrap(), 3);
}

#[test]
fn adjustment_errors() {
    let mut store = store_with(KernelConfig::default());
    let h = store
        .begin_transaction_legal("S".to_string(), usd(), T0)
        .unwrap();
    store
        .add_line_legal(h, "X".to_string(), 3, 60, T0 + 1)
        .unwrap();
    assert_eq!(
        store.update_line_quantity_legal(h, 1, 0, T0 + 2),
        Err(ResultCode::InvalidState)
    );
    assert_eq!(
        store.update_line_quantity_legal(h, 1, -2, T0 + 2),
        Err(ResultCode::InvalidState)
    );
    assert_eq!(
        store.update_line_quantity_legal(h, 9, 2, T0 + 2),
        Err(ResultCode::NotFound)
    );
    // adjusting to the current effective quantity appends nothing
    store.update_line_quantity_legal(h, 1, 3, T0 + 2).unwrap();
    assert_eq!(store.get_line_count_legal(h).unwrap(), 1);
    // adjusting down appends a negative delta
    store.update_line_quantity_legal(h, 1, 1, T0 + 3).unwrap();
    let (total, _, _, _) = store.get_transaction_totals(h).unwrap();
    assert_eq!(total, 60);
    let (_, qty, unit, _) = store.get_line_item_legal(h, 1).unwrap();
    assert_eq!((qty, unit), (-2, 60));
}

#[test]
fn timeout_blocks_mutations() {
    let config = KernelConfig::new(1000, 300_000_000_000);
    let mut store = store_with(config);
    let h = store
        .begin_transaction_legal("S".to_string(), usd(), T0)
        .unwrap();
    let late = T0 + 301_000_000_000;
    assert_eq!(
        store.add_line_legal(h, "X".to_string(), 1, 100, late),
        Err(ResultCode::TimedOut)
    );
    let (_, _, _, state) = store.get_transaction_totals(h).unwrap();
    assert_eq!(state, 3); // TimedOut
    // once timed out, further mutations are invalid-state failures
    assert_eq!(
        store.add_line_legal(h, "X".to_string(), 1, 100, late + 1),
        Err(ResultCode::InvalidState)
    );
}

#[test]
fn active_transaction_cap() {
    let config = KernelConfig::new(1, 300_000_000_000);
    let mut store = store_with(config);
    let h1 = store
        .begin_transaction_legal("S".to_string(), usd(), T0)
        .unwrap();
    assert_eq!(
        store
            .begin_transaction_legal("S".to_string(), usd(), T0 + 1)
            .unwrap_err(),
        ResultCode::ValidationFailed
    );
    // finishing the first frees a slot
    store.commit_transaction(h1, T0 + 2).unwrap();
    assert!(store
        .begin_transaction_legal("S".to_string(), usd(), T0 + 3)
        .is_ok());
}

#[test]
fn handles_are_unique_and_monotonic() {
    let mut store = store_with(KernelConfig::default());
    let h1 = store
        .begin_transaction_legal("S".to_string(), usd(), T0)
        .unwrap();
    let h2 = store
        .begin_transaction_legal("S".to_string(), usd(), T0 + 1)
        .unwrap();
    store.close_transaction(h1).unwrap();
    let h3 = store
        .begin_transaction_legal("S".to_string(), usd(), T0 + 2)
        .unwrap();
    assert_eq!((h1, h2, h3), (1, 2, 3));
    assert!(h1 != PK_INVALID_HANDLE && h2 != PK_INVALID_HANDLE && h3 != PK_INVALID_HANDLE);
}

#[test]
fn interleaved_disjoint_transactions_lose_nothing() {
    // Mutations of disjoint transactions, serialized in any interleaving by
    // the registry lock, leave both transactions intact and the log dense.
    let mut store = store_with(KernelConfig::default());
    let ha = store
        .begin_transaction_legal("S".to_string(), usd(), T0)
        .unwrap();
    let hb = store
        .begin_transaction_legal("S".to_string(), usd(), T0 + 1)
        .unwrap();
    store
        .add_line_legal(ha, "A1".to_string(), 1, 100, T0 + 2)
        .unwrap();
    store
        .add_line_legal(hb, "B1".to_string(), 1, 200, T0 + 3)
        .unwrap();
    store
        .add_line_legal(ha, "A2".to_string(), 1, 300, T0 + 4)
        .unwrap();
    store
        .add_line_legal(hb, "B2".to_string(), 1, 400, T0 + 5)
        .unwrap();
    assert_eq!(store.get_line_count_legal(ha).unwrap(), 2);
    assert_eq!(store.get_line_count_legal(hb).unwrap(), 2);
    assert_eq!(store.get_transaction_totals(ha).unwrap().0, 400);
    assert_eq!(store.get_transaction_totals(hb).unwrap().0, 600);
    // sequence numbers are dense and strictly increasing across both
    assert_eq!(store.last_sequence(), 6);
    let mut i: usize = 0;
    while (i as u64) < store.last_sequence() {
        assert_eq!(store.wal_record(i).sequence, (i as u64) + 1);
        i += 1;
    }
}

#[test]
fn closed_handles_answer_not_found() {
    let mut store = store_with(KernelConfig::default());
    let h = store
        .begin_transaction_legal("S".to_string(), usd(), T0)
        .unwrap();
    store.close_transaction(h).unwrap();
    assert_eq!(
        store.get_transaction_totals(h).unwrap_err(),
        ResultCode::NotFound
    );
    assert_eq!(store.close_transaction(h), Err(ResultCode::NotFound));
    assert_eq!(store.close_transaction(0), Err(ResultCode::NotFound));
}

#[test]
fn parent_and_children_queries() {
    let mut store = store_with(KernelConfig::default());
    let h = store
        .begin_transaction_legal("S".to_string(), usd(), T0)
        .unwrap();
    store
        .add_line_legal(h, "MEAL".to_string(), 1, 900, T0 + 1)
        .unwrap();
    store
        .add_child_line_legal(h, "DRINK".to_string(), 1, 100, 1, T0 + 2)
        .unwrap();
    store
        .add_child_line_legal(h, "ICE".to_string(), 1, 0, 2, T0 + 3)
        .unwrap();
    assert_eq!(store.get_line_parent_id(h, 1).unwrap(), None);
    assert_eq!(store.get_line_parent_id(h, 2).unwrap(), Some(1));
    assert_eq!(store.get_line_parent_id(h, 3).unwrap(), Some(2));
    assert_eq!(
        store.get_line_parent_id(h, 9).unwrap_err(),
        ResultCode::NotFound
    );
    assert_eq!(
        store.get_line_parent_id(h, 0).unwrap_err(),
        ResultCode::NotFound
    );
    assert_eq!(store.find_line_children(h, 1).unwrap(), vec![2, 3]);
    assert_eq!(store.find_line_children(h, 2).unwrap(), vec![3]);
    assert_eq!(store.find_line_children(h, 3).unwrap(), Vec::<u32>::new());
    // the cascade voids the whole subtree, including the grandchild
    store.void_line_with_cascade(h, 1, "all gone", T0 + 4).unwrap();
    let (total, _, _, _) = store.get_transaction_totals(h).unwrap();
    assert_eq!(total, 0);
    assert_eq!(store.get_line_count_legal(h).unwrap(), 6);
}

#[test]
fn line_count_and_active_count() {
    let mut store = store_with(KernelConfig::default());
    assert_eq!(store.active_transaction_count(), 0);
    let h = store
        .begin_transaction_legal("S".to_string(), usd(), T0)
        .unwrap();
    assert_eq!(store.active_transaction_count(), 1);
    assert_eq!(store.get_line_count_legal(h).unwrap(), 0);
    store
        .abort_transaction(h, "done".to_string(), T0 + 1)
        .unwrap();
    assert_eq!(store.active_transaction_count(), 0);
}

#[test]
fn remaining_query_surface() {
    let mut store = store_with(KernelConfig::new(7, 1_000));
    assert_eq!(store.config().max_active_transactions, 7);
    assert_eq!(store.config().transaction_timeout_ns, 1_000);
    let h = store
        .begin_transaction_legal("S".to_string(), usd(), T0)
        .unwrap();
    store
        .add_line_with_parent_legal(h, "TOP".to_string(), 1, 100, None, T0 + 1)
        .unwrap();
    store
        .add_line_with_parent_legal(h, "SUB".to_string(), 2, 25, Some(1), T0 + 2)
        .unwrap();
    let (sku, qty, unit, parent) = store.get_line_item_details(h, 1).unwrap();
    assert_eq!((sku.as_str(), qty, unit, parent), ("SUB", 2, 25, Some(1)));
    assert_eq!(
        store.get_line_item_details(h, 2).unwrap_err(),
        ResultCode::NotFound
    );
    let (total, _, _, _) = store.get_transaction_totals(h).unwrap();
    assert_eq!(total, 150);
}

#[test]
fn buffer_negotiation_reports_required_sizes() {
    let mut store = store_with(KernelConfig::default());
    let h = store
        .begin_transaction_legal("S".to_string(), usd(), T0)
        .unwrap();
    store
        .add_line_legal(h, "COFFEE".to_string(), 1, 350, T0 + 1)
        .unwrap();
    store
        .add_child_line_legal(h, "SYRUP".to_string(), 1, 50, 1, T0 + 2)
        .unwrap();
    // a too-small SKU buffer fails InsufficientBuffer with the byte length
    assert_eq!(
        store.get_line_item_buffered(h, 0, 2).unwrap_err(),
        (ResultCode::InsufficientBuffer, 6)
    );
    let (sku, qty, unit, parent) = store.get_line_item_buffered(h, 0, 6).unwrap();
    assert_eq!((sku.as_str(), qty, unit, parent), ("COFFEE", 1, 350, None));
    assert_eq!(
        store.get_line_item_buffered(h, 9, 100).unwrap_err(),
        (ResultCode::NotFound, 0)
    );
    assert_eq!(
        store.get_line_item_buffered(42, 0, 100).unwrap_err(),
        (ResultCode::NotFound, 0)
    );
    // a too-small child buffer reports the required element count
    assert_eq!(
        store.find_line_children_buffered(h, 1, 0).unwrap_err(),
        (ResultCode::InsufficientBuffer, 1)
    );
    assert_eq!(store.find_line_children_buffered(h, 1, 1).unwrap(), vec![2]);
    assert_eq!(
        store.find_line_children_buffered(99, 1, 8).unwrap_err(),
        (ResultCode::NotFound, 0)
    );
}
