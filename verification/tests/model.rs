//! Direct tests of the line and transaction models, below the kernel store.

use pos_kernel::currency::Currency;
use pos_kernel::line::{EntryType, Line};
use pos_kernel::result::ResultCode;
use pos_kernel::transaction::{Transaction, TxState};

const T0: u64 = 7_000_000_000_000;

fn fresh_tx() -> Transaction {
    Transaction::new(
        1,
        "STORE01".to_string(),
        Currency::new("USD", 2).unwrap(),
        T0,
        1,
    )
}

#[test]
fn line_constructors() {
    let l = Line::new("PEN".to_string(), 2, 125);
    assert_eq!(l.entry_type, EntryType::Sale);
    assert_eq!(l.line_number, 1);
    assert_eq!(l.parent_line_item_id, None);
    assert_eq!(l.total_minor(), 250);

    let s = Line::new_sale("CAP".to_string(), 3, 40, 7, Some(2), T0);
    assert_eq!(s.line_number, 7);
    assert_eq!(s.get_parent_line_item_id(), Some(2));
    assert_eq!(s.total_minor(), 120);

    let mut w = Line::new_with_parent("LID".to_string(), 1, 10, 4, 9, T0);
    assert_eq!(w.get_parent_line_item_id(), Some(4));
    w.set_parent_line_item_id(None);
    assert_eq!(w.get_parent_line_item_id(), None);

    let v = Line::new_void(&s, 8, "spilled".to_string(), T0 + 1);
    assert_eq!(v.entry_type, EntryType::Void);
    assert_eq!(v.qty, -3);
    assert_eq!(v.unit_minor, 40);
    assert_eq!(v.references_line, Some(7));
    assert_eq!(v.total_minor(), -120);
}

#[test]
fn transaction_totals_and_counts() {
    let mut tx = fresh_tx();
    assert_eq!(tx.state, TxState::Building);
    assert_eq!(tx.line_count(), 0);
    assert_eq!(tx.next_line_number(), 1);
    tx.add_line("A".to_string(), 2, 100, T0 + 1).unwrap();
    tx.add_line("B".to_string(), 1, 50, T0 + 2).unwrap();
    assert_eq!(tx.line_count(), 2);
    assert_eq!(tx.next_line_number(), 3);
    assert_eq!(tx.total_minor(), 250);
    assert_eq!(tx.calculate_effective_total(), 250);
    assert_eq!(tx.change_minor(), 0);
    tx.add_tender(100, T0 + 3).unwrap();
    assert_eq!(tx.change_minor(), 0);
    assert_eq!(tx.state, TxState::Building); // tender below total: still building
    tx.add_tender(300, T0 + 4).unwrap();
    assert_eq!(tx.change_minor(), 150);
    assert_eq!(tx.state, TxState::Committed); // covering tender auto-commits
}

#[test]
fn descendants_by_reverse_scan() {
    let mut tx = fresh_tx();
    tx.add_line("ROOT".to_string(), 1, 100, T0 + 1).unwrap();
    tx.add_child_line("KID1".to_string(), 1, 10, 1, T0 + 2)
        .unwrap();
    tx.add_line("LONER".to_string(), 1, 5, T0 + 3).unwrap();
    tx.add_child_line("KID2".to_string(), 1, 20, 1, T0 + 4)
        .unwrap();
    tx.add_child_line("GRANDKID".to_string(), 1, 30, 2, T0 + 5)
        .unwrap();
    assert_eq!(tx.find_all_children(1), vec![2, 4, 5]);
    assert_eq!(tx.find_all_children(2), vec![5]);
    assert_eq!(tx.find_all_children(3), Vec::<u32>::new());
    assert_eq!(tx.get_line_parent_id(5), Some(2));
    assert_eq!(tx.get_line_parent_id(3), None);
    assert_eq!(tx.get_line_parent_id(0), None);
    assert_eq!(tx.get_line_parent_id(99), None);
}

#[test]
fn cascade_returns_void_order() {
    let mut tx = fresh_tx();
    tx.add_line("ROOT".to_string(), 1, 100, T0 + 1).unwrap();
    tx.add_child_line("KID".to_string(), 1, 10, 1, T0 + 2)
        .unwrap();
    tx.add_child_line("GRANDKID".to_string(), 1, 20, 2, T0 + 3)
        .unwrap();
    let voided = tx
        .void_line_item_with_children(1, "remake", T0 + 4)
        .unwrap();
    // deepest first, the target last
    assert_eq!(voided, vec![3, 2, 1]);
    assert_eq!(tx.line_count(), 6);
    assert_eq!(tx.total_minor(), 0);
    assert_eq!(tx.calculate_effective_quantity_for_line(1), 0);
}

#[test]
fn effective_quantity_tracks_adjustments_and_voids() {
    let mut tx = fresh_tx();
    tx.add_line("A".to_string(), 3, 60, T0 + 1).unwrap();
    assert_eq!(tx.calculate_effective_quantity_for_line(1), 3);
    tx.update_line_quantity(1, 5, T0 + 2).unwrap();
    assert_eq!(tx.calculate_effective_quantity_for_line(1), 5);
    assert_eq!(tx.total_minor(), 300);
    // the appended adjustment carries the delta at the original unit price
    // and references the sale it adjusts
    assert_eq!(tx.lines[1].qty, 2);
    assert_eq!(tx.lines[1].unit_minor, 60);
    assert_eq!(tx.lines[1].references_line, Some(1));
    assert_eq!(tx.lines[1].entry_type, EntryType::Adjustment);
    tx.update_line_quantity(1, 2, T0 + 3).unwrap();
    assert_eq!(tx.calculate_effective_quantity_for_line(1), 2);
    assert_eq!(tx.total_minor(), 120);
    tx.void_single_line_item(1, "gone".to_string(), T0 + 4)
        .unwrap();
    // the void reverses the sale's own quantity exactly
    assert_eq!(tx.calculate_effective_quantity_for_line(1), -1);
    assert_eq!(tx.total_minor(), -60);
}

#[test]
fn single_void_rules() {
    let mut tx = fresh_tx();
    tx.add_line("A".to_string(), 1, 100, T0 + 1).unwrap();
    assert_eq!(
        tx.void_single_line_item(2, "missing".to_string(), T0 + 2),
        Err(ResultCode::NotFound)
    );
    tx.void_line_item(1, "customer left".to_string(), T0 + 3)
        .unwrap();
    assert_eq!(
        tx.void_single_line_item(1, "again".to_string(), T0 + 4),
        Err(ResultCode::InvalidState)
    );
    assert_eq!(tx.total_minor(), 0);
    let reason = tx.lines[1].reason.clone().unwrap();
    assert_eq!(reason, "customer left");
}

#[test]
fn cascade_reason_prefix() {
    let mut tx = fresh_tx();
    tx.add_line("ROOT".to_string(), 1, 100, T0 + 1).unwrap();
    tx.add_child_line("KID".to_string(), 1, 10, 1, T0 + 2)
        .unwrap();
    tx.void_line_item_with_children(1, "out of stock", T0 + 3)
        .unwrap();
    // line 3 voids the child, line 4 the target
    assert_eq!(
        tx.lines[2].reason.clone().unwrap(),
        "Parent voided: out of stock"
    );
    assert_eq!(tx.lines[3].reason.clone().unwrap(), "out of stock");
    assert_eq!(tx.lines[2].references_line, Some(2));
    assert_eq!(tx.lines[3].references_line, Some(1));
}

#[test]
fn apply_void_list_is_atomic() {
    let mut tx = fresh_tx();
    tx.add_line("A".to_string(), 1, 100, T0 + 1).unwrap();
    tx.add_line("B".to_string(), 1, 200, T0 + 2).unwrap();
    // a batch naming a missing line applies nothing
    let bad: Vec<u32> = vec![1, 9];
    assert!(!tx.apply_void_list(&bad, 1, "no", T0 + 3));
    assert_eq!(tx.line_count(), 2);
    assert_eq!(tx.total_minor(), 300);
    // a batch with a duplicate applies nothing
    let dup: Vec<u32> = vec![1, 1];
    assert!(!tx.apply_void_list(&dup, 1, "no", T0 + 3));
    assert_eq!(tx.line_count(), 2);
    // a good batch applies in order
    let good: Vec<u32> = vec![2, 1];
    assert!(tx.apply_void_list(&good, 1, "done", T0 + 4));
    assert_eq!(tx.line_count(), 4);
    assert_eq!(tx.total_minor(), 0);
}

#[test]
fn frozen_states_reject_model_mutations() {
    let mut tx = fresh_tx();
    tx.add_line("A".to_string(), 1, 100, T0 + 1).unwrap();
    tx.set_committed(5, T0 + 2);
    assert_eq!(tx.state, TxState::Committed);
    assert_eq!(tx.wal_commit_sequence, Some(5));
    assert_eq!(
        tx.add_line("B".to_string(), 1, 100, T0 + 3),
        Err(ResultCode::InvalidState)
    );
    assert_eq!(tx.add_tender(100, T0 + 3), Err(ResultCode::InvalidState));
    assert_eq!(
        tx.update_line_quantity(1, 2, T0 + 3),
        Err(ResultCode::InvalidState)
    );
    assert!(!tx.apply_void_list(&vec![1], 1, "no", T0 + 3));
}

#[test]
fn expiry_is_a_strict_inactivity_bound() {
    let tx = fresh_tx(); // last activity at T0
    assert!(!tx.is_expired(300, T0));
    assert!(!tx.is_expired(300, T0 + 300));
    assert!(tx.is_expired(300, T0 + 301));
}
