//! The kernel's global laws, stated and proved over the models that the
//! operation contracts use.

use vstd::prelude::*;

use crate::line::{line_total, EntryType, LineV};
use crate::store::{apply_spec, handle_open, replay, store_wf, tx_at, StoreV};
use crate::wal::{WalOpV, WalRecordV};
use crate::transaction::{is_sale_line, line_voided, line_wf_at, lines_wf, tx_total, TxState, TxV};

verus! {

/// Audit law of voids: every Void entry references exactly one earlier Sale
/// line, negates its quantity exactly, and preserves its unit price.
pub proof fn lemma_void_negates_sale(lines: Seq<LineV>, i: int)
    requires
        lines_wf(lines),
        0 <= i < lines.len(),
        lines[i].entry_type == EntryType::Void,
    ensures
        lines[i].references_line is Some,
        is_sale_line(lines, lines[i].references_line->Some_0),
        lines[i].qty == -(lines[lines[i].references_line->Some_0 - 1].qty as int),
        lines[i].unit_minor == lines[lines[i].references_line->Some_0 - 1].unit_minor,
{
    assert(line_wf_at(lines, i));
}

/// Uniqueness of voids: at most one Void entry references any one line.
pub proof fn lemma_void_unique(lines: Seq<LineV>, i: int, j: int)
    requires
        lines_wf(lines),
        0 <= i < lines.len(),
        0 <= j < lines.len(),
        lines[i].entry_type == EntryType::Void,
        lines[j].entry_type == EntryType::Void,
        lines[i].references_line == lines[j].references_line,
    ensures
        i == j,
{
}

/// Exactly one Void per voided Sale: when a line counts as voided, one and
/// only one Void entry references it, and that entry reverses it exactly.
pub proof fn lemma_exactly_one_void(lines: Seq<LineV>, n: u32)
    requires
        lines_wf(lines),
        line_voided(lines, n),
    ensures
        exists|i: int|
            {
                &&& 0 <= i < lines.len()
                &&& (#[trigger] lines[i]).entry_type == EntryType::Void
                &&& lines[i].references_line == Some(n)
                &&& is_sale_line(lines, n)
                &&& lines[i].qty == -(lines[n - 1].qty as int)
                &&& lines[i].unit_minor == lines[n - 1].unit_minor
                &&& forall|j: int|
                    0 <= j < lines.len() && (#[trigger] lines[j]).entry_type == EntryType::Void
                        && lines[j].references_line == Some(n) ==> j == i
            },
{
    let i = choose|i: int|
        0 <= i < lines.len() && lines[i].entry_type == EntryType::Void
            && lines[i].references_line == Some(n);
    lemma_void_negates_sale(lines, i);
    assert forall|j: int|
        0 <= j < lines.len() && (#[trigger] lines[j]).entry_type == EntryType::Void
            && lines[j].references_line == Some(n) implies j == i by {
        lemma_void_unique(lines, i, j);
    }
}

/// The log's global order: sequence numbers are dense from 1, hence strictly
/// increasing — each acknowledged mutation's record precedes every later
/// operation's record.
pub proof fn lemma_wal_order(s: StoreV, i: int, j: int)
    requires
        store_wf(s),
        0 <= i < j < s.wal.len(),
    ensures
        s.wal[i].sequence < s.wal[j].sequence,
        s.wal[i].sequence == i + 1,
{
}

/// Handle freshness: every open handle equals the id of the transaction
/// behind it and is at most the registry length, so the next handle to be
/// issued — one past the registry length — collides with nothing and
/// exceeds every handle issued before it.
pub proof fn lemma_next_handle_fresh(s: StoreV, h: u64)
    requires
        store_wf(s),
        handle_open(s.registry, h),
    ensures
        tx_at(s.registry, h).id == h,
        h < s.registry.len() + 1,
        h != 0,
{
    assert(s.registry[h - 1] is Some);
}

/// Isolation of mutations: a record that is not a Begin touches only the
/// slot of the handle it names; every other transaction reads back unchanged
/// afterwards. Concurrent mutations of disjoint transactions, serialized by
/// the registry lock in any order, therefore lose nothing.
pub proof fn lemma_apply_frame(reg: Seq<Option<TxV>>, r: WalRecordV, i: int)
    requires
        !(r.op is TransactionBegin),
        0 <= i < reg.len(),
        i != r.handle - 1,
    ensures
        apply_spec(reg, r)[i] == reg[i],
{
}

/// A Begin touches no existing slot either: it only opens a new one.
pub proof fn lemma_begin_frame(reg: Seq<Option<TxV>>, r: WalRecordV, i: int)
    requires
        r.op is TransactionBegin,
        0 <= i < reg.len(),
    ensures
        apply_spec(reg, r)[i] == reg[i],
{
}

/// One record never replays into a transient state.
pub proof fn lemma_apply_no_transient(reg: Seq<Option<TxV>>, r: WalRecordV, i: int)
    requires
        forall|k: int|
            0 <= k < reg.len() && #[trigger] reg[k] is Some ==> reg[k]->Some_0.state
                != TxState::Committing && reg[k]->Some_0.state
                != TxState::Aborting,
        0 <= i < apply_spec(reg, r).len(),
        apply_spec(reg, r)[i] is Some,
    ensures
        apply_spec(reg, r)[i]->Some_0.state != TxState::Committing,
        apply_spec(reg, r)[i]->Some_0.state != TxState::Aborting,
{
}

/// Replay never leaves a transaction in a transient state: `Committing` and
/// `Aborting` are occupied only between an in-memory transition and the
/// flush of its terminal record, and no record puts a transaction there. A
/// crash inside either window therefore replays as a still-building
/// transaction, and recovery has nothing to resolve.
pub proof fn lemma_replay_no_transient(wal: Seq<WalRecordV>, i: int)
    requires
        0 <= i < replay(wal).len(),
        replay(wal)[i] is Some,
    ensures
        replay(wal)[i]->Some_0.state != TxState::Committing,
        replay(wal)[i]->Some_0.state != TxState::Aborting,
    decreases wal.len(),
{
    if wal.len() > 0 {
        let pre = replay(wal.drop_last());
        assert forall|k: int|
            0 <= k < pre.len() && #[trigger] pre[k] is Some implies pre[k]->Some_0.state
            != TxState::Committing && pre[k]->Some_0.state
            != TxState::Aborting by {
            lemma_replay_no_transient(wal.drop_last(), k);
        }
        lemma_apply_no_transient(pre, wal.last(), i);
    }
}

/// Crash recovery restores every live handle exactly: the transaction a
/// well-formed store holds behind an open handle is the one its log replays
/// to, so a kernel rebuilt from the same log answers every query about that
/// handle with the same values — the same lines, the same total, the same
/// tender, the same state.
pub proof fn lemma_replay_restores(s: StoreV, h: u64)
    requires
        store_wf(s),
        handle_open(s.registry, h),
    ensures
        replay(s.wal)[h - 1] == s.registry[h - 1],
        tx_total(replay(s.wal)[h - 1]->Some_0) == tx_total(tx_at(s.registry, h)),
{
    assert(s.registry[h - 1] is Some);
}

} // verus!
