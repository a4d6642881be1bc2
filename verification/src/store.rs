//! The kernel store: the handle registry, the in-memory write-ahead log, and
//! the operation surface that composes them.
//!
//! Every mutation appends one record (two for a tender that auto-commits) to
//! the log and applies that same record to the registry, so the registry is
//! at all times the state reached by replaying the log: `store_wf` states
//! this and every operation preserves it. Durability is the embedder's part:
//! it mirrors each appended record to disk before acknowledging, and after a
//! crash feeds the surviving records to `recover`.

use vstd::prelude::*;

use crate::currency::{currency_wf, Currency, CurrencyV, MAX_DECIMAL_PLACES};
use crate::line::{sale_line_v, LineV};
use crate::result::ResultCode;
use crate::transaction::{
    adj_entry, apply_voids, can_add_tender, can_adjust, can_append_sale, can_void, cascade_list,
    eff_qty, expired, is_child_list, is_descendant, is_sale_line, line_voided, state_code,
    tx_change, tx_total, tx_wf, voids_ok, with_line, with_tender, Transaction, TxState, TxV,
};
use vstd::string::StringSliceAdditionalSpecFns;
use vstd::utf8::encode_utf8;
use crate::wal::{WalOp, WalOpV, WalRecord, WalRecordV};

verus! {

/// The default cap on concurrently building transactions.
pub const DEFAULT_MAX_ACTIVE_TRANSACTIONS: u32 = 1000;

/// The default inactivity limit, in nanoseconds: five minutes.
pub const DEFAULT_TRANSACTION_TIMEOUT_NS: u64 = 300_000_000_000;

/// The largest number of records the in-memory log accepts; appends beyond
/// it fail `InternalError` so that sequence numbers always fit in 64 bits.
pub const WAL_MAX_RECORDS: u64 = 0xFFFF_FFFF_FFFF_0000;

/// Build-time kernel configuration.
#[derive(Debug, Clone, Copy)]
pub struct KernelConfig {
    pub max_active_transactions: u32,
    pub transaction_timeout_ns: u64,
}

impl KernelConfig {
    /// A configuration with explicit limits.
    pub fn new(max_active_transactions: u32, transaction_timeout_ns: u64) -> (c: KernelConfig)
        ensures
            c.max_active_transactions == max_active_transactions,
            c.transaction_timeout_ns == transaction_timeout_ns,
    {
        KernelConfig { max_active_transactions, transaction_timeout_ns }
    }
}

impl Default for KernelConfig {
    /// The default limits: one thousand building transactions, five minutes
    /// of inactivity.
    fn default() -> (c: KernelConfig)
        ensures
            c.max_active_transactions == DEFAULT_MAX_ACTIVE_TRANSACTIONS,
            c.transaction_timeout_ns == DEFAULT_TRANSACTION_TIMEOUT_NS,
    {
        KernelConfig {
            max_active_transactions: DEFAULT_MAX_ACTIVE_TRANSACTIONS,
            transaction_timeout_ns: DEFAULT_TRANSACTION_TIMEOUT_NS,
        }
    }
}

/// The views of a record list.
pub open spec fn recs_view(rs: Seq<WalRecord>) -> Seq<WalRecordV> {
    Seq::new(rs.len(), |i: int| rs[i]@)
}

/// The views of a registry's slots.
pub open spec fn reg_view(v: Seq<Option<Transaction>>) -> Seq<Option<TxV>> {
    Seq::new(v.len(), |i: int|
        match v[i] {
            Some(t) => Some(t@),
            None => None,
        },
    )
}

/// Every open slot holds a well-formed transaction whose id is its handle.
pub open spec fn reg_slots_wf(reg: Seq<Option<TxV>>) -> bool {
    forall|i: int|
        0 <= i < reg.len() && #[trigger] reg[i] is Some ==> tx_wf(reg[i]->Some_0)
            && reg[i]->Some_0.id == i + 1
}

/// The mathematical content of a `LegalKernelStore`.
pub ghost struct StoreV {
    pub registry: Seq<Option<TxV>>,
    pub wal: Seq<WalRecordV>,
    pub config: KernelConfig,
}

/// Whether `h` names an open registry slot.
pub open spec fn handle_open(reg: Seq<Option<TxV>>, h: u64) -> bool {
    1 <= h <= reg.len() && reg[h - 1] is Some
}

/// The transaction behind an open handle.
pub open spec fn tx_at(reg: Seq<Option<TxV>>, h: u64) -> TxV {
    reg[h - 1]->Some_0
}

/// The fresh transaction a Begin record describes.
pub open spec fn begin_tx(r: WalRecordV, store: Seq<char>, code: Seq<char>, dp: u8) -> TxV {
    TxV {
        id: r.handle,
        store,
        currency: CurrencyV { code, decimal_places: dp },
        lines: Seq::empty(),
        tendered_minor: 0,
        state: TxState::Building,
        created_at_ns: r.timestamp_ns,
        last_activity_ns: r.timestamp_ns,
        wal_begin_sequence: r.sequence,
        wal_commit_sequence: None,
    }
}

/// The transaction after one record, or `None` when the record does not
/// apply to it. Replay takes records at face value, so every guard that a
/// live operation checked is re-stated here.
pub open spec fn apply_op(t: TxV, r: WalRecordV) -> Option<TxV> {
    match r.op {
        WalOpV::TransactionBegin { .. } => None,
        WalOpV::LineAdd { sku, qty, unit_minor } => {
            if t.state == TxState::Building && can_append_sale(t, sku, qty, unit_minor, None) {
                Some(with_line(t, sale_line_v(sku, qty, unit_minor, (t.lines.len() + 1) as u32,
                    None, r.timestamp_ns), r.timestamp_ns))
            } else {
                None
            }
        },
        WalOpV::LineAddWithParent { sku, qty, unit_minor, parent_line } => {
            if t.state == TxState::Building && can_append_sale(t, sku, qty, unit_minor, Some(
                parent_line,
            )) {
                Some(with_line(t, sale_line_v(sku, qty, unit_minor, (t.lines.len() + 1) as u32,
                    Some(parent_line), r.timestamp_ns), r.timestamp_ns))
            } else {
                None
            }
        },
        WalOpV::LineVoid { line_number, reason, voided } => {
            if t.state == TxState::Building && voided.len() > 0 && voids_ok(t.lines,
                t.tendered_minor, voided, line_number, reason, r.timestamp_ns) {
                Some(TxV {
                    lines: apply_voids(t.lines, voided, line_number, reason, r.timestamp_ns),
                    last_activity_ns: r.timestamp_ns,
                    ..t
                })
            } else {
                None
            }
        },
        WalOpV::LineAdjust { line_number, new_quantity } => {
            if t.state == TxState::Building && new_quantity > 0 && new_quantity != eff_qty(
                t.lines,
                line_number,
            ) && can_adjust(t, line_number, new_quantity) {
                Some(with_line(t, adj_entry(t.lines, line_number, new_quantity, r.timestamp_ns),
                    r.timestamp_ns))
            } else {
                None
            }
        },
        WalOpV::TenderAdd { amount_minor } => {
            if t.state == TxState::Building && can_add_tender(t, amount_minor) {
                Some(with_tender(t, amount_minor, r.timestamp_ns))
            } else {
                None
            }
        },
        WalOpV::TransactionCommit => {
            if t.state == TxState::Building {
                Some(TxV {
                    state: TxState::Committed,
                    wal_commit_sequence: Some(r.sequence),
                    last_activity_ns: r.timestamp_ns,
                    ..t
                })
            } else {
                None
            }
        },
        WalOpV::TransactionAbort { .. } => {
            if t.state == TxState::Building {
                Some(TxV { state: TxState::Aborted, last_activity_ns: r.timestamp_ns, ..t })
            } else {
                None
            }
        },
        WalOpV::TransactionTimeout => {
            if t.state == TxState::Building {
                Some(TxV { state: TxState::TimedOut, last_activity_ns: r.timestamp_ns, ..t })
            } else {
                None
            }
        },
        WalOpV::SystemConfigChange { .. } => None,
    }
}

/// The registry after one record: a Begin under the next free handle opens a
/// slot; any other applicable record rewrites the transaction it names;
/// everything else changes nothing.
pub open spec fn apply_spec(reg: Seq<Option<TxV>>, r: WalRecordV) -> Seq<Option<TxV>> {
    match r.op {
        WalOpV::TransactionBegin { store, currency_code, decimal_places } => {
            if r.handle == reg.len() + 1 && store.len() > 0 && currency_code.len() == 3
                && decimal_places <= MAX_DECIMAL_PLACES {
                reg.push(Some(begin_tx(r, store, currency_code, decimal_places)))
            } else {
                reg
            }
        },
        _ => {
            if 1 <= r.handle <= reg.len() && reg[r.handle - 1] is Some {
                match apply_op(reg[r.handle - 1]->Some_0, r) {
                    Some(u) => reg.update(r.handle - 1, Some(u)),
                    None => reg,
                }
            } else {
                reg
            }
        },
    }
}

/// The registry a record sequence replays to, starting from nothing.
pub open spec fn replay(wal: Seq<WalRecordV>) -> Seq<Option<TxV>>
    decreases wal.len(),
{
    if wal.len() == 0 {
        Seq::empty()
    } else {
        apply_spec(replay(wal.drop_last()), wal.last())
    }
}

/// Replay opens at most one slot per record.
pub proof fn lemma_replay_len(wal: Seq<WalRecordV>)
    ensures
        replay(wal).len() <= wal.len(),
    decreases wal.len(),
{
    if wal.len() > 0 {
        lemma_replay_len(wal.drop_last());
    }
}

/// The record a store appends next for the given handle and operation.
pub open spec fn rec_at(s: StoreV, handle: u64, now_ns: u64, op: WalOpV) -> WalRecordV {
    WalRecordV { sequence: (s.wal.len() + 1) as u64, timestamp_ns: now_ns, handle, op }
}

/// Replaying one more record applies it to the replayed state.
pub proof fn lemma_replay_snoc(wal: Seq<WalRecordV>, r: WalRecordV)
    ensures
        replay(wal.push(r)) == apply_spec(replay(wal), r),
{
    assert(wal.push(r).drop_last() =~= wal);
    assert(wal.push(r).last() == r);
}

/// Applying a record to two slot-wise related registries relates the
/// results: wherever the first registry is open, the two agree.
pub proof fn lemma_apply_preserves_rel(a: Seq<Option<TxV>>, b: Seq<Option<TxV>>, r: WalRecordV)
    requires
        a.len() == b.len(),
        forall|i: int| 0 <= i < a.len() && a[i] is Some ==> a[i] == #[trigger] b[i],
    ensures
        apply_spec(a, r).len() == apply_spec(b, r).len(),
        forall|i: int|
            0 <= i < apply_spec(a, r).len() && apply_spec(a, r)[i] is Some ==> apply_spec(a, r)[i]
                == #[trigger] apply_spec(b, r)[i],
{
    match r.op {
        WalOpV::TransactionBegin { .. } => {},
        _ => {
            if 1 <= r.handle <= a.len() && a[r.handle - 1] is Some {
                assert(b[r.handle - 1] == a[r.handle - 1]);
            }
        },
    }
}

/// Strictly increasing, gap-free sequence numbers starting at 1.
pub open spec fn wal_dense(wal: Seq<WalRecordV>) -> bool {
    forall|i: int| 0 <= i < wal.len() ==> #[trigger] wal[i].sequence == i + 1
}

/// The store's standing invariant: the log is dense, the registry is exactly
/// the log's replay wherever a handle is still open, and every open
/// transaction is well-formed under the handle that equals its id.
pub open spec fn store_wf(s: StoreV) -> bool {
    &&& wal_dense(s.wal)
    &&& s.registry.len() == replay(s.wal).len()
    &&& (forall|i: int|
        0 <= i < s.registry.len() && s.registry[i] is Some ==> #[trigger] s.registry[i] == replay(
            s.wal,
        )[i])
    &&& (forall|i: int|
        0 <= i < s.registry.len() && #[trigger] s.registry[i] is Some ==> tx_wf(
            s.registry[i]->Some_0,
        ) && s.registry[i]->Some_0.id == i + 1)
}

/// How many open transactions among the first `k` slots are still building.
pub open spec fn num_active(reg: Seq<Option<TxV>>, k: int) -> int
    decreases k,
{
    if k <= 0 {
        0
    } else {
        num_active(reg, k - 1) + (match reg[k - 1] {
            Some(t) => if t.state == TxState::Building {
                1int
            } else {
                0int
            },
            None => 0int,
        })
    }
}

/// The kernel store: handle registry, in-memory write-ahead log, and
/// configuration. Handles are allocated densely from 1; a closed handle
/// leaves an empty slot behind and is never reused.
pub struct LegalKernelStore {
    registry: Vec<Option<Transaction>>,
    wal: Vec<WalRecord>,
    config: KernelConfig,
}

impl View for LegalKernelStore {
    type V = StoreV;

    closed spec fn view(&self) -> StoreV {
        StoreV {
            registry: reg_view(self.registry@),
            wal: Seq::new(self.wal@.len(), |i: int| self.wal@[i]@),
            config: self.config,
        }
    }
}

impl LegalKernelStore {
    /// A fresh store with no transactions and an empty log.
    pub fn new(config: KernelConfig) -> (s: LegalKernelStore)
        ensures
            store_wf(s@),
            s@.registry == Seq::<Option<TxV>>::empty(),
            s@.wal == Seq::<WalRecordV>::empty(),
            s@.config == config,
    {
        let s = LegalKernelStore { registry: Vec::new(), wal: Vec::new(), config };
        proof {
            assert(s@.registry =~= Seq::<Option<TxV>>::empty());
            assert(s@.wal =~= Seq::<WalRecordV>::empty());
            assert(replay(s@.wal) =~= Seq::<Option<TxV>>::empty());
        }
        s
    }

    /// The configured limits.
    pub fn config(&self) -> (c: KernelConfig)
        ensures
            c == self@.config,
    {
        self.config
    }

    /// The number of records in the log; because sequence numbers are dense,
    /// also the highest sequence number assigned so far.
    pub fn last_sequence(&self) -> (n: u64)
        requires
            store_wf(self@),
        ensures
            n == self@.wal.len(),
    {
        self.wal.len() as u64
    }

    /// The record at log position `i` (0-based; its sequence number is
    /// `i + 1`).
    pub fn wal_record(&self, i: usize) -> (r: &WalRecord)
        requires
            i < self@.wal.len(),
        ensures
            r@ == self@.wal[i as int],
    {
        &self.wal[i]
    }

    /// Opens a fresh transaction and returns its handle, appending the Begin
    /// record first.
    ///
    /// Handles are dense and never reused: the `n`-th transaction ever begun
    /// gets handle `n`, so handles are unique and strictly increasing over a
    /// kernel lifetime, and 0 is never issued. Fails `ValidationFailed` when
    /// the store name is empty or the cap on building transactions is
    /// reached, and `InternalError` when the log is full.
    pub fn begin_transaction_legal(&mut self, store: String, currency: Currency, now_ns: u64) -> (r:
        Result<u64, ResultCode>)
        requires
            store_wf(old(self)@),
            currency_wf(currency@),
        ensures
            store_wf(final(self)@),
            final(self)@.config == old(self)@.config,
            r is Err ==> *final(self) == *old(self),
            r matches Err(c) ==> (c == ResultCode::ValidationFailed <==> (store@.len() == 0
                || num_active(old(self)@.registry, old(self)@.registry.len() as int)
                >= old(self)@.config.max_active_transactions)),
            r matches Err(c) ==> (c == ResultCode::ValidationFailed || c
                == ResultCode::InternalError),
            r is Ok <==> (store@.len() > 0 && num_active(old(self)@.registry,
                old(self)@.registry.len() as int) < old(self)@.config.max_active_transactions
                && old(self)@.wal.len() < WAL_MAX_RECORDS),
            r matches Ok(h) ==> {
                let rec = rec_at(old(self)@, h, now_ns, WalOpV::TransactionBegin {
                    store: store@,
                    currency_code: currency@.code,
                    decimal_places: currency@.decimal_places,
                });
                &&& h == old(self)@.registry.len() + 1
                &&& h >= 1
                &&& final(self)@.wal == old(self)@.wal.push(rec)
                &&& final(self)@.registry == apply_spec(old(self)@.registry, rec)
                &&& handle_open(final(self)@.registry, h)
                &&& tx_at(final(self)@.registry, h) == begin_tx(rec, store@, currency@.code,
                    currency@.decimal_places)
            },
    {
        if store.as_str().is_empty() {
            return Err(ResultCode::ValidationFailed);
        }
        let active = self.active_transaction_count();
        if active >= self.config.max_active_transactions as u64 {
            return Err(ResultCode::ValidationFailed);
        }
        if self.wal.len() as u64 >= WAL_MAX_RECORDS {
            return Err(ResultCode::InternalError);
        }
        proof {
            lemma_replay_len(self@.wal);
        }
        let handle = (self.registry.len() as u64) + 1;
        let seq = (self.wal.len() as u64) + 1;
        let code_string = currency.code().to_owned();
        let decimal_places = currency.decimal_places();
        let rec = WalRecord {
            sequence: seq,
            timestamp_ns: now_ns,
            handle,
            op: WalOp::TransactionBegin {
                store: store.clone(),
                currency_code: code_string,
                decimal_places,
            },
        };
        let ghost rv = rec@;
        let ghost old_s = self@;
        self.wal.push(rec);
        let tx = Transaction::new(handle, store, currency, now_ns, seq);
        let ghost txv = tx@;
        self.registry.push(Some(tx));
        proof {
            assert(self@.wal =~= old_s.wal.push(rv));
            assert(self@.registry =~= old_s.registry.push(Some(txv)));
            assert(txv == begin_tx(rv, txv.store, currency@.code, currency@.decimal_places));
            assert(self@.registry =~= apply_spec(old_s.registry, rv));
            lemma_replay_snoc(old_s.wal, rv);
            lemma_apply_preserves_rel(old_s.registry, replay(old_s.wal), rv);
            assert(tx_wf(txv));
        }
        Ok(handle)
    }

    /// The total, tendered and change amounts in minor units, and the
    /// numeric state code, of the transaction behind `handle`.
    ///
    /// A pure query: any number of calls between two mutations return the
    /// same tuple. Fails `NotFound` exactly when the handle is not open.
    pub fn get_transaction_totals(&self, handle: u64) -> (r: Result<(i64, i64, i64, u32), ResultCode
    >)
        requires
            store_wf(self@),
        ensures
            r is Ok <==> handle_open(self@.registry, handle),
            r matches Ok((total, tendered, change, code)) ==> {
                let t = tx_at(self@.registry, handle);
                &&& total == tx_total(t)
                &&& tendered == t.tendered_minor
                &&& change == tx_change(t)
                &&& code == state_code(t.state)
            },
            r is Err ==> r == Err::<(i64, i64, i64, u32), ResultCode>(ResultCode::NotFound),
    {
        if handle == 0 || handle > self.registry.len() as u64 {
            return Err(ResultCode::NotFound);
        }
        let idx = (handle - 1) as usize;
        match &self.registry[idx] {
            Some(tx) => {
                proof {
                    assert(self@.registry[handle - 1] is Some);
                    assert(tx@ == tx_at(self@.registry, handle));
                }
                let total = tx.total_minor();
                let change = tx.change_minor();
                let code: u32 = match tx.state {
                    TxState::Building => 0,
                    TxState::Committed => 1,
                    TxState::Aborted => 2,
                    TxState::TimedOut => 3,
                    TxState::Committing => 4,
                    TxState::Aborting => 5,
                };
                Ok((total, tx.tendered_minor, change, code))
            },
            None => Err(ResultCode::NotFound),
        }
    }

    /// The number of lines of the transaction behind `handle`.
    pub fn get_line_count_legal(&self, handle: u64) -> (r: Result<u32, ResultCode>)
        requires
            store_wf(self@),
        ensures
            r is Ok <==> handle_open(self@.registry, handle),
            r matches Ok(n) ==> n == tx_at(self@.registry, handle).lines.len(),
            r is Err ==> r == Err::<u32, ResultCode>(ResultCode::NotFound),
    {
        if handle == 0 || handle > self.registry.len() as u64 {
            return Err(ResultCode::NotFound);
        }
        match &self.registry[(handle - 1) as usize] {
            Some(tx) => {
                proof {
                    assert(self@.registry[handle - 1] is Some);
                }
                Ok(tx.line_count())
            },
            None => Err(ResultCode::NotFound),
        }
    }

    /// The decimal places of the transaction's currency.
    pub fn get_currency_decimal_places(&self, handle: u64) -> (r: Result<u8, ResultCode>)
        requires
            store_wf(self@),
        ensures
            r is Ok <==> handle_open(self@.registry, handle),
            r matches Ok(d) ==> d == tx_at(self@.registry, handle).currency.decimal_places,
            r is Err ==> r == Err::<u8, ResultCode>(ResultCode::NotFound),
    {
        if handle == 0 || handle > self.registry.len() as u64 {
            return Err(ResultCode::NotFound);
        }
        match &self.registry[(handle - 1) as usize] {
            Some(tx) => {
                proof {
                    assert(self@.registry[handle - 1] is Some);
                }
                Ok(tx.currency.decimal_places())
            },
            None => Err(ResultCode::NotFound),
        }
    }

    /// The SKU, quantity, unit price and parent reference of the line at
    /// 0-based `line_index`. Fails `NotFound` when the handle is not open or
    /// the index is out of range.
    pub fn get_line_item_legal(&self, handle: u64, line_index: u32) -> (r: Result<
        (String, i32, i64, Option<u32>),
        ResultCode,
    >)
        requires
            store_wf(self@),
        ensures
            r is Ok <==> (handle_open(self@.registry, handle) && line_index < tx_at(
                self@.registry,
                handle,
            ).lines.len()),
            r matches Ok((sku, qty, unit, parent)) ==> {
                let l = tx_at(self@.registry, handle).lines[line_index as int];
                &&& sku@ == l.sku
                &&& qty == l.qty
                &&& unit == l.unit_minor
                &&& parent == l.parent_line_item_id
            },
            r is Err ==> r == Err::<(String, i32, i64, Option<u32>), ResultCode>(
                ResultCode::NotFound,
            ),
    {
        if handle == 0 || handle > self.registry.len() as u64 {
            return Err(ResultCode::NotFound);
        }
        match &self.registry[(handle - 1) as usize] {
            Some(tx) => {
                proof {
                    assert(self@.registry[handle - 1] is Some);
                }
                if line_index as usize >= tx.lines.len() {
                    return Err(ResultCode::NotFound);
                }
                let l = &tx.lines[line_index as usize];
                Ok((l.sku.clone(), l.qty, l.unit_minor, l.parent_line_item_id))
            },
            None => Err(ResultCode::NotFound),
        }
    }

    /// Alias of `get_line_item_legal` under the embedding surface's name.
    pub fn get_line_item_details(&self, handle: u64, line_index: u32) -> (r: Result<
        (String, i32, i64, Option<u32>),
        ResultCode,
    >)
        requires
            store_wf(self@),
        ensures
            r is Ok <==> (handle_open(self@.registry, handle) && line_index < tx_at(
                self@.registry,
                handle,
            ).lines.len()),
            r matches Ok((sku, qty, unit, parent)) ==> {
                let l = tx_at(self@.registry, handle).lines[line_index as int];
                &&& sku@ == l.sku
                &&& qty == l.qty
                &&& unit == l.unit_minor
                &&& parent == l.parent_line_item_id
            },
            r is Err ==> r == Err::<(String, i32, i64, Option<u32>), ResultCode>(
                ResultCode::NotFound,
            ),
    {
        self.get_line_item_legal(handle, line_index)
    }

    /// The parent line number of the line numbered `line_number` (1-based):
    /// `Ok(Some(p))` for a linked line, `Ok(None)` for a top-level line, and
    /// `NotFound` when the handle is not open or the number names no line.
    pub fn get_line_parent_id(&self, handle: u64, line_number: u32) -> (r: Result<
        Option<u32>,
        ResultCode,
    >)
        requires
            store_wf(self@),
        ensures
            r is Ok <==> (handle_open(self@.registry, handle) && 1 <= line_number <= tx_at(
                self@.registry,
                handle,
            ).lines.len()),
            r matches Ok(p) ==> p == tx_at(self@.registry, handle).lines[line_number
                - 1].parent_line_item_id,
            r is Err ==> r == Err::<Option<u32>, ResultCode>(ResultCode::NotFound),
    {
        if handle == 0 || handle > self.registry.len() as u64 {
            return Err(ResultCode::NotFound);
        }
        match &self.registry[(handle - 1) as usize] {
            Some(tx) => {
                proof {
                    assert(self@.registry[handle - 1] is Some);
                }
                if line_number == 0 || line_number as usize > tx.lines.len() {
                    return Err(ResultCode::NotFound);
                }
                Ok(tx.get_line_parent_id(line_number))
            },
            None => Err(ResultCode::NotFound),
        }
    }

    /// The line numbers of every descendant of `parent_line_number`, in
    /// ascending order — a topological order of the subtree, since parents
    /// always carry smaller numbers than their children.
    pub fn find_line_children(&self, handle: u64, parent_line_number: u32) -> (r: Result<
        Vec<u32>,
        ResultCode,
    >)
        requires
            store_wf(self@),
        ensures
            r is Ok <==> handle_open(self@.registry, handle),
            r matches Ok(children) ==> {
                let t = tx_at(self@.registry, handle);
                &&& (forall|j: int|
                    0 <= j < children@.len() ==> is_descendant(t.lines, parent_line_number,
                        #[trigger] children@[j]))
                &&& (forall|c: u32|
                    is_descendant(t.lines, parent_line_number, c) ==> children@.contains(c))
                &&& (forall|j1: int, j2: int|
                    0 <= j1 < j2 < children@.len() ==> children@[j1] < children@[j2])
            },
            r is Err ==> r == Err::<Vec<u32>, ResultCode>(ResultCode::NotFound),
    {
        if handle == 0 || handle > self.registry.len() as u64 {
            return Err(ResultCode::NotFound);
        }
        match &self.registry[(handle - 1) as usize] {
            Some(tx) => {
                proof {
                    assert(self@.registry[handle - 1] is Some);
                }
                Ok(tx.find_all_children(parent_line_number))
            },
            None => Err(ResultCode::NotFound),
        }
    }

    /// The SKU, quantity, unit price and parent of a line, negotiated
    /// against a caller buffer of `sku_capacity` bytes, as the embedding
    /// surface does it: when the SKU's UTF-8 length exceeds the capacity the
    /// call fails `InsufficientBuffer` and reports the required size
    /// alongside the code.
    pub fn get_line_item_buffered(&self, handle: u64, line_index: u32, sku_capacity: usize) -> (r:
        Result<(String, i32, i64, Option<u32>), (ResultCode, usize)>)
        requires
            store_wf(self@),
        ensures
            r is Ok <==> (handle_open(self@.registry, handle) && line_index < tx_at(
                self@.registry,
                handle,
            ).lines.len() && encode_utf8(
                tx_at(self@.registry, handle).lines[line_index as int].sku,
            ).len() <= sku_capacity),
            r matches Ok((sku, qty, unit, parent)) ==> {
                let l = tx_at(self@.registry, handle).lines[line_index as int];
                &&& sku@ == l.sku
                &&& qty == l.qty
                &&& unit == l.unit_minor
                &&& parent == l.parent_line_item_id
            },
            r matches Err((c, required)) ==> {
                &&& (c == ResultCode::NotFound || c == ResultCode::InsufficientBuffer)
                &&& (c == ResultCode::NotFound <==> !(handle_open(self@.registry, handle)
                    && line_index < tx_at(self@.registry, handle).lines.len()))
                &&& (c == ResultCode::NotFound ==> required == 0)
                &&& (c == ResultCode::InsufficientBuffer ==> required == encode_utf8(
                    tx_at(self@.registry, handle).lines[line_index as int].sku,
                ).len() && required > sku_capacity)
            },
    {
        match self.get_line_item_legal(handle, line_index) {
            Ok((sku, qty, unit_minor, parent)) => {
                let sku_bytes = sku.as_str().as_bytes_vec();
                let required = sku_bytes.len();
                proof {
                    assert(sku_bytes@ == encode_utf8(sku@));
                }
                if required > sku_capacity {
                    Err((ResultCode::InsufficientBuffer, required))
                } else {
                    Ok((sku, qty, unit_minor, parent))
                }
            },
            Err(_) => Err((ResultCode::NotFound, 0)),
        }
    }

    /// The descendant line numbers of `parent_line_number`, negotiated
    /// against a caller buffer of `capacity` elements: when more descendants
    /// exist than fit, the call fails `InsufficientBuffer` and reports the
    /// required element count.
    pub fn find_line_children_buffered(
        &self,
        handle: u64,
        parent_line_number: u32,
        capacity: usize,
    ) -> (r: Result<Vec<u32>, (ResultCode, usize)>)
        requires
            store_wf(self@),
        ensures
            r matches Ok(children) ==> (handle_open(self@.registry, handle) && is_child_list(
                tx_at(self@.registry, handle).lines,
                parent_line_number,
                children@,
            ) && children@.len() <= capacity),
            r matches Err((c, required)) ==> {
                &&& (c == ResultCode::NotFound || c == ResultCode::InsufficientBuffer)
                &&& (c == ResultCode::NotFound <==> !handle_open(self@.registry, handle))
                &&& (c == ResultCode::NotFound ==> required == 0)
                &&& (c == ResultCode::InsufficientBuffer ==> (required > capacity && (exists|
                    v: Seq<u32>,
                |
                    is_child_list(tx_at(self@.registry, handle).lines, parent_line_number, v)
                        && v.len() == required)))
            },
    {
        match self.find_line_children(handle, parent_line_number) {
            Ok(children) => {
                let required = children.len();
                if required > capacity {
                    proof {
                        assert(is_child_list(tx_at(self@.registry, handle).lines,
                            parent_line_number, children@));
                    }
                    Err((ResultCode::InsufficientBuffer, required))
                } else {
                    Ok(children)
                }
            },
            Err(_) => Err((ResultCode::NotFound, 0)),
        }
    }

    /// Releases a handle: the slot is emptied and the handle is never issued
    /// again. The log keeps the transaction's records indefinitely.
    pub fn close_transaction(&mut self, handle: u64) -> (r: Result<(), ResultCode>)
        requires
            store_wf(old(self)@),
        ensures
            store_wf(final(self)@),
            final(self)@.config == old(self)@.config,
            final(self)@.wal == old(self)@.wal,
            r is Ok <==> handle_open(old(self)@.registry, handle),
            r is Ok ==> final(self)@.registry == old(self)@.registry.update(handle - 1,
                None::<TxV>),
            r is Err ==> *final(self) == *old(self) && r == Err::<(), ResultCode>(
                ResultCode::NotFound,
            ),
    {
        if handle == 0 || handle > self.registry.len() as u64 {
            return Err(ResultCode::NotFound);
        }
        let idx = (handle - 1) as usize;
        let open = match &self.registry[idx] {
            Some(_) => true,
            None => false,
        };
        if !open {
            return Err(ResultCode::NotFound);
        }
        let ghost old_s = self@;
        self.registry.set(idx, None);
        proof {
            assert(self@.registry =~= old_s.registry.update(handle - 1, None::<TxV>));
            assert(self@.wal =~= old_s.wal);
        }
        Ok(())
    }

    /// Moves an expired building transaction to `TimedOut`, logging the
    /// transition.
    fn trigger_timeout(&mut self, handle: u64, now_ns: u64)
        requires
            store_wf(old(self)@),
            old(self)@.wal.len() < WAL_MAX_RECORDS,
            handle_open(old(self)@.registry, handle),
            tx_at(old(self)@.registry, handle).state == TxState::Building,
        ensures
            store_wf(final(self)@),
            final(self)@.config == old(self)@.config,
            final(self)@.wal == old(self)@.wal.push(
                rec_at(old(self)@, handle, now_ns, WalOpV::TransactionTimeout),
            ),
            final(self)@.registry == apply_spec(old(self)@.registry,
                rec_at(old(self)@, handle, now_ns, WalOpV::TransactionTimeout)),
    {
        let ghost old_s = self@;
        let len = self.registry.len();
        proof {
            assert(handle <= len);
        }
        let idx = (handle as usize) - 1;
        proof {
            assert(idx == handle - 1);
        }
        let slot = self.registry[idx].take();
        match slot {
            Some(mut tx) => {
                proof {
                    assert(old_s.registry[handle - 1] is Some);
                    assert(tx@ == tx_at(old_s.registry, handle));
                }
                tx.set_timed_out(now_ns);
                self.registry.set(idx, Some(tx));
            },
            None => {
                proof {
                    assert(old_s.registry[handle - 1] is Some);
                    assert(false);
                }
            },
        }
        let rec = WalRecord {
            sequence: (self.wal.len() as u64) + 1,
            timestamp_ns: now_ns,
            handle,
            op: WalOp::TransactionTimeout,
        };
        let ghost rv = rec@;
        self.wal.push(rec);
        proof {
            assert(self@.wal =~= old_s.wal.push(rv));
            let t = tx_at(old_s.registry, handle);
            let t2 = TxV { state: TxState::TimedOut, last_activity_ns: now_ns, ..t };
            assert(self@.registry =~= old_s.registry.update(handle - 1, Some(t2)));
            assert(apply_spec(old_s.registry, rv) =~= old_s.registry.update(handle - 1, Some(t2)));
            lemma_replay_snoc(old_s.wal, rv);
            lemma_apply_preserves_rel(old_s.registry, replay(old_s.wal), rv);
        }
    }

    /// The checks every mutation passes first: room in the log for
    /// `reserve` more records, an open handle, and a building, unexpired
    /// transaction. An expired building transaction is moved to `TimedOut`
    /// here, with its transition logged, and the mutation fails `TimedOut`.
    fn mutation_checks(&mut self, handle: u64, now_ns: u64, reserve: u64) -> (g: Result<(), ResultCode>)
        requires
            store_wf(old(self)@),
            1 <= reserve <= 2,
        ensures
            store_wf(final(self)@),
            final(self)@.config == old(self)@.config,
            final(self)@.registry.len() == old(self)@.registry.len(),
            g is Ok ==> *final(self) == *old(self),
            g is Ok <==> (old(self)@.wal.len() <= WAL_MAX_RECORDS - reserve && handle_open(
                old(self)@.registry,
                handle,
            ) && tx_at(old(self)@.registry, handle).state == TxState::Building && !expired(
                tx_at(old(self)@.registry, handle),
                old(self)@.config.transaction_timeout_ns,
                now_ns,
            )),
            g == Err::<(), ResultCode>(ResultCode::InternalError) <==> old(self)@.wal.len()
                > WAL_MAX_RECORDS - reserve,
            old(self)@.wal.len() > WAL_MAX_RECORDS - reserve ==> *final(self) == *old(self),
            old(self)@.wal.len() <= WAL_MAX_RECORDS - reserve ==> (g == Err::<(), ResultCode>(
                ResultCode::NotFound,
            ) <==> !handle_open(old(self)@.registry, handle)),
            old(self)@.wal.len() <= WAL_MAX_RECORDS - reserve && !handle_open(old(self)@.registry,
                handle) ==> *final(self) == *old(self),
            old(self)@.wal.len() <= WAL_MAX_RECORDS - reserve && handle_open(old(self)@.registry,
                handle) ==> {
                let t = tx_at(old(self)@.registry, handle);
                let trec = rec_at(old(self)@, handle, now_ns, WalOpV::TransactionTimeout);
                &&& (t.state == TxState::Building && expired(t,
                    old(self)@.config.transaction_timeout_ns, now_ns) ==> (g == Err::<
                    (),
                    ResultCode,
                >(ResultCode::TimedOut) && final(self)@.wal == old(self)@.wal.push(trec) && final(self)@.registry == apply_spec(old(self)@.registry, trec)))
                &&& (t.state != TxState::Building ==> (g == Err::<(), ResultCode>(
                    ResultCode::InvalidState,
                ) && *final(self) == *old(self)))
            },
    {
        if self.wal.len() as u64 > WAL_MAX_RECORDS - reserve {
            return Err(ResultCode::InternalError);
        }
        if handle == 0 || handle > self.registry.len() as u64 {
            return Err(ResultCode::NotFound);
        }
        let idx = (handle as usize) - 1;
        let timeout_ns = self.config.transaction_timeout_ns;
        let mut found = false;
        let mut is_building = false;
        let mut is_expired = false;
        match &self.registry[idx] {
            Some(tx) => {
                proof {
                    assert(self@.registry[handle - 1] is Some);
                    assert(tx@ == tx_at(self@.registry, handle));
                }
                found = true;
                is_building = tx.state == TxState::Building;
                is_expired = tx.is_expired(timeout_ns, now_ns);
            },
            None => {
                proof {
                    assert(!(self@.registry[handle - 1] is Some));
                }
            },
        }
        if !found {
            return Err(ResultCode::NotFound);
        }
        if is_building && is_expired {
            self.trigger_timeout(handle, now_ns);
            return Err(ResultCode::TimedOut);
        }
        if !is_building {
            return Err(ResultCode::InvalidState);
        }
        Ok(())
    }

    /// Appends an unlinked Sale line to the transaction behind `handle`,
    /// logging a record first.
    ///
    /// Fails `InternalError` when the log is full, `NotFound` when the handle
    /// is not open, `TimedOut` when the transaction outlived its inactivity
    /// limit (it then moves to `TimedOut`, and that transition is logged),
    /// `InvalidState` when it is no longer building, and `ValidationFailed`
    /// when the line fails validation or a bound would be left.
    pub fn add_line_legal(
        &mut self,
        handle: u64,
        sku: String,
        qty: i32,
        unit_minor: i64,
        now_ns: u64,
    ) -> (r: Result<(), ResultCode>)
        requires
            store_wf(old(self)@),
        ensures
            store_wf(final(self)@),
            final(self)@.config == old(self)@.config,
            r is Err ==> final(self)@.registry.len() == old(self)@.registry.len(),
            old(self)@.wal.len() >= WAL_MAX_RECORDS ==> (r == Err::<(), ResultCode>(
                ResultCode::InternalError,
            ) && final(self)@ == old(self)@),
            old(self)@.wal.len() < WAL_MAX_RECORDS && !handle_open(old(self)@.registry, handle)
                ==> (r == Err::<(), ResultCode>(ResultCode::NotFound) && final(self)@ == old(self)@),
            old(self)@.wal.len() < WAL_MAX_RECORDS && handle_open(old(self)@.registry, handle)
                ==> {
                let t = tx_at(old(self)@.registry, handle);
                let trec = rec_at(old(self)@, handle, now_ns, WalOpV::TransactionTimeout);
                let rec = rec_at(old(self)@, handle, now_ns, WalOpV::LineAdd {
                    sku: sku@,
                    qty,
                    unit_minor,
                });
                &&& (t.state == TxState::Building && expired(t,
                    old(self)@.config.transaction_timeout_ns, now_ns) ==> (r == Err::<
                    (),
                    ResultCode,
                >(ResultCode::TimedOut) && final(self)@.wal == old(self)@.wal.push(trec) && final(self)@.registry == apply_spec(old(self)@.registry, trec)))
                &&& (t.state != TxState::Building ==> (r == Err::<(), ResultCode>(
                    ResultCode::InvalidState,
                ) && final(self)@ == old(self)@))
                &&& (t.state == TxState::Building && !expired(t,
                    old(self)@.config.transaction_timeout_ns, now_ns) ==> {
                    &&& (can_append_sale(t, sku@, qty, unit_minor, None) ==> (r is Ok && final(self)@.wal == old(self)@.wal.push(rec) && final(self)@.registry == apply_spec(
                        old(self)@.registry,
                        rec,
                    )))
                    &&& (!can_append_sale(t, sku@, qty, unit_minor, None) ==> (r == Err::<
                        (),
                        ResultCode,
                    >(ResultCode::ValidationFailed) && final(self)@ == old(self)@))
                })
            },
    {
        match self.mutation_checks(handle, now_ns, 1) {
            Ok(()) => {},
            Err(c) => {
                return Err(c);
            },
        }
        let rlen = self.registry.len();
        proof {
            assert(handle <= rlen);
        }
        let idx = (handle as usize) - 1;
        let ghost old_s = self@;
        let slot = self.registry[idx].take();
        match slot {
            Some(mut tx) => {
                proof {
                    assert(old_s.registry[handle - 1] is Some);
                    assert(tx@ == tx_at(old_s.registry, handle));
                }
                let res = tx.add_line(sku.clone(), qty, unit_minor, now_ns);
                self.registry.set(idx, Some(tx));
                match res {
                    Ok(()) => {},
                    Err(c) => {
                        proof {
                            assert(self@.registry =~= old_s.registry);
                            assert(self@.wal =~= old_s.wal);
                            assert(self@ == old_s);
                        }
                        return Err(c);
                    },
                }
            },
            None => {
                proof {
                    assert(old_s.registry[handle - 1] is Some);
                    assert(false);
                }
                return Err(ResultCode::NotFound);
            },
        }
        let rec = WalRecord {
            sequence: (self.wal.len() as u64) + 1,
            timestamp_ns: now_ns,
            handle,
            op: WalOp::LineAdd { sku, qty, unit_minor },
        };
        let ghost rv = rec@;
        self.wal.push(rec);
        proof {
            assert(self@.wal =~= old_s.wal.push(rv));
            let t = tx_at(old_s.registry, handle);
            let t2 = with_line(t, sale_line_v(rv.op->LineAdd_sku, qty, unit_minor, (t.lines.len()
                + 1) as u32, None, now_ns), now_ns);
            assert(self@.registry =~= old_s.registry.update(handle - 1, Some(t2)));
            assert(apply_spec(old_s.registry, rv) =~= old_s.registry.update(handle - 1, Some(t2)));
            lemma_replay_snoc(old_s.wal, rv);
            lemma_apply_preserves_rel(old_s.registry, replay(old_s.wal), rv);
        }
        Ok(())
    }

    /// Appends a Sale line linked below the Sale numbered `parent_line_id`;
    /// the gates and failure codes are those of `add_line_legal`, plus
    /// `ValidationFailed` when the parent is missing or is not a Sale line.
    pub fn add_child_line_legal(
        &mut self,
        handle: u64,
        sku: String,
        qty: i32,
        unit_minor: i64,
        parent_line_id: u32,
        now_ns: u64,
    ) -> (r: Result<(), ResultCode>)
        requires
            store_wf(old(self)@),
        ensures
            store_wf(final(self)@),
            final(self)@.config == old(self)@.config,
            r is Err ==> final(self)@.registry.len() == old(self)@.registry.len(),
            old(self)@.wal.len() >= WAL_MAX_RECORDS ==> (r == Err::<(), ResultCode>(
                ResultCode::InternalError,
            ) && final(self)@ == old(self)@),
            old(self)@.wal.len() < WAL_MAX_RECORDS && !handle_open(old(self)@.registry, handle)
                ==> (r == Err::<(), ResultCode>(ResultCode::NotFound) && final(self)@ == old(self)@),
            old(self)@.wal.len() < WAL_MAX_RECORDS && handle_open(old(self)@.registry, handle)
                ==> {
                let t = tx_at(old(self)@.registry, handle);
                let trec = rec_at(old(self)@, handle, now_ns, WalOpV::TransactionTimeout);
                let rec = rec_at(old(self)@, handle, now_ns, WalOpV::LineAddWithParent {
                    sku: sku@,
                    qty,
                    unit_minor,
                    parent_line: parent_line_id,
                });
                &&& (t.state == TxState::Building && expired(t,
                    old(self)@.config.transaction_timeout_ns, now_ns) ==> (r == Err::<
                    (),
                    ResultCode,
                >(ResultCode::TimedOut) && final(self)@.wal == old(self)@.wal.push(trec) && final(self)@.registry == apply_spec(old(self)@.registry, trec)))
                &&& (t.state != TxState::Building ==> (r == Err::<(), ResultCode>(
                    ResultCode::InvalidState,
                ) && final(self)@ == old(self)@))
                &&& (t.state == TxState::Building && !expired(t,
                    old(self)@.config.transaction_timeout_ns, now_ns) ==> {
                    &&& (can_append_sale(t, sku@, qty, unit_minor, Some(parent_line_id)) ==> (
                    r is Ok && final(self)@.wal == old(self)@.wal.push(rec) && final(self)@.registry == apply_spec(old(self)@.registry, rec)))
                    &&& (!can_append_sale(t, sku@, qty, unit_minor, Some(parent_line_id)) ==> (r
                        == Err::<(), ResultCode>(ResultCode::ValidationFailed) && final(self)@
                        == old(self)@))
                })
            },
    {
        match self.mutation_checks(handle, now_ns, 1) {
            Ok(()) => {},
            Err(c) => {
                return Err(c);
            },
        }
        let rlen = self.registry.len();
        proof {
            assert(handle <= rlen);
        }
        let idx = (handle as usize) - 1;
        let ghost old_s = self@;
        let slot = self.registry[idx].take();
        match slot {
            Some(mut tx) => {
                proof {
                    assert(old_s.registry[handle - 1] is Some);
                    assert(tx@ == tx_at(old_s.registry, handle));
                }
                let res = tx.add_child_line(sku.clone(), qty, unit_minor, parent_line_id, now_ns);
                self.registry.set(idx, Some(tx));
                match res {
                    Ok(()) => {},
                    Err(c) => {
                        proof {
                            assert(self@.registry =~= old_s.registry);
                            assert(self@.wal =~= old_s.wal);
                            assert(self@ == old_s);
                        }
                        return Err(c);
                    },
                }
            },
            None => {
                proof {
                    assert(old_s.registry[handle - 1] is Some);
                    assert(false);
                }
                return Err(ResultCode::NotFound);
            },
        }
        let rec = WalRecord {
            sequence: (self.wal.len() as u64) + 1,
            timestamp_ns: now_ns,
            handle,
            op: WalOp::LineAddWithParent { sku, qty, unit_minor, parent_line: parent_line_id },
        };
        let ghost rv = rec@;
        self.wal.push(rec);
        proof {
            assert(self@.wal =~= old_s.wal.push(rv));
            let t = tx_at(old_s.registry, handle);
            let t2 = with_line(t, sale_line_v(rv.op->LineAddWithParent_sku, qty, unit_minor, (
            t.lines.len() + 1) as u32, Some(parent_line_id), now_ns), now_ns);
            assert(self@.registry =~= old_s.registry.update(handle - 1, Some(t2)));
            assert(apply_spec(old_s.registry, rv) =~= old_s.registry.update(handle - 1, Some(t2)));
            lemma_replay_snoc(old_s.wal, rv);
            lemma_apply_preserves_rel(old_s.registry, replay(old_s.wal), rv);
        }
        Ok(())
    }

    /// Appends a Sale line with or without a parent: `None` behaves as
    /// `add_line_legal`, `Some(p)` as `add_child_line_legal`.
    pub fn add_line_with_parent_legal(
        &mut self,
        handle: u64,
        sku: String,
        qty: i32,
        unit_minor: i64,
        parent: Option<u32>,
        now_ns: u64,
    ) -> (r: Result<(), ResultCode>)
        requires
            store_wf(old(self)@),
        ensures
            store_wf(final(self)@),
            final(self)@.config == old(self)@.config,
            old(self)@.wal.len() < WAL_MAX_RECORDS && handle_open(old(self)@.registry, handle)
                && tx_at(old(self)@.registry, handle).state == TxState::Building && !expired(
                tx_at(old(self)@.registry, handle),
                old(self)@.config.transaction_timeout_ns,
                now_ns,
            ) ==> {
                let t = tx_at(old(self)@.registry, handle);
                let rec = rec_at(old(self)@, handle, now_ns, match parent {
                    Some(p) => WalOpV::LineAddWithParent {
                        sku: sku@,
                        qty,
                        unit_minor,
                        parent_line: p,
                    },
                    None => WalOpV::LineAdd { sku: sku@, qty, unit_minor },
                });
                &&& (can_append_sale(t, sku@, qty, unit_minor, parent) ==> (r is Ok && final(self)@.wal == old(self)@.wal.push(rec) && final(self)@.registry == apply_spec(
                    old(self)@.registry,
                    rec,
                )))
                &&& (!can_append_sale(t, sku@, qty, unit_minor, parent) ==> (r == Err::<
                    (),
                    ResultCode,
                >(ResultCode::ValidationFailed) && final(self)@ == old(self)@))
            },
            r is Err ==> final(self)@.registry.len() == old(self)@.registry.len(),
    {
        match parent {
            Some(p) => self.add_child_line_legal(handle, sku, qty, unit_minor, p, now_ns),
            None => self.add_line_legal(handle, sku, qty, unit_minor, now_ns),
        }
    }

    /// Commits the building transaction behind `handle`, logging the commit
    /// record whose sequence number the transaction keeps.
    pub fn commit_transaction(&mut self, handle: u64, now_ns: u64) -> (r: Result<(), ResultCode>)
        requires
            store_wf(old(self)@),
        ensures
            store_wf(final(self)@),
            final(self)@.config == old(self)@.config,
            r is Err ==> final(self)@.registry.len() == old(self)@.registry.len(),
            old(self)@.wal.len() >= WAL_MAX_RECORDS ==> (r == Err::<(), ResultCode>(
                ResultCode::InternalError,
            ) && final(self)@ == old(self)@),
            old(self)@.wal.len() < WAL_MAX_RECORDS && !handle_open(old(self)@.registry, handle)
                ==> (r == Err::<(), ResultCode>(ResultCode::NotFound) && final(self)@ == old(self)@),
            old(self)@.wal.len() < WAL_MAX_RECORDS && handle_open(old(self)@.registry, handle)
                ==> {
                let t = tx_at(old(self)@.registry, handle);
                let trec = rec_at(old(self)@, handle, now_ns, WalOpV::TransactionTimeout);
                let rec = rec_at(old(self)@, handle, now_ns, WalOpV::TransactionCommit);
                &&& (t.state == TxState::Building && expired(t,
                    old(self)@.config.transaction_timeout_ns, now_ns) ==> (r == Err::<
                    (),
                    ResultCode,
                >(ResultCode::TimedOut) && final(self)@.wal == old(self)@.wal.push(trec) && final(self)@.registry == apply_spec(old(self)@.registry, trec)))
                &&& (t.state != TxState::Building ==> (r == Err::<(), ResultCode>(
                    ResultCode::InvalidState,
                ) && final(self)@ == old(self)@))
                &&& (t.state == TxState::Building && !expired(t,
                    old(self)@.config.transaction_timeout_ns, now_ns) ==> (r is Ok && final(self)@.wal == old(self)@.wal.push(rec) && final(self)@.registry == apply_spec(
                    old(self)@.registry,
                    rec,
                )))
            },
    {
        match self.mutation_checks(handle, now_ns, 1) {
            Ok(()) => {},
            Err(c) => {
                return Err(c);
            },
        }
        let rlen = self.registry.len();
        proof {
            assert(handle <= rlen);
        }
        let idx = (handle as usize) - 1;
        let ghost old_s = self@;
        let seq = (self.wal.len() as u64) + 1;
        let slot = self.registry[idx].take();
        match slot {
            Some(mut tx) => {
                proof {
                    assert(old_s.registry[handle - 1] is Some);
                    assert(tx@ == tx_at(old_s.registry, handle));
                }
                tx.set_committed(seq, now_ns);
                self.registry.set(idx, Some(tx));
            },
            None => {
                proof {
                    assert(old_s.registry[handle - 1] is Some);
                    assert(false);
                }
                return Err(ResultCode::NotFound);
            },
        }
        let rec = WalRecord {
            sequence: seq,
            timestamp_ns: now_ns,
            handle,
            op: WalOp::TransactionCommit,
        };
        let ghost rv = rec@;
        self.wal.push(rec);
        proof {
            assert(self@.wal =~= old_s.wal.push(rv));
            let t = tx_at(old_s.registry, handle);
            let t2 = TxV {
                state: TxState::Committed,
                wal_commit_sequence: Some(rv.sequence),
                last_activity_ns: now_ns,
                ..t
            };
            assert(self@.registry =~= old_s.registry.update(handle - 1, Some(t2)));
            assert(apply_spec(old_s.registry, rv) =~= old_s.registry.update(handle - 1, Some(t2)));
            lemma_replay_snoc(old_s.wal, rv);
            lemma_apply_preserves_rel(old_s.registry, replay(old_s.wal), rv);
        }
        Ok(())
    }

    /// Aborts the building transaction behind `handle` with a reason kept in
    /// the log record.
    ///
    /// A second abort of the same transaction fails `InvalidState` and
    /// changes neither the registry nor the log.
    pub fn abort_transaction(&mut self, handle: u64, reason: String, now_ns: u64) -> (r: Result<
        (),
        ResultCode,
    >)
        requires
            store_wf(old(self)@),
        ensures
            store_wf(final(self)@),
            final(self)@.config == old(self)@.config,
            r is Err ==> final(self)@.registry.len() == old(self)@.registry.len(),
            old(self)@.wal.len() >= WAL_MAX_RECORDS ==> (r == Err::<(), ResultCode>(
                ResultCode::InternalError,
            ) && final(self)@ == old(self)@),
            old(self)@.wal.len() < WAL_MAX_RECORDS && !handle_open(old(self)@.registry, handle)
                ==> (r == Err::<(), ResultCode>(ResultCode::NotFound) && final(self)@ == old(self)@),
            old(self)@.wal.len() < WAL_MAX_RECORDS && handle_open(old(self)@.registry, handle)
                ==> {
                let t = tx_at(old(self)@.registry, handle);
                let trec = rec_at(old(self)@, handle, now_ns, WalOpV::TransactionTimeout);
                let rec = rec_at(old(self)@, handle, now_ns, WalOpV::TransactionAbort {
                    reason: reason@,
                });
                &&& (t.state == TxState::Building && expired(t,
                    old(self)@.config.transaction_timeout_ns, now_ns) ==> (r == Err::<
                    (),
                    ResultCode,
                >(ResultCode::TimedOut) && final(self)@.wal == old(self)@.wal.push(trec) && final(self)@.registry == apply_spec(old(self)@.registry, trec)))
                &&& (t.state != TxState::Building ==> (r == Err::<(), ResultCode>(
                    ResultCode::InvalidState,
                ) && final(self)@ == old(self)@))
                &&& (t.state == TxState::Building && !expired(t,
                    old(self)@.config.transaction_timeout_ns, now_ns) ==> (r is Ok && final(self)@.wal == old(self)@.wal.push(rec) && final(self)@.registry == apply_spec(
                    old(self)@.registry,
                    rec,
                )))
            },
    {
        match self.mutation_checks(handle, now_ns, 1) {
            Ok(()) => {},
            Err(c) => {
                return Err(c);
            },
        }
        let rlen = self.registry.len();
        proof {
            assert(handle <= rlen);
        }
        let idx = (handle as usize) - 1;
        let ghost old_s = self@;
        let slot = self.registry[idx].take();
        match slot {
            Some(mut tx) => {
                proof {
                    assert(old_s.registry[handle - 1] is Some);
                    assert(tx@ == tx_at(old_s.registry, handle));
                }
                tx.set_aborted(now_ns);
                self.registry.set(idx, Some(tx));
            },
            None => {
                proof {
                    assert(old_s.registry[handle - 1] is Some);
                    assert(false);
                }
                return Err(ResultCode::NotFound);
            },
        }
        let rec = WalRecord {
            sequence: (self.wal.len() as u64) + 1,
            timestamp_ns: now_ns,
            handle,
            op: WalOp::TransactionAbort { reason },
        };
        let ghost rv = rec@;
        self.wal.push(rec);
        proof {
            assert(self@.wal =~= old_s.wal.push(rv));
            let t = tx_at(old_s.registry, handle);
            let t2 = TxV { state: TxState::Aborted, last_activity_ns: now_ns, ..t };
            assert(self@.registry =~= old_s.registry.update(handle - 1, Some(t2)));
            assert(apply_spec(old_s.registry, rv) =~= old_s.registry.update(handle - 1, Some(t2)));
            lemma_replay_snoc(old_s.wal, rv);
            lemma_apply_preserves_rel(old_s.registry, replay(old_s.wal), rv);
        }
        Ok(())
    }

    /// Adds a cash tender, and commits the transaction in the same call when
    /// the new tender covers the total: one `TenderAdd` record, then — on
    /// auto-commit — one `TransactionCommit` record.
    pub fn add_cash_tender_legal(&mut self, handle: u64, amount_minor: i64, now_ns: u64) -> (r:
        Result<(), ResultCode>)
        requires
            store_wf(old(self)@),
        ensures
            store_wf(final(self)@),
            final(self)@.config == old(self)@.config,
            r is Err ==> final(self)@.registry.len() == old(self)@.registry.len(),
            old(self)@.wal.len() > WAL_MAX_RECORDS - 2 ==> (r == Err::<(), ResultCode>(
                ResultCode::InternalError,
            ) && final(self)@ == old(self)@),
            old(self)@.wal.len() <= WAL_MAX_RECORDS - 2 && !handle_open(old(self)@.registry,
                handle) ==> (r == Err::<(), ResultCode>(ResultCode::NotFound) && final(self)@
                == old(self)@),
            old(self)@.wal.len() <= WAL_MAX_RECORDS - 2 && handle_open(old(self)@.registry, handle)
                ==> {
                let t = tx_at(old(self)@.registry, handle);
                let trec = rec_at(old(self)@, handle, now_ns, WalOpV::TransactionTimeout);
                let rec = rec_at(old(self)@, handle, now_ns, WalOpV::TenderAdd { amount_minor });
                &&& (t.state == TxState::Building && expired(t,
                    old(self)@.config.transaction_timeout_ns, now_ns) ==> (r == Err::<
                    (),
                    ResultCode,
                >(ResultCode::TimedOut) && final(self)@.wal == old(self)@.wal.push(trec) && final(self)@.registry == apply_spec(old(self)@.registry, trec)))
                &&& (t.state != TxState::Building ==> (r == Err::<(), ResultCode>(
                    ResultCode::InvalidState,
                ) && final(self)@ == old(self)@))
                &&& (t.state == TxState::Building && !expired(t,
                    old(self)@.config.transaction_timeout_ns, now_ns) ==> {
                    &&& (!can_add_tender(t, amount_minor) ==> (r == Err::<(), ResultCode>(
                        ResultCode::ValidationFailed,
                    ) && final(self)@ == old(self)@))
                    &&& (can_add_tender(t, amount_minor) ==> {
                        let t1 = with_tender(t, amount_minor, now_ns);
                        let crec = WalRecordV {
                            sequence: (old(self)@.wal.len() + 2) as u64,
                            timestamp_ns: now_ns,
                            handle,
                            op: WalOpV::TransactionCommit,
                        };
                        &&& r is Ok
                        &&& (t1.tendered_minor < tx_total(t1) ==> (final(self)@.wal == old(self)@.wal.push(rec) && final(self)@.registry == apply_spec(
                            old(self)@.registry,
                            rec,
                        )))
                        &&& (t1.tendered_minor >= tx_total(t1) ==> (final(self)@.wal == old(self)@.wal.push(rec).push(crec) && final(self)@.registry == apply_spec(
                            apply_spec(old(self)@.registry, rec),
                            crec,
                        )))
                    })
                })
            },
    {
        match self.mutation_checks(handle, now_ns, 2) {
            Ok(()) => {},
            Err(c) => {
                return Err(c);
            },
        }
        let rlen = self.registry.len();
        proof {
            assert(handle <= rlen);
        }
        let idx = (handle as usize) - 1;
        let ghost old_s = self@;
        let seq = (self.wal.len() as u64) + 1;
        let mut auto_commit = false;
        match self.registry[idx].take() {
            Some(mut tx) => {
                proof {
                    assert(old_s.registry[handle - 1] is Some);
                    assert(tx@ == tx_at(old_s.registry, handle));
                }
                let res = tx.apply_tender(amount_minor, now_ns);
                match res {
                    Ok(()) => {
                        let total = tx.total_minor();
                        auto_commit = tx.tendered_minor >= total;
                        if auto_commit {
                            tx.set_committed(seq + 1, now_ns);
                        }
                        self.registry.set(idx, Some(tx));
                    },
                    Err(c) => {
                        self.registry.set(idx, Some(tx));
                        proof {
                            assert(self@.registry =~= old_s.registry);
                            assert(self@.wal =~= old_s.wal);
                            assert(self@ == old_s);
                        }
                        return Err(c);
                    },
                }
            },
            None => {
                proof {
                    assert(old_s.registry[handle - 1] is Some);
                    assert(false);
                }
                return Err(ResultCode::NotFound);
            },
        }
        let rec = WalRecord {
            sequence: seq,
            timestamp_ns: now_ns,
            handle,
            op: WalOp::TenderAdd { amount_minor },
        };
        let ghost rv = rec@;
        self.wal.push(rec);
        let ghost t = tx_at(old_s.registry, handle);
        let ghost t1 = with_tender(t, amount_minor, now_ns);
        let ghost mid_reg = old_s.registry.update(handle - 1, Some(t1));
        proof {
            assert(apply_spec(old_s.registry, rv) =~= mid_reg);
            lemma_replay_snoc(old_s.wal, rv);
            lemma_apply_preserves_rel(old_s.registry, replay(old_s.wal), rv);
        }
        if !auto_commit {
            proof {
                assert(self@.wal =~= old_s.wal.push(rv));
                assert(self@.registry =~= mid_reg);
            }
            return Ok(());
        }
        let crec = WalRecord {
            sequence: seq + 1,
            timestamp_ns: now_ns,
            handle,
            op: WalOp::TransactionCommit,
        };
        let ghost cv = crec@;
        self.wal.push(crec);
        proof {
            let mid_wal = old_s.wal.push(rv);
            assert(self@.wal =~= mid_wal.push(cv));
            let t2 = TxV {
                state: TxState::Committed,
                wal_commit_sequence: Some(cv.sequence),
                last_activity_ns: now_ns,
                ..t1
            };
            assert(self@.registry =~= old_s.registry.update(handle - 1, Some(t2)));
            assert(self@.registry =~= mid_reg.update(handle - 1, Some(t2)));
            assert(apply_spec(mid_reg, cv) =~= mid_reg.update(handle - 1, Some(t2)));
            lemma_replay_snoc(mid_wal, cv);
            lemma_apply_preserves_rel(mid_reg, replay(mid_wal), cv);
        }
        Ok(())
    }

    /// Voids the single Sale line numbered `line_number`, appending one Void
    /// entry and logging one record listing that one line.
    pub fn void_line_item_legal(
        &mut self,
        handle: u64,
        line_number: u32,
        reason: String,
        now_ns: u64,
    ) -> (r: Result<(), ResultCode>)
        requires
            store_wf(old(self)@),
        ensures
            store_wf(final(self)@),
            final(self)@.config == old(self)@.config,
            r is Err ==> final(self)@.registry.len() == old(self)@.registry.len(),
            old(self)@.wal.len() >= WAL_MAX_RECORDS ==> (r == Err::<(), ResultCode>(
                ResultCode::InternalError,
            ) && final(self)@ == old(self)@),
            old(self)@.wal.len() < WAL_MAX_RECORDS && !handle_open(old(self)@.registry, handle)
                ==> (r == Err::<(), ResultCode>(ResultCode::NotFound) && final(self)@ == old(self)@),
            old(self)@.wal.len() < WAL_MAX_RECORDS && handle_open(old(self)@.registry, handle)
                ==> {
                let t = tx_at(old(self)@.registry, handle);
                let trec = rec_at(old(self)@, handle, now_ns, WalOpV::TransactionTimeout);
                let rec = rec_at(old(self)@, handle, now_ns, WalOpV::LineVoid {
                    line_number,
                    reason: reason@,
                    voided: seq![line_number],
                });
                &&& (t.state == TxState::Building && expired(t,
                    old(self)@.config.transaction_timeout_ns, now_ns) ==> (r == Err::<
                    (),
                    ResultCode,
                >(ResultCode::TimedOut) && final(self)@.wal == old(self)@.wal.push(trec) && final(self)@.registry == apply_spec(old(self)@.registry, trec)))
                &&& (t.state != TxState::Building ==> (r == Err::<(), ResultCode>(
                    ResultCode::InvalidState,
                ) && final(self)@ == old(self)@))
                &&& (t.state == TxState::Building && !expired(t,
                    old(self)@.config.transaction_timeout_ns, now_ns) ==> {
                    &&& (can_void(t, line_number) ==> (r is Ok && final(self)@.wal == old(self)@.wal.push(rec) && final(self)@.registry == apply_spec(old(self)@.registry,
                        rec,
                    )))
                    &&& (!can_void(t, line_number) ==> (r is Err && final(self)@ == old(self)@))
                    &&& (r matches Err(c) ==> (c == ResultCode::NotFound <==> !is_sale_line(
                        t.lines,
                        line_number,
                    )))
                    &&& (r matches Err(c) ==> (c == ResultCode::InvalidState <==> (is_sale_line(
                        t.lines,
                        line_number,
                    ) && line_voided(t.lines, line_number))))
                })
            },
    {
        match self.mutation_checks(handle, now_ns, 1) {
            Ok(()) => {},
            Err(c) => {
                return Err(c);
            },
        }
        let rlen = self.registry.len();
        proof {
            assert(handle <= rlen);
        }
        let idx = (handle as usize) - 1;
        let ghost old_s = self@;
        match self.registry[idx].take() {
            Some(mut tx) => {
                proof {
                    assert(old_s.registry[handle - 1] is Some);
                    assert(tx@ == tx_at(old_s.registry, handle));
                }
                let res = tx.void_single_line_item(line_number, reason.clone(), now_ns);
                self.registry.set(idx, Some(tx));
                match res {
                    Ok(()) => {},
                    Err(c) => {
                        proof {
                            assert(self@.registry =~= old_s.registry);
                            assert(self@.wal =~= old_s.wal);
                            assert(self@ == old_s);
                        }
                        return Err(c);
                    },
                }
            },
            None => {
                proof {
                    assert(old_s.registry[handle - 1] is Some);
                    assert(false);
                }
                return Err(ResultCode::NotFound);
            },
        }
        let mut voided: Vec<u32> = Vec::new();
        voided.push(line_number);
        proof {
            assert(voided@ =~= seq![line_number]);
        }
        let rec = WalRecord {
            sequence: (self.wal.len() as u64) + 1,
            timestamp_ns: now_ns,
            handle,
            op: WalOp::LineVoid { line_number, reason, voided },
        };
        let ghost rv = rec@;
        self.wal.push(rec);
        proof {
            assert(self@.wal =~= old_s.wal.push(rv));
            let t = tx_at(old_s.registry, handle);
            let base = rv.op->LineVoid_reason;
            let single = rv.op->LineVoid_voided;
            let e = crate::transaction::void_entry(t.lines, line_number, base, now_ns);
            assert(single[0] == line_number);
            assert(single.drop_first() =~= Seq::<u32>::empty());
            assert(apply_voids(t.lines.push(e), single.drop_first(), line_number, base, now_ns)
                == t.lines.push(e));
            assert(apply_voids(t.lines, single, line_number, base, now_ns) == t.lines.push(e));
            assert(voids_ok(t.lines.push(e), t.tendered_minor, single.drop_first(), line_number,
                base, now_ns));
            assert(voids_ok(t.lines, t.tendered_minor, single, line_number, base, now_ns)
                == can_void(t, line_number));
            let t2 = with_line(t, e, now_ns);
            assert(self@.registry =~= old_s.registry.update(handle - 1, Some(t2)));
            assert(apply_spec(old_s.registry, rv) =~= old_s.registry.update(handle - 1, Some(t2)));
            lemma_replay_snoc(old_s.wal, rv);
            lemma_apply_preserves_rel(old_s.registry, replay(old_s.wal), rv);
        }
        Ok(())
    }

    /// Voids the Sale line numbered `line_number` and every descendant below
    /// it, atomically: Void entries are appended deepest-first, the target
    /// last, and one record lists them all in order.
    ///
    /// After success a line counts as voided exactly when it already was, is
    /// the target, or lies below the target in the parent/child forest —
    /// every descendant is voided, and nothing else.
    pub fn void_line_with_cascade(
        &mut self,
        handle: u64,
        line_number: u32,
        reason: &str,
        now_ns: u64,
    ) -> (r: Result<(), ResultCode>)
        requires
            store_wf(old(self)@),
        ensures
            store_wf(final(self)@),
            final(self)@.config == old(self)@.config,
            r is Err ==> final(self)@.registry.len() == old(self)@.registry.len(),
            old(self)@.wal.len() >= WAL_MAX_RECORDS ==> (r == Err::<(), ResultCode>(
                ResultCode::InternalError,
            ) && final(self)@ == old(self)@),
            old(self)@.wal.len() < WAL_MAX_RECORDS && !handle_open(old(self)@.registry, handle)
                ==> (r == Err::<(), ResultCode>(ResultCode::NotFound) && final(self)@ == old(self)@),
            old(self)@.wal.len() < WAL_MAX_RECORDS && handle_open(old(self)@.registry, handle)
                ==> {
                let t = tx_at(old(self)@.registry, handle);
                let trec = rec_at(old(self)@, handle, now_ns, WalOpV::TransactionTimeout);
                let list = cascade_list(t.lines, line_number);
                let rec = rec_at(old(self)@, handle, now_ns, WalOpV::LineVoid {
                    line_number,
                    reason: reason@,
                    voided: list,
                });
                let ok_guard = is_sale_line(t.lines, line_number) && !line_voided(t.lines,
                    line_number) && voids_ok(t.lines, t.tendered_minor, list, line_number, reason@,
                    now_ns);
                &&& (t.state == TxState::Building && expired(t,
                    old(self)@.config.transaction_timeout_ns, now_ns) ==> (r == Err::<
                    (),
                    ResultCode,
                >(ResultCode::TimedOut) && final(self)@.wal == old(self)@.wal.push(trec) && final(self)@.registry == apply_spec(old(self)@.registry, trec)))
                &&& (t.state != TxState::Building ==> (r == Err::<(), ResultCode>(
                    ResultCode::InvalidState,
                ) && final(self)@ == old(self)@))
                &&& (t.state == TxState::Building && !expired(t,
                    old(self)@.config.transaction_timeout_ns, now_ns) ==> {
                    &&& (ok_guard ==> (r is Ok && final(self)@.wal == old(self)@.wal.push(rec)
                        && final(self)@.registry == apply_spec(old(self)@.registry, rec) && (
                    forall|m: u32|
                        line_voided(tx_at(final(self)@.registry, handle).lines, m) <==> (
                        line_voided(t.lines, m) || m == line_number || is_descendant(t.lines,
                            line_number, m)))))
                    &&& (!ok_guard ==> (r is Err && final(self)@ == old(self)@))
                    &&& (r matches Err(c) ==> (c == ResultCode::NotFound <==> !is_sale_line(
                        t.lines,
                        line_number,
                    )))
                    &&& (r matches Err(c) ==> (c == ResultCode::InvalidState <==> (is_sale_line(
                        t.lines,
                        line_number,
                    ) && line_voided(t.lines, line_number))))
                })
            },
    {
        match self.mutation_checks(handle, now_ns, 1) {
            Ok(()) => {},
            Err(c) => {
                return Err(c);
            },
        }
        let rlen = self.registry.len();
        proof {
            assert(handle <= rlen);
        }
        let idx = (handle as usize) - 1;
        let ghost old_s = self@;
        let list = match self.registry[idx].take() {
            Some(mut tx) => {
                proof {
                    assert(old_s.registry[handle - 1] is Some);
                    assert(tx@ == tx_at(old_s.registry, handle));
                }
                let res = tx.void_line_item_with_children(line_number, reason, now_ns);
                self.registry.set(idx, Some(tx));
                match res {
                    Ok(l) => l,
                    Err(c) => {
                        proof {
                            assert(self@.registry =~= old_s.registry);
                            assert(self@.wal =~= old_s.wal);
                            assert(self@ == old_s);
                        }
                        return Err(c);
                    },
                }
            },
            None => {
                proof {
                    assert(old_s.registry[handle - 1] is Some);
                    assert(false);
                }
                return Err(ResultCode::NotFound);
            },
        };
        let rec = WalRecord {
            sequence: (self.wal.len() as u64) + 1,
            timestamp_ns: now_ns,
            handle,
            op: WalOp::LineVoid { line_number, reason: String::from_str(reason), voided: list },
        };
        let ghost rv = rec@;
        self.wal.push(rec);
        proof {
            assert(self@.wal =~= old_s.wal.push(rv));
            let t = tx_at(old_s.registry, handle);
            let lst = rv.op->LineVoid_voided;
            let t2 = TxV {
                lines: apply_voids(t.lines, lst, line_number, reason@, now_ns),
                last_activity_ns: now_ns,
                ..t
            };
            assert(lst.len() > 0);
            assert(self@.registry =~= old_s.registry.update(handle - 1, Some(t2)));
            assert(apply_spec(old_s.registry, rv) =~= old_s.registry.update(handle - 1, Some(t2)));
            lemma_replay_snoc(old_s.wal, rv);
            lemma_apply_preserves_rel(old_s.registry, replay(old_s.wal), rv);
            assert(tx_at(self@.registry, handle) == t2);
        }
        Ok(())
    }

    /// Adjusts the effective quantity of the Sale line numbered `line_number`
    /// to `new_quantity`, appending one Adjustment entry and one record; when
    /// the quantity already matches, nothing changes and nothing is logged.
    pub fn update_line_quantity_legal(
        &mut self,
        handle: u64,
        line_number: u32,
        new_quantity: i32,
        now_ns: u64,
    ) -> (r: Result<(), ResultCode>)
        requires
            store_wf(old(self)@),
        ensures
            store_wf(final(self)@),
            final(self)@.config == old(self)@.config,
            r is Err ==> final(self)@.registry.len() == old(self)@.registry.len(),
            old(self)@.wal.len() >= WAL_MAX_RECORDS ==> (r == Err::<(), ResultCode>(
                ResultCode::InternalError,
            ) && final(self)@ == old(self)@),
            old(self)@.wal.len() < WAL_MAX_RECORDS && !handle_open(old(self)@.registry, handle)
                ==> (r == Err::<(), ResultCode>(ResultCode::NotFound) && final(self)@ == old(self)@),
            old(self)@.wal.len() < WAL_MAX_RECORDS && handle_open(old(self)@.registry, handle)
                ==> {
                let t = tx_at(old(self)@.registry, handle);
                let trec = rec_at(old(self)@, handle, now_ns, WalOpV::TransactionTimeout);
                let rec = rec_at(old(self)@, handle, now_ns, WalOpV::LineAdjust {
                    line_number,
                    new_quantity,
                });
                &&& (t.state == TxState::Building && expired(t,
                    old(self)@.config.transaction_timeout_ns, now_ns) ==> (r == Err::<
                    (),
                    ResultCode,
                >(ResultCode::TimedOut) && final(self)@.wal == old(self)@.wal.push(trec) && final(self)@.registry == apply_spec(old(self)@.registry, trec)))
                &&& (t.state != TxState::Building ==> (r == Err::<(), ResultCode>(
                    ResultCode::InvalidState,
                ) && final(self)@ == old(self)@))
                &&& (t.state == TxState::Building && !expired(t,
                    old(self)@.config.transaction_timeout_ns, now_ns) ==> {
                    &&& (new_quantity > 0 && can_adjust(t, line_number, new_quantity)
                        && new_quantity != eff_qty(t.lines, line_number) ==> (r is Ok && final(self)@.wal == old(self)@.wal.push(rec) && final(self)@.registry == apply_spec(
                        old(self)@.registry,
                        rec,
                    )))
                    &&& (new_quantity > 0 && can_adjust(t, line_number, new_quantity)
                        && new_quantity == eff_qty(t.lines, line_number) ==> (r is Ok && final(self)@ == old(self)@))
                    &&& (!(new_quantity > 0 && can_adjust(t, line_number, new_quantity)) ==> (
                    r is Err && final(self)@ == old(self)@))
                    &&& (r matches Err(c) ==> (c == ResultCode::InvalidState <==> new_quantity
                        <= 0))
                    &&& (r matches Err(c) ==> (c == ResultCode::NotFound <==> (new_quantity > 0
                        && !is_sale_line(t.lines, line_number))))
                })
            },
    {
        match self.mutation_checks(handle, now_ns, 1) {
            Ok(()) => {},
            Err(c) => {
                return Err(c);
            },
        }
        let rlen = self.registry.len();
        proof {
            assert(handle <= rlen);
        }
        let idx = (handle as usize) - 1;
        let ghost old_s = self@;
        let mut changed = false;
        match self.registry[idx].take() {
            Some(mut tx) => {
                proof {
                    assert(old_s.registry[handle - 1] is Some);
                    assert(tx@ == tx_at(old_s.registry, handle));
                }
                let eff = tx.calculate_effective_quantity_for_line(line_number);
                changed = (new_quantity as i64) != eff;
                let res = tx.update_line_quantity(line_number, new_quantity, now_ns);
                self.registry.set(idx, Some(tx));
                match res {
                    Ok(()) => {},
                    Err(c) => {
                        proof {
                            assert(self@.registry =~= old_s.registry);
                            assert(self@.wal =~= old_s.wal);
                            assert(self@ == old_s);
                        }
                        return Err(c);
                    },
                }
            },
            None => {
                proof {
                    assert(old_s.registry[handle - 1] is Some);
                    assert(false);
                }
                return Err(ResultCode::NotFound);
            },
        }
        if !changed {
            proof {
                assert(self@.registry =~= old_s.registry);
                assert(self@.wal =~= old_s.wal);
                assert(self@ == old_s);
            }
            return Ok(());
        }
        let rec = WalRecord {
            sequence: (self.wal.len() as u64) + 1,
            timestamp_ns: now_ns,
            handle,
            op: WalOp::LineAdjust { line_number, new_quantity },
        };
        let ghost rv = rec@;
        self.wal.push(rec);
        proof {
            assert(self@.wal =~= old_s.wal.push(rv));
            let t = tx_at(old_s.registry, handle);
            let t2 = with_line(t, adj_entry(t.lines, line_number, new_quantity, now_ns), now_ns);
            assert(self@.registry =~= old_s.registry.update(handle - 1, Some(t2)));
            assert(apply_spec(old_s.registry, rv) =~= old_s.registry.update(handle - 1, Some(t2)));
            lemma_replay_snoc(old_s.wal, rv);
            lemma_apply_preserves_rel(old_s.registry, replay(old_s.wal), rv);
        }
        Ok(())
    }

    /// Applies one record to a registry, exactly as `apply_spec` describes:
    /// an inapplicable record changes nothing. Recovery replays the log
    /// through this, without re-logging.
    fn apply_record(registry: &mut Vec<Option<Transaction>>, rec: &WalRecord)
        requires
            reg_slots_wf(reg_view(old(registry)@)),
        ensures
            reg_view(final(registry)@) == apply_spec(reg_view(old(registry)@), rec@),
            reg_slots_wf(reg_view(final(registry)@)),
    {
        let ghost old_v = reg_view(registry@);
        let ghost rv = rec@;
        match &rec.op {
            WalOp::TransactionBegin { store, currency_code, decimal_places } => {
                let fits = rec.handle >= 1 && rec.handle - 1 == registry.len() as u64;
                if fits && !store.as_str().is_empty() && currency_code.as_str().unicode_len() == 3
                    && *decimal_places <= MAX_DECIMAL_PLACES {
                    let currency = Currency::from_parts(currency_code.clone(), *decimal_places);
                    let tx = Transaction::new(rec.handle, store.clone(), currency,
                        rec.timestamp_ns, rec.sequence);
                    let ghost txv = tx@;
                    registry.push(Some(tx));
                    proof {
                        assert(txv == begin_tx(rv, txv.store, txv.currency.code,
                            txv.currency.decimal_places));
                        assert(reg_view(registry@) =~= apply_spec(old_v, rv));
                    }
                } else {
                    proof {
                        assert(reg_view(registry@) =~= apply_spec(old_v, rv));
                    }
                }
            },
            _ => {
                if rec.handle == 0 || rec.handle > registry.len() as u64 {
                    proof {
                        assert(reg_view(registry@) =~= apply_spec(old_v, rv));
                    }
                    return ;
                }
                let idx = (rec.handle as usize) - 1;
                match registry[idx].take() {
                    Some(mut tx) => {
                        proof {
                            assert(old_v[rec.handle - 1] is Some);
                            assert(tx@ == old_v[rec.handle - 1]->Some_0);
                            assert(tx_wf(tx@));
                        }
                        match &rec.op {
                            WalOp::TransactionBegin { .. } => {},
                            WalOp::LineAdd { sku, qty, unit_minor } => {
                                let res = tx.add_line(sku.clone(), *qty, *unit_minor,
                                    rec.timestamp_ns);
                                match res {
                                    Ok(()) => {},
                                    Err(_) => {},
                                }
                            },
                            WalOp::LineAddWithParent { sku, qty, unit_minor, parent_line } => {
                                let res = tx.add_child_line(sku.clone(), *qty, *unit_minor,
                                    *parent_line, rec.timestamp_ns);
                                match res {
                                    Ok(()) => {},
                                    Err(_) => {},
                                }
                            },
                            WalOp::LineVoid { line_number, reason, voided } => {
                                let applied = tx.apply_void_list(voided, *line_number,
                                    reason.as_str(), rec.timestamp_ns);
                                if applied {
                                }
                            },
                            WalOp::LineAdjust { line_number, new_quantity } => {
                                let res = tx.update_line_quantity(*line_number, *new_quantity,
                                    rec.timestamp_ns);
                                match res {
                                    Ok(()) => {},
                                    Err(_) => {},
                                }
                            },
                            WalOp::TenderAdd { amount_minor } => {
                                let res = tx.apply_tender(*amount_minor, rec.timestamp_ns);
                                match res {
                                    Ok(()) => {},
                                    Err(_) => {},
                                }
                            },
                            WalOp::TransactionCommit => {
                                if tx.state == TxState::Building {
                                    tx.set_committed(rec.sequence, rec.timestamp_ns);
                                }
                            },
                            WalOp::TransactionAbort { .. } => {
                                if tx.state == TxState::Building {
                                    tx.set_aborted(rec.timestamp_ns);
                                }
                            },
                            WalOp::TransactionTimeout => {
                                if tx.state == TxState::Building {
                                    tx.set_timed_out(rec.timestamp_ns);
                                }
                            },
                            WalOp::SystemConfigChange { .. } => {},
                        }
                        registry.set(idx, Some(tx));
                        proof {
                            let t = old_v[rec.handle - 1]->Some_0;
                            match apply_op(t, rv) {
                                Some(u) => {
                                    assert(reg_view(registry@) =~= old_v.update(rec.handle - 1,
                                        Some(u)));
                                },
                                None => {
                                    assert(reg_view(registry@) =~= old_v);
                                },
                            }
                            assert(reg_view(registry@) =~= apply_spec(old_v, rv));
                        }
                    },
                    None => {
                        proof {
                            assert(reg_view(registry@) =~= old_v);
                            assert(reg_view(registry@) =~= apply_spec(old_v, rv));
                        }
                    },
                }
            },
        }
    }

    /// Rebuilds a kernel from the records that survived a crash: they are
    /// replayed in order into a fresh registry, without re-logging, and
    /// become the new kernel's log. Building transactions whose inactivity
    /// already exceeds the timeout at `now_ns` are then moved to `TimedOut`,
    /// and those transitions are logged.
    ///
    /// When no replayed transaction has expired, the recovered kernel is
    /// exactly the replay of the given records: every handle answers queries
    /// with the values it held when its last record was acknowledged.
    pub fn recover(records: Vec<WalRecord>, config: KernelConfig, now_ns: u64) -> (s:
        LegalKernelStore)
        requires
            forall|i: int|
                0 <= i < records@.len() ==> (#[trigger] records@[i])@.sequence == i + 1,
            records@.len() <= WAL_MAX_RECORDS,
        ensures
            store_wf(s@),
            s@.config == config,
            s@.registry == replay(s@.wal),
            s@.wal.len() >= records@.len(),
            forall|i: int| 0 <= i < records@.len() ==> s@.wal[i] == (#[trigger] records@[i])@,
            (forall|i: int|
                0 <= i < replay(recs_view(records@)).len() && (#[trigger] replay(
                    recs_view(records@),
                )[i]) is Some && replay(recs_view(records@))[i]->Some_0.state == TxState::Building
                    ==> !expired(replay(recs_view(records@))[i]->Some_0,
                config.transaction_timeout_ns, now_ns)) ==> (s@.wal == recs_view(records@)
                && s@.registry == replay(recs_view(records@))),
    {
        let n = records.len();
        let mut registry: Vec<Option<Transaction>> = Vec::new();
        let mut i: usize = 0;
        proof {
            assert(reg_view(registry@) =~= Seq::<Option<TxV>>::empty());
            assert(recs_view(records@).subrange(0, 0) =~= Seq::<WalRecordV>::empty());
            assert(replay(recs_view(records@).subrange(0, 0)) =~= Seq::<Option<TxV>>::empty());
        }
        while i < n
            invariant
                i <= n,
                n == records@.len(),
                reg_view(registry@) == replay(recs_view(records@).subrange(0, i as int)),
                reg_slots_wf(reg_view(registry@)),
            decreases n - i,
        {
            LegalKernelStore::apply_record(&mut registry, &records[i]);
            i = i + 1;
            proof {
                assert(recs_view(records@).subrange(0, i as int) =~= recs_view(
                    records@,
                ).subrange(0, i - 1).push(records@[i - 1]@));
                lemma_replay_snoc(recs_view(records@).subrange(0, i - 1), records@[i - 1]@);
            }
        }
        let mut s = LegalKernelStore { registry, wal: records, config };
        proof {
            assert(recs_view(records@).subrange(0, n as int) =~= recs_view(records@));
            assert(s@.wal =~= recs_view(records@));
            assert(s@.registry == replay(s@.wal));
            assert(store_wf(s@));
        }
        let ghost replayed = replay(recs_view(records@));
        let rlen = s.registry.len();
        let mut j: usize = 0;
        while j < rlen
            invariant
                j <= rlen,
                store_wf(s@),
                s@.config == config,
                rlen == s@.registry.len(),
                s@.registry == replay(s@.wal),
                s@.wal.len() >= recs_view(records@).len(),
                forall|i2: int|
                    0 <= i2 < recs_view(records@).len() ==> s@.wal[i2] == #[trigger] recs_view(
                        records@,
                    )[i2],
                (forall|i2: int|
                    0 <= i2 < replayed.len() && (#[trigger] replayed[i2]) is Some
                        && replayed[i2]->Some_0.state == TxState::Building ==> !expired(
                        replayed[i2]->Some_0,
                        config.transaction_timeout_ns,
                        now_ns,
                    )) ==> (s@.wal == recs_view(records@) && s@.registry == replayed),
            decreases rlen - j,
        {
            let timeout_ns = s.config.transaction_timeout_ns;
            let mut needs_timeout = false;
            match &s.registry[j] {
                Some(tx) => {
                    proof {
                        assert(s@.registry[j as int] is Some);
                        assert(tx@ == s@.registry[j as int]->Some_0);
                    }
                    needs_timeout = tx.state == TxState::Building && tx.is_expired(timeout_ns,
                        now_ns);
                },
                None => {},
            }
            if needs_timeout && ((s.wal.len() as u64) < WAL_MAX_RECORDS) {
                let handle = (j as u64) + 1;
                proof {
                    assert(handle_open(s@.registry, handle));
                }
                let ghost pre = s@;
                s.trigger_timeout(handle, now_ns);
                proof {
                    lemma_replay_snoc(pre.wal, rec_at(pre, handle, now_ns,
                        WalOpV::TransactionTimeout));
                }
            }
            j = j + 1;
        }
        proof {
            assert forall|i2: int| 0 <= i2 < records@.len() implies s@.wal[i2] == (
            #[trigger] records@[i2])@ by {
                assert(s@.wal[i2] == recs_view(records@)[i2]);
            }
        }
        s
    }

    /// How many open transactions are still building.
    pub fn active_transaction_count(&self) -> (n: u64)
        requires
            store_wf(self@),
        ensures
            n == num_active(self@.registry, self@.registry.len() as int),
    {
        let len = self.registry.len();
        let mut n: u64 = 0;
        let mut i: usize = 0;
        while i < len
            invariant
                i <= len,
                len == self.registry.len(),
                len == self@.registry.len(),
                n == num_active(self@.registry, i as int),
                n <= i,
            decreases len - i,
        {
            match &self.registry[i] {
                Some(tx) => {
                    if tx.state == TxState::Building {
                        n = n + 1;
                    }
                },
                None => {},
            }
            i = i + 1;
        }
        n
    }
}

} // verus!
