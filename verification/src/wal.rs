//! Write-ahead-log records: every state-changing operation is described by
//! one record, appended and made durable before the in-memory model changes.

use vstd::prelude::*;

verus! {

/// What a log record does, together with its payload.
#[derive(Debug, Clone, PartialEq)]
pub enum WalOp {
    /// Opens a fresh transaction under the record's handle.
    TransactionBegin { store: String, currency_code: String, decimal_places: u8 },
    /// Appends an unlinked Sale line.
    LineAdd { sku: String, qty: i32, unit_minor: i64 },
    /// Appends a Sale line linked below `parent_line`.
    LineAddWithParent { sku: String, qty: i32, unit_minor: i64, parent_line: u32 },
    /// Voids `line_number` and its descendants; `voided` lists every voided
    /// line in the order the Void entries were appended, the target last.
    LineVoid { line_number: u32, reason: String, voided: Vec<u32> },
    /// Adjusts the effective quantity of `line_number` to `new_quantity`.
    LineAdjust { line_number: u32, new_quantity: i32 },
    /// Adds a cash tender.
    TenderAdd { amount_minor: i64 },
    /// Commits the transaction.
    TransactionCommit,
    /// Aborts the transaction with a reason.
    TransactionAbort { reason: String },
    /// Times the transaction out.
    TransactionTimeout,
    /// Notes a configuration change; replay ignores it.
    SystemConfigChange { note: String },
}

/// The mathematical content of a `WalOp`.
pub ghost enum WalOpV {
    TransactionBegin { store: Seq<char>, currency_code: Seq<char>, decimal_places: u8 },
    LineAdd { sku: Seq<char>, qty: i32, unit_minor: i64 },
    LineAddWithParent { sku: Seq<char>, qty: i32, unit_minor: i64, parent_line: u32 },
    LineVoid { line_number: u32, reason: Seq<char>, voided: Seq<u32> },
    LineAdjust { line_number: u32, new_quantity: i32 },
    TenderAdd { amount_minor: i64 },
    TransactionCommit,
    TransactionAbort { reason: Seq<char> },
    TransactionTimeout,
    SystemConfigChange { note: Seq<char> },
}

impl View for WalOp {
    type V = WalOpV;

    open spec fn view(&self) -> WalOpV {
        match self {
            WalOp::TransactionBegin { store, currency_code, decimal_places } => (
            WalOpV::TransactionBegin {
                store: store@,
                currency_code: currency_code@,
                decimal_places: *decimal_places,
            }),
            WalOp::LineAdd { sku, qty, unit_minor } => (WalOpV::LineAdd {
                sku: sku@,
                qty: *qty,
                unit_minor: *unit_minor,
            }),
            WalOp::LineAddWithParent { sku, qty, unit_minor, parent_line } => (
            WalOpV::LineAddWithParent {
                sku: sku@,
                qty: *qty,
                unit_minor: *unit_minor,
                parent_line: *parent_line,
            }),
            WalOp::LineVoid { line_number, reason, voided } => (WalOpV::LineVoid {
                line_number: *line_number,
                reason: reason@,
                voided: voided@,
            }),
            WalOp::LineAdjust { line_number, new_quantity } => (WalOpV::LineAdjust {
                line_number: *line_number,
                new_quantity: *new_quantity,
            }),
            WalOp::TenderAdd { amount_minor } => (WalOpV::TenderAdd {
                amount_minor: *amount_minor,
            }),
            WalOp::TransactionCommit => WalOpV::TransactionCommit,
            WalOp::TransactionAbort { reason } => (WalOpV::TransactionAbort { reason: reason@ }),
            WalOp::TransactionTimeout => WalOpV::TransactionTimeout,
            WalOp::SystemConfigChange { note } => (WalOpV::SystemConfigChange { note: note@ }),
        }
    }
}

/// One log record: a dense sequence number, a wall-clock stamp, the handle of
/// the transaction it concerns, and the operation.
#[derive(Debug, Clone, PartialEq)]
pub struct WalRecord {
    pub sequence: u64,
    pub timestamp_ns: u64,
    pub handle: u64,
    pub op: WalOp,
}

/// The mathematical content of a `WalRecord`.
pub ghost struct WalRecordV {
    pub sequence: u64,
    pub timestamp_ns: u64,
    pub handle: u64,
    pub op: WalOpV,
}

impl View for WalRecord {
    type V = WalRecordV;

    open spec fn view(&self) -> WalRecordV {
        WalRecordV {
            sequence: self.sequence,
            timestamp_ns: self.timestamp_ns,
            handle: self.handle,
            op: self.op@,
        }
    }
}

} // verus!
