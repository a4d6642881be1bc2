//! The line-item model: append-only entries of kind Sale, Void or Adjustment.
//!
//! A line is immutable once appended to a transaction. Every change to a
//! transaction's effective quantities is expressed as a further line of kind
//! Void or Adjustment referencing the Sale it reverses, preserving a full
//! audit trail.

use vstd::prelude::*;

verus! {

/// The kind of a line entry.
#[derive(Clone, Copy, Debug, PartialEq, Eq, Structural)]
pub enum EntryType {
    /// An original sale entry.
    Sale,
    /// A reversing entry for a void; it negates the referenced sale exactly.
    Void,
    /// A quantity adjustment at the referenced sale's unit price.
    Adjustment,
}

/// The mathematical content of a `Line`.
pub ghost struct LineV {
    pub sku: Seq<char>,
    pub qty: i32,
    pub unit_minor: i64,
    pub line_number: u32,
    pub parent_line_item_id: Option<u32>,
    pub entry_type: EntryType,
    pub reason: Option<Seq<char>>,
    pub references_line: Option<u32>,
    pub timestamp_ns: u64,
}

/// The monetary contribution of one line, in minor units.
pub open spec fn line_total(l: LineV) -> int {
    l.qty * l.unit_minor
}

/// One entry in a transaction's ordered line list.
#[derive(Debug, Clone)]
pub struct Line {
    pub sku: String,
    pub qty: i32,
    pub unit_minor: i64,
    /// 1-based position in the transaction; dense in append order.
    pub line_number: u32,
    /// The owning Sale line of a linked item, if any.
    pub parent_line_item_id: Option<u32>,
    pub entry_type: EntryType,
    /// The caller-supplied reason of a Void or Adjustment entry.
    pub reason: Option<String>,
    /// The Sale line a Void or Adjustment reverses.
    pub references_line: Option<u32>,
    /// Wall-clock stamp in nanoseconds since the epoch.
    pub timestamp_ns: u64,
}

impl View for Line {
    type V = LineV;

    open spec fn view(&self) -> LineV {
        LineV {
            sku: self.sku@,
            qty: self.qty,
            unit_minor: self.unit_minor,
            line_number: self.line_number,
            parent_line_item_id: self.parent_line_item_id,
            entry_type: self.entry_type,
            reason: match self.reason {
                Some(ref r) => Some(r@),
                None => None,
            },
            references_line: self.references_line,
            timestamp_ns: self.timestamp_ns,
        }
    }
}

/// The view of a fresh Sale entry.
pub open spec fn sale_line_v(
    sku: Seq<char>,
    qty: i32,
    unit_minor: i64,
    line_number: u32,
    parent: Option<u32>,
    timestamp_ns: u64,
) -> LineV {
    LineV {
        sku,
        qty,
        unit_minor,
        line_number,
        parent_line_item_id: parent,
        entry_type: EntryType::Sale,
        reason: None,
        references_line: None,
        timestamp_ns,
    }
}

/// The view of the Void entry that reverses `original`.
pub open spec fn void_line_v(
    original: LineV,
    line_number: u32,
    reason: Seq<char>,
    timestamp_ns: u64,
) -> LineV {
    LineV {
        sku: original.sku,
        qty: (-original.qty) as i32,
        unit_minor: original.unit_minor,
        line_number,
        parent_line_item_id: None,
        entry_type: EntryType::Void,
        reason: Some(reason),
        references_line: Some(original.line_number),
        timestamp_ns,
    }
}

impl Line {
    /// A bare Sale entry numbered 1 with no parent and no timestamp; callers
    /// that place a line inside a transaction use `new_sale` instead.
    pub fn new(sku: String, qty: i32, unit_minor: i64) -> (l: Line)
        ensures
            l@ == sale_line_v(sku@, qty, unit_minor, 1, None, 0),
    {
        Line::new_sale(sku, qty, unit_minor, 1, None, 0)
    }

    /// A Sale entry with the given position, optional parent and timestamp.
    pub fn new_sale(
        sku: String,
        qty: i32,
        unit_minor: i64,
        line_number: u32,
        parent_line_item_id: Option<u32>,
        timestamp_ns: u64,
    ) -> (l: Line)
        ensures
            l@ == sale_line_v(sku@, qty, unit_minor, line_number, parent_line_item_id,
                timestamp_ns),
    {
        Line {
            sku,
            qty,
            unit_minor,
            line_number,
            parent_line_item_id,
            entry_type: EntryType::Sale,
            reason: None,
            references_line: None,
            timestamp_ns,
        }
    }

    /// A Sale entry linked below the Sale numbered `parent_line_id`.
    pub fn new_with_parent(
        sku: String,
        qty: i32,
        unit_minor: i64,
        parent_line_id: u32,
        line_number: u32,
        timestamp_ns: u64,
    ) -> (l: Line)
        ensures
            l@ == sale_line_v(sku@, qty, unit_minor, line_number, Some(parent_line_id),
                timestamp_ns),
    {
        Line::new_sale(sku, qty, unit_minor, line_number, Some(parent_line_id), timestamp_ns)
    }

    /// The reversing entry for `original`: same SKU and unit price, negated
    /// quantity, and a reference back to the original's line number.
    pub fn new_void(original: &Line, line_number: u32, reason: String, timestamp_ns: u64) -> (l:
        Line)
        requires
            original.qty != i32::MIN,
        ensures
            l@ == void_line_v(original@, line_number, reason@, timestamp_ns),
    {
        Line {
            sku: original.sku.clone(),
            qty: -original.qty,
            unit_minor: original.unit_minor,
            line_number,
            parent_line_item_id: None,
            entry_type: EntryType::Void,
            reason: Some(reason),
            references_line: Some(original.line_number),
            timestamp_ns,
        }
    }

    /// This line's contribution to the transaction total, in minor units.
    pub fn total_minor(&self) -> (t: i64)
        requires
            i64::MIN <= line_total(self@) <= i64::MAX,
        ensures
            t == line_total(self@),
    {
        (self.qty as i64) * self.unit_minor
    }

    /// The owning Sale line of a linked item, if any.
    pub fn get_parent_line_item_id(&self) -> (p: Option<u32>)
        ensures
            p == self@.parent_line_item_id,
    {
        self.parent_line_item_id
    }

    /// Replaces the parent reference; used only while a line is being built,
    /// never after it has been appended to a transaction.
    pub fn set_parent_line_item_id(&mut self, parent_id: Option<u32>)
        ensures
            final(self)@ == (LineV { parent_line_item_id: parent_id, ..old(self)@ }),
    {
        self.parent_line_item_id = parent_id;
    }
}

} // verus!
