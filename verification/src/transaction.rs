//! The transaction aggregate: an ordered, append-only line list, a cumulative
//! cash tender, and a six-state machine in which only `Building` accepts
//! mutations.

use vstd::prelude::*;

use crate::currency::{currency_wf, Currency, CurrencyV};
use crate::line::{line_total, sale_line_v, void_line_v, EntryType, Line, LineV};
use crate::numfmt::{dec_chars_int, fmt_i64};
use crate::result::ResultCode;

verus! {

/// The largest number of lines a transaction can hold: line numbers are
/// 1-based 32-bit values, so one slot below `u32::MAX` is the ceiling.
pub const MAX_LINE_COUNT: u32 = 0xFFFF_FFFE;

/// The state of a transaction. Only `Building` accepts mutations;
/// `Committing` and `Aborting` are transient states occupied while the
/// terminal log record is being made durable.
#[derive(Clone, Copy, Debug, PartialEq, Eq, Structural)]
pub enum TxState {
    Building,
    Committing,
    Committed,
    Aborting,
    Aborted,
    TimedOut,
}

/// The stable numeric value of a transaction state at the embedding boundary.
pub open spec fn state_code(s: TxState) -> u32 {
    match s {
        TxState::Building => 0,
        TxState::Committed => 1,
        TxState::Aborted => 2,
        TxState::TimedOut => 3,
        TxState::Committing => 4,
        TxState::Aborting => 5,
    }
}

/// The mathematical content of a `Transaction`.
pub ghost struct TxV {
    pub id: u64,
    pub store: Seq<char>,
    pub currency: CurrencyV,
    pub lines: Seq<LineV>,
    pub tendered_minor: i64,
    pub state: TxState,
    pub created_at_ns: u64,
    pub last_activity_ns: u64,
    /// Sequence number of the log record that began this transaction.
    pub wal_begin_sequence: u64,
    /// Sequence number of the log record that committed it, if committed.
    pub wal_commit_sequence: Option<u64>,
}

/// The sum of the first `k` line totals, in minor units.
pub open spec fn prefix_total(lines: Seq<LineV>, k: int) -> int
    decreases k,
{
    if k <= 0 {
        0
    } else {
        prefix_total(lines, k - 1) + line_total(lines[k - 1])
    }
}

/// The transaction total: the sum of `qty * unit_minor` over all lines,
/// regardless of entry kind.
pub open spec fn tx_total(t: TxV) -> int {
    prefix_total(t.lines, t.lines.len() as int)
}

/// The change owed: `max(0, tendered - total)`.
pub open spec fn tx_change(t: TxV) -> int {
    if t.tendered_minor - tx_total(t) > 0 {
        t.tendered_minor - tx_total(t)
    } else {
        0
    }
}

/// Whether some line of kind Void references line number `n`.
pub open spec fn line_voided(lines: Seq<LineV>, n: u32) -> bool {
    exists|i: int|
        0 <= i < lines.len() && lines[i].entry_type == EntryType::Void
            && lines[i].references_line == Some(n)
}

/// Whether `n` is the 1-based number of a Sale line.
pub open spec fn is_sale_line(lines: Seq<LineV>, n: u32) -> bool {
    1 <= n <= lines.len() && lines[n - 1].entry_type == EntryType::Sale
}

/// The effective quantity of line number `n` over the first `k` lines: the
/// quantities of the line itself and of every Void or Adjustment entry
/// referencing it.
pub open spec fn eff_qty_prefix(lines: Seq<LineV>, n: u32, k: int) -> int
    decreases k,
{
    if k <= 0 {
        0
    } else {
        eff_qty_prefix(lines, n, k - 1) + if lines[k - 1].line_number == n
            || lines[k - 1].references_line == Some(n) {
            lines[k - 1].qty as int
        } else {
            0
        }
    }
}

/// The effective quantity of line number `n`: its own quantity plus the
/// quantities of all entries referencing it.
pub open spec fn eff_qty(lines: Seq<LineV>, n: u32) -> int {
    eff_qty_prefix(lines, n, lines.len() as int)
}

/// Whether `c` (a 1-based line number) lies below `a` in the parent/child
/// forest: its parent chain passes through `a`.
pub open spec fn is_descendant(lines: Seq<LineV>, a: u32, c: u32) -> bool
    decreases c,
{
    if 1 <= c <= lines.len() {
        match lines[c - 1].parent_line_item_id {
            Some(p) => p == a || (p < c && is_descendant(lines, a, p)),
            None => false,
        }
    } else {
        false
    }
}

/// What a child enumeration returns for `p`: the ascending list of exactly
/// the descendants of `p`, each once.
pub open spec fn is_child_list(lines: Seq<LineV>, p: u32, v: Seq<u32>) -> bool {
    &&& (forall|j: int| 0 <= j < v.len() ==> is_descendant(lines, p, #[trigger] v[j]))
    &&& (forall|c: u32| is_descendant(lines, p, c) ==> v.contains(c))
    &&& (forall|j1: int, j2: int| 0 <= j1 < j2 < v.len() ==> v[j1] < v[j2])
}

/// Well-formedness of one line at position `i` (0-based) of `lines`.
pub open spec fn line_wf_at(lines: Seq<LineV>, i: int) -> bool {
    let l = lines[i];
    &&& l.line_number == i + 1
    &&& l.sku.len() > 0
    &&& i64::MIN <= line_total(l) <= i64::MAX
    &&& i64::MIN <= prefix_total(lines, i + 1) <= i64::MAX
    &&& (match l.parent_line_item_id {
        Some(p) => 1 <= p <= i && lines[p - 1].entry_type == EntryType::Sale,
        None => true,
    })
    &&& (match l.entry_type {
        EntryType::Sale => l.qty > 0 && l.unit_minor >= 0 && l.references_line is None,
        EntryType::Void => {
            &&& l.references_line matches Some(r)
            &&& 1 <= r <= i
            &&& lines[r - 1].entry_type == EntryType::Sale
            &&& l.qty == -(lines[r - 1].qty as int)
            &&& l.unit_minor == lines[r - 1].unit_minor
            &&& l.parent_line_item_id is None
            &&& l.reason is Some
        },
        EntryType::Adjustment => {
            &&& l.references_line matches Some(r)
            &&& 1 <= r <= i
            &&& lines[r - 1].entry_type == EntryType::Sale
            &&& l.unit_minor == lines[r - 1].unit_minor
            &&& l.qty != 0
            &&& l.parent_line_item_id is None
        },
    })
}

/// Well-formedness of a line list: dense 1-based numbering, parents that
/// precede their children and are Sales, Voids that negate exactly one
/// earlier Sale each, Adjustments that reference an earlier Sale, and every
/// prefix sum within the signed 64-bit range.
pub open spec fn lines_wf(lines: Seq<LineV>) -> bool {
    &&& lines.len() <= MAX_LINE_COUNT
    &&& (forall|i: int| 0 <= i < lines.len() ==> #[trigger] line_wf_at(lines, i))
    &&& (forall|i: int, j: int|
        0 <= i < j < lines.len() && #[trigger] lines[i].entry_type == EntryType::Void
            && #[trigger] lines[j].entry_type == EntryType::Void ==> lines[i].references_line
            != lines[j].references_line)
}

/// Well-formedness of a whole transaction.
pub open spec fn tx_wf(t: TxV) -> bool {
    &&& t.store.len() > 0
    &&& currency_wf(t.currency)
    &&& lines_wf(t.lines)
    &&& 0 <= t.tendered_minor
    &&& t.tendered_minor - tx_total(t) <= i64::MAX
}

/// Whether the transaction has outlived the inactivity limit at time `now`.
pub open spec fn expired(t: TxV, timeout_ns: u64, now_ns: u64) -> bool {
    now_ns > t.last_activity_ns && now_ns - t.last_activity_ns > timeout_ns
}

/// The product of a 32-bit quantity and a 64-bit unit price lies well within
/// the 128-bit range.
pub proof fn lemma_qty_unit_bounds(q: int, u: int)
    requires
        -0x8000_0000 <= q <= 0x7FFF_FFFF,
        -0x8000_0000_0000_0000 <= u <= 0x7FFF_FFFF_FFFF_FFFF,
    ensures
        -0x8000_0000 * 0x8000_0000_0000_0000 <= q * u <= 0x8000_0000 * 0x8000_0000_0000_0000,
{
    assert(-0x8000_0000 * 0x8000_0000_0000_0000 <= q * u <= 0x8000_0000
        * 0x8000_0000_0000_0000) by (nonlinear_arith)
        requires
            -0x8000_0000 <= q <= 0x7FFF_FFFF,
            -0x8000_0000_0000_0000 <= u <= 0x7FFF_FFFF_FFFF_FFFF,
    ;
}

/// A sale's contribution is never negative.
pub proof fn lemma_sale_total_nonneg(q: int, u: int)
    requires
        q > 0,
        u >= 0,
    ensures
        q * u >= 0,
{
    assert(q * u >= 0) by (nonlinear_arith)
        requires
            q > 0,
            u >= 0,
    ;
}

/// Negating the quantity negates the contribution.
pub proof fn lemma_neg_mul(q: int, u: int)
    ensures
        (-q) * u == -(q * u),
{
    assert((-q) * u == -(q * u)) by (nonlinear_arith);
}

/// Two line lists that agree on their first `k` entries have the same `k`-th
/// prefix sum.
pub proof fn lemma_prefix_total_agree(a: Seq<LineV>, b: Seq<LineV>, k: int)
    requires
        0 <= k <= a.len(),
        k <= b.len(),
        forall|i: int| 0 <= i < k ==> a[i] == b[i],
    ensures
        prefix_total(a, k) == prefix_total(b, k),
    decreases k,
{
    if k > 0 {
        lemma_prefix_total_agree(a, b, k - 1);
    }
}

/// Line well-formedness at a position depends only on the lines up to and
/// including that position.
pub proof fn lemma_line_wf_agree(a: Seq<LineV>, b: Seq<LineV>, i: int)
    requires
        0 <= i < a.len(),
        i < b.len(),
        forall|j: int| 0 <= j <= i ==> a[j] == b[j],
        line_wf_at(a, i),
    ensures
        line_wf_at(b, i),
{
    lemma_prefix_total_agree(a, b, i + 1);
}

/// Appending a well-formed line to a well-formed list keeps the list
/// well-formed, provided the new entry satisfies its own position's clauses.
pub proof fn lemma_lines_wf_push(a: Seq<LineV>, l: LineV)
    requires
        lines_wf(a),
        a.len() < MAX_LINE_COUNT,
        line_wf_at(a.push(l), a.len() as int),
        l.entry_type == EntryType::Void ==> !line_voided(a, l.references_line->Some_0),
    ensures
        lines_wf(a.push(l)),
{
    let b = a.push(l);
    assert forall|i: int| 0 <= i < b.len() implies #[trigger] line_wf_at(b, i) by {
        if i < a.len() {
            assert(line_wf_at(a, i));
            lemma_line_wf_agree(a, b, i);
        }
    }
    assert forall|i: int, j: int|
        0 <= i < j < b.len() && #[trigger] b[i].entry_type == EntryType::Void
            && #[trigger] b[j].entry_type == EntryType::Void implies b[i].references_line
        != b[j].references_line by {
        if j == a.len() {
            if b[i].references_line == b[j].references_line {
                assert(line_voided(a, l.references_line->Some_0));
            }
        }
    }
}

/// The transaction `t` with line `l` appended at time `ts`.
pub open spec fn with_line(t: TxV, l: LineV, ts: u64) -> TxV {
    TxV { lines: t.lines.push(l), last_activity_ns: ts, ..t }
}

/// Whether a Sale line with these fields may be appended to `t`: the
/// transaction is still building, the fields pass structural validation, the
/// parent (if named) is an existing Sale line, and the new running total
/// stays within the 64-bit range.
pub open spec fn can_append_sale(
    t: TxV,
    sku: Seq<char>,
    qty: i32,
    unit_minor: i64,
    parent: Option<u32>,
) -> bool {
    &&& sku.len() > 0
    &&& qty > 0
    &&& unit_minor >= 0
    &&& t.lines.len() < MAX_LINE_COUNT
    &&& (match parent {
        Some(p) => is_sale_line(t.lines, p),
        None => true,
    })
    &&& qty * unit_minor <= i64::MAX
    &&& tx_total(t) + qty * unit_minor <= i64::MAX
}

/// Whether a cash tender of `amount` may be added to `t`.
pub open spec fn can_add_tender(t: TxV, amount: i64) -> bool {
    &&& amount > 0
    &&& t.tendered_minor + amount <= i64::MAX
    &&& t.tendered_minor + amount - tx_total(t) <= i64::MAX
}

/// The transaction `t` with `amount` added to its tender at time `ts`.
pub open spec fn with_tender(t: TxV, amount: i64, ts: u64) -> TxV {
    TxV { tendered_minor: (t.tendered_minor + amount) as i64, last_activity_ns: ts, ..t }
}

/// The reason recorded on a cascade-voided child line.
pub open spec fn cascade_reason(base: Seq<char>) -> Seq<char> {
    "Parent voided: "@ + base
}

/// The Void entry that `lines` would gain for voiding line `n` now.
pub open spec fn void_entry(lines: Seq<LineV>, n: u32, reason: Seq<char>, ts: u64) -> LineV {
    void_line_v(lines[n - 1], (lines.len() + 1) as u32, reason, ts)
}

/// Whether line `n` of `lines` may be voided now: it is an unvoided Sale,
/// there is room for one more line, and the new running total keeps both the
/// total and the change within the 64-bit range.
pub open spec fn can_void_lines(lines: Seq<LineV>, tendered: i64, n: u32) -> bool {
    &&& is_sale_line(lines, n)
    &&& !line_voided(lines, n)
    &&& lines.len() < MAX_LINE_COUNT
    &&& i64::MIN <= prefix_total(lines, lines.len() as int) - line_total(lines[n - 1])
    &&& tendered - (prefix_total(lines, lines.len() as int) - line_total(lines[n - 1]))
        <= i64::MAX
}

/// Whether line `n` of `t` may be voided now.
pub open spec fn can_void(t: TxV, n: u32) -> bool {
    can_void_lines(t.lines, t.tendered_minor, n)
}

/// The line list after voiding each number in `list` in order. The entry for
/// `target` carries `base` as its reason; every other entry carries the
/// cascade prefix.
pub open spec fn apply_voids(
    lines: Seq<LineV>,
    list: Seq<u32>,
    target: u32,
    base: Seq<char>,
    ts: u64,
) -> Seq<LineV>
    decreases list.len(),
{
    if list.len() == 0 {
        lines
    } else {
        let n = list[0];
        let reason = if n == target {
            base
        } else {
            cascade_reason(base)
        };
        apply_voids(lines.push(void_entry(lines, n, reason, ts)), list.drop_first(), target, base,
            ts)
    }
}

/// Whether every number in `list` can be voided, in order, each against the
/// list as grown by the voids before it.
pub open spec fn voids_ok(
    lines: Seq<LineV>,
    tendered: i64,
    list: Seq<u32>,
    target: u32,
    base: Seq<char>,
    ts: u64,
) -> bool
    decreases list.len(),
{
    if list.len() == 0 {
        true
    } else {
        let n = list[0];
        let reason = if n == target {
            base
        } else {
            cascade_reason(base)
        };
        &&& can_void_lines(lines, tendered, n)
        &&& voids_ok(lines.push(void_entry(lines, n, reason, ts)), tendered, list.drop_first(),
            target, base, ts)
    }
}

/// The unvoided descendants of `n` among the first `k` lines, in descending
/// line-number order.
pub open spec fn cascade_victims(lines: Seq<LineV>, n: u32, k: int) -> Seq<u32>
    decreases k,
{
    if k <= 0 {
        Seq::empty()
    } else {
        if is_descendant(lines, n, k as u32) && !line_voided(lines, k as u32) {
            seq![k as u32].add(cascade_victims(lines, n, k - 1))
        } else {
            cascade_victims(lines, n, k - 1)
        }
    }
}

/// The full cascade for voiding `n`: its unvoided descendants deepest-first,
/// then `n` itself.
pub open spec fn cascade_list(lines: Seq<LineV>, n: u32) -> Seq<u32> {
    cascade_victims(lines, n, lines.len() as int).push(n)
}

/// Dense 1-based numbering of a line list.
pub open spec fn lines_numbered(lines: Seq<LineV>) -> bool {
    forall|i: int| 0 <= i < lines.len() ==> #[trigger] lines[i].line_number == i + 1
}

/// Voiding appends: the old lines survive unchanged at their positions.
pub proof fn lemma_apply_voids_shape(
    lines: Seq<LineV>,
    list: Seq<u32>,
    target: u32,
    base: Seq<char>,
    ts: u64,
)
    ensures
        apply_voids(lines, list, target, base, ts).len() == lines.len() + list.len(),
        forall|i: int|
            0 <= i < lines.len() ==> apply_voids(lines, list, target, base, ts)[i] == lines[i],
        forall|i: int|
            lines.len() <= i < lines.len() + list.len() ==> apply_voids(lines, list, target, base,
                ts)[i].entry_type == EntryType::Void,
    decreases list.len(),
{
    if list.len() > 0 {
        let n = list[0];
        let reason = if n == target {
            base
        } else {
            cascade_reason(base)
        };
        let grown = lines.push(void_entry(lines, n, reason, ts));
        let full = apply_voids(lines, list, target, base, ts);
        assert(full == apply_voids(grown, list.drop_first(), target, base, ts));
        lemma_apply_voids_shape(grown, list.drop_first(), target, base, ts);
        assert forall|i: int| 0 <= i < lines.len() implies full[i] == lines[i] by {
            assert(full[i] == grown[i]);
        }
        assert forall|i: int|
            lines.len() <= i < lines.len() + list.len() implies full[i].entry_type
            == EntryType::Void by {
            if i == lines.len() {
                assert(full[i] == grown[i]);
            }
        }
    }
}

/// Extending a void list by one: the result is the earlier result with one
/// more Void entry, and the batch is applicable exactly when the earlier
/// batch was and the new number can be voided against its outcome.
pub proof fn lemma_voids_snoc(
    lines: Seq<LineV>,
    tendered: i64,
    list: Seq<u32>,
    m: u32,
    target: u32,
    base: Seq<char>,
    ts: u64,
)
    ensures
        apply_voids(lines, list.push(m), target, base, ts) == apply_voids(lines, list, target,
            base, ts).push(void_entry(apply_voids(lines, list, target, base, ts), m, if m == target {
            base
        } else {
            cascade_reason(base)
        }, ts)),
        voids_ok(lines, tendered, list.push(m), target, base, ts) <==> (voids_ok(lines, tendered,
            list, target, base, ts) && can_void_lines(apply_voids(lines, list, target, base, ts),
            tendered, m)),
    decreases list.len(),
{
    if list.len() == 0 {
        let rm = if m == target {
            base
        } else {
            cascade_reason(base)
        };
        let em = void_entry(lines, m, rm, ts);
        assert(list.push(m).drop_first() =~= Seq::<u32>::empty());
        assert(list.push(m)[0] == m);
        assert(apply_voids(lines.push(em), list.push(m).drop_first(), target, base, ts)
            == lines.push(em));
        assert(apply_voids(lines, list.push(m), target, base, ts) == lines.push(em));
        assert(apply_voids(lines, list, target, base, ts) == lines);
        assert(voids_ok(lines.push(em), tendered, list.push(m).drop_first(), target, base, ts));
        assert(voids_ok(lines, tendered, list.push(m), target, base, ts) == (can_void_lines(lines,
            tendered, m) && voids_ok(lines.push(em), tendered, list.push(m).drop_first(), target,
            base, ts)));
        assert(voids_ok(lines, tendered, list, target, base, ts));
    } else {
        let n = list[0];
        let reason = if n == target {
            base
        } else {
            cascade_reason(base)
        };
        let grown = lines.push(void_entry(lines, n, reason, ts));
        assert(list.push(m).drop_first() =~= list.drop_first().push(m));
        assert(list.push(m)[0] == n);
        lemma_voids_snoc(grown, tendered, list.drop_first(), m, target, base, ts);
        assert(apply_voids(lines, list.push(m), target, base, ts) == apply_voids(grown,
            list.drop_first().push(m), target, base, ts));
        assert(apply_voids(lines, list, target, base, ts) == apply_voids(grown,
            list.drop_first(), target, base, ts));
        assert(voids_ok(lines, tendered, list.push(m), target, base, ts) == (can_void_lines(lines,
            tendered, n) && voids_ok(grown, tendered, list.drop_first().push(m), target, base,
            ts)));
        assert(voids_ok(lines, tendered, list, target, base, ts) == (can_void_lines(lines,
            tendered, n) && voids_ok(grown, tendered, list.drop_first(), target, base, ts)));
    }
}

/// A pushed entry changes which lines count as voided only by what it itself
/// references.
pub proof fn lemma_voided_after_push(lines: Seq<LineV>, e: LineV, m: u32)
    ensures
        line_voided(lines.push(e), m) <==> (line_voided(lines, m) || (e.entry_type
            == EntryType::Void && e.references_line == Some(m))),
{
    let b = lines.push(e);
    if line_voided(b, m) {
        let i = choose|i: int|
            0 <= i < b.len() && b[i].entry_type == EntryType::Void && b[i].references_line
                == Some(m);
        if i < lines.len() {
            assert(lines[i].entry_type == EntryType::Void && lines[i].references_line == Some(m));
        }
    }
    if line_voided(lines, m) {
        let i = choose|i: int|
            0 <= i < lines.len() && lines[i].entry_type == EntryType::Void
                && lines[i].references_line == Some(m);
        assert(b[i].entry_type == EntryType::Void && b[i].references_line == Some(m));
    }
    if e.entry_type == EntryType::Void && e.references_line == Some(m) {
        assert(b[lines.len() as int].entry_type == EntryType::Void
            && b[lines.len() as int].references_line == Some(m));
    }
}

/// After a batch of voids, a line counts as voided exactly when it already
/// was or its number stands in the batch.
pub proof fn lemma_voided_after_apply(
    lines: Seq<LineV>,
    tendered: i64,
    list: Seq<u32>,
    target: u32,
    base: Seq<char>,
    ts: u64,
    m: u32,
)
    requires
        lines_numbered(lines),
        voids_ok(lines, tendered, list, target, base, ts),
    ensures
        line_voided(apply_voids(lines, list, target, base, ts), m) <==> (line_voided(lines, m)
            || list.contains(m)),
    decreases list.len(),
{
    if list.len() == 0 {
        assert(!list.contains(m));
        assert(apply_voids(lines, list, target, base, ts) == lines);
    } else {
        let n = list[0];
        let reason = if n == target {
            base
        } else {
            cascade_reason(base)
        };
        let e = void_entry(lines, n, reason, ts);
        let grown = lines.push(e);
        assert(can_void_lines(lines, tendered, n));
        assert(e.references_line == Some(lines[n - 1].line_number));
        assert(lines[n - 1].line_number == n);
        assert(lines_numbered(grown)) by {
            assert(forall|i: int|
                0 <= i < lines.len() ==> #[trigger] grown[i].line_number == lines[i].line_number);
        }
        assert(apply_voids(lines, list, target, base, ts) == apply_voids(grown,
            list.drop_first(), target, base, ts));
        lemma_voided_after_push(lines, e, m);
        lemma_voided_after_apply(grown, tendered, list.drop_first(), target, base, ts, m);
        if list.contains(m) {
            let i = choose|i: int| 0 <= i < list.len() && list[i] == m;
            if i > 0 {
                assert(list.drop_first()[i - 1] == m);
            }
        }
        if list.drop_first().contains(m) {
            let i = choose|i: int| 0 <= i < list.drop_first().len() && list.drop_first()[i] == m;
            assert(list[i + 1] == m);
        }
        if m == n {
            assert(list[0] == m);
        }
    }
}

/// Assembles batch applicability from its pointwise checks: if from step `k`
/// on every number can be voided against the lines grown by the steps before
/// it, the remaining batch is applicable as a whole.
pub proof fn lemma_voids_ok_intro(
    lines: Seq<LineV>,
    tendered: i64,
    list: Seq<u32>,
    target: u32,
    base: Seq<char>,
    ts: u64,
    k: int,
)
    requires
        0 <= k <= list.len(),
        forall|j: int|
            k <= j < list.len() ==> can_void_lines(
                apply_voids(lines, list.subrange(0, j), target, base, ts),
                tendered,
                #[trigger] list[j],
            ),
    ensures
        voids_ok(apply_voids(lines, list.subrange(0, k), target, base, ts), tendered,
            list.subrange(k, list.len() as int), target, base, ts),
    decreases list.len() - k,
{
    if k < list.len() {
        let pre = apply_voids(lines, list.subrange(0, k), target, base, ts);
        let m = list[k];
        let reason = if m == target {
            base
        } else {
            cascade_reason(base)
        };
        assert(list.subrange(0, k + 1) =~= list.subrange(0, k).push(m));
        lemma_voids_snoc(lines, tendered, list.subrange(0, k), m, target, base, ts);
        lemma_voids_ok_intro(lines, tendered, list, target, base, ts, k + 1);
        assert(list.subrange(k, list.len() as int)[0] == m);
        assert(list.subrange(k, list.len() as int).drop_first() =~= list.subrange(k + 1,
            list.len() as int));
    }
}

/// The converse: an applicable batch passes every pointwise check.
pub proof fn lemma_voids_ok_elim(
    lines: Seq<LineV>,
    tendered: i64,
    list: Seq<u32>,
    target: u32,
    base: Seq<char>,
    ts: u64,
    j: int,
)
    requires
        voids_ok(lines, tendered, list, target, base, ts),
        0 <= j < list.len(),
    ensures
        can_void_lines(apply_voids(lines, list.subrange(0, j), target, base, ts), tendered,
            list[j]),
    decreases j,
{
    let n = list[0];
    let reason = if n == target {
        base
    } else {
        cascade_reason(base)
    };
    if j == 0 {
        assert(list.subrange(0, 0) =~= Seq::<u32>::empty());
    } else {
        let grown = lines.push(void_entry(lines, n, reason, ts));
        lemma_voids_ok_elim(grown, tendered, list.drop_first(), target, base, ts, j - 1);
        assert(list.drop_first()[j - 1] == list[j]);
        assert(list.drop_first().subrange(0, j - 1) =~= list.subrange(1, j));
        assert(apply_voids(lines, list.subrange(0, j), target, base, ts) == apply_voids(grown,
            list.subrange(1, j), target, base, ts)) by {
            assert(list.subrange(0, j)[0] == n);
            assert(list.subrange(0, j).drop_first() =~= list.subrange(1, j));
        }
    }
}

/// What the victim list holds: exactly the unvoided descendants up to `k`.
pub proof fn lemma_victims_contains(lines: Seq<LineV>, n: u32, k: int, m: u32)
    requires
        0 <= k <= u32::MAX,
    ensures
        cascade_victims(lines, n, k).contains(m) <==> (1 <= m <= k && is_descendant(lines, n, m)
            && !line_voided(lines, m)),
    decreases k,
{
    if k > 0 {
        let rest = cascade_victims(lines, n, k - 1);
        lemma_victims_contains(lines, n, k - 1, m);
        if is_descendant(lines, n, k as u32) && !line_voided(lines, k as u32) {
            let cur = seq![k as u32].add(rest);
            assert(cur[0] == k as u32);
            if cur.contains(m) {
                let i = choose|i: int| 0 <= i < cur.len() && cur[i] == m;
                if i > 0 {
                    assert(rest[i - 1] == m);
                    assert(rest.contains(m));
                }
            }
            if rest.contains(m) {
                let i = choose|i: int| 0 <= i < rest.len() && rest[i] == m;
                assert(cur[i + 1] == m);
            }
        }
    }
}

/// The victim list is strictly descending, bounded by `k`, and no longer
/// than `k`.
pub proof fn lemma_victims_sorted(lines: Seq<LineV>, n: u32, k: int)
    requires
        0 <= k <= u32::MAX,
    ensures
        cascade_victims(lines, n, k).len() <= k,
        forall|j: int|
            0 <= j < cascade_victims(lines, n, k).len() ==> 1 <= #[trigger] cascade_victims(
                lines, n, k)[j] <= k,
        forall|j1: int, j2: int|
            0 <= j1 < j2 < cascade_victims(lines, n, k).len() ==> cascade_victims(lines, n, k)[j1]
                > cascade_victims(lines, n, k)[j2],
    decreases k,
{
    if k > 0 {
        lemma_victims_sorted(lines, n, k - 1);
        let rest = cascade_victims(lines, n, k - 1);
        if is_descendant(lines, n, k as u32) && !line_voided(lines, k as u32) {
            let cur = seq![k as u32].add(rest);
            assert(cascade_victims(lines, n, k) == cur);
            assert(cur[0] == k as u32);
            assert(forall|j: int| 1 <= j < cur.len() ==> cur[j] == rest[j - 1]);
            assert(rest.len() == cur.len() - 1);
            assert forall|j1: int, j2: int| 0 <= j1 < j2 < cur.len() implies cur[j1]
                > cur[j2] by {
                if j1 == 0 {
                    assert(cur[j1] == k as u32);
                    assert(cur[j2] == rest[j2 - 1]);
                    assert(1 <= rest[j2 - 1] <= k - 1);
                } else {
                    assert(cur[j1] == rest[j1 - 1]);
                    assert(cur[j2] == rest[j2 - 1]);
                    assert(rest[j1 - 1] > rest[j2 - 1]);
                }
            }
        }
    }
}

/// A well-formed line list carries dense 1-based numbering.
pub proof fn lemma_wf_numbered(lines: Seq<LineV>)
    requires
        lines_wf(lines),
    ensures
        lines_numbered(lines),
{
    assert forall|i: int| 0 <= i < lines.len() implies #[trigger] lines[i].line_number == i
        + 1 by {
        assert(line_wf_at(lines, i));
    }
}

/// The reason recorded on an Adjustment entry.
pub open spec fn adj_reason(eff: int, new_qty: int) -> Seq<char> {
    "Quantity changed from "@ + dec_chars_int(eff) + " to "@ + dec_chars_int(new_qty)
}

/// The Adjustment entry that brings line `n`'s effective quantity to
/// `new_qty`.
pub open spec fn adj_entry(lines: Seq<LineV>, n: u32, new_qty: i32, ts: u64) -> LineV {
    let eff = eff_qty(lines, n);
    LineV {
        sku: lines[n - 1].sku,
        qty: (new_qty - eff) as i32,
        unit_minor: lines[n - 1].unit_minor,
        line_number: (lines.len() + 1) as u32,
        parent_line_item_id: None,
        entry_type: EntryType::Adjustment,
        reason: Some(adj_reason(eff, new_qty as int)),
        references_line: Some(n),
        timestamp_ns: ts,
    }
}

/// Whether line `n`'s quantity may be adjusted to `new_qty`: the line is a
/// Sale, and either the new quantity already is the effective quantity, or
/// there is room for the entry and the delta keeps every bound.
pub open spec fn can_adjust(t: TxV, n: u32, new_qty: i32) -> bool {
    let eff = eff_qty(t.lines, n);
    let delta = new_qty - eff;
    let unit = t.lines[n - 1].unit_minor;
    &&& is_sale_line(t.lines, n)
    &&& (delta == 0 || {
        &&& t.lines.len() < MAX_LINE_COUNT
        &&& i32::MIN <= delta <= i32::MAX
        &&& i64::MIN <= delta * unit <= i64::MAX
        &&& i64::MIN <= tx_total(t) + delta * unit <= i64::MAX
        &&& t.tendered_minor - (tx_total(t) + delta * unit) <= i64::MAX
    })
}

/// Every descendant lies strictly below its ancestor in line-number order.
pub proof fn lemma_descendant_gt(lines: Seq<LineV>, a: u32, c: u32)
    requires
        lines_wf(lines),
        is_descendant(lines, a, c),
    ensures
        c > a,
        1 <= c <= lines.len(),
    decreases c,
{
    assert(line_wf_at(lines, c - 1));
    match lines[c - 1].parent_line_item_id {
        Some(p) => {
            if p != a {
                lemma_descendant_gt(lines, a, p);
            }
        },
        None => {},
    }
}

/// Every descendant is a Sale line: only Sale lines carry parents.
pub proof fn lemma_descendant_sale(lines: Seq<LineV>, a: u32, c: u32)
    requires
        lines_wf(lines),
        is_descendant(lines, a, c),
    ensures
        is_sale_line(lines, c),
{
    assert(line_wf_at(lines, c - 1));
}

/// One retail sale transaction.
#[derive(Debug)]
pub struct Transaction {
    pub id: u64,
    pub store: String,
    pub currency: Currency,
    pub lines: Vec<Line>,
    pub tendered_minor: i64,
    pub state: TxState,
    pub created_at_ns: u64,
    pub last_activity_ns: u64,
    pub wal_begin_sequence: u64,
    pub wal_commit_sequence: Option<u64>,
}

impl View for Transaction {
    type V = TxV;

    open spec fn view(&self) -> TxV {
        TxV {
            id: self.id,
            store: self.store@,
            currency: self.currency@,
            lines: Seq::new(self.lines@.len(), |i: int| self.lines@[i]@),
            tendered_minor: self.tendered_minor,
            state: self.state,
            created_at_ns: self.created_at_ns,
            last_activity_ns: self.last_activity_ns,
            wal_begin_sequence: self.wal_begin_sequence,
            wal_commit_sequence: self.wal_commit_sequence,
        }
    }
}

impl Transaction {
    /// A fresh transaction in state `Building` with no lines and no tender.
    pub fn new(
        id: u64,
        store: String,
        currency: Currency,
        timestamp_ns: u64,
        wal_begin_sequence: u64,
    ) -> (t: Transaction)
        ensures
            t@ == (TxV {
                id,
                store: store@,
                currency: currency@,
                lines: Seq::empty(),
                tendered_minor: 0,
                state: TxState::Building,
                created_at_ns: timestamp_ns,
                last_activity_ns: timestamp_ns,
                wal_begin_sequence,
                wal_commit_sequence: None,
            }),
    {
        let t = Transaction {
            id,
            store,
            currency,
            lines: Vec::new(),
            tendered_minor: 0,
            state: TxState::Building,
            created_at_ns: timestamp_ns,
            last_activity_ns: timestamp_ns,
            wal_begin_sequence,
            wal_commit_sequence: None,
        };
        proof {
            assert(t@.lines =~= Seq::<LineV>::empty());
        }
        t
    }

    /// The transaction total in minor units: the sum of every line's
    /// `qty * unit_minor`.
    pub fn total_minor(&self) -> (total: i64)
        requires
            lines_wf(self@.lines),
        ensures
            total == tx_total(self@),
    {
        let n = self.lines.len();
        let mut acc: i64 = 0;
        let mut i: usize = 0;
        while i < n
            invariant
                i <= n,
                n == self.lines.len(),
                lines_wf(self@.lines),
                acc == prefix_total(self@.lines, i as int),
            decreases n - i,
        {
            proof {
                assert(line_wf_at(self@.lines, i as int));
            }
            let lt = self.lines[i].total_minor();
            acc = acc + lt;
            i = i + 1;
        }
        acc
    }

    /// Alias of `total_minor` under the audit-oriented name: the total with
    /// every Void and Adjustment entry taken into account.
    pub fn calculate_effective_total(&self) -> (total: i64)
        requires
            lines_wf(self@.lines),
        ensures
            total == tx_total(self@),
    {
        self.total_minor()
    }

    /// The change owed: `max(0, tendered - total)`.
    pub fn change_minor(&self) -> (change: i64)
        requires
            tx_wf(self@),
        ensures
            change == tx_change(self@),
    {
        let total = self.total_minor();
        if total >= self.tendered_minor {
            0
        } else {
            self.tendered_minor - total
        }
    }

    /// The number of lines.
    pub fn line_count(&self) -> (n: u32)
        requires
            lines_wf(self@.lines),
        ensures
            n == self@.lines.len(),
    {
        self.lines.len() as u32
    }

    /// The 1-based number the next appended line will carry.
    pub fn next_line_number(&self) -> (n: u32)
        requires
            lines_wf(self@.lines),
        ensures
            n == self@.lines.len() + 1,
    {
        (self.lines.len() as u32) + 1
    }

    /// The parent line number of line `line_index` (1-based), or `None` when
    /// the index is out of range or the line has no parent. This is the bare
    /// model accessor; the kernel store distinguishes the two cases and
    /// answers `NotFound` for a number that names no line.
    pub fn get_line_parent_id(&self, line_index: u32) -> (p: Option<u32>)
        ensures
            p == (if 1 <= line_index <= self@.lines.len() {
                self@.lines[line_index - 1].parent_line_item_id
            } else {
                None
            }),
    {
        if line_index == 0 || line_index as usize > self.lines.len() {
            return None;
        }
        self.lines[(line_index - 1) as usize].get_parent_line_item_id()
    }

    /// The effective quantity of line number `n`: its own quantity plus the
    /// quantities of every Void and Adjustment entry referencing it.
    pub fn calculate_effective_quantity_for_line(&self, line_number: u32) -> (q: i64)
        requires
            lines_wf(self@.lines),
        ensures
            q == eff_qty(self@.lines, line_number),
    {
        let n = self.lines.len();
        let mut acc: i64 = 0;
        let mut i: usize = 0;
        while i < n
            invariant
                i <= n,
                n == self.lines.len(),
                lines_wf(self@.lines),
                acc == eff_qty_prefix(self@.lines, line_number, i as int),
                -0x8000_0000i64 * (i as i64) <= acc <= 0x8000_0000i64 * (i as i64),
            decreases n - i,
        {
            let l = &self.lines[i];
            let hit = l.line_number == line_number || match l.references_line {
                Some(r) => r == line_number,
                None => false,
            };
            if hit {
                acc = acc + (l.qty as i64);
            }
            i = i + 1;
        }
        acc
    }

    /// Whether the transaction's inactivity exceeds `timeout_ns` at `now_ns`.
    pub fn is_expired(&self, timeout_ns: u64, now_ns: u64) -> (b: bool)
        ensures
            b == expired(self@, timeout_ns, now_ns),
    {
        now_ns > self.last_activity_ns && now_ns - self.last_activity_ns > timeout_ns
    }

    /// One flag per line number: whether that line is `target` itself or
    /// lies below it in the parent/child forest.
    fn descendant_marks(&self, target: u32) -> (marks: Vec<bool>)
        requires
            lines_wf(self@.lines),
        ensures
            marks@.len() == self@.lines.len() + 1,
            forall|m: int|
                1 <= m <= self@.lines.len() ==> marks@[m] == (m == target || is_descendant(
                    self@.lines,
                    target,
                    m as u32,
                )),
    {
        let len = self.lines.len();
        proof {
            assert(self@.lines.len() == len);
            assert(len <= MAX_LINE_COUNT as usize);
        }
        let mut marks: Vec<bool> = Vec::new();
        while marks.len() < len + 1
            invariant
                len <= MAX_LINE_COUNT as usize,
                marks@.len() <= len + 1,
                len == self.lines.len(),
                forall|m: int| 0 <= m < marks@.len() ==> marks@[m] == false,
            decreases len + 1 - marks@.len(),
        {
            marks.push(false);
        }
        if target as usize <= len && target >= 1 {
            marks.set(target as usize, true);
        }
        let mut idx: usize = 0;
        while idx < len
            invariant
                idx <= len,
                len == self.lines.len(),
                lines_wf(self@.lines),
                marks@.len() == len + 1,
                forall|m: int|
                    1 <= m <= idx ==> marks@[m] == (m == target || is_descendant(self@.lines,
                        target, m as u32)),
                forall|m: int| idx < m <= len ==> marks@[m] == (m == target),
            decreases len - idx,
        {
            let c: u32 = (idx as u32) + 1;
            proof {
                assert(line_wf_at(self@.lines, idx as int));
            }
            match self.lines[idx].parent_line_item_id {
                Some(p) => {
                    if marks[p as usize] {
                        marks.set((idx + 1) as usize, true);
                        proof {
                            assert(is_descendant(self@.lines, target, c));
                        }
                    } else {
                        proof {
                            assert(!is_descendant(self@.lines, target, c));
                        }
                    }
                },
                None => {
                    proof {
                        assert(!is_descendant(self@.lines, target, c));
                    }
                },
            }
            idx = idx + 1;
        }
        marks
    }

    /// The line numbers of every descendant of `parent_line_number` in the
    /// parent/child forest.
    ///
    /// The order is deliberately ascending by line number: parents always
    /// carry smaller numbers than their children, so this is a topological
    /// order of the subtree (every line before its own descendants), and its
    /// reverse is the deepest-first order the void cascade appends in.
    pub fn find_all_children(&self, parent_line_number: u32) -> (r: Vec<u32>)
        requires
            lines_wf(self@.lines),
        ensures
            forall|j: int|
                0 <= j < r@.len() ==> is_descendant(self@.lines, parent_line_number,
                    #[trigger] r@[j]),
            forall|c: u32|
                is_descendant(self@.lines, parent_line_number, c) ==> r@.contains(c),
            forall|j1: int, j2: int| 0 <= j1 < j2 < r@.len() ==> r@[j1] < r@[j2],
    {
        let len = self.lines.len();
        let marks = self.descendant_marks(parent_line_number);
        let mut out: Vec<u32> = Vec::new();
        let mut idx: usize = 0;
        while idx < len
            invariant
                idx <= len,
                len == self.lines.len(),
                lines_wf(self@.lines),
                marks@.len() == len + 1,
                forall|m: int|
                    1 <= m <= len ==> marks@[m] == (m == parent_line_number || is_descendant(
                        self@.lines, parent_line_number, m as u32)),
                forall|j: int|
                    0 <= j < out@.len() ==> is_descendant(self@.lines, parent_line_number,
                        #[trigger] out@[j]),
                forall|c: u32|
                    1 <= c <= idx && is_descendant(self@.lines, parent_line_number, c)
                        ==> out@.contains(c),
                forall|j: int| 0 <= j < out@.len() ==> 1 <= #[trigger] out@[j] <= idx,
                forall|j1: int, j2: int| 0 <= j1 < j2 < out@.len() ==> out@[j1] < out@[j2],
            decreases len - idx,
        {
            let c: u32 = (idx as u32) + 1;
            if marks[idx + 1] && c != parent_line_number {
                let ghost pre = out@;
                out.push(c);
                proof {
                    assert forall|cc: u32|
                        1 <= cc <= idx + 1 && is_descendant(self@.lines, parent_line_number,
                            cc) implies out@.contains(cc) by {
                        if cc <= idx {
                            assert(pre.contains(cc));
                            let k = choose|k: int| 0 <= k < pre.len() && pre[k] == cc;
                            assert(out@[k] == cc);
                        } else {
                            assert(out@[out@.len() - 1] == cc);
                        }
                    }
                }
            } else {
                proof {
                    if is_descendant(self@.lines, parent_line_number, c) {
                        lemma_descendant_gt(self@.lines, parent_line_number, c);
                    }
                }
            }
            idx = idx + 1;
        }
        out
    }

    /// Whether `n` is the 1-based number of a Sale line.
    pub fn is_sale_line_number(&self, n: u32) -> (b: bool)
        ensures
            b == is_sale_line(self@.lines, n),
    {
        n >= 1 && (n as usize) <= self.lines.len() && self.lines[(n - 1) as usize].entry_type
            == EntryType::Sale
    }

    /// Whether a Void entry referencing line `n` already exists.
    pub fn is_line_voided(&self, n: u32) -> (b: bool)
        ensures
            b == line_voided(self@.lines, n),
    {
        let len = self.lines.len();
        let mut i: usize = 0;
        while i < len
            invariant
                i <= len,
                len == self.lines.len(),
                forall|k: int|
                    0 <= k < i ==> !(#[trigger] self@.lines[k].entry_type == EntryType::Void
                        && self@.lines[k].references_line == Some(n)),
            decreases len - i,
        {
            let l = &self.lines[i];
            if l.entry_type == EntryType::Void {
                if let Some(r) = l.references_line {
                    if r == n {
                        proof {
                            assert(self@.lines[i as int].entry_type == EntryType::Void
                                && self@.lines[i as int].references_line == Some(n));
                        }
                        return true;
                    }
                }
            }
            i = i + 1;
        }
        false
    }

    /// Appends a Sale line, optionally linked below a parent Sale.
    ///
    /// Fails `InvalidState` when the transaction is no longer building, and
    /// `ValidationFailed` when the SKU is empty, the quantity is not
    /// positive, the unit price is negative, the named parent is not an
    /// existing Sale line, the line list is full, or the new running total
    /// would leave the 64-bit range. On failure nothing changes.
    pub fn add_line_with_parent(
        &mut self,
        sku: String,
        qty: i32,
        unit_minor: i64,
        parent: Option<u32>,
        timestamp_ns: u64,
    ) -> (r: Result<(), ResultCode>)
        requires
            tx_wf(old(self)@),
        ensures
            tx_wf(final(self)@),
            old(self)@.state == TxState::Building && can_append_sale(old(self)@, sku@, qty,
                unit_minor, parent) ==> (r is Ok && final(self)@ == with_line(old(self)@,
                sale_line_v(sku@, qty, unit_minor, (old(self)@.lines.len() + 1) as u32, parent,
                    timestamp_ns), timestamp_ns)),
            r is Err ==> *final(self) == *old(self),
            r matches Err(c) ==> (c == ResultCode::InvalidState <==> old(self)@.state
                != TxState::Building),
            r matches Err(c) ==> (c == ResultCode::InvalidState || c
                == ResultCode::ValidationFailed),
            r is Err <==> !(old(self)@.state == TxState::Building && can_append_sale(old(self)@,
                sku@, qty, unit_minor, parent)),
    {
        if self.state != TxState::Building {
            return Err(ResultCode::InvalidState);
        }
        if sku.unicode_len() == 0 || qty <= 0 || unit_minor < 0 {
            return Err(ResultCode::ValidationFailed);
        }
        if self.lines.len() >= MAX_LINE_COUNT as usize {
            return Err(ResultCode::ValidationFailed);
        }
        if let Some(p) = parent {
            if !self.is_sale_line_number(p) {
                return Err(ResultCode::ValidationFailed);
            }
        }
        proof {
            lemma_qty_unit_bounds(qty as int, unit_minor as int);
        }
        let lt: i128 = (qty as i128) * (unit_minor as i128);
        if lt > i64::MAX as i128 {
            return Err(ResultCode::ValidationFailed);
        }
        let total = self.total_minor();
        if (total as i128) + lt > i64::MAX as i128 {
            return Err(ResultCode::ValidationFailed);
        }
        let number = (self.lines.len() as u32) + 1;
        let line = Line::new_sale(sku, qty, unit_minor, number, parent, timestamp_ns);
        let ghost old_v = self@;
        let ghost lv = line@;
        self.lines.push(line);
        self.last_activity_ns = timestamp_ns;
        proof {
            assert(self@.lines =~= old_v.lines.push(lv));
            assert(self@ == with_line(old_v, lv, timestamp_ns));
            lemma_prefix_total_agree(old_v.lines, self@.lines, old_v.lines.len() as int);
            assert(line_wf_at(self@.lines, old_v.lines.len() as int));
            lemma_lines_wf_push(old_v.lines, lv);
        }
        Ok(())
    }

    /// Appends an unlinked Sale line; see `add_line_with_parent`.
    pub fn add_line(&mut self, sku: String, qty: i32, unit_minor: i64, timestamp_ns: u64) -> (r:
        Result<(), ResultCode>)
        requires
            tx_wf(old(self)@),
        ensures
            tx_wf(final(self)@),
            old(self)@.state == TxState::Building && can_append_sale(old(self)@, sku@, qty,
                unit_minor, None) ==> (r is Ok && final(self)@ == with_line(old(self)@,
                sale_line_v(sku@, qty, unit_minor, (old(self)@.lines.len() + 1) as u32, None,
                    timestamp_ns), timestamp_ns)),
            r is Err ==> *final(self) == *old(self),
            r matches Err(c) ==> (c == ResultCode::InvalidState <==> old(self)@.state
                != TxState::Building),
            r matches Err(c) ==> (c == ResultCode::InvalidState || c
                == ResultCode::ValidationFailed),
            r is Err <==> !(old(self)@.state == TxState::Building && can_append_sale(old(self)@,
                sku@, qty, unit_minor, None)),
    {
        self.add_line_with_parent(sku, qty, unit_minor, None, timestamp_ns)
    }

    /// Appends a Sale line linked below the Sale numbered `parent_line_id`;
    /// see `add_line_with_parent`.
    pub fn add_child_line(
        &mut self,
        sku: String,
        qty: i32,
        unit_minor: i64,
        parent_line_id: u32,
        timestamp_ns: u64,
    ) -> (r: Result<(), ResultCode>)
        requires
            tx_wf(old(self)@),
        ensures
            tx_wf(final(self)@),
            old(self)@.state == TxState::Building && can_append_sale(old(self)@, sku@, qty,
                unit_minor, Some(parent_line_id)) ==> (r is Ok && final(self)@ == with_line(
                old(self)@, sale_line_v(sku@, qty, unit_minor, (old(self)@.lines.len() + 1) as u32,
                    Some(parent_line_id), timestamp_ns), timestamp_ns)),
            r is Err ==> *final(self) == *old(self),
            r matches Err(c) ==> (c == ResultCode::InvalidState <==> old(self)@.state
                != TxState::Building),
            r matches Err(c) ==> (c == ResultCode::InvalidState || c
                == ResultCode::ValidationFailed),
            r is Err <==> !(old(self)@.state == TxState::Building && can_append_sale(old(self)@,
                sku@, qty, unit_minor, Some(parent_line_id))),
    {
        self.add_line_with_parent(sku, qty, unit_minor, Some(parent_line_id), timestamp_ns)
    }

    /// Adds a cash tender in minor units without touching the state; the
    /// kernel store drives the state machine through this, committing with
    /// an explicitly logged record when the tender covers the total.
    ///
    /// Fails `InvalidState` when the transaction is no longer building and
    /// `ValidationFailed` when the amount is not positive or the new tender
    /// would leave the 64-bit range.
    pub(crate) fn apply_tender(&mut self, amount_minor: i64, timestamp_ns: u64) -> (r: Result<
        (),
        ResultCode,
    >)
        requires
            tx_wf(old(self)@),
        ensures
            tx_wf(final(self)@),
            old(self)@.state == TxState::Building && can_add_tender(old(self)@, amount_minor) ==> (
            r is Ok && final(self)@ == with_tender(old(self)@, amount_minor, timestamp_ns)),
            r is Err ==> *final(self) == *old(self),
            r matches Err(c) ==> (c == ResultCode::InvalidState <==> old(self)@.state
                != TxState::Building),
            r matches Err(c) ==> (c == ResultCode::InvalidState || c
                == ResultCode::ValidationFailed),
            r is Err <==> !(old(self)@.state == TxState::Building && can_add_tender(old(self)@,
                amount_minor)),
    {
        if self.state != TxState::Building {
            return Err(ResultCode::InvalidState);
        }
        if amount_minor <= 0 {
            return Err(ResultCode::ValidationFailed);
        }
        if amount_minor > i64::MAX - self.tendered_minor {
            return Err(ResultCode::ValidationFailed);
        }
        let total = self.total_minor();
        let new_tendered = self.tendered_minor + amount_minor;
        if (new_tendered as i128) - (total as i128) > i64::MAX as i128 {
            return Err(ResultCode::ValidationFailed);
        }
        self.tendered_minor = new_tendered;
        self.last_activity_ns = timestamp_ns;
        proof {
            assert(self@.lines =~= old(self)@.lines);
            lemma_prefix_total_agree(old(self)@.lines, self@.lines, self@.lines.len() as int);
            assert(self@ == with_tender(old(self)@, amount_minor, timestamp_ns));
        }
        Ok(())
    }

    /// Adds a cash tender in minor units, and moves the transaction to
    /// `Committed` in the same step when the new tender covers the total.
    /// The standalone model commits without a log; under the kernel store the
    /// same transition is driven by `add_cash_tender_legal`, which logs a
    /// commit record and stamps its sequence number.
    ///
    /// Fails `InvalidState` when the transaction is no longer building and
    /// `ValidationFailed` when the amount is not positive or the new tender
    /// would leave the 64-bit range.
    pub fn add_tender(&mut self, amount_minor: i64, timestamp_ns: u64) -> (r: Result<
        (),
        ResultCode,
    >)
        requires
            tx_wf(old(self)@),
        ensures
            tx_wf(final(self)@),
            old(self)@.state == TxState::Building && can_add_tender(old(self)@, amount_minor) ==> (
            r is Ok && final(self)@ == (TxV {
                state: if with_tender(old(self)@, amount_minor, timestamp_ns).tendered_minor
                    >= tx_total(old(self)@) {
                    TxState::Committed
                } else {
                    TxState::Building
                },
                ..with_tender(old(self)@, amount_minor, timestamp_ns)
            })),
            r is Err ==> *final(self) == *old(self),
            r matches Err(c) ==> (c == ResultCode::InvalidState <==> old(self)@.state
                != TxState::Building),
            r matches Err(c) ==> (c == ResultCode::InvalidState || c
                == ResultCode::ValidationFailed),
            r is Err <==> !(old(self)@.state == TxState::Building && can_add_tender(old(self)@,
                amount_minor)),
    {
        let r = self.apply_tender(amount_minor, timestamp_ns);
        match r {
            Ok(()) => {
                let total = self.total_minor();
                if self.tendered_minor >= total {
                    self.state = TxState::Committed;
                    proof {
                        assert(self@.lines =~= with_tender(old(self)@, amount_minor,
                            timestamp_ns).lines);
                        lemma_prefix_total_agree(with_tender(old(self)@, amount_minor,
                            timestamp_ns).lines, self@.lines, self@.lines.len() as int);
                    }
                }
                Ok(())
            },
            Err(c) => Err(c),
        }
    }

    /// Appends the Void entry reversing the Sale line numbered `line_number`,
    /// with the given reason. This voids that one line only; linked children
    /// are handled by `void_line_item_with_children`.
    ///
    /// Fails `InvalidState` when the transaction is no longer building or the
    /// line is already voided, `NotFound` when the number does not name a
    /// Sale line, and `ValidationFailed` when the line list is full or the
    /// new total would leave the 64-bit range. On failure nothing changes.
    pub fn void_single_line_item(&mut self, line_number: u32, reason: String, timestamp_ns: u64)
        -> (r: Result<(), ResultCode>)
        requires
            tx_wf(old(self)@),
        ensures
            tx_wf(final(self)@),
            r is Ok <==> (old(self)@.state == TxState::Building && can_void(old(self)@,
                line_number)),
            r is Ok ==> final(self)@ == with_line(old(self)@, void_entry(old(self)@.lines,
                line_number, reason@, timestamp_ns), timestamp_ns),
            r is Err ==> *final(self) == *old(self),
            r matches Err(c) ==> (c == ResultCode::InvalidState <==> (old(self)@.state
                != TxState::Building || (is_sale_line(old(self)@.lines, line_number)
                && line_voided(old(self)@.lines, line_number)))),
            r matches Err(c) ==> (c == ResultCode::NotFound <==> (old(self)@.state
                == TxState::Building && !is_sale_line(old(self)@.lines, line_number))),
            r matches Err(c) ==> (c == ResultCode::InvalidState || c == ResultCode::NotFound || c
                == ResultCode::ValidationFailed),
    {
        if self.state != TxState::Building {
            return Err(ResultCode::InvalidState);
        }
        if !self.is_sale_line_number(line_number) {
            return Err(ResultCode::NotFound);
        }
        if self.is_line_voided(line_number) {
            return Err(ResultCode::InvalidState);
        }
        if self.lines.len() >= MAX_LINE_COUNT as usize {
            return Err(ResultCode::ValidationFailed);
        }
        let total = self.total_minor();
        let idx = (line_number - 1) as usize;
        proof {
            assert(line_wf_at(self@.lines, line_number - 1));
        }
        let lt = self.lines[idx].total_minor();
        proof {
            lemma_sale_total_nonneg(self@.lines[line_number - 1].qty as int,
                self@.lines[line_number - 1].unit_minor as int);
        }
        if (total as i128) - (lt as i128) < i64::MIN as i128 {
            return Err(ResultCode::ValidationFailed);
        }
        if (self.tendered_minor as i128) - ((total as i128) - (lt as i128)) > i64::MAX as i128 {
            return Err(ResultCode::ValidationFailed);
        }
        let number = (self.lines.len() as u32) + 1;
        let v = Line::new_void(&self.lines[idx], number, reason, timestamp_ns);
        let ghost old_v = self@;
        let ghost lv = v@;
        self.lines.push(v);
        self.last_activity_ns = timestamp_ns;
        proof {
            assert(self@.lines =~= old_v.lines.push(lv));
            assert(lv == void_entry(old_v.lines, line_number, reason@, timestamp_ns));
            assert(self@ == with_line(old_v, lv, timestamp_ns));
            lemma_prefix_total_agree(old_v.lines, self@.lines, old_v.lines.len() as int);
            lemma_neg_mul(old_v.lines[line_number - 1].qty as int,
                old_v.lines[line_number - 1].unit_minor as int);
            assert(line_wf_at(self@.lines, old_v.lines.len() as int));
            lemma_lines_wf_push(old_v.lines, lv);
        }
        Ok(())
    }

    /// Alias of `void_single_line_item` under the audit-oriented name.
    pub fn void_line_item(&mut self, line_number: u32, reason: String, timestamp_ns: u64) -> (r:
        Result<(), ResultCode>)
        requires
            tx_wf(old(self)@),
        ensures
            tx_wf(final(self)@),
            r is Ok <==> (old(self)@.state == TxState::Building && can_void(old(self)@,
                line_number)),
            r is Ok ==> final(self)@ == with_line(old(self)@, void_entry(old(self)@.lines,
                line_number, reason@, timestamp_ns), timestamp_ns),
            r is Err ==> *final(self) == *old(self),
    {
        self.void_single_line_item(line_number, reason, timestamp_ns)
    }

    /// Applies a batch of single-line voids in order, atomically: when the
    /// transaction is building and every number in `list` names a Sale line
    /// still unvoided at its turn — with room and bounds to spare for each
    /// entry — one Void entry is appended per number and `true` comes back;
    /// otherwise nothing changes and the result is `false`. The entry for
    /// `target` carries `reason` itself; every other entry carries the
    /// cascade prefix. Recovery replays logged void batches through this.
    pub fn apply_void_list(
        &mut self,
        list: &Vec<u32>,
        target: u32,
        reason: &str,
        timestamp_ns: u64,
    ) -> (applied: bool)
        requires
            tx_wf(old(self)@),
        ensures
            tx_wf(final(self)@),
            applied <==> (old(self)@.state == TxState::Building && voids_ok(old(self)@.lines,
                old(self)@.tendered_minor, list@, target, reason@, timestamp_ns)),
            applied && list@.len() > 0 ==> final(self)@ == (TxV {
                lines: apply_voids(old(self)@.lines, list@, target, reason@, timestamp_ns),
                last_activity_ns: timestamp_ns,
                ..old(self)@
            }),
            applied && list@.len() == 0 ==> *final(self) == *old(self),
            !applied ==> *final(self) == *old(self),
    {
        if self.state != TxState::Building {
            return false;
        }
        let ghost orig = self@;
        let ghost base = reason@;
        let len = self.lines.len();
        proof {
            assert(len <= MAX_LINE_COUNT as usize);
        }
        let nlist = list.len();
        // Pre-check the whole batch, so that it is all-or-nothing.
        let total = self.total_minor();
        let mut cur: i128 = total as i128;
        let mut j: usize = 0;
        while j < nlist
            invariant
                j <= nlist,
                nlist == list@.len(),
                len == self.lines.len(),
                len <= MAX_LINE_COUNT as usize,
                *self == *old(self),
                orig == old(self)@,
                tx_wf(orig),
                orig.state == TxState::Building,
                forall|jj: int|
                    0 <= jj < j ==> can_void_lines(
                        apply_voids(orig.lines, list@.subrange(0, jj), target, base,
                            timestamp_ns),
                        orig.tendered_minor,
                        #[trigger] list@[jj],
                    ),
                cur == prefix_total(
                    apply_voids(orig.lines, list@.subrange(0, j as int), target, base,
                        timestamp_ns),
                    orig.lines.len() + j,
                ),
                i64::MIN as i128 <= cur <= i64::MAX as i128,
                orig.tendered_minor - cur <= i64::MAX,
                base == reason@,
            decreases nlist - j,
        {
            let m = list[j];
            let ghost sub = list@.subrange(0, j as int);
            let ghost grown = apply_voids(orig.lines, sub, target, base, timestamp_ns);
            proof {
                lemma_apply_voids_shape(orig.lines, sub, target, base, timestamp_ns);
                assert forall|jj: int|
                    0 <= jj < sub.len() implies can_void_lines(
                    apply_voids(orig.lines, sub.subrange(0, jj), target, base, timestamp_ns),
                    orig.tendered_minor,
                    #[trigger] sub[jj],
                ) by {
                    assert(sub.subrange(0, jj) =~= list@.subrange(0, jj));
                    assert(sub[jj] == list@[jj]);
                }
                lemma_voids_ok_intro(orig.lines, orig.tendered_minor, sub, target, base,
                    timestamp_ns, 0);
                assert(sub.subrange(0, 0) =~= Seq::<u32>::empty());
                assert(sub.subrange(0, sub.len() as int) =~= sub);
                assert(voids_ok(orig.lines, orig.tendered_minor, sub, target, base,
                    timestamp_ns));
                lemma_wf_numbered(orig.lines);
                lemma_voided_after_apply(orig.lines, orig.tendered_minor, sub, target, base,
                    timestamp_ns, m);
            }
            if !self.is_sale_line_number(m) {
                proof {
                    if voids_ok(orig.lines, orig.tendered_minor, list@, target, base,
                        timestamp_ns) {
                        lemma_voids_ok_elim(orig.lines, orig.tendered_minor, list@, target, base,
                            timestamp_ns, j as int);
                        assert(is_sale_line(grown, m));
                        if (m as int) > len {
                            assert(grown[m - 1].entry_type == EntryType::Void);
                        } else {
                            assert(grown[m - 1] == orig.lines[m - 1]);
                        }
                        assert(false);
                    }
                }
                return false;
            }
            if self.is_line_voided(m) {
                proof {
                    if voids_ok(orig.lines, orig.tendered_minor, list@, target, base,
                        timestamp_ns) {
                        lemma_voids_ok_elim(orig.lines, orig.tendered_minor, list@, target, base,
                            timestamp_ns, j as int);
                        assert(false);
                    }
                }
                return false;
            }
            let mut dup = false;
            let mut jj: usize = 0;
            while jj < j
                invariant
                    jj <= j,
                    j < nlist,
                    nlist == list@.len(),
                    m == list@[j as int],
                    dup <==> exists|w: int| 0 <= w < jj && list@[w] == m,
                decreases j - jj,
            {
                if list[jj] == m {
                    dup = true;
                    proof {
                        assert(list@[jj as int] == m);
                    }
                }
                jj = jj + 1;
            }
            if dup {
                proof {
                    let w = choose|w: int| 0 <= w < j && list@[w] == m;
                    assert(sub[w] == m);
                    assert(sub.contains(m));
                    if voids_ok(orig.lines, orig.tendered_minor, list@, target, base,
                        timestamp_ns) {
                        lemma_voids_ok_elim(orig.lines, orig.tendered_minor, list@, target, base,
                            timestamp_ns, j as int);
                        assert(false);
                    }
                }
                return false;
            }
            if j >= (MAX_LINE_COUNT as usize) - len {
                proof {
                    if voids_ok(orig.lines, orig.tendered_minor, list@, target, base,
                        timestamp_ns) {
                        lemma_voids_ok_elim(orig.lines, orig.tendered_minor, list@, target, base,
                            timestamp_ns, j as int);
                        assert(grown.len() < MAX_LINE_COUNT);
                        assert(false);
                    }
                }
                return false;
            }
            proof {
                assert(line_wf_at(orig.lines, m - 1));
                assert(grown[m - 1] == orig.lines[m - 1]);
            }
            let lt = self.lines[(m - 1) as usize].total_minor();
            proof {
                lemma_sale_total_nonneg(orig.lines[m - 1].qty as int,
                    orig.lines[m - 1].unit_minor as int);
            }
            if cur - (lt as i128) < i64::MIN as i128 {
                proof {
                    if voids_ok(orig.lines, orig.tendered_minor, list@, target, base,
                        timestamp_ns) {
                        lemma_voids_ok_elim(orig.lines, orig.tendered_minor, list@, target, base,
                            timestamp_ns, j as int);
                        assert(false);
                    }
                }
                return false;
            }
            if (self.tendered_minor as i128) - (cur - (lt as i128)) > i64::MAX as i128 {
                proof {
                    if voids_ok(orig.lines, orig.tendered_minor, list@, target, base,
                        timestamp_ns) {
                        lemma_voids_ok_elim(orig.lines, orig.tendered_minor, list@, target, base,
                            timestamp_ns, j as int);
                        assert(false);
                    }
                }
                return false;
            }
            proof {
                if sub.contains(m) {
                    let w = choose|w: int| 0 <= w < sub.len() && sub[w] == m;
                    assert(list@[w] == m);
                }
                assert(can_void_lines(grown, orig.tendered_minor, m));
            }
            cur = cur - (lt as i128);
            j = j + 1;
            proof {
                let reason_m = if m == target {
                    base
                } else {
                    cascade_reason(base)
                };
                let e = void_entry(grown, m, reason_m, timestamp_ns);
                assert(list@.subrange(0, j as int) =~= sub.push(m));
                lemma_voids_snoc(orig.lines, orig.tendered_minor, sub, m, target, base,
                    timestamp_ns);
                let grown2 = apply_voids(orig.lines, list@.subrange(0, j as int), target, base,
                    timestamp_ns);
                assert(grown2 == grown.push(e));
                lemma_prefix_total_agree(grown, grown2, grown.len() as int);
                lemma_neg_mul(grown[m - 1].qty as int, grown[m - 1].unit_minor as int);
                assert(line_total(e) == -line_total(grown[m - 1]));
                assert(prefix_total(grown2, grown.len() as int + 1) == prefix_total(grown,
                    grown.len() as int) + line_total(e));
            }
        }
        proof {
            lemma_voids_ok_intro(orig.lines, orig.tendered_minor, list@, target, base,
                timestamp_ns, 0);
            assert(list@.subrange(0, 0) =~= Seq::<u32>::empty());
            assert(list@.subrange(0, list@.len() as int) =~= list@);
            assert(voids_ok(orig.lines, orig.tendered_minor, list@, target, base, timestamp_ns));
        }
        // Apply the batch; every step is now known to succeed.
        let mut j2: usize = 0;
        while j2 < nlist
            invariant
                j2 <= nlist,
                nlist == list@.len(),
                orig == old(self)@,
                tx_wf(orig),
                tx_wf(self@),
                orig.state == TxState::Building,
                voids_ok(orig.lines, orig.tendered_minor, list@, target, base, timestamp_ns),
                self@.lines == apply_voids(orig.lines, list@.subrange(0, j2 as int), target, base,
                    timestamp_ns),
                self@.id == orig.id,
                self@.store == orig.store,
                self@.currency == orig.currency,
                self@.tendered_minor == orig.tendered_minor,
                self@.state == orig.state,
                self@.created_at_ns == orig.created_at_ns,
                self@.wal_begin_sequence == orig.wal_begin_sequence,
                self@.wal_commit_sequence == orig.wal_commit_sequence,
                j2 == 0 ==> *self == *old(self),
                j2 > 0 ==> self@.last_activity_ns == timestamp_ns,
                base == reason@,
            decreases nlist - j2,
        {
            let m = list[j2];
            let reason_m: String = if m == target {
                String::from_str(reason)
            } else {
                String::from_str("Parent voided: ").concat(reason)
            };
            let ghost sub = list@.subrange(0, j2 as int);
            proof {
                lemma_voids_ok_elim(orig.lines, orig.tendered_minor, list@, target, base,
                    timestamp_ns, j2 as int);
                assert(can_void(self@, m));
            }
            let res = self.void_single_line_item(m, reason_m, timestamp_ns);
            match res {
                Ok(()) => {},
                Err(_) => {
                    proof {
                        assert(false);
                    }
                },
            }
            j2 = j2 + 1;
            proof {
                assert(list@.subrange(0, j2 as int) =~= sub.push(m));
                lemma_voids_snoc(orig.lines, orig.tendered_minor, sub, m, target, base,
                    timestamp_ns);
            }
        }
        proof {
            assert(list@.subrange(0, nlist as int) =~= list@);
            if nlist > 0 {
                assert(self@ == (TxV {
                    lines: apply_voids(orig.lines, list@, target, base, timestamp_ns),
                    last_activity_ns: timestamp_ns,
                    ..orig
                }));
            }
        }
        true
    }

    /// Voids the Sale line numbered `line_number` together with every
    /// descendant in the parent/child forest, atomically: either one Void
    /// entry is appended for the target and for each of its not-yet-voided
    /// descendants — deepest first, the target last — or nothing changes.
    /// Children carry the reason prefixed with `Parent voided: `.
    ///
    /// Returns the voided line numbers in the order their Void entries were
    /// appended. Fails `InvalidState` when the transaction is no longer
    /// building or the target is already voided, `NotFound` when the number
    /// does not name a Sale line, and `ValidationFailed` when the batch would
    /// overfill the line list or leave the 64-bit range.
    #[verifier::rlimit(50)]
    #[verifier::spinoff_prover]
    pub fn void_line_item_with_children(
        &mut self,
        line_number: u32,
        reason: &str,
        timestamp_ns: u64,
    ) -> (r: Result<Vec<u32>, ResultCode>)
        requires
            tx_wf(old(self)@),
        ensures
            tx_wf(final(self)@),
            r is Ok <==> (old(self)@.state == TxState::Building && is_sale_line(old(self)@.lines,
                line_number) && !line_voided(old(self)@.lines, line_number) && voids_ok(
                old(self)@.lines, old(self)@.tendered_minor, cascade_list(old(self)@.lines,
                    line_number), line_number, reason@, timestamp_ns)),
            r matches Ok(list) ==> {
                &&& list@ == cascade_list(old(self)@.lines, line_number)
                &&& final(self)@ == (TxV {
                    lines: apply_voids(old(self)@.lines, list@, line_number, reason@,
                        timestamp_ns),
                    last_activity_ns: timestamp_ns,
                    ..old(self)@
                })
                &&& forall|m: u32|
                    line_voided(final(self)@.lines, m) <==> (line_voided(old(self)@.lines, m) || m
                        == line_number || is_descendant(old(self)@.lines, line_number, m))
            },
            r is Err ==> *final(self) == *old(self),
            r matches Err(c) ==> (c == ResultCode::InvalidState <==> (old(self)@.state
                != TxState::Building || (is_sale_line(old(self)@.lines, line_number)
                && line_voided(old(self)@.lines, line_number)))),
            r matches Err(c) ==> (c == ResultCode::NotFound <==> (old(self)@.state
                == TxState::Building && !is_sale_line(old(self)@.lines, line_number))),
            r matches Err(c) ==> (c == ResultCode::InvalidState || c == ResultCode::NotFound || c
                == ResultCode::ValidationFailed),
    {
        if self.state != TxState::Building {
            return Err(ResultCode::InvalidState);
        }
        if !self.is_sale_line_number(line_number) {
            return Err(ResultCode::NotFound);
        }
        if self.is_line_voided(line_number) {
            return Err(ResultCode::InvalidState);
        }
        let ghost orig = self@;
        let ghost base = reason@;
        let len = self.lines.len();
        proof {
            assert(len <= MAX_LINE_COUNT as usize);
        }
        // Collect the victims: unvoided descendants, deepest first.
        let marks = self.descendant_marks(line_number);
        let mut list: Vec<u32> = Vec::new();
        let mut k: usize = len;
        while k >= 1
            invariant
                k <= len,
                len == self.lines.len(),
                len <= MAX_LINE_COUNT as usize,
                *self == *old(self),
                orig == old(self)@,
                tx_wf(orig),
                orig.state == TxState::Building,
                is_sale_line(orig.lines, line_number),
                !line_voided(orig.lines, line_number),
                marks@.len() == len + 1,
                forall|m: int|
                    1 <= m <= len ==> marks@[m] == (m == line_number || is_descendant(orig.lines,
                        line_number, m as u32)),
                cascade_victims(orig.lines, line_number, len as int) =~= list@.add(
                    cascade_victims(orig.lines, line_number, k as int)),
            decreases k,
        {
            proof {
                if is_descendant(orig.lines, line_number, k as u32) {
                    lemma_descendant_gt(orig.lines, line_number, k as u32);
                }
            }
            let victim = marks[k] && (k as u32) != line_number && !self.is_line_voided(k as u32);
            let ghost pre = list@;
            if victim {
                list.push(k as u32);
                proof {
                    assert(cascade_victims(orig.lines, line_number, k as int) == seq![
                        k as u32,
                    ].add(cascade_victims(orig.lines, line_number, k as int - 1)));
                    assert(pre.add(cascade_victims(orig.lines, line_number, k as int))
                        =~= list@.add(cascade_victims(orig.lines, line_number, k as int - 1)));
                }
            } else {
                proof {
                    assert(cascade_victims(orig.lines, line_number, k as int) == cascade_victims(
                        orig.lines, line_number, k as int - 1));
                }
            }
            k = k - 1;
        }
        proof {
            assert(cascade_victims(orig.lines, line_number, 0) =~= Seq::<u32>::empty());
            assert(list@ =~= cascade_victims(orig.lines, line_number, len as int));
        }
        list.push(line_number);
        proof {
            assert(list@ =~= cascade_list(orig.lines, line_number));
        }
        let nlist = list.len();
        // Standing facts about the batch.
        proof {
            lemma_victims_sorted(orig.lines, line_number, len as int);
            let victims = cascade_victims(orig.lines, line_number, len as int);
            assert forall|jj: int| 0 <= jj < list@.len() implies (1 <= #[trigger] list@[jj] <= len
                && is_sale_line(orig.lines, list@[jj]) && !line_voided(orig.lines, list@[jj])) by {
                if jj < list@.len() - 1 {
                    assert(list@[jj] == victims[jj]);
                    assert(victims.contains(victims[jj]));
                    lemma_victims_contains(orig.lines, line_number, len as int, victims[jj]);
                    lemma_descendant_sale(orig.lines, line_number, victims[jj]);
                } else {
                    assert(list@[jj] == line_number);
                }
            }
            assert forall|j1: int, j2: int| 0 <= j1 < j2 < list@.len() implies list@[j1]
                > list@[j2] by {
                if j2 < list@.len() - 1 {
                    assert(list@[j1] == victims[j1] && list@[j2] == victims[j2]);
                } else {
                    assert(list@[j2] == line_number);
                    assert(list@[j1] == victims[j1]);
                    assert(victims.contains(victims[j1]));
                    lemma_victims_contains(orig.lines, line_number, len as int, victims[j1]);
                    lemma_descendant_gt(orig.lines, line_number, victims[j1]);
                }
            }
        }
        proof {
            assert(nlist <= len + 1);
        }
        let applied = self.apply_void_list(&list, line_number, reason, timestamp_ns);
        if !applied {
            return Err(ResultCode::ValidationFailed);
        }
        proof {
            assert(list@.subrange(0, nlist as int) =~= list@);
            let fin = apply_voids(orig.lines, list@, line_number, base, timestamp_ns);
            assert(self@ == (TxV { lines: fin, last_activity_ns: timestamp_ns, ..orig }));
            let victims = cascade_victims(orig.lines, line_number, len as int);
            assert forall|m: u32|
                line_voided(self@.lines, m) <==> (line_voided(orig.lines, m) || m == line_number
                    || is_descendant(orig.lines, line_number, m)) by {
                lemma_wf_numbered(orig.lines);
                lemma_voided_after_apply(orig.lines, orig.tendered_minor, list@, line_number,
                    base, timestamp_ns, m);
                lemma_victims_contains(orig.lines, line_number, len as int, m);
                if list@.contains(m) {
                    let w = choose|w: int| 0 <= w < list@.len() && list@[w] == m;
                    if w < list@.len() - 1 {
                        assert(victims[w] == m);
                        assert(victims.contains(m));
                    } else {
                        assert(m == line_number);
                    }
                }
                if m == line_number {
                    assert(list@[list@.len() - 1] == m);
                    assert(list@.contains(m));
                }
                if is_descendant(orig.lines, line_number, m) && !line_voided(orig.lines, m) {
                    lemma_descendant_gt(orig.lines, line_number, m);
                    assert(victims.contains(m));
                    let w = choose|w: int| 0 <= w < victims.len() && victims[w] == m;
                    assert(list@[w] == m);
                    assert(list@.contains(m));
                }
            }
        }
        Ok(list)
    }

    /// Brings the effective quantity of the Sale line numbered `line_number`
    /// to `new_quantity` by appending one Adjustment entry carrying the
    /// difference at the original unit price. Equal quantities append
    /// nothing. Adjustments do not cascade.
    ///
    /// Fails `InvalidState` when the transaction is no longer building or
    /// `new_quantity` is not positive (complete removal is `void_line_item`'s
    /// job), `NotFound` when the number does not name a Sale line, and
    /// `ValidationFailed` when the line list is full or a bound would be
    /// left. On failure nothing changes.
    pub fn update_line_quantity(&mut self, line_number: u32, new_quantity: i32, timestamp_ns: u64)
        -> (r: Result<(), ResultCode>)
        requires
            tx_wf(old(self)@),
        ensures
            tx_wf(final(self)@),
            r is Ok <==> (old(self)@.state == TxState::Building && new_quantity > 0 && can_adjust(
                old(self)@, line_number, new_quantity)),
            r is Ok && new_quantity != eff_qty(old(self)@.lines, line_number) ==> final(self)@
                == with_line(old(self)@, adj_entry(old(self)@.lines, line_number, new_quantity,
                timestamp_ns), timestamp_ns),
            r is Ok && new_quantity == eff_qty(old(self)@.lines, line_number) ==> *final(self)
                == *old(self),
            r is Err ==> *final(self) == *old(self),
            r matches Err(c) ==> (c == ResultCode::InvalidState <==> (old(self)@.state
                != TxState::Building || new_quantity <= 0)),
            r matches Err(c) ==> (c == ResultCode::NotFound <==> (old(self)@.state
                == TxState::Building && new_quantity > 0 && !is_sale_line(old(self)@.lines,
                line_number))),
            r matches Err(c) ==> (c == ResultCode::InvalidState || c == ResultCode::NotFound || c
                == ResultCode::ValidationFailed),
    {
        if self.state != TxState::Building {
            return Err(ResultCode::InvalidState);
        }
        if new_quantity <= 0 {
            return Err(ResultCode::InvalidState);
        }
        if !self.is_sale_line_number(line_number) {
            return Err(ResultCode::NotFound);
        }
        let eff = self.calculate_effective_quantity_for_line(line_number);
        let delta: i128 = (new_quantity as i128) - (eff as i128);
        if delta == 0 {
            return Ok(());
        }
        if self.lines.len() >= MAX_LINE_COUNT as usize {
            return Err(ResultCode::ValidationFailed);
        }
        if delta < i32::MIN as i128 || delta > i32::MAX as i128 {
            return Err(ResultCode::ValidationFailed);
        }
        let delta32: i32 = delta as i32;
        let idx = (line_number - 1) as usize;
        proof {
            assert(line_wf_at(self@.lines, line_number - 1));
            lemma_qty_unit_bounds(delta32 as int, self@.lines[line_number - 1].unit_minor as int);
        }
        let unit = self.lines[idx].unit_minor;
        let prod: i128 = (delta32 as i128) * (unit as i128);
        if prod < i64::MIN as i128 || prod > i64::MAX as i128 {
            return Err(ResultCode::ValidationFailed);
        }
        let total = self.total_minor();
        let new_total: i128 = (total as i128) + prod;
        if new_total < i64::MIN as i128 || new_total > i64::MAX as i128 {
            return Err(ResultCode::ValidationFailed);
        }
        if (self.tendered_minor as i128) - new_total > i64::MAX as i128 {
            return Err(ResultCode::ValidationFailed);
        }
        let mut reason = String::from_str("Quantity changed from ");
        let eff_text = fmt_i64(eff);
        reason.append(eff_text.as_str());
        reason.append(" to ");
        let new_text = fmt_i64(new_quantity as i64);
        reason.append(new_text.as_str());
        let number = (self.lines.len() as u32) + 1;
        let entry = Line {
            sku: self.lines[idx].sku.clone(),
            qty: delta32,
            unit_minor: unit,
            line_number: number,
            parent_line_item_id: None,
            entry_type: EntryType::Adjustment,
            reason: Some(reason),
            references_line: Some(line_number),
            timestamp_ns,
        };
        let ghost old_v = self@;
        let ghost lv = entry@;
        self.lines.push(entry);
        self.last_activity_ns = timestamp_ns;
        proof {
            assert(self@.lines =~= old_v.lines.push(lv));
            assert(lv == adj_entry(old_v.lines, line_number, new_quantity, timestamp_ns));
            assert(self@ == with_line(old_v, lv, timestamp_ns));
            lemma_prefix_total_agree(old_v.lines, self@.lines, old_v.lines.len() as int);
            assert(line_total(lv) == prod);
            assert(line_wf_at(self@.lines, old_v.lines.len() as int));
            lemma_lines_wf_push(old_v.lines, lv);
        }
        Ok(())
    }

    /// Moves a building transaction to `Committed`, recording the sequence of
    /// its commit record.
    pub fn set_committed(&mut self, commit_sequence: u64, timestamp_ns: u64)
        requires
            tx_wf(old(self)@),
            old(self)@.state == TxState::Building,
        ensures
            tx_wf(final(self)@),
            final(self)@ == (TxV {
                state: TxState::Committed,
                wal_commit_sequence: Some(commit_sequence),
                last_activity_ns: timestamp_ns,
                ..old(self)@
            }),
    {
        self.state = TxState::Committed;
        self.wal_commit_sequence = Some(commit_sequence);
        self.last_activity_ns = timestamp_ns;
        proof {
            assert(self@.lines =~= old(self)@.lines);
            lemma_prefix_total_agree(old(self)@.lines, self@.lines, self@.lines.len() as int);
        }
    }

    /// Moves a building transaction to `Aborted`.
    pub fn set_aborted(&mut self, timestamp_ns: u64)
        requires
            tx_wf(old(self)@),
            old(self)@.state == TxState::Building,
        ensures
            tx_wf(final(self)@),
            final(self)@ == (TxV {
                state: TxState::Aborted,
                last_activity_ns: timestamp_ns,
                ..old(self)@
            }),
    {
        self.state = TxState::Aborted;
        self.last_activity_ns = timestamp_ns;
        proof {
            assert(self@.lines =~= old(self)@.lines);
            lemma_prefix_total_agree(old(self)@.lines, self@.lines, self@.lines.len() as int);
        }
    }

    /// Moves a building transaction to `TimedOut`.
    pub fn set_timed_out(&mut self, timestamp_ns: u64)
        requires
            tx_wf(old(self)@),
            old(self)@.state == TxState::Building,
        ensures
            tx_wf(final(self)@),
            final(self)@ == (TxV {
                state: TxState::TimedOut,
                last_activity_ns: timestamp_ns,
                ..old(self)@
            }),
    {
        self.state = TxState::TimedOut;
        self.last_activity_ns = timestamp_ns;
        proof {
            assert(self@.lines =~= old(self)@.lines);
            lemma_prefix_total_agree(old(self)@.lines, self@.lines, self@.lines.len() as int);
        }
    }
}

} // verus!
