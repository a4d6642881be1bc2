//! Line-oriented text for log records: sequence, timestamp, handle, operation
//! discriminator, escaped payload, checksum, newline — all comma-separated.
//!
//! Commas inside payload fields are escaped to semicolons and newlines to
//! `\n`, so the comma-and-newline framing stays unambiguous; the escaping is
//! deliberately one-way, as the checksum — a 32-bit rolling sum of the
//! payload bytes — exists to catch truncation and corruption, not to carry
//! arbitrary content losslessly. A decoded record re-encodes to exactly the
//! line it was read from.

use vstd::prelude::*;
use vstd::string::*;
use vstd::utf8::encode_utf8;

use crate::numfmt::{
    all_digits, dec_chars, dec_chars_int, dec_val, fmt_i64, fmt_u64, is_digit,
    lemma_dec_chars_digits, lemma_dec_val_of_dec_chars, parse_i64, parse_u64,
};
use crate::store::WAL_MAX_RECORDS;
use crate::strutil::{push_char, str_eq};
use crate::wal::{WalOp, WalOpV, WalRecord, WalRecordV};

verus! {

/// What one character escapes to inside a payload field.
pub open spec fn esc_char(c: char) -> Seq<char> {
    if c == ',' {
        seq![';']
    } else if c == '\n' {
        seq!['\\', 'n']
    } else {
        seq![c]
    }
}

/// A payload field escaped character by character.
pub open spec fn esc(s: Seq<char>) -> Seq<char>
    decreases s.len(),
{
    if s.len() == 0 {
        Seq::empty()
    } else {
        esc(s.drop_last()).add(esc_char(s.last()))
    }
}

/// Escapes one payload field.
pub fn escape(s: &str) -> (r: String)
    ensures
        r@ == esc(s@),
{
    let n = s.unicode_len();
    let mut out = String::new();
    let mut i: usize = 0;
    while i < n
        invariant
            i <= n,
            n == s@.len(),
            out@ == esc(s@.subrange(0, i as int)),
        decreases n - i,
    {
        let c = s.get_char(i);
        if c == ',' {
            push_char(&mut out, ';');
        } else if c == '\n' {
            push_char(&mut out, '\\');
            push_char(&mut out, 'n');
        } else {
            push_char(&mut out, c);
        }
        i = i + 1;
        proof {
            assert(s@.subrange(0, i as int).drop_last() =~= s@.subrange(0, i - 1));
            assert(out@ =~= esc(s@.subrange(0, i - 1)).add(esc_char(s@[i - 1])));
        }
    }
    proof {
        assert(s@.subrange(0, n as int) =~= s@);
    }
    out
}

/// Voided line numbers joined by single spaces.
pub open spec fn nums_chars(ns: Seq<u32>) -> Seq<char>
    decreases ns.len(),
{
    if ns.len() == 0 {
        Seq::empty()
    } else if ns.len() == 1 {
        dec_chars(ns[0] as nat)
    } else {
        nums_chars(ns.drop_last()).add(seq![' ']).add(dec_chars(ns.last() as nat))
    }
}

/// Formats a list of line numbers as space-separated decimal text.
pub fn fmt_nums(ns: &Vec<u32>) -> (r: String)
    ensures
        r@ == nums_chars(ns@),
{
    let n = ns.len();
    let mut out = String::new();
    let mut i: usize = 0;
    while i < n
        invariant
            i <= n,
            n == ns@.len(),
            out@ == nums_chars(ns@.subrange(0, i as int)),
        decreases n - i,
    {
        if i > 0 {
            push_char(&mut out, ' ');
        }
        let digits = fmt_u64(ns[i] as u64);
        out.append(digits.as_str());
        i = i + 1;
        proof {
            assert(ns@.subrange(0, i as int).drop_last() =~= ns@.subrange(0, i - 1));
            assert(ns@.subrange(0, i as int).last() == ns@[i - 1]);
            if i == 1 {
                assert(out@ =~= nums_chars(ns@.subrange(0, 1)));
            } else {
                assert(out@ =~= nums_chars(ns@.subrange(0, i - 1)).add(seq![' ']).add(
                    dec_chars(ns@[i - 1] as nat),
                ));
            }
        }
    }
    proof {
        assert(ns@.subrange(0, n as int) =~= ns@);
    }
    out
}

/// The operation discriminator written on a record line.
pub open spec fn op_name(op: WalOpV) -> Seq<char> {
    match op {
        WalOpV::TransactionBegin { .. } => "BEGIN"@,
        WalOpV::LineAdd { .. } => "LINE_ADD"@,
        WalOpV::LineAddWithParent { .. } => "LINE_ADD_PARENT"@,
        WalOpV::LineVoid { .. } => "LINE_VOID"@,
        WalOpV::LineAdjust { .. } => "LINE_ADJUST"@,
        WalOpV::TenderAdd { .. } => "TENDER_ADD"@,
        WalOpV::TransactionCommit => "COMMIT"@,
        WalOpV::TransactionAbort { .. } => "ABORT"@,
        WalOpV::TransactionTimeout => "TIMEOUT"@,
        WalOpV::SystemConfigChange { .. } => "CONFIG"@,
    }
}

/// The escaped payload of a record: the operation's fields, each escaped,
/// joined by commas.
pub open spec fn payload_chars(op: WalOpV) -> Seq<char> {
    match op {
        WalOpV::TransactionBegin { store, currency_code, decimal_places } => esc(store).add(
            seq![','],
        ).add(esc(currency_code)).add(seq![',']).add(dec_chars(decimal_places as nat)),
        WalOpV::LineAdd { sku, qty, unit_minor } => esc(sku).add(seq![',']).add(
            dec_chars_int(qty as int),
        ).add(seq![',']).add(dec_chars_int(unit_minor as int)),
        WalOpV::LineAddWithParent { sku, qty, unit_minor, parent_line } => esc(sku).add(
            seq![','],
        ).add(dec_chars_int(qty as int)).add(seq![',']).add(dec_chars_int(unit_minor as int)).add(
            seq![','],
        ).add(dec_chars(parent_line as nat)),
        WalOpV::LineVoid { line_number, reason, voided } => dec_chars(line_number as nat).add(
            seq![','],
        ).add(esc(reason)).add(seq![',']).add(nums_chars(voided)),
        WalOpV::LineAdjust { line_number, new_quantity } => dec_chars(line_number as nat).add(
            seq![','],
        ).add(dec_chars_int(new_quantity as int)),
        WalOpV::TenderAdd { amount_minor } => dec_chars_int(amount_minor as int),
        WalOpV::TransactionCommit => Seq::empty(),
        WalOpV::TransactionAbort { reason } => esc(reason),
        WalOpV::TransactionTimeout => Seq::empty(),
        WalOpV::SystemConfigChange { note } => esc(note),
    }
}

/// The 32-bit rolling sum of the payload bytes.
pub open spec fn checksum_spec(bytes: Seq<u8>) -> int
    decreases bytes.len(),
{
    if bytes.len() == 0 {
        0
    } else {
        (checksum_spec(bytes.drop_last()) + bytes.last()) % 0x1_0000_0000
    }
}

/// Computes the rolling checksum of a payload.
pub fn checksum_of(payload: &str) -> (c: u32)
    ensures
        c as int == checksum_spec(encode_utf8(payload@)),
{
    let bytes = payload.as_bytes_vec();
    let n = bytes.len();
    let mut acc: u32 = 0;
    let mut i: usize = 0;
    while i < n
        invariant
            i <= n,
            n == bytes@.len(),
            bytes@ == encode_utf8(payload@),
            acc as int == checksum_spec(bytes@.subrange(0, i as int)),
        decreases n - i,
    {
        acc = acc.wrapping_add(bytes[i] as u32);
        i = i + 1;
        proof {
            assert(bytes@.subrange(0, i as int).drop_last() =~= bytes@.subrange(0, i - 1));
            assert(bytes@.subrange(0, i as int).last() == bytes@[i - 1]);
        }
    }
    proof {
        assert(bytes@.subrange(0, n as int) =~= bytes@);
    }
    acc
}

/// The full text of one record line, trailing newline included.
pub open spec fn encode_spec(r: WalRecordV) -> Seq<char> {
    let payload = payload_chars(r.op);
    dec_chars(r.sequence as nat).add(seq![',']).add(dec_chars(r.timestamp_ns as nat)).add(
        seq![','],
    ).add(dec_chars(r.handle as nat)).add(seq![',']).add(op_name(r.op)).add(seq![',']).add(
        payload,
    ).add(seq![',']).add(dec_chars(checksum_spec(encode_utf8(payload)) as nat)).add(seq!['\n'])
}

/// Encodes one record as one text line.
pub fn encode_record(rec: &WalRecord) -> (line: String)
    ensures
        line@ == encode_spec(rec@),
{
    let mut payload = String::new();
    let name: &str = match &rec.op {
        WalOp::TransactionBegin { store, currency_code, decimal_places } => {
            let e1 = escape(store.as_str());
            payload.append(e1.as_str());
            push_char(&mut payload, ',');
            let e2 = escape(currency_code.as_str());
            payload.append(e2.as_str());
            push_char(&mut payload, ',');
            let d = fmt_u64(*decimal_places as u64);
            payload.append(d.as_str());
            "BEGIN"
        },
        WalOp::LineAdd { sku, qty, unit_minor } => {
            let e1 = escape(sku.as_str());
            payload.append(e1.as_str());
            push_char(&mut payload, ',');
            let q = fmt_i64(*qty as i64);
            payload.append(q.as_str());
            push_char(&mut payload, ',');
            let u = fmt_i64(*unit_minor);
            payload.append(u.as_str());
            "LINE_ADD"
        },
        WalOp::LineAddWithParent { sku, qty, unit_minor, parent_line } => {
            let e1 = escape(sku.as_str());
            payload.append(e1.as_str());
            push_char(&mut payload, ',');
            let q = fmt_i64(*qty as i64);
            payload.append(q.as_str());
            push_char(&mut payload, ',');
            let u = fmt_i64(*unit_minor);
            payload.append(u.as_str());
            push_char(&mut payload, ',');
            let p = fmt_u64(*parent_line as u64);
            payload.append(p.as_str());
            "LINE_ADD_PARENT"
        },
        WalOp::LineVoid { line_number, reason, voided } => {
            let l = fmt_u64(*line_number as u64);
            payload.append(l.as_str());
            push_char(&mut payload, ',');
            let e1 = escape(reason.as_str());
            payload.append(e1.as_str());
            push_char(&mut payload, ',');
            let v = fmt_nums(voided);
            payload.append(v.as_str());
            "LINE_VOID"
        },
        WalOp::LineAdjust { line_number, new_quantity } => {
            let l = fmt_u64(*line_number as u64);
            payload.append(l.as_str());
            push_char(&mut payload, ',');
            let q = fmt_i64(*new_quantity as i64);
            payload.append(q.as_str());
            "LINE_ADJUST"
        },
        WalOp::TenderAdd { amount_minor } => {
            let a = fmt_i64(*amount_minor);
            payload.append(a.as_str());
            "TENDER_ADD"
        },
        WalOp::TransactionCommit => "COMMIT",
        WalOp::TransactionAbort { reason } => {
            let e1 = escape(reason.as_str());
            payload.append(e1.as_str());
            "ABORT"
        },
        WalOp::TransactionTimeout => "TIMEOUT",
        WalOp::SystemConfigChange { note } => {
            let e1 = escape(note.as_str());
            payload.append(e1.as_str());
            "CONFIG"
        },
    };
    proof {
        assert(payload@ =~= payload_chars(rec@.op));
        assert(name@ == op_name(rec@.op));
    }
    let checksum = checksum_of(payload.as_str());
    let mut line = fmt_u64(rec.sequence);
    push_char(&mut line, ',');
    let ts = fmt_u64(rec.timestamp_ns);
    line.append(ts.as_str());
    push_char(&mut line, ',');
    let h = fmt_u64(rec.handle);
    line.append(h.as_str());
    push_char(&mut line, ',');
    line.append(name);
    push_char(&mut line, ',');
    line.append(payload.as_str());
    push_char(&mut line, ',');
    let ck = fmt_u64(checksum as u64);
    line.append(ck.as_str());
    push_char(&mut line, '\n');
    proof {
        assert(line@ =~= encode_spec(rec@));
    }
    line
}

/// Pieces joined by a separator character.
pub open spec fn join_sep(ps: Seq<Seq<char>>, sep: char) -> Seq<char>
    decreases ps.len(),
{
    if ps.len() == 0 {
        Seq::empty()
    } else if ps.len() == 1 {
        ps[0]
    } else {
        ps[0].add(seq![sep]).add(join_sep(ps.drop_first(), sep))
    }
}

/// Whether `s` never holds the separator.
pub open spec fn sep_free(s: Seq<char>, sep: char) -> bool {
    forall|i: int| 0 <= i < s.len() ==> s[i] != sep
}

/// Whether no piece holds the separator.
pub open spec fn all_sep_free(ps: Seq<Seq<char>>, sep: char) -> bool {
    forall|k: int| 0 <= k < ps.len() ==> sep_free(#[trigger] ps[k], sep)
}

/// Appending one more piece appends one separator and the piece.
pub proof fn lemma_join_snoc(ps: Seq<Seq<char>>, x: Seq<char>, sep: char)
    requires
        ps.len() >= 1,
    ensures
        join_sep(ps.push(x), sep) == join_sep(ps, sep).add(seq![sep]).add(x),
    decreases ps.len(),
{
    if ps.len() == 1 {
        assert(ps.push(x).drop_first() =~= seq![x]);
        assert(join_sep(seq![x], sep) == x);
        assert(join_sep(ps.push(x), sep) == ps.push(x)[0].add(seq![sep]).add(
            join_sep(ps.push(x).drop_first(), sep),
        ));
        assert(ps.push(x)[0] == ps[0]);
        assert(join_sep(ps, sep).add(seq![sep]).add(x) =~= ps[0].add(seq![sep]).add(x));
    } else {
        assert(ps.push(x).drop_first() =~= ps.drop_first().push(x));
        lemma_join_snoc(ps.drop_first(), x, sep);
        assert(join_sep(ps.push(x), sep) =~= join_sep(ps, sep).add(seq![sep]).add(x));
    }
}

/// Joining two piece lists joins their joins around one separator.
pub proof fn lemma_join_concat(a: Seq<Seq<char>>, b: Seq<Seq<char>>, sep: char)
    requires
        a.len() >= 1,
        b.len() >= 1,
    ensures
        join_sep(a.add(b), sep) == join_sep(a, sep).add(seq![sep]).add(join_sep(b, sep)),
    decreases a.len(),
{
    if a.len() == 1 {
        if b.len() == 1 {
            assert(a.add(b).drop_first() =~= b);
            assert(join_sep(a.add(b), sep) =~= a[0].add(seq![sep]).add(join_sep(b, sep)));
        } else {
            assert(a.add(b).drop_first() =~= b);
            assert(join_sep(a.add(b), sep) =~= a[0].add(seq![sep]).add(join_sep(b, sep)));
        }
    } else {
        assert(a.add(b).drop_first() =~= a.drop_first().add(b));
        lemma_join_concat(a.drop_first(), b, sep);
        assert(join_sep(a.add(b), sep) =~= join_sep(a, sep).add(seq![sep]).add(join_sep(b, sep)));
    }
}

/// Separator-free pieces make the join unambiguous: equal joins mean equal
/// piece lists.
pub proof fn lemma_join_inj(xs: Seq<Seq<char>>, ys: Seq<Seq<char>>, sep: char)
    requires
        xs.len() >= 1,
        ys.len() >= 1,
        all_sep_free(xs, sep),
        all_sep_free(ys, sep),
        join_sep(xs, sep) == join_sep(ys, sep),
    ensures
        xs == ys,
    decreases xs.len(),
{
    let s = join_sep(xs, sep);
    if xs.len() == 1 && ys.len() == 1 {
        assert(xs[0] == s && ys[0] == s);
        assert(xs =~= ys);
    } else if xs.len() == 1 {
        assert(sep_free(xs[0], sep));
        assert(sep_free(ys[0], sep));
        assert(s == ys[0].add(seq![sep]).add(join_sep(ys.drop_first(), sep)));
        assert(s[ys[0].len() as int] == sep);
        assert(xs[0][ys[0].len() as int] == sep);
        assert(false);
    } else if ys.len() == 1 {
        assert(sep_free(ys[0], sep));
        assert(s == xs[0].add(seq![sep]).add(join_sep(xs.drop_first(), sep)));
        assert(s[xs[0].len() as int] == sep);
        assert(ys[0][xs[0].len() as int] == sep);
        assert(false);
    } else {
        assert(s == xs[0].add(seq![sep]).add(join_sep(xs.drop_first(), sep)));
        assert(s == ys[0].add(seq![sep]).add(join_sep(ys.drop_first(), sep)));
        assert(sep_free(xs[0], sep));
        assert(sep_free(ys[0], sep));
        if xs[0].len() < ys[0].len() {
            assert(s[xs[0].len() as int] == sep);
            assert(s[xs[0].len() as int] == ys[0][xs[0].len() as int]);
            assert(false);
        }
        if ys[0].len() < xs[0].len() {
            assert(s[ys[0].len() as int] == sep);
            assert(s[ys[0].len() as int] == xs[0][ys[0].len() as int]);
            assert(false);
        }
        assert(xs[0].len() == ys[0].len());
        assert forall|i: int| 0 <= i < xs[0].len() implies xs[0][i] == ys[0][i] by {
            assert(s[i] == xs[0].add(seq![sep])[i]);
            assert(s[i] == ys[0].add(seq![sep])[i]);
        }
        assert(xs[0] =~= ys[0]);
        assert(join_sep(xs.drop_first(), sep) =~= s.subrange(xs[0].len() as int + 1, s.len() as int));
        assert(join_sep(ys.drop_first(), sep) =~= s.subrange(ys[0].len() as int + 1, s.len() as int));
        lemma_join_inj(xs.drop_first(), ys.drop_first(), sep);
        assert(xs =~= ys) by {
            assert(forall|k: int|
                1 <= k < xs.len() ==> #[trigger] xs[k] == xs.drop_first()[k - 1] && ys[k]
                    == ys.drop_first()[k - 1]);
        }
    }
}

/// Digit strings hold no separators: a digit is no comma, newline or space.
pub proof fn lemma_digits_sep_free(s: Seq<char>, sep: char)
    requires
        forall|i: int| 0 <= i < s.len() ==> is_digit(#[trigger] s[i]),
        !is_digit(sep),
    ensures
        sep_free(s, sep),
{
}

/// Signed decimal text holds no comma, newline or space.
pub proof fn lemma_dec_int_sep_free(n: int, sep: char)
    requires
        !is_digit(sep),
        sep != '-',
    ensures
        sep_free(dec_chars_int(n), sep),
{
    if n < 0 {
        lemma_dec_chars_digits((-n) as nat);
        assert forall|i: int| 0 <= i < dec_chars_int(n).len() implies dec_chars_int(n)[i]
            != sep by {
            if i > 0 {
                assert(dec_chars_int(n)[i] == dec_chars((-n) as nat)[i - 1]);
                assert(is_digit(dec_chars((-n) as nat)[i - 1]));
            }
        }
    } else {
        lemma_dec_chars_digits(n as nat);
        lemma_digits_sep_free(dec_chars(n as nat), sep);
    }
}

/// Escaped text holds neither commas nor newlines.
pub proof fn lemma_esc_free(s: Seq<char>)
    ensures
        sep_free(esc(s), ','),
        sep_free(esc(s), '\n'),
    decreases s.len(),
{
    if s.len() > 0 {
        lemma_esc_free(s.drop_last());
        assert forall|i: int| 0 <= i < esc(s).len() implies esc(s)[i] != ',' && esc(s)[i]
            != '\n' by {
            if i < esc(s.drop_last()).len() {
                assert(esc(s)[i] == esc(s.drop_last())[i]);
            } else {
                assert(esc(s)[i] == esc_char(s.last())[i - esc(s.drop_last()).len()]);
            }
        }
    }
}

/// Escaping is the identity on text that is already comma- and newline-free,
/// so escaping is idempotent.
pub proof fn lemma_esc_clean_identity(s: Seq<char>)
    requires
        sep_free(s, ','),
        sep_free(s, '\n'),
    ensures
        esc(s) == s,
    decreases s.len(),
{
    if s.len() > 0 {
        assert(sep_free(s.drop_last(), ','));
        assert(sep_free(s.drop_last(), '\n'));
        lemma_esc_clean_identity(s.drop_last());
        assert(esc_char(s.last()) =~= seq![s.last()]);
        assert(esc(s) =~= s.drop_last().push(s.last()));
        assert(s.drop_last().push(s.last()) =~= s);
    }
}

/// Space-joined line numbers hold neither commas nor newlines.
pub proof fn lemma_nums_sep_free(ns: Seq<u32>, sep: char)
    requires
        !is_digit(sep),
        sep != ' ',
    ensures
        sep_free(nums_chars(ns), sep),
    decreases ns.len(),
{
    if ns.len() == 1 {
        lemma_dec_chars_digits(ns[0] as nat);
        lemma_digits_sep_free(dec_chars(ns[0] as nat), sep);
    } else if ns.len() > 1 {
        lemma_nums_sep_free(ns.drop_last(), sep);
        lemma_dec_chars_digits(ns.last() as nat);
        let pre = nums_chars(ns.drop_last());
        assert forall|i: int| 0 <= i < nums_chars(ns).len() implies nums_chars(ns)[i] != sep by {
            if i < pre.len() {
                assert(nums_chars(ns)[i] == pre[i]);
            } else if i == pre.len() {
                assert(nums_chars(ns)[i] == ' ');
            } else {
                assert(nums_chars(ns)[i] == dec_chars(ns.last() as nat)[i - pre.len() - 1]);
                assert(is_digit(dec_chars(ns.last() as nat)[i - pre.len() - 1]));
            }
        }
    }
}

/// Joining separator-free pieces with one separator introduces no other.
pub proof fn lemma_join_keeps_free(ps: Seq<Seq<char>>, sep: char, other: char)
    requires
        sep != other,
        forall|k: int| 0 <= k < ps.len() ==> sep_free(#[trigger] ps[k], other),
    ensures
        sep_free(join_sep(ps, sep), other),
    decreases ps.len(),
{
    if ps.len() > 1 {
        assert(forall|k: int|
            0 <= k < ps.drop_first().len() ==> sep_free(#[trigger] ps.drop_first()[k], other));
        lemma_join_keeps_free(ps.drop_first(), sep, other);
        let rest = join_sep(ps.drop_first(), sep);
        assert forall|i: int| 0 <= i < join_sep(ps, sep).len() implies join_sep(ps, sep)[i]
            != other by {
            assert(sep_free(ps[0], other));
            if i < ps[0].len() {
                assert(join_sep(ps, sep)[i] == ps[0][i]);
            } else if i == ps[0].len() {
                assert(join_sep(ps, sep)[i] == sep);
            } else {
                assert(join_sep(ps, sep)[i] == rest[i - ps[0].len() - 1]);
            }
        }
    } else if ps.len() == 1 {
        assert(sep_free(ps[0], other));
    }
}

/// Two pieces joined.
pub proof fn lemma_join2(a: Seq<char>, b: Seq<char>, sep: char)
    ensures
        join_sep(seq![a, b], sep) == a.add(seq![sep]).add(b),
{
    assert(seq![a, b].drop_first() =~= seq![b]);
    assert(join_sep(seq![b], sep) == b);
}

/// Three pieces joined.
pub proof fn lemma_join3(a: Seq<char>, b: Seq<char>, c: Seq<char>, sep: char)
    ensures
        join_sep(seq![a, b, c], sep) == a.add(seq![sep]).add(b).add(seq![sep]).add(c),
{
    assert(seq![a, b, c].drop_first() =~= seq![b, c]);
    lemma_join2(b, c, sep);
    assert(join_sep(seq![a, b, c], sep) =~= a.add(seq![sep]).add(b).add(seq![sep]).add(c));
}

/// Four pieces joined.
pub proof fn lemma_join4(a: Seq<char>, b: Seq<char>, c: Seq<char>, d: Seq<char>, sep: char)
    ensures
        join_sep(seq![a, b, c, d], sep) == a.add(seq![sep]).add(b).add(seq![sep]).add(c).add(
            seq![sep],
        ).add(d),
{
    assert(seq![a, b, c, d].drop_first() =~= seq![b, c, d]);
    lemma_join3(b, c, d, sep);
    assert(join_sep(seq![a, b, c, d], sep) =~= a.add(seq![sep]).add(b).add(seq![sep]).add(c).add(
        seq![sep],
    ).add(d));
}

/// The payload fields of a record, before joining.
pub open spec fn payload_fields(op: WalOpV) -> Seq<Seq<char>> {
    match op {
        WalOpV::TransactionBegin { store, currency_code, decimal_places } => seq![
            esc(store),
            esc(currency_code),
            dec_chars(decimal_places as nat),
        ],
        WalOpV::LineAdd { sku, qty, unit_minor } => seq![
            esc(sku),
            dec_chars_int(qty as int),
            dec_chars_int(unit_minor as int),
        ],
        WalOpV::LineAddWithParent { sku, qty, unit_minor, parent_line } => seq![
            esc(sku),
            dec_chars_int(qty as int),
            dec_chars_int(unit_minor as int),
            dec_chars(parent_line as nat),
        ],
        WalOpV::LineVoid { line_number, reason, voided } => seq![
            dec_chars(line_number as nat),
            esc(reason),
            nums_chars(voided),
        ],
        WalOpV::LineAdjust { line_number, new_quantity } => seq![
            dec_chars(line_number as nat),
            dec_chars_int(new_quantity as int),
        ],
        WalOpV::TenderAdd { amount_minor } => seq![dec_chars_int(amount_minor as int)],
        WalOpV::TransactionCommit => seq![Seq::empty()],
        WalOpV::TransactionAbort { reason } => seq![esc(reason)],
        WalOpV::TransactionTimeout => seq![Seq::empty()],
        WalOpV::SystemConfigChange { note } => seq![esc(note)],
    }
}

/// The payload is its fields joined by commas, and every field is comma- and
/// newline-free.
pub proof fn lemma_payload_join(op: WalOpV)
    ensures
        payload_chars(op) == join_sep(payload_fields(op), ','),
        1 <= payload_fields(op).len() <= 4,
        all_sep_free(payload_fields(op), ','),
        all_sep_free(payload_fields(op), '\n'),
{
    match op {
        WalOpV::TransactionBegin { store, currency_code, decimal_places } => {
            lemma_esc_free(store);
            lemma_esc_free(currency_code);
            lemma_dec_chars_digits(decimal_places as nat);
            lemma_digits_sep_free(dec_chars(decimal_places as nat), ',');
            lemma_digits_sep_free(dec_chars(decimal_places as nat), '\n');
            lemma_join3(esc(store), esc(currency_code), dec_chars(decimal_places as nat), ',');
        },
        WalOpV::LineAdd { sku, qty, unit_minor } => {
            lemma_esc_free(sku);
            lemma_dec_int_sep_free(qty as int, ',');
            lemma_dec_int_sep_free(qty as int, '\n');
            lemma_dec_int_sep_free(unit_minor as int, ',');
            lemma_dec_int_sep_free(unit_minor as int, '\n');
            lemma_join3(esc(sku), dec_chars_int(qty as int), dec_chars_int(unit_minor as int),
                ',');
        },
        WalOpV::LineAddWithParent { sku, qty, unit_minor, parent_line } => {
            lemma_esc_free(sku);
            lemma_dec_int_sep_free(qty as int, ',');
            lemma_dec_int_sep_free(qty as int, '\n');
            lemma_dec_int_sep_free(unit_minor as int, ',');
            lemma_dec_int_sep_free(unit_minor as int, '\n');
            lemma_dec_chars_digits(parent_line as nat);
            lemma_digits_sep_free(dec_chars(parent_line as nat), ',');
            lemma_digits_sep_free(dec_chars(parent_line as nat), '\n');
            lemma_join4(esc(sku), dec_chars_int(qty as int), dec_chars_int(unit_minor as int),
                dec_chars(parent_line as nat), ',');
        },
        WalOpV::LineVoid { line_number, reason, voided } => {
            lemma_dec_chars_digits(line_number as nat);
            lemma_digits_sep_free(dec_chars(line_number as nat), ',');
            lemma_digits_sep_free(dec_chars(line_number as nat), '\n');
            lemma_esc_free(reason);
            lemma_nums_sep_free(voided, ',');
            lemma_nums_sep_free(voided, '\n');
            lemma_join3(dec_chars(line_number as nat), esc(reason), nums_chars(voided), ',');
        },
        WalOpV::LineAdjust { line_number, new_quantity } => {
            lemma_dec_chars_digits(line_number as nat);
            lemma_digits_sep_free(dec_chars(line_number as nat), ',');
            lemma_digits_sep_free(dec_chars(line_number as nat), '\n');
            lemma_dec_int_sep_free(new_quantity as int, ',');
            lemma_dec_int_sep_free(new_quantity as int, '\n');
            lemma_join2(dec_chars(line_number as nat), dec_chars_int(new_quantity as int), ',');
        },
        WalOpV::TenderAdd { amount_minor } => {
            lemma_dec_int_sep_free(amount_minor as int, ',');
            lemma_dec_int_sep_free(amount_minor as int, '\n');
        },
        WalOpV::TransactionCommit => {},
        WalOpV::TransactionAbort { reason } => {
            lemma_esc_free(reason);
        },
        WalOpV::TransactionTimeout => {},
        WalOpV::SystemConfigChange { note } => {
            lemma_esc_free(note);
        },
    }
}

/// Operation discriminators are comma- and newline-free and nonempty.
pub proof fn lemma_op_name_free(op: WalOpV)
    ensures
        sep_free(op_name(op), ','),
        sep_free(op_name(op), '\n'),
        op_name(op).len() >= 5,
{
    reveal_strlit("BEGIN");
    reveal_strlit("LINE_ADD");
    reveal_strlit("LINE_ADD_PARENT");
    reveal_strlit("LINE_VOID");
    reveal_strlit("LINE_ADJUST");
    reveal_strlit("TENDER_ADD");
    reveal_strlit("COMMIT");
    reveal_strlit("ABORT");
    reveal_strlit("TIMEOUT");
    reveal_strlit("CONFIG");
}

/// The discriminator pins the operation kind: no two kinds share a name.
pub proof fn lemma_op_name_determines(op: WalOpV)
    ensures
        op_name(op) == "BEGIN"@ ==> op is TransactionBegin,
        op_name(op) == "LINE_ADD"@ ==> op is LineAdd,
        op_name(op) == "LINE_ADD_PARENT"@ ==> op is LineAddWithParent,
        op_name(op) == "LINE_VOID"@ ==> op is LineVoid,
        op_name(op) == "LINE_ADJUST"@ ==> op is LineAdjust,
        op_name(op) == "TENDER_ADD"@ ==> op is TenderAdd,
        op_name(op) == "COMMIT"@ ==> op is TransactionCommit,
        op_name(op) == "ABORT"@ ==> op is TransactionAbort,
        op_name(op) == "TIMEOUT"@ ==> op is TransactionTimeout,
        op_name(op) == "CONFIG"@ ==> op is SystemConfigChange,
{
    reveal_strlit("BEGIN");
    reveal_strlit("LINE_ADD");
    reveal_strlit("LINE_ADD_PARENT");
    reveal_strlit("LINE_VOID");
    reveal_strlit("LINE_ADJUST");
    reveal_strlit("TENDER_ADD");
    reveal_strlit("COMMIT");
    reveal_strlit("ABORT");
    reveal_strlit("TIMEOUT");
    reveal_strlit("CONFIG");
    assert("BEGIN"@.len() == 5);
    assert("LINE_ADD"@.len() == 8);
    assert("LINE_ADD_PARENT"@.len() == 15);
    assert("LINE_VOID"@.len() == 9);
    assert("LINE_ADJUST"@.len() == 11);
    assert("TENDER_ADD"@.len() == 10);
    assert("COMMIT"@.len() == 6);
    assert("ABORT"@.len() == 5);
    assert("TIMEOUT"@.len() == 7);
    assert("CONFIG"@.len() == 6);
    match op {
        WalOpV::TransactionBegin { .. } => {
            assert("BEGIN"@ != "ABORT"@) by {
                assert("BEGIN"@[0] != "ABORT"@[0]);
            }
        },
        WalOpV::TransactionAbort { .. } => {
            assert("ABORT"@ != "BEGIN"@) by {
                assert("ABORT"@[0] != "BEGIN"@[0]);
            }
        },
        WalOpV::TransactionCommit => {
            assert("COMMIT"@ != "CONFIG"@) by {
                assert("COMMIT"@[2] != "CONFIG"@[2]);
            }
        },
        WalOpV::SystemConfigChange { .. } => {
            assert("CONFIG"@ != "COMMIT"@) by {
                assert("CONFIG"@[2] != "COMMIT"@[2]);
            }
        },
        _ => {},
    }
}

/// The comma-separated pieces of one record line: the three header numbers,
/// the discriminator, the payload fields, and the checksum.
pub open spec fn record_pieces(r: WalRecordV) -> Seq<Seq<char>> {
    seq![
        dec_chars(r.sequence as nat),
        dec_chars(r.timestamp_ns as nat),
        dec_chars(r.handle as nat),
        op_name(r.op),
    ].add(payload_fields(r.op)).add(
        seq![dec_chars(checksum_spec(encode_utf8(payload_chars(r.op))) as nat)],
    )
}

/// A record line is its pieces joined by commas, then the newline; the
/// pieces themselves are comma-free, and the whole body newline-free.
pub proof fn lemma_encode_join(r: WalRecordV)
    ensures
        encode_spec(r) == join_sep(record_pieces(r), ',').push('\n'),
        6 <= record_pieces(r).len() <= 9,
        all_sep_free(record_pieces(r), ','),
        sep_free(join_sep(record_pieces(r), ','), '\n'),
    {
    let d1 = dec_chars(r.sequence as nat);
    let d2 = dec_chars(r.timestamp_ns as nat);
    let d3 = dec_chars(r.handle as nat);
    let nm = op_name(r.op);
    let ck = dec_chars(checksum_spec(encode_utf8(payload_chars(r.op))) as nat);
    let head = seq![d1, d2, d3, nm];
    let fields = payload_fields(r.op);
    lemma_dec_chars_digits(r.sequence as nat);
    lemma_dec_chars_digits(r.timestamp_ns as nat);
    lemma_dec_chars_digits(r.handle as nat);
    lemma_dec_chars_digits(checksum_spec(encode_utf8(payload_chars(r.op))) as nat);
    lemma_digits_sep_free(d1, ',');
    lemma_digits_sep_free(d2, ',');
    lemma_digits_sep_free(d3, ',');
    lemma_digits_sep_free(ck, ',');
    lemma_digits_sep_free(d1, '\n');
    lemma_digits_sep_free(d2, '\n');
    lemma_digits_sep_free(d3, '\n');
    lemma_digits_sep_free(ck, '\n');
    lemma_op_name_free(r.op);
    lemma_payload_join(r.op);
    lemma_join4(d1, d2, d3, nm, ',');
    lemma_join_concat(head, fields, ',');
    let hf = head.add(fields);
    lemma_join_snoc(hf, ck, ',');
    assert(record_pieces(r) =~= hf.push(ck));
    assert(join_sep(record_pieces(r), ',') == join_sep(hf, ',').add(seq![',']).add(ck));
    assert(join_sep(hf, ',') == join_sep(head, ',').add(seq![',']).add(payload_chars(r.op)));
    assert(encode_spec(r) =~= join_sep(record_pieces(r), ',').push('\n'));
    assert(all_sep_free(record_pieces(r), ',')) by {
        assert forall|k: int| 0 <= k < record_pieces(r).len() implies sep_free(
            #[trigger] record_pieces(r)[k],
            ',',
        ) by {
            if 4 <= k < 4 + fields.len() {
                assert(record_pieces(r)[k] == fields[k - 4]);
            }
        }
    }
    assert(sep_free(join_sep(record_pieces(r), ','), '\n')) by {
        assert forall|k: int| 0 <= k < record_pieces(r).len() implies sep_free(
            #[trigger] record_pieces(r)[k],
            '\n',
        ) by {
            if 4 <= k < 4 + fields.len() {
                assert(record_pieces(r)[k] == fields[k - 4]);
            }
        }
        lemma_join_keeps_free(record_pieces(r), ',', '\n');
    }
}

/// The piece views of a string list.
pub open spec fn strings_view(v: Seq<String>) -> Seq<Seq<char>> {
    Seq::new(v.len(), |i: int| v[i]@)
}

/// Splits a string at every occurrence of `sep`; the separators themselves
/// are dropped, and joining the separator-free parts back recovers the input
/// exactly.
pub(crate) fn split_at_sep(s: &str, sep: char) -> (parts: Vec<String>)
    ensures
        parts@.len() >= 1,
        join_sep(strings_view(parts@), sep) == s@,
        all_sep_free(strings_view(parts@), sep),
{
    let n = s.unicode_len();
    let mut parts: Vec<String> = Vec::new();
    let mut cur = String::new();
    let mut i: usize = 0;
    while i < n
        invariant
            i <= n,
            n == s@.len(),
            join_sep(strings_view(parts@).push(cur@), sep) == s@.subrange(0, i as int),
            all_sep_free(strings_view(parts@).push(cur@), sep),
        decreases n - i,
    {
        let c = s.get_char(i);
        let ghost pre = strings_view(parts@);
        let ghost pre_cur = cur@;
        if c == sep {
            parts.push(cur);
            cur = String::new();
            proof {
                assert(strings_view(parts@) =~= pre.push(pre_cur));
                lemma_join_snoc(pre.push(pre_cur), cur@, sep);
                assert(join_sep(strings_view(parts@).push(cur@), sep) =~= s@.subrange(0, i
                    + 1));
                assert forall|k: int|
                    0 <= k < strings_view(parts@).push(cur@).len() implies sep_free(
                    #[trigger] strings_view(parts@).push(cur@)[k],
                    sep,
                ) by {
                    if k < pre.len() {
                        assert(strings_view(parts@).push(cur@)[k] == pre.push(pre_cur)[k]);
                    }
                }
            }
        } else {
            push_char(&mut cur, c);
            proof {
                assert(cur@ == pre_cur.push(c));
                assert(pre.push(pre_cur)[pre.len() as int] == pre_cur);
                assert(sep_free(pre_cur, sep));
                assert forall|k: int| 0 <= k < cur@.len() implies cur@[k] != sep by {
                    if k < pre_cur.len() {
                        assert(cur@[k] == pre_cur[k]);
                    } else {
                        assert(cur@[k] == c);
                    }
                }
                if pre.len() == 0 {
                    assert(join_sep(pre.push(pre_cur), sep) == pre_cur);
                    assert(join_sep(pre.push(cur@), sep) == cur@);
                    assert(pre_cur == s@.subrange(0, i as int));
                    assert(cur@ =~= s@.subrange(0, i + 1));
                } else {
                    lemma_join_snoc(pre, pre_cur, sep);
                    lemma_join_snoc(pre, cur@, sep);
                    assert(join_sep(pre, sep).add(seq![sep]).add(pre_cur) == s@.subrange(0,
                        i as int));
                    assert(join_sep(pre, sep).add(seq![sep]).add(cur@) =~= s@.subrange(0, i
                        + 1));
                }
                assert forall|k: int|
                    0 <= k < pre.push(cur@).len() implies sep_free(
                    #[trigger] pre.push(cur@)[k],
                    sep,
                ) by {
                    if k < pre.len() {
                        assert(pre.push(cur@)[k] == pre.push(pre_cur)[k]);
                    } else {
                        assert(pre.push(cur@)[k] == cur@);
                    }
                }
            }
        }
        i = i + 1;
    }
    let ghost pre = strings_view(parts@);
    let ghost pre_cur = cur@;
    parts.push(cur);
    proof {
        assert(strings_view(parts@) =~= pre.push(pre_cur));
        assert(s@.subrange(0, n as int) =~= s@);
    }
    parts
}

/// The decimal texts of the numbers, unjoined.
pub open spec fn num_pieces(ns: Seq<u32>) -> Seq<Seq<char>> {
    Seq::new(ns.len(), |i: int| dec_chars(ns[i] as nat))
}

/// Space-joined line numbers are their decimal texts joined by spaces, each
/// space-free and nonempty.
pub proof fn lemma_nums_join(ns: Seq<u32>)
    requires
        ns.len() >= 1,
    ensures
        nums_chars(ns) == join_sep(num_pieces(ns), ' '),
        all_sep_free(num_pieces(ns), ' '),
        nums_chars(ns).len() >= 1,
    decreases ns.len(),
{
    assert forall|k: int| 0 <= k < ns.len() implies sep_free(#[trigger] num_pieces(ns)[k],
        ' ') by {
        lemma_dec_chars_digits(ns[k] as nat);
        lemma_digits_sep_free(dec_chars(ns[k] as nat), ' ');
    }
    if ns.len() == 1 {
        lemma_dec_chars_digits(ns[0] as nat);
        assert(num_pieces(ns) =~= seq![dec_chars(ns[0] as nat)]);
        assert(join_sep(num_pieces(ns), ' ') == dec_chars(ns[0] as nat));
    } else {
        lemma_nums_join(ns.drop_last());
        lemma_dec_chars_digits(ns.last() as nat);
        assert(num_pieces(ns.drop_last()) =~= num_pieces(ns).drop_last());
        assert(num_pieces(ns) =~= num_pieces(ns).drop_last().push(dec_chars(ns.last() as nat)));
        lemma_join_snoc(num_pieces(ns).drop_last(), dec_chars(ns.last() as nat), ' ');
        assert(nums_chars(ns) =~= join_sep(num_pieces(ns), ' '));
    }
}

/// Splits space-separated decimal numbers; `None` when any piece is not a
/// 32-bit number. On the canonical text of a number list, exactly that list
/// comes back.
fn parse_nums(s: &str) -> (r: Option<Vec<u32>>)
    ensures
        forall|ns: Seq<u32>|
            s@ == nums_chars(ns) ==> (r matches Some(v) && v@ == ns),
{
    let n = s.unicode_len();
    if n == 0 {
        proof {
            assert forall|ns: Seq<u32>|
                s@ == nums_chars(ns) implies (None::<Vec<u32>> matches Some(v) && v@ == ns)
                || ns.len() == 0 by {
                if ns.len() >= 1 {
                    lemma_nums_join(ns);
                }
            }
        }
        let empty: Vec<u32> = Vec::new();
        proof {
            assert forall|ns: Seq<u32>| s@ == nums_chars(ns) implies empty@ =~= ns by {
                if ns.len() >= 1 {
                    lemma_nums_join(ns);
                }
            }
        }
        return Some(empty);
    }
    let parts = split_at_sep(s, ' ');
    let nparts = parts.len();
    let mut out: Vec<u32> = Vec::new();
    let mut j: usize = 0;
    while j < nparts
        invariant
            j <= nparts,
            nparts == parts@.len(),
            out@.len() == j,
            join_sep(strings_view(parts@), ' ') == s@,
            all_sep_free(strings_view(parts@), ' '),
            nparts >= 1,
            s@.len() >= 1,
            forall|k: int|
                0 <= k < j ==> (all_digits(#[trigger] parts@[k]@) && dec_val(parts@[k]@)
                    == out@[k]),
        decreases nparts - j,
    {
        match parse_u64(parts[j].as_str()) {
            Some(v) => {
                if v > u32::MAX as u64 {
                    proof {
                        assert forall|ns: Seq<u32>| s@ != nums_chars(ns) by {
                            if s@ == nums_chars(ns) {
                                assert(ns.len() >= 1);
                                lemma_nums_join(ns);
                                lemma_join_inj(strings_view(parts@), num_pieces(ns), ' ');
                                assert(strings_view(parts@)[j as int] == parts@[j as int]@);
                                assert(num_pieces(ns)[j as int] == dec_chars(
                                    ns[j as int] as nat,
                                ));
                                assert(parts@[j as int]@ == dec_chars(ns[j as int] as nat));
                                lemma_dec_val_of_dec_chars(ns[j as int] as nat);
                            }
                        }
                    }
                    return None;
                }
                out.push(v as u32);
            },
            None => {
                proof {
                    assert forall|ns: Seq<u32>| s@ != nums_chars(ns) by {
                        if s@ == nums_chars(ns) {
                            assert(ns.len() >= 1);
                            lemma_nums_join(ns);
                            lemma_join_inj(strings_view(parts@), num_pieces(ns), ' ');
                            assert(strings_view(parts@)[j as int] == parts@[j as int]@);
                            assert(num_pieces(ns)[j as int] == dec_chars(ns[j as int] as nat));
                            assert(parts@[j as int]@ == dec_chars(ns[j as int] as nat));
                            lemma_dec_chars_digits(ns[j as int] as nat);
                            lemma_dec_val_of_dec_chars(ns[j as int] as nat);
                        }
                    }
                }
                return None;
            },
        }
        j = j + 1;
    }
    proof {
        assert forall|ns: Seq<u32>| s@ == nums_chars(ns) implies out@ =~= ns by {
            if ns.len() == 0 {
                assert(s@.len() == 0);
            } else {
                lemma_nums_join(ns);
                lemma_join_inj(strings_view(parts@), num_pieces(ns), ' ');
                assert(out@.len() == ns.len());
                assert forall|k: int| 0 <= k < ns.len() implies out@[k] == ns[k] by {
                    assert(strings_view(parts@)[k] == parts@[k]@);
                    assert(num_pieces(ns)[k] == dec_chars(ns[k] as nat));
                    assert(parts@[k]@ == dec_chars(ns[k] as nat));
                    lemma_dec_val_of_dec_chars(ns[k] as nat);
                }
            }
        }
    }
    Some(out)
}

/// Parses a signed 32-bit number; on the canonical text of a 32-bit value,
/// exactly that value comes back.
fn parse_i32_text(s: &str) -> (r: Option<i32>)
    ensures
        forall|x: i32| s@ == dec_chars_int(x as int) ==> r == Some::<i32>(x),
{
    match parse_i64(s) {
        Some(v) => {
            if v < i32::MIN as i64 || v > i32::MAX as i64 {
                proof {
                    assert forall|x: i32| s@ != dec_chars_int(x as int) by {
                        if s@ == dec_chars_int(x as int) {
                            crate::numfmt::lemma_i64_text(x as i64);
                        }
                    }
                }
                None
            } else {
                proof {
                    assert forall|x: i32|
                        s@ == dec_chars_int(x as int) implies v as i32 == x by {
                        crate::numfmt::lemma_i64_text(x as i64);
                    }
                }
                Some(v as i32)
            }
        },
        None => {
            proof {
                assert forall|x: i32| s@ != dec_chars_int(x as int) by {
                    if s@ == dec_chars_int(x as int) {
                        crate::numfmt::lemma_i64_text(x as i64);
                    }
                }
            }
            None
        },
    }
}

/// Parses an unsigned number; on the canonical text of a value, exactly
/// that value comes back.
pub(crate) fn parse_u64_text(s: &str) -> (r: Option<u64>)
    ensures
        forall|x: u64| s@ == dec_chars(x as nat) ==> r == Some::<u64>(x),
{
    let r = parse_u64(s);
    proof {
        assert forall|x: u64| s@ == dec_chars(x as nat) implies r == Some::<u64>(x) by {
            crate::numfmt::lemma_u64_round_trip(x);
        }
    }
    r
}

/// Parses a signed number; on the canonical text of a value, exactly that
/// value comes back.
fn parse_i64_text(s: &str) -> (r: Option<i64>)
    ensures
        forall|x: i64| s@ == dec_chars_int(x as int) ==> r == Some::<i64>(x),
{
    let r = parse_i64(s);
    proof {
        assert forall|x: i64| s@ == dec_chars_int(x as int) implies r == Some::<i64>(x) by {
            crate::numfmt::lemma_i64_text(x);
            if x >= 0 {
                assert(s@[0] != '-');
            } else {
                assert(s@[0] == '-');
            }
        }
    }
    r
}

/// Decodes one record line, trailing newline included.
///
/// Sound: a line is accepted only when re-encoding the parsed record
/// reproduces it exactly, so every accepted line is the canonical text of
/// the record that comes back — a bad checksum, a reordered field or a
/// truncated tail is rejected. Complete: every line that is the encoding of
/// some record is accepted.
#[verifier::rlimit(80)]
#[verifier::spinoff_prover]
pub fn decode_record(line: &str) -> (r: Option<WalRecord>)
    ensures
        r matches Some(rec) ==> line@ == encode_spec(rec@),
        (exists|rv: WalRecordV| line@ == encode_spec(rv)) ==> r is Some,
{
    let ghost has_rv = exists|x: WalRecordV| line@ == encode_spec(x);
    let ghost rv = choose|x: WalRecordV| line@ == encode_spec(x);
    proof {
        reveal_strlit("BEGIN");
        reveal_strlit("LINE_ADD");
        reveal_strlit("LINE_ADD_PARENT");
        reveal_strlit("LINE_VOID");
        reveal_strlit("LINE_ADJUST");
        reveal_strlit("TENDER_ADD");
        reveal_strlit("COMMIT");
        reveal_strlit("ABORT");
        reveal_strlit("TIMEOUT");
        reveal_strlit("CONFIG");
        if has_rv {
            lemma_encode_join(rv);
        }
    }
    let n = line.unicode_len();
    if n == 0 {
        proof {
            if has_rv {
                assert(false);
            }
        }
        return None;
    }
    if line.get_char(n - 1) != '\n' {
        proof {
            if has_rv {
                assert(line@.last() == '\n');
                assert(false);
            }
        }
        return None;
    }
    let body = line.substring_char(0, n - 1);
    let parts = split_at_sep(body, ',');
    proof {
        if has_rv {
            assert(body@ =~= join_sep(record_pieces(rv), ','));
            lemma_join_inj(strings_view(parts@), record_pieces(rv), ',');
            assert(parts@.len() == 5 + payload_fields(rv.op).len());
            assert(parts@[0]@ == dec_chars(rv.sequence as nat)) by {
                assert(strings_view(parts@)[0] == parts@[0]@);
                assert(record_pieces(rv)[0] == dec_chars(rv.sequence as nat));
            }
            assert(parts@[1]@ == dec_chars(rv.timestamp_ns as nat)) by {
                assert(strings_view(parts@)[1] == parts@[1]@);
                assert(record_pieces(rv)[1] == dec_chars(rv.timestamp_ns as nat));
            }
            assert(parts@[2]@ == dec_chars(rv.handle as nat)) by {
                assert(strings_view(parts@)[2] == parts@[2]@);
                assert(record_pieces(rv)[2] == dec_chars(rv.handle as nat));
            }
            assert(parts@[3]@ == op_name(rv.op)) by {
                assert(strings_view(parts@)[3] == parts@[3]@);
                assert(record_pieces(rv)[3] == op_name(rv.op));
            }
            lemma_op_name_determines(rv.op);
            assert forall|j: int|
                0 <= j < payload_fields(rv.op).len() implies parts@[4 + j]@ == payload_fields(
                rv.op,
            )[j] by {
                assert(strings_view(parts@)[4 + j] == parts@[4 + j]@);
                assert(record_pieces(rv)[4 + j] == payload_fields(rv.op)[j]);
            }
        }
    }
    if parts.len() < 6 {
        proof {
            if has_rv {
                assert(false);
            }
        }
        return None;
    }
    let sequence = match parse_u64_text(parts[0].as_str()) {
        Some(v) => v,
        None => {
            proof {
                if has_rv {
                    assert(false);
                }
            }
            return None;
        },
    };
    let timestamp_ns = match parse_u64_text(parts[1].as_str()) {
        Some(v) => v,
        None => {
            proof {
                if has_rv {
                    assert(false);
                }
            }
            return None;
        },
    };
    let handle = match parse_u64_text(parts[2].as_str()) {
        Some(v) => v,
        None => {
            proof {
                if has_rv {
                    assert(false);
                }
            }
            return None;
        },
    };
    proof {
        if has_rv {
            assert(sequence == rv.sequence);
            assert(timestamp_ns == rv.timestamp_ns);
            assert(handle == rv.handle);
        }
    }
    let name = parts[3].as_str();
    let fields = parts.len() - 5;
    let op: WalOp = if str_eq(name, "BEGIN") {
        proof {
            if has_rv {
                match rv.op {
                    WalOpV::TransactionBegin { .. } => {},
                    _ => {
                        assert(false);
                    },
                }
            }
        }
        if fields != 3 {
            proof {
                if has_rv {
                    assert(false);
                }
            }
            return None;
        }
        let dp = match parse_u64_text(parts[6].as_str()) {
            Some(v) => v,
            None => {
                proof {
                    if has_rv {
                        match rv.op {
                            WalOpV::TransactionBegin { decimal_places, .. } => {
                                assert(parts@[6]@ == dec_chars(decimal_places as nat));
                                assert(false);
                            },
                            _ => {
                                assert(false);
                            },
                        }
                    }
                }
                return None;
            },
        };
        if dp > 255 {
            proof {
                if has_rv {
                    match rv.op {
                        WalOpV::TransactionBegin { decimal_places, .. } => {
                            assert(parts@[6]@ == dec_chars(decimal_places as nat));
                            assert(dp == decimal_places as u64);
                            assert(false);
                        },
                        _ => {
                            assert(false);
                        },
                    }
                }
            }
            return None;
        }
        let opv = WalOp::TransactionBegin {
            store: parts[4].clone(),
            currency_code: parts[5].clone(),
            decimal_places: dp as u8,
        };
        proof {
            if has_rv {
                match rv.op {
                    WalOpV::TransactionBegin { store, currency_code, decimal_places } => {
                        assert(parts@[4]@ == esc(store));
                        assert(parts@[5]@ == esc(currency_code));
                        assert(parts@[6]@ == dec_chars(decimal_places as nat));
                        assert(dp as u8 == decimal_places);
                        lemma_esc_free(store);
                        lemma_esc_free(currency_code);
                        lemma_esc_clean_identity(esc(store));
                        lemma_esc_clean_identity(esc(currency_code));
                        assert(payload_chars(opv@) =~= payload_chars(rv.op));
                        assert(op_name(opv@) == op_name(rv.op));
                    },
                    _ => {
                        assert(false);
                    },
                }
            }
        }
        opv
    } else if str_eq(name, "LINE_ADD") {
        proof {
            if has_rv {
                match rv.op {
                    WalOpV::LineAdd { .. } => {},
                    _ => {
                        assert(false);
                    },
                }
            }
        }
        if fields != 3 {
            proof {
                if has_rv {
                    assert(false);
                }
            }
            return None;
        }
        let qty = match parse_i32_text(parts[5].as_str()) {
            Some(v) => v,
            None => {
                proof {
                    if has_rv {
                        match rv.op {
                            WalOpV::LineAdd { qty, .. } => {
                                assert(parts@[5]@ == dec_chars_int(qty as int));
                                assert(false);
                            },
                            _ => {
                                assert(false);
                            },
                        }
                    }
                }
                return None;
            },
        };
        let unit_minor = match parse_i64_text(parts[6].as_str()) {
            Some(v) => v,
            None => {
                proof {
                    if has_rv {
                        match rv.op {
                            WalOpV::LineAdd { unit_minor, .. } => {
                                assert(parts@[6]@ == dec_chars_int(unit_minor as int));
                                assert(false);
                            },
                            _ => {
                                assert(false);
                            },
                        }
                    }
                }
                return None;
            },
        };
        let opv = WalOp::LineAdd { sku: parts[4].clone(), qty, unit_minor };
        proof {
            if has_rv {
                match rv.op {
                    WalOpV::LineAdd { sku, qty: q0, unit_minor: u0 } => {
                        assert(parts@[4]@ == esc(sku));
                        assert(parts@[5]@ == dec_chars_int(q0 as int));
                        assert(parts@[6]@ == dec_chars_int(u0 as int));
                        assert(qty == q0 && unit_minor == u0);
                        lemma_esc_free(sku);
                        lemma_esc_clean_identity(esc(sku));
                        assert(payload_chars(opv@) =~= payload_chars(rv.op));
                        assert(op_name(opv@) == op_name(rv.op));
                    },
                    _ => {
                        assert(false);
                    },
                }
            }
        }
        opv
    } else if str_eq(name, "LINE_ADD_PARENT") {
        proof {
            if has_rv {
                match rv.op {
                    WalOpV::LineAddWithParent { .. } => {},
                    _ => {
                        assert(false);
                    },
                }
            }
        }
        if fields != 4 {
            proof {
                if has_rv {
                    assert(false);
                }
            }
            return None;
        }
        let qty = match parse_i32_text(parts[5].as_str()) {
            Some(v) => v,
            None => {
                proof {
                    if has_rv {
                        match rv.op {
                            WalOpV::LineAddWithParent { qty, .. } => {
                                assert(parts@[5]@ == dec_chars_int(qty as int));
                                assert(false);
                            },
                            _ => {
                                assert(false);
                            },
                        }
                    }
                }
                return None;
            },
        };
        let unit_minor = match parse_i64_text(parts[6].as_str()) {
            Some(v) => v,
            None => {
                proof {
                    if has_rv {
                        match rv.op {
                            WalOpV::LineAddWithParent { unit_minor, .. } => {
                                assert(parts@[6]@ == dec_chars_int(unit_minor as int));
                                assert(false);
                            },
                            _ => {
                                assert(false);
                            },
                        }
                    }
                }
                return None;
            },
        };
        let parent = match parse_u64_text(parts[7].as_str()) {
            Some(v) => v,
            None => {
                proof {
                    if has_rv {
                        match rv.op {
                            WalOpV::LineAddWithParent { parent_line, .. } => {
                                assert(parts@[7]@ == dec_chars(parent_line as nat));
                                assert(false);
                            },
                            _ => {
                                assert(false);
                            },
                        }
                    }
                }
                return None;
            },
        };
        if parent > u32::MAX as u64 {
            proof {
                if has_rv {
                    match rv.op {
                        WalOpV::LineAddWithParent { parent_line, .. } => {
                            assert(parts@[7]@ == dec_chars(parent_line as nat));
                            assert(parent == parent_line as u64);
                            assert(false);
                        },
                        _ => {
                            assert(false);
                        },
                    }
                }
            }
            return None;
        }
        let opv = WalOp::LineAddWithParent {
            sku: parts[4].clone(),
            qty,
            unit_minor,
            parent_line: parent as u32,
        };
        proof {
            if has_rv {
                match rv.op {
                    WalOpV::LineAddWithParent { sku, qty: q0, unit_minor: u0, parent_line: p0 } => {
                        assert(parts@[4]@ == esc(sku));
                        assert(parts@[5]@ == dec_chars_int(q0 as int));
                        assert(parts@[6]@ == dec_chars_int(u0 as int));
                        assert(parts@[7]@ == dec_chars(p0 as nat));
                        assert(qty == q0 && unit_minor == u0 && parent as u32 == p0);
                        lemma_esc_free(sku);
                        lemma_esc_clean_identity(esc(sku));
                        assert(payload_chars(opv@) =~= payload_chars(rv.op));
                        assert(op_name(opv@) == op_name(rv.op));
                    },
                    _ => {
                        assert(false);
                    },
                }
            }
        }
        opv
    } else if str_eq(name, "LINE_VOID") {
        proof {
            if has_rv {
                match rv.op {
                    WalOpV::LineVoid { .. } => {},
                    _ => {
                        assert(false);
                    },
                }
            }
        }
        if fields != 3 {
            proof {
                if has_rv {
                    assert(false);
                }
            }
            return None;
        }
        let ln = match parse_u64_text(parts[4].as_str()) {
            Some(v) => v,
            None => {
                proof {
                    if has_rv {
                        match rv.op {
                            WalOpV::LineVoid { line_number, .. } => {
                                assert(parts@[4]@ == dec_chars(line_number as nat));
                                assert(false);
                            },
                            _ => {
                                assert(false);
                            },
                        }
                    }
                }
                return None;
            },
        };
        if ln > u32::MAX as u64 {
            proof {
                if has_rv {
                    match rv.op {
                        WalOpV::LineVoid { line_number, .. } => {
                            assert(parts@[4]@ == dec_chars(line_number as nat));
                            assert(ln == line_number as u64);
                            assert(false);
                        },
                        _ => {
                            assert(false);
                        },
                    }
                }
            }
            return None;
        }
        let voided = match parse_nums(parts[6].as_str()) {
            Some(v) => v,
            None => {
                proof {
                    if has_rv {
                        match rv.op {
                            WalOpV::LineVoid { voided, .. } => {
                                assert(parts@[6]@ == nums_chars(voided));
                                assert(false);
                            },
                            _ => {
                                assert(false);
                            },
                        }
                    }
                }
                return None;
            },
        };
        let opv = WalOp::LineVoid { line_number: ln as u32, reason: parts[5].clone(), voided };
        proof {
            if has_rv {
                match rv.op {
                    WalOpV::LineVoid { line_number: l0, reason, voided: v0 } => {
                        assert(parts@[4]@ == dec_chars(l0 as nat));
                        assert(parts@[5]@ == esc(reason));
                        assert(parts@[6]@ == nums_chars(v0));
                        assert(ln as u32 == l0);
                        match opv {
                            WalOp::LineVoid { voided: ref vv, .. } => {
                                assert(vv@ == v0);
                            },
                            _ => {
                                assert(false);
                            },
                        }
                        lemma_esc_free(reason);
                        lemma_esc_clean_identity(esc(reason));
                        assert(payload_chars(opv@) =~= payload_chars(rv.op));
                        assert(op_name(opv@) == op_name(rv.op));
                    },
                    _ => {
                        assert(false);
                    },
                }
            }
        }
        opv
    } else if str_eq(name, "LINE_ADJUST") {
        proof {
            if has_rv {
                match rv.op {
                    WalOpV::LineAdjust { .. } => {},
                    _ => {
                        assert(false);
                    },
                }
            }
        }
        if fields != 2 {
            proof {
                if has_rv {
                    assert(false);
                }
            }
            return None;
        }
        let ln = match parse_u64_text(parts[4].as_str()) {
            Some(v) => v,
            None => {
                proof {
                    if has_rv {
                        match rv.op {
                            WalOpV::LineAdjust { line_number, .. } => {
                                assert(parts@[4]@ == dec_chars(line_number as nat));
                                assert(false);
                            },
                            _ => {
                                assert(false);
                            },
                        }
                    }
                }
                return None;
            },
        };
        if ln > u32::MAX as u64 {
            proof {
                if has_rv {
                    match rv.op {
                        WalOpV::LineAdjust { line_number, .. } => {
                            assert(parts@[4]@ == dec_chars(line_number as nat));
                            assert(ln == line_number as u64);
                            assert(false);
                        },
                        _ => {
                            assert(false);
                        },
                    }
                }
            }
            return None;
        }
        let q = match parse_i32_text(parts[5].as_str()) {
            Some(v) => v,
            None => {
                proof {
                    if has_rv {
                        match rv.op {
                            WalOpV::LineAdjust { new_quantity, .. } => {
                                assert(parts@[5]@ == dec_chars_int(new_quantity as int));
                                assert(false);
                            },
                            _ => {
                                assert(false);
                            },
                        }
                    }
                }
                return None;
            },
        };
        let opv = WalOp::LineAdjust { line_number: ln as u32, new_quantity: q };
        proof {
            if has_rv {
                match rv.op {
                    WalOpV::LineAdjust { line_number: l0, new_quantity: q0 } => {
                        assert(parts@[4]@ == dec_chars(l0 as nat));
                        assert(parts@[5]@ == dec_chars_int(q0 as int));
                        assert(ln as u32 == l0 && q == q0);
                        assert(payload_chars(opv@) =~= payload_chars(rv.op));
                        assert(op_name(opv@) == op_name(rv.op));
                    },
                    _ => {
                        assert(false);
                    },
                }
            }
        }
        opv
    } else if str_eq(name, "TENDER_ADD") {
        proof {
            if has_rv {
                match rv.op {
                    WalOpV::TenderAdd { .. } => {},
                    _ => {
                        assert(false);
                    },
                }
            }
        }
        if fields != 1 {
            proof {
                if has_rv {
                    assert(false);
                }
            }
            return None;
        }
        let a = match parse_i64_text(parts[4].as_str()) {
            Some(v) => v,
            None => {
                proof {
                    if has_rv {
                        match rv.op {
                            WalOpV::TenderAdd { amount_minor } => {
                                assert(payload_fields(rv.op)[0] == dec_chars_int(
                                    amount_minor as int,
                                ));
                                assert(parts@[4]@ == dec_chars_int(amount_minor as int));
                                assert(false);
                            },
                            _ => {
                                assert(false);
                            },
                        }
                    }
                }
                return None;
            },
        };
        let opv = WalOp::TenderAdd { amount_minor: a };
        proof {
            if has_rv {
                match rv.op {
                    WalOpV::TenderAdd { amount_minor: a0 } => {
                        assert(payload_fields(rv.op)[0] == dec_chars_int(a0 as int));
                        assert(parts@[4]@ == dec_chars_int(a0 as int));
                        assert(a == a0);
                        assert(payload_chars(opv@) =~= payload_chars(rv.op));
                        assert(op_name(opv@) == op_name(rv.op));
                    },
                    _ => {
                        assert(false);
                    },
                }
            }
        }
        opv
    } else if str_eq(name, "COMMIT") {
        proof {
            if has_rv {
                match rv.op {
                    WalOpV::TransactionCommit => {},
                    _ => {
                        assert(false);
                    },
                }
            }
        }
        if fields != 1 {
            proof {
                if has_rv {
                    assert(false);
                }
            }
            return None;
        }
        let opv = WalOp::TransactionCommit;
        proof {
            if has_rv {
                assert(payload_chars(opv@) =~= payload_chars(rv.op));
                assert(op_name(opv@) == op_name(rv.op));
            }
        }
        opv
    } else if str_eq(name, "ABORT") {
        proof {
            if has_rv {
                match rv.op {
                    WalOpV::TransactionAbort { .. } => {},
                    _ => {
                        assert(false);
                    },
                }
            }
        }
        if fields != 1 {
            proof {
                if has_rv {
                    assert(false);
                }
            }
            return None;
        }
        let opv = WalOp::TransactionAbort { reason: parts[4].clone() };
        proof {
            if has_rv {
                match rv.op {
                    WalOpV::TransactionAbort { reason } => {
                        assert(payload_fields(rv.op)[0] == esc(reason));
                        assert(parts@[4]@ == esc(reason));
                        lemma_esc_free(reason);
                        lemma_esc_clean_identity(esc(reason));
                        assert(payload_chars(opv@) =~= payload_chars(rv.op));
                        assert(op_name(opv@) == op_name(rv.op));
                    },
                    _ => {
                        assert(false);
                    },
                }
            }
        }
        opv
    } else if str_eq(name, "TIMEOUT") {
        proof {
            if has_rv {
                match rv.op {
                    WalOpV::TransactionTimeout => {},
                    _ => {
                        assert(false);
                    },
                }
            }
        }
        if fields != 1 {
            proof {
                if has_rv {
                    assert(false);
                }
            }
            return None;
        }
        let opv = WalOp::TransactionTimeout;
        proof {
            if has_rv {
                assert(payload_chars(opv@) =~= payload_chars(rv.op));
                assert(op_name(opv@) == op_name(rv.op));
            }
        }
        opv
    } else if str_eq(name, "CONFIG") {
        proof {
            if has_rv {
                match rv.op {
                    WalOpV::SystemConfigChange { .. } => {},
                    _ => {
                        assert(false);
                    },
                }
            }
        }
        if fields != 1 {
            proof {
                if has_rv {
                    assert(false);
                }
            }
            return None;
        }
        let opv = WalOp::SystemConfigChange { note: parts[4].clone() };
        proof {
            if has_rv {
                match rv.op {
                    WalOpV::SystemConfigChange { note } => {
                        assert(payload_fields(rv.op)[0] == esc(note));
                        assert(parts@[4]@ == esc(note));
                        lemma_esc_free(note);
                        lemma_esc_clean_identity(esc(note));
                        assert(payload_chars(opv@) =~= payload_chars(rv.op));
                        assert(op_name(opv@) == op_name(rv.op));
                    },
                    _ => {
                        assert(false);
                    },
                }
            }
        }
        opv
    } else {
        proof {
            if has_rv {
                match rv.op {
                    WalOpV::TransactionBegin { .. } => {
                        assert(false);
                    },
                    WalOpV::LineAdd { .. } => {
                        assert(false);
                    },
                    WalOpV::LineAddWithParent { .. } => {
                        assert(false);
                    },
                    WalOpV::LineVoid { .. } => {
                        assert(false);
                    },
                    WalOpV::LineAdjust { .. } => {
                        assert(false);
                    },
                    WalOpV::TenderAdd { .. } => {
                        assert(false);
                    },
                    WalOpV::TransactionCommit => {
                        assert(false);
                    },
                    WalOpV::TransactionAbort { .. } => {
                        assert(false);
                    },
                    WalOpV::TransactionTimeout => {
                        assert(false);
                    },
                    WalOpV::SystemConfigChange { .. } => {
                        assert(false);
                    },
                }
            }
        }
        return None;
    };
    let rec = WalRecord { sequence, timestamp_ns, handle, op };
    let again = encode_record(&rec);
    let owned = line.to_owned();
    proof {
        if has_rv {
            assert(encode_spec(rec@) =~= encode_spec(rv));
            assert(again@ == owned@);
        }
    }
    if again == owned {
        Some(rec)
    } else {
        proof {
            if has_rv {
                assert(false);
            }
        }
        None
    }
}

/// The text of a whole log: the encodings of its records, concatenated.
pub open spec fn wal_text(rs: Seq<WalRecordV>) -> Seq<char>
    decreases rs.len(),
{
    if rs.len() == 0 {
        Seq::empty()
    } else {
        wal_text(rs.drop_last()).add(encode_spec(rs.last()))
    }
}

/// Whether `rs` is a densely numbered log, within the record cap, whose text
/// is exactly `text`.
pub open spec fn wal_text_ok(text: Seq<char>, rs: Seq<WalRecordV>) -> bool {
    &&& text == wal_text(rs)
    &&& rs.len() <= WAL_MAX_RECORDS
    &&& (forall|k: int| 0 <= k < rs.len() ==> (#[trigger] rs[k]).sequence == k + 1)
}

/// A log text splits at any record boundary.
pub proof fn lemma_wal_text_split(rs: Seq<WalRecordV>, j: int)
    requires
        0 <= j <= rs.len(),
    ensures
        wal_text(rs) == wal_text(rs.subrange(0, j)).add(
            wal_text(rs.subrange(j, rs.len() as int)),
        ),
    decreases rs.len(),
{
    if j == rs.len() {
        assert(rs.subrange(0, j) =~= rs);
        assert(wal_text(rs.subrange(j, rs.len() as int)) == Seq::<char>::empty()) by {
            assert(rs.subrange(j, rs.len() as int) =~= Seq::<WalRecordV>::empty());
        }
        assert(wal_text(rs) =~= wal_text(rs.subrange(0, j)).add(
            wal_text(rs.subrange(j, rs.len() as int)),
        ));
    } else {
        let pre = rs.drop_last();
        lemma_wal_text_split(pre, j);
        assert(pre.subrange(0, j) =~= rs.subrange(0, j));
        assert(rs.subrange(j, rs.len() as int) =~= pre.subrange(j, pre.len() as int).push(
            rs.last(),
        ));
        assert(rs.subrange(j, rs.len() as int).drop_last() =~= pre.subrange(j,
            pre.len() as int));
        assert(wal_text(rs.subrange(j, rs.len() as int)) == wal_text(
            pre.subrange(j, pre.len() as int),
        ).add(encode_spec(rs.last())));
        assert(wal_text(rs) =~= wal_text(rs.subrange(0, j)).add(
            wal_text(rs.subrange(j, rs.len() as int)),
        ));
    }
}

/// Equal encodings carry equal sequence numbers.
pub proof fn lemma_encode_seq_eq(a: WalRecordV, b: WalRecordV)
    requires
        encode_spec(a) == encode_spec(b),
    ensures
        a.sequence == b.sequence,
{
    lemma_encode_join(a);
    lemma_encode_join(b);
    assert(join_sep(record_pieces(a), ',') =~= encode_spec(a).subrange(0, encode_spec(a).len()
        - 1));
    assert(join_sep(record_pieces(b), ',') =~= encode_spec(b).subrange(0, encode_spec(b).len()
        - 1));
    lemma_join_inj(record_pieces(a), record_pieces(b), ',');
    assert(record_pieces(a)[0] == dec_chars(a.sequence as nat));
    assert(record_pieces(b)[0] == dec_chars(b.sequence as nat));
    crate::numfmt::lemma_u64_round_trip(a.sequence);
    crate::numfmt::lemma_u64_round_trip(b.sequence);
    assert(dec_val(dec_chars(a.sequence as nat)) == dec_val(dec_chars(b.sequence as nat)));
}

/// Replays a log text into records: lines are decoded in order, and replay
/// halts at the first line that is missing its newline, fails its checksum
/// or canonical form, or breaks the dense sequence numbering. Records before
/// the halt are returned; everything at or after it is discarded.
///
/// Complete: when the text is the concatenation of the encodings of a
/// densely numbered log within the record cap, nothing halts replay — the
/// returned records re-encode to the whole text.
#[verifier::rlimit(80)]
#[verifier::spinoff_prover]
pub fn parse_wal(text: &str) -> (records: Vec<WalRecord>)
    ensures
        forall|i: int|
            0 <= i < records@.len() ==> (#[trigger] records@[i])@.sequence == i + 1,
        records@.len() <= text@.len(),
        records@.len() <= WAL_MAX_RECORDS,
        (exists|rs: Seq<WalRecordV>| wal_text_ok(text@, rs)) ==> wal_text(
            crate::store::recs_view(records@),
        ) == text@,
{
    let ghost has_rs = exists|rs2: Seq<WalRecordV>| wal_text_ok(text@, rs2);
    let ghost rs = choose|rs2: Seq<WalRecordV>| wal_text_ok(text@, rs2);
    let n = text.unicode_len();
    let mut records: Vec<WalRecord> = Vec::new();
    let mut cur = String::new();
    let mut i: usize = 0;
    proof {
        assert(crate::store::recs_view(records@) =~= Seq::<WalRecordV>::empty());
        if has_rs {
            assert(rs.subrange(0, 0) =~= Seq::<WalRecordV>::empty());
            assert(text@.subrange(0, 0) =~= Seq::<char>::empty());
            if rs.len() > 0 {
                lemma_encode_join(rs[0]);
            } else {
                assert(text@.len() == 0);
            }
        }
    }
    while i < n
        invariant
            i <= n,
            n == text@.len(),
            records@.len() <= i,
            records@.len() <= WAL_MAX_RECORDS,
            cur@.len() <= i,
            forall|k: int|
                0 <= k < records@.len() ==> (#[trigger] records@[k])@.sequence == k + 1,
            has_rs == exists|rs2: Seq<WalRecordV>| wal_text_ok(text@, rs2),
            has_rs ==> wal_text_ok(text@, rs),
            has_rs ==> {
                let j = records@.len() as int;
                &&& j <= rs.len()
                &&& wal_text(crate::store::recs_view(records@)) == text@.subrange(0, i
                    - cur@.len())
                &&& text@.subrange(0, i - cur@.len()) == wal_text(rs.subrange(0, j))
                &&& (j < rs.len() ==> cur@ == encode_spec(rs[j]).subrange(0, cur@.len() as int)
                    && cur@.len() < encode_spec(rs[j]).len())
                &&& (j == rs.len() ==> i == n && cur@.len() == 0)
            },
        decreases n - i,
    {
        let c = text.get_char(i);
        let ghost j = records@.len() as int;
        let ghost old_view = crate::store::recs_view(records@);
        let ghost old_cur = cur@;
        proof {
            if has_rs {
                if j == rs.len() {
                    assert(false);
                }
                lemma_encode_join(rs[j]);
                assert(rs.subrange(0, j + 1) =~= rs.subrange(0, j).push(rs[j]));
                assert(rs.subrange(0, j + 1).drop_last() =~= rs.subrange(0, j));
                assert(wal_text(rs.subrange(0, j + 1)) == wal_text(rs.subrange(0, j)).add(
                    encode_spec(rs[j]),
                ));
                lemma_wal_text_split(rs, j + 1);
                assert(text@[i as int] == encode_spec(rs[j])[old_cur.len() as int]) by {
                    let base = wal_text(rs.subrange(0, j)).len();
                    assert(text@ == wal_text(rs.subrange(0, j)).add(encode_spec(rs[j])).add(
                        wal_text(rs.subrange(j + 1, rs.len() as int)),
                    ));
                    assert(i == base + old_cur.len());
                }
            }
        }
        push_char(&mut cur, c);
        if c == '\n' {
            proof {
                if has_rs {
                    let ej = encode_spec(rs[j]);
                    assert(old_cur.len() == ej.len() - 1) by {
                        if old_cur.len() < ej.len() - 1 {
                            assert(ej == join_sep(record_pieces(rs[j]), ',').push('\n'));
                            assert(ej[old_cur.len() as int] == join_sep(record_pieces(rs[j]),
                                ',')[old_cur.len() as int]);
                            assert(sep_free(join_sep(record_pieces(rs[j]), ','), '\n'));
                            assert(false);
                        }
                    }
                    assert(cur@ =~= ej);
                    assert(exists|rv: WalRecordV| cur@ == encode_spec(rv)) by {
                        assert(cur@ == encode_spec(rs[j]));
                    }
                }
            }
            match decode_record(cur.as_str()) {
                Some(rec) => {
                    proof {
                        if has_rs {
                            lemma_encode_seq_eq(rec@, rs[j]);
                            assert(rec@.sequence == j + 1);
                        }
                    }
                    if rec.sequence == (records.len() as u64) + 1 && (records.len() as u64)
                        < WAL_MAX_RECORDS {
                        records.push(rec);
                        proof {
                            if has_rs {
                                assert(crate::store::recs_view(records@) =~= old_view.push(
                                    rec@,
                                ));
                                assert(crate::store::recs_view(records@).drop_last()
                                    =~= old_view);
                                assert(wal_text(crate::store::recs_view(records@)) == wal_text(
                                    old_view,
                                ).add(encode_spec(rec@)));
                                assert(encode_spec(rec@) == encode_spec(rs[j]));
                                assert(wal_text(crate::store::recs_view(records@))
                                    =~= text@.subrange(0, i + 1));
                                assert(text@.subrange(0, i + 1) =~= wal_text(
                                    rs.subrange(0, j + 1),
                                ));
                                if j + 1 < rs.len() {
                                    lemma_encode_join(rs[j + 1]);
                                } else {
                                    lemma_wal_text_split(rs, j + 1);
                                    assert(rs.subrange(0, j + 1) =~= rs);
                                    assert(n == i + 1);
                                }
                            }
                        }
                    } else {
                        proof {
                            if has_rs {
                                assert(false);
                            }
                        }
                        return records;
                    }
                },
                None => {
                    proof {
                        if has_rs {
                            assert(false);
                        }
                    }
                    return records;
                },
            }
            cur = String::new();
        } else {
            proof {
                if has_rs {
                    let ej = encode_spec(rs[j]);
                    assert(cur@ == old_cur.push(c));
                    assert(cur@ =~= ej.subrange(0, cur@.len() as int));
                    assert(cur@.len() < ej.len()) by {
                        if cur@.len() == ej.len() {
                            assert(ej == join_sep(record_pieces(rs[j]), ',').push('\n'));
                            assert(ej.last() == '\n');
                            assert(ej[old_cur.len() as int] == c);
                            assert(false);
                        }
                    }
                }
            }
        }
        i = i + 1;
    }
    proof {
        if has_rs {
            let j = records@.len() as int;
            if j < rs.len() {
                lemma_encode_join(rs[j]);
                lemma_wal_text_split(rs, j + 1);
                assert(rs.subrange(0, j + 1) =~= rs.subrange(0, j).push(rs[j]));
                assert(rs.subrange(0, j + 1).drop_last() =~= rs.subrange(0, j));
                assert(wal_text(rs.subrange(0, j + 1)) == wal_text(rs.subrange(0, j)).add(
                    encode_spec(rs[j]),
                ));
                assert(text@.len() >= wal_text(rs.subrange(0, j)).len() + encode_spec(
                    rs[j],
                ).len());
                assert(false);
            }
            assert(text@.subrange(0, n as int) =~= text@);
        }
    }
    records
}

} // verus!
