//! The record text format — round trips, corruption detection, framing —
//! and full crash recovery through it.

use pos_kernel::codec::{decode_record, encode_record, escape, parse_wal};
use pos_kernel::currency::Currency;
use pos_kernel::numfmt::{fmt_i64, fmt_u64, parse_i64, parse_u64};
use pos_kernel::store::{KernelConfig, LegalKernelStore};
use pos_kernel::terminal::{lock_content, parse_lock_content, validate_terminal_id};
use pos_kernel::wal::{WalOp, WalRecord};

const T0: u64 = 9_000_000_000_000;

fn usd() -> Currency {
    Currency::new("USD", 2).unwrap()
}

#[test]
fn decimal_text_round_trips() {
    assert_eq!(fmt_u64(0), "0");
    assert_eq!(fmt_u64(120), "120");
    assert_eq!(fmt_u64(u64::MAX), "18446744073709551615");
    assert_eq!(fmt_i64(-45), "-45");
    assert_eq!(fmt_i64(i64::MIN), "-9223372036854775808");
    assert_eq!(parse_u64("123"), Some(123));
    assert_eq!(parse_u64(""), None);
    assert_eq!(parse_u64("12a"), None);
    assert_eq!(parse_u64("18446744073709551616"), None); // one past u64::MAX
    assert_eq!(parse_i64("-45"), Some(-45));
    assert_eq!(parse_i64("-9223372036854775808"), Some(i64::MIN));
    assert_eq!(parse_i64("-9223372036854775809"), None);
    assert_eq!(parse_u64(fmt_u64(987654321).as_str()), Some(987654321));
    assert_eq!(parse_i64(fmt_i64(-987654321).as_str()), Some(-987654321));
}

#[test]
fn escaping_makes_framing_unambiguous() {
    assert_eq!(escape("plain"), "plain");
    assert_eq!(escape("a,b"), "a;b");
    assert_eq!(escape("a\nb"), "a\\nb");
    assert_eq!(escape("x,y\nz,"), "x;y\\nz;");
}

fn sample_records() -> Vec<WalRecord> {
    vec![
        WalRecord {
            sequence: 1,
            timestamp_ns: T0,
            handle: 1,
            op: WalOp::TransactionBegin {
                store: "STORE01".to_string(),
                currency_code: "USD".to_string(),
                decimal_places: 2,
            },
        },
        WalRecord {
            sequence: 2,
            timestamp_ns: T0 + 1,
            handle: 1,
            op: WalOp::LineAdd {
                sku: "COFFEE".to_string(),
                qty: 2,
                unit_minor: 350,
            },
        },
        WalRecord {
            sequence: 3,
            timestamp_ns: T0 + 2,
            handle: 1,
            op: WalOp::LineAddWithParent {
                sku: "SYRUP".to_string(),
                qty: 1,
                unit_minor: 50,
                parent_line: 1,
            },
        },
        WalRecord {
            sequence: 4,
            timestamp_ns: T0 + 3,
            handle: 1,
            op: WalOp::LineVoid {
                line_number: 1,
                reason: "changed mind".to_string(),
                voided: vec![2, 1],
            },
        },
        WalRecord {
            sequence: 5,
            timestamp_ns: T0 + 4,
            handle: 1,
            op: WalOp::LineAdjust {
                line_number: 1,
                new_quantity: 4,
            },
        },
        WalRecord {
            sequence: 6,
            timestamp_ns: T0 + 5,
            handle: 1,
            op: WalOp::TenderAdd { amount_minor: 1000 },
        },
        WalRecord {
            sequence: 7,
            timestamp_ns: T0 + 6,
            handle: 1,
            op: WalOp::TransactionCommit,
        },
        WalRecord {
            sequence: 8,
            timestamp_ns: T0 + 7,
            handle: 2,
            op: WalOp::TransactionAbort {
                reason: "walked away".to_string(),
            },
        },
        WalRecord {
            sequence: 9,
            timestamp_ns: T0 + 8,
            handle: 3,
            op: WalOp::TransactionTimeout,
        },
        WalRecord {
            sequence: 10,
            timestamp_ns: T0 + 9,
            handle: 0,
            op: WalOp::SystemConfigChange {
                note: "timeout raised".to_string(),
            },
        },
    ]
}

#[test]
fn every_record_kind_round_trips() {
    for rec in sample_records() {
        let line = encode_record(&rec);
        assert!(line.ends_with('\n'));
        let back = decode_record(line.as_str());
        assert_eq!(back, Some(rec));
    }
}

#[test]
fn encoded_line_has_expected_shape() {
    let rec = WalRecord {
        sequence: 2,
        timestamp_ns: 7,
        handle: 1,
        op: WalOp::LineAdd {
            sku: "COFFEE".to_string(),
            qty: 1,
            unit_minor: 350,
        },
    };
    let line = encode_record(&rec);
    // checksum: sum of the payload bytes of "COFFEE,1,350"
    let payload = "COFFEE,1,350";
    let sum: u32 = payload.bytes().map(|b| b as u32).sum();
    assert_eq!(line, format!("2,7,1,LINE_ADD,COFFEE,1,350,{}\n", sum));
}

#[test]
fn corruption_is_rejected() {
    let rec = WalRecord {
        sequence: 1,
        timestamp_ns: 7,
        handle: 1,
        op: WalOp::LineAdd {
            sku: "COFFEE".to_string(),
            qty: 1,
            unit_minor: 350,
        },
    };
    let line = encode_record(&rec);
    // flip a payload byte: the checksum no longer matches
    let tampered = line.replace("COFFEE", "COFFEX");
    assert_eq!(decode_record(tampered.as_str()), None);
    // truncate the trailing newline: the framing is broken
    let truncated = &line[..line.len() - 1];
    assert_eq!(decode_record(truncated), None);
    // an empty line is nothing
    assert_eq!(decode_record(""), None);
    assert_eq!(decode_record("\n"), None);
}

#[test]
fn commas_in_content_survive_as_semicolons() {
    let rec = WalRecord {
        sequence: 1,
        timestamp_ns: 7,
        handle: 2,
        op: WalOp::TransactionAbort {
            reason: "too slow, sorry".to_string(),
        },
    };
    let line = encode_record(&rec);
    let back = decode_record(line.as_str()).unwrap();
    match back.op {
        WalOp::TransactionAbort { reason } => assert_eq!(reason, "too slow; sorry"),
        _ => panic!("wrong kind"),
    }
}

#[test]
fn replay_halts_at_first_bad_record() {
    let records = sample_records();
    let mut text = String::new();
    for rec in &records {
        text.push_str(encode_record(rec).as_str());
    }
    let parsed = parse_wal(text.as_str());
    assert_eq!(parsed.len(), records.len());
    assert_eq!(parsed, records);

    // corrupt the third line: replay keeps the first two records only
    let lines: Vec<&str> = text.split_inclusive('\n').collect();
    let mut corrupted = String::new();
    corrupted.push_str(lines[0]);
    corrupted.push_str(lines[1]);
    corrupted.push_str(&lines[2].replace("SYRUP", "SYRUQ"));
    corrupted.push_str(lines[3]);
    let parsed2 = parse_wal(corrupted.as_str());
    assert_eq!(parsed2.len(), 2);

    // a truncated trailing record is discarded
    let mut truncated = String::new();
    truncated.push_str(lines[0]);
    truncated.push_str(&lines[1][..lines[1].len() - 3]);
    let parsed3 = parse_wal(truncated.as_str());
    assert_eq!(parsed3.len(), 1);

    // a sequence gap halts replay
    let mut gapped = String::new();
    gapped.push_str(lines[0]);
    gapped.push_str(lines[2]); // sequence 3 right after 1
    let parsed4 = parse_wal(gapped.as_str());
    assert_eq!(parsed4.len(), 1);
}

#[test]
fn recovery_round_trip_restores_all_queries() {
    let mut k1 = LegalKernelStore::new(KernelConfig::default());
    let h1 = k1
        .begin_transaction_legal("STORE01".to_string(), usd(), T0)
        .unwrap();
    let h2 = k1
        .begin_transaction_legal("STORE01".to_string(), usd(), T0 + 1)
        .unwrap();
    k1.add_line_legal(h1, "BURGER".to_string(), 1, 800, T0 + 2)
        .unwrap();
    k1.add_child_line_legal(h1, "CHEESE".to_string(), 1, 100, 1, T0 + 3)
        .unwrap();
    k1.add_line_legal(h1, "COLA".to_string(), 2, 150, T0 + 4)
        .unwrap();
    k1.void_line_with_cascade(h1, 1, "remade", T0 + 5).unwrap();
    k1.update_line_quantity_legal(h1, 3, 3, T0 + 6).unwrap();
    k1.add_cash_tender_legal(h1, 200, T0 + 7).unwrap();
    k1.add_line_legal(h2, "PEN".to_string(), 1, 125, T0 + 8)
        .unwrap();

    let mut disk = String::new();
    let mut i: usize = 0;
    while (i as u64) < k1.last_sequence() {
        disk.push_str(encode_record(k1.wal_record(i)).as_str());
        i += 1;
    }

    let k2 = LegalKernelStore::recover(parse_wal(disk.as_str()), KernelConfig::default(), T0 + 9);
    for h in [h1, h2] {
        assert_eq!(
            k1.get_transaction_totals(h).unwrap(),
            k2.get_transaction_totals(h).unwrap()
        );
        let count = k1.get_line_count_legal(h).unwrap();
        assert_eq!(count, k2.get_line_count_legal(h).unwrap());
        for idx in 0..count {
            assert_eq!(
                k1.get_line_item_legal(h, idx).unwrap(),
                k2.get_line_item_legal(h, idx).unwrap()
            );
        }
        assert_eq!(
            k1.get_currency_decimal_places(h).unwrap(),
            k2.get_currency_decimal_places(h).unwrap()
        );
    }
}

#[test]
fn recovery_times_out_stale_transactions() {
    let mut k1 = LegalKernelStore::new(KernelConfig::default());
    let h = k1
        .begin_transaction_legal("STORE01".to_string(), usd(), T0)
        .unwrap();
    k1.add_line_legal(h, "X".to_string(), 1, 100, T0 + 1)
        .unwrap();
    let mut disk = String::new();
    let mut i: usize = 0;
    while (i as u64) < k1.last_sequence() {
        disk.push_str(encode_record(k1.wal_record(i)).as_str());
        i += 1;
    }
    // recover long after the inactivity limit: the transaction is timed out
    let much_later = T0 + 1 + 301_000_000_000;
    let k2 = LegalKernelStore::recover(parse_wal(disk.as_str()), KernelConfig::default(), much_later);
    let (total, _, _, state) = k2.get_transaction_totals(h).unwrap();
    assert_eq!(total, 100);
    assert_eq!(state, 3); // TimedOut
    assert_eq!(k2.last_sequence(), 3); // the timeout transition was logged
}

#[test]
fn terminal_ids_and_lock_files() {
    assert!(validate_terminal_id("TERMINAL_1"));
    assert!(validate_terminal_id("a"));
    assert!(!validate_terminal_id(""));
    assert!(!validate_terminal_id("has space"));
    assert!(!validate_terminal_id("has-dash"));
    assert!(!validate_terminal_id("0123456789012345678901234567890123")); // 34 chars
    let text = lock_content(4242, T0, "TERMINAL_1");
    assert_eq!(text, format!("4242\n{}\nTERMINAL_1\n", T0));
    let (pid, created, id) = parse_lock_content(text.as_str()).unwrap();
    assert_eq!((pid, created, id.as_str()), (4242, T0, "TERMINAL_1"));
    assert_eq!(parse_lock_content("garbage"), None);
    assert_eq!(parse_lock_content("1\n2\n"), None);
}
