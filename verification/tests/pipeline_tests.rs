use lakepipe::AttemptOutcome;
use lakepipe::Cell;
use lakepipe::Decoded;
use lakepipe::ErrorKind;
use lakepipe::FormatKind;
use lakepipe::PipelineConfig;
use lakepipe::RawPayload;
use lakepipe::RetryPolicy;
use lakepipe::SourceRef;
use lakepipe::Stage;
use lakepipe::WritePlan;
use lakepipe::decode_csv;
use lakepipe::decode_payload;
use lakepipe::plan_write;
use lakepipe::run_read;

fn config() -> PipelineConfig {
    PipelineConfig {
        default_region: b"us-east-1".to_vec(),
        retry: RetryPolicy { max_attempts: 3, base_delay_ms: 100, max_delay_ms: 800 },
    }
}

fn local(path: &[u8]) -> SourceRef {
    SourceRef::Local { path: path.to_vec() }
}

fn payload_script(bytes: Vec<u8>) -> Vec<AttemptOutcome> {
    vec![AttemptOutcome::Payload(bytes), AttemptOutcome::Transient, AttemptOutcome::Transient]
}

/// Builds the byte contents of a transfers file: 55 rows with a nullable
/// `token_value` column, null on every 11th row.
fn transfers_csv() -> (Vec<u8>, usize) {
    let mut s = String::from("block_date,token_value\n");
    let mut non_null: usize = 0;
    for i in 0..55 {
        if i % 11 == 10 {
            s.push_str(&format!("2025-02-{:02},\n", (i % 28) + 1));
        } else {
            s.push_str(&format!("2025-02-{:02},{}\n", (i % 28) + 1, 1000 + i));
            non_null += 1;
        }
    }
    (s.into_bytes(), non_null)
}

#[test]
fn end_to_end_local_transfers_filter_count() {
    let (bytes, non_null) = transfers_csv();
    assert_eq!(non_null, 50);
    let cfg = config();
    let src = local(b"transfers.csv");
    let r = run_read(&cfg, &src, FormatKind::Csv, payload_script(bytes));
    match r {
        Ok(Decoded::Table(t)) => {
            assert_eq!(t.height(), 55);
            let filtered = t.filter_non_null(&b"token_value".to_vec()).unwrap();
            assert_eq!(filtered.height(), non_null);
        }
        other => panic!("expected a decoded table, got a different outcome: {:?}", other.is_ok()),
    }
}

#[test]
fn invalid_reference_fails_in_resolving() {
    let cfg = config();
    let src = local(b"");
    let e = run_read(&cfg, &src, FormatKind::Csv, payload_script(b"a\n1\n".to_vec())).err().unwrap();
    assert_eq!(e.stage, Stage::Resolving);
    assert_eq!(e.kind, ErrorKind::InvalidReference);
}

#[test]
fn fetch_failure_names_the_fetching_stage() {
    let cfg = config();
    let src = SourceRef::Remote {
        container_id: b"bucket".to_vec(),
        object_key: b"key".to_vec(),
        region: None,
    };
    let outcomes = vec![
        AttemptOutcome::Transient,
        AttemptOutcome::Transient,
        AttemptOutcome::Transient,
    ];
    let e = run_read(&cfg, &src, FormatKind::Csv, outcomes).err().unwrap();
    assert_eq!(e.stage, Stage::Fetching);
    assert_eq!(e.kind, ErrorKind::RetriesExhausted);
}

#[test]
fn remote_transient_then_success_decodes() {
    let cfg = config();
    let src = SourceRef::Remote {
        container_id: b"bucket".to_vec(),
        object_key: b"key".to_vec(),
        region: None,
    };
    let outcomes = vec![
        AttemptOutcome::Transient,
        AttemptOutcome::Transient,
        AttemptOutcome::Payload(b"a\n7\n".to_vec()),
    ];
    match run_read(&cfg, &src, FormatKind::Csv, outcomes) {
        Ok(Decoded::Table(t)) => {
            assert_eq!(t.height(), 1);
            assert!(matches!(t.columns[0].cells[0], Cell::Int(7)));
        }
        _ => panic!("expected a decoded table"),
    }
}

#[test]
fn corrupt_payload_names_the_decoding_stage() {
    let cfg = config();
    let src = local(b"bad.csv");
    let e = run_read(&cfg, &src, FormatKind::Csv, payload_script(b"a,b\nunterminated".to_vec()))
        .err()
        .unwrap();
    assert_eq!(e.stage, Stage::Decoding);
    assert_eq!(e.kind, ErrorKind::CorruptPayload);
}

#[test]
fn truncated_parquet_is_corrupt_not_a_panic() {
    let truncated = b"PAR1\x15\x02\x19".to_vec();
    let r = decode_payload(
        RawPayload { bytes: truncated, format_hint: Some(FormatKind::Parquet) },
        FormatKind::Parquet,
    );
    assert_eq!(r.err().unwrap(), ErrorKind::CorruptPayload);
}

#[test]
fn parquet_with_wrong_trailing_magic_is_corrupt() {
    let bytes = b"PAR1somedatahere\x00\x00\x00\x00XXXX".to_vec();
    let r = decode_payload(
        RawPayload { bytes, format_hint: Some(FormatKind::Parquet) },
        FormatKind::Parquet,
    );
    assert_eq!(r.err().unwrap(), ErrorKind::CorruptPayload);
}

#[test]
fn parquet_with_oversized_footer_is_corrupt() {
    let mut bytes = b"PAR1".to_vec();
    bytes.extend_from_slice(&[0xFF, 0xFF, 0x00, 0x00]);
    bytes.extend_from_slice(b"PAR1");
    let r = decode_payload(
        RawPayload { bytes, format_hint: Some(FormatKind::Parquet) },
        FormatKind::Parquet,
    );
    assert_eq!(r.err().unwrap(), ErrorKind::CorruptPayload);
}

#[test]
fn sound_parquet_envelope_passes_through_whole() {
    let mut bytes = b"PAR1".to_vec();
    bytes.extend_from_slice(b"ftr!");
    bytes.extend_from_slice(&[4, 0, 0, 0]);
    bytes.extend_from_slice(b"PAR1");
    let expected = bytes.clone();
    let cfg = config();
    let src = local(b"transfers.parquet");
    match run_read(&cfg, &src, FormatKind::Parquet, payload_script(bytes)) {
        Ok(Decoded::ParquetPayload(p)) => assert_eq!(p.bytes, expected),
        _ => panic!("expected the validated payload"),
    }
}

#[test]
fn concurrent_style_invocations_do_not_interleave() {
    // The pipeline holds no state between invocations, so two invocations
    // against distinct local files cannot affect one another; their stages
    // are interleaved here and each result must match its own source.
    let cfg = config();
    let first_bytes = b"a\n1\n2\n".to_vec();
    let second_bytes = b"b\n9\n".to_vec();
    let r1 = run_read(&cfg, &local(b"one.csv"), FormatKind::Csv, payload_script(first_bytes.clone()));
    let r2 = run_read(&cfg, &local(b"two.csv"), FormatKind::Csv, payload_script(second_bytes.clone()));
    let t1 = match r1 {
        Ok(Decoded::Table(t)) => t,
        _ => panic!("first invocation failed"),
    };
    let t2 = match r2 {
        Ok(Decoded::Table(t)) => t,
        _ => panic!("second invocation failed"),
    };
    assert!(t1.same_as(&decode_csv(&first_bytes).unwrap()));
    assert!(t2.same_as(&decode_csv(&second_bytes).unwrap()));
    assert!(!t1.same_as(&t2));
}

#[test]
fn plan_write_csv_carries_exact_bytes() {
    let cfg = config();
    let t = decode_csv(&b"a,b\n1,x\n".to_vec()).unwrap();
    match plan_write(&cfg, t, FormatKind::Csv, &local(b"/var/tmp/test.csv")) {
        Ok(WritePlan::CsvBytes { bytes, .. }) => assert_eq!(bytes, b"a,b\n1,x\n".to_vec()),
        _ => panic!("expected an encoded plan"),
    }
}

#[test]
fn plan_write_parquet_hands_table_on() {
    let cfg = config();
    let t = decode_csv(&b"a\n1\n".to_vec()).unwrap();
    match plan_write(&cfg, t, FormatKind::Parquet, &local(b"/var/tmp/test.parquet")) {
        Ok(WritePlan::ParquetTable { table, .. }) => assert_eq!(table.height(), 1),
        _ => panic!("expected the table handed on"),
    }
}

#[test]
fn plan_write_invalid_sink_fails_in_resolving() {
    let cfg = config();
    let t = decode_csv(&b"a\n1\n".to_vec()).unwrap();
    let e = plan_write(&cfg, t, FormatKind::Csv, &local(b"")).err().unwrap();
    assert_eq!(e.stage, Stage::Resolving);
    assert_eq!(e.kind, ErrorKind::InvalidReference);
}
