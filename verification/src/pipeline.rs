//! The pipeline orchestrator: one read is Resolving, then Fetching, then
//! Decoding; one write is Resolving, then Encoding, with the sink write
//! performed by the driver. A failing stage ends the invocation with that
//! stage named; no partial result is ever returned. The orchestrator holds
//! no state between invocations: each call is independent, so concurrent
//! invocations against different sources cannot interfere.
//!
//! The byte retrieval itself is I/O and happens outside this library; a
//! driver records what each attempt returned and hands the outcomes in (see
//! `run_fetch`). Retry is local to the fetch stage: the orchestrator never
//! retries across stages.

use vstd::prelude::*;
use crate::FormatKind;
use crate::error::ErrorKind;
use crate::error::PipelineError;
use crate::error::Stage;
use crate::fetch::AttemptOutcome;
use crate::fetch::RetryPolicy;
use crate::fetch::policy_wf;
use crate::fetch::run_fetch;
use crate::fetch::spec_fetch_verdict;
use crate::source::FetchRequest;
use crate::source::SourceRef;
use crate::source::resolve;
use crate::source::source_valid;
use crate::table::Table;
use crate::table::table_wf;
use crate::csv::decode_csv;
use crate::csv::encode_csv;
use crate::csvspec::spec_decode_csv;
use crate::csvspec::spec_encode_csv;
use crate::parquet::check_parquet_envelope;
use crate::parquet::parquet_envelope_ok;

verus! {

/// The pipeline's explicit configuration: no ambient global state.
pub struct PipelineConfig {
    pub default_region: Vec<u8>,
    pub retry: RetryPolicy,
}

/// A fully materialized byte payload with its metadata.
pub struct RawPayload {
    pub bytes: Vec<u8>,
    pub format_hint: Option<FormatKind>,
}

/// What a read yields. A comma-separated payload decodes to a table here.
/// A parquet payload's cell values may be floating point, which this
/// library cannot hold: its envelope is validated and the bytes handed on
/// whole for an external columnar decoder.
pub enum Decoded {
    Table(Table),
    ParquetPayload(RawPayload),
}

/// What a write hands the driver. Comma-separated output is encoded here,
/// byte for byte; a parquet write hands the table on whole for an external
/// columnar encoder.
pub enum WritePlan {
    CsvBytes { request: FetchRequest, bytes: Vec<u8> },
    ParquetTable { request: FetchRequest, table: Table },
}

/// Decodes one payload under its declared format (never sniffed).
pub fn decode_payload(payload: RawPayload, format: FormatKind) -> (r: Result<Decoded, ErrorKind>)
    ensures
        format is Csv ==> (match spec_decode_csv(payload.bytes@) {
            Ok(tm) => r matches Ok(d) && (d matches Decoded::Table(t) && t@ == tm && table_wf(t@)),
            Err(k) => r matches Err(k2) && k2 == k,
        }),
        format is Parquet ==> (if parquet_envelope_ok(payload.bytes@) {
            r matches Ok(d) && (d matches Decoded::ParquetPayload(p) && p.bytes@ == payload.bytes@)
        } else {
            r matches Err(k) && k == ErrorKind::CorruptPayload
        }),
{
    match format {
        FormatKind::Csv => {
            match decode_csv(&payload.bytes) {
                Ok(t) => Ok(Decoded::Table(t)),
                Err(k) => Err(k),
            }
        }
        FormatKind::Parquet => {
            match check_parquet_envelope(&payload.bytes) {
                Ok(()) => Ok(Decoded::ParquetPayload(payload)),
                Err(k) => Err(k),
            }
        }
    }
}

/// One whole read: Resolving, then Fetching under the retry policy, then
/// Decoding. `outcomes` is the script of what each retrieval attempt
/// returned, one entry per attempt made (see `run_fetch`). Any stage's
/// failure is final and names the stage; no partial table is returned.
pub fn run_read(
    cfg: &PipelineConfig,
    source: &SourceRef,
    format: FormatKind,
    outcomes: Vec<AttemptOutcome>,
) -> (r: Result<Decoded, PipelineError>)
    requires
        policy_wf(cfg.retry),
        outcomes@.len() >= cfg.retry.max_attempts,
        outcomes@.len() >= 1,
    ensures
        ({
            let budget: nat = if *source is Remote {
                cfg.retry.max_attempts as nat
            } else {
                1
            };
            let verdict = spec_fetch_verdict(outcomes@, budget, *source is Remote);
            &&& !source_valid(*source) ==> (r matches Err(e) && e.stage is Resolving && e.kind
                == ErrorKind::InvalidReference)
            &&& source_valid(*source) ==> (match verdict {
                Err(k) => r matches Err(e) && e.stage is Fetching && e.kind == k,
                Ok(b) => match format {
                    FormatKind::Csv => (match spec_decode_csv(b@) {
                        Ok(tm) => r matches Ok(d) && (d matches Decoded::Table(t) && t@ == tm
                            && table_wf(t@)),
                        Err(k) => r matches Err(e) && e.stage is Decoding && e.kind == k,
                    }),
                    FormatKind::Parquet => (if parquet_envelope_ok(b@) {
                        r matches Ok(d) && (d matches Decoded::ParquetPayload(p) && p.bytes@ == b@)
                    } else {
                        r matches Err(e) && e.stage is Decoding && e.kind
                            == ErrorKind::CorruptPayload
                    }),
                },
            })
        }),
{
    let req = match resolve(&cfg.default_region, source) {
        Ok(req) => req,
        Err(k) => {
            return Err(PipelineError::new(Stage::Resolving, k));
        }
    };
    let remote = req.is_remote();
    proof {
        assert(remote == (*source is Remote));
    }
    let fetched = run_fetch(&cfg.retry, remote, outcomes);
    let bytes = match fetched.outcome {
        Ok(b) => b,
        Err(k) => {
            return Err(PipelineError::new(Stage::Fetching, k));
        }
    };
    let payload = RawPayload { bytes, format_hint: Some(format) };
    match decode_payload(payload, format) {
        Ok(d) => Ok(d),
        Err(k) => Err(PipelineError::new(Stage::Decoding, k)),
    }
}

/// One whole write, up to the sink: Resolving the sink, then Encoding.
/// The driver performs the final byte write; encoding is all-or-nothing,
/// so a failed plan exposes no partial output.
pub fn plan_write(
    cfg: &PipelineConfig,
    table: Table,
    format: FormatKind,
    sink: &SourceRef,
) -> (r: Result<WritePlan, PipelineError>)
    requires
        table_wf(table@),
    ensures
        !source_valid(*sink) ==> (r matches Err(e) && e.stage is Resolving && e.kind
            == ErrorKind::InvalidReference),
        source_valid(*sink) ==> (match format {
            FormatKind::Csv => (match spec_encode_csv(table@) {
                Ok(b) => r matches Ok(p) && (p matches WritePlan::CsvBytes { request, bytes }
                    && bytes@ == b),
                Err(k) => r matches Err(e) && e.stage is Encoding && e.kind == k,
            }),
            FormatKind::Parquet => r matches Ok(p) && (p matches WritePlan::ParquetTable {
                request,
                table: t,
            } && t@ == table@),
        }),
{
    let req = match resolve(&cfg.default_region, sink) {
        Ok(req) => req,
        Err(k) => {
            return Err(PipelineError::new(Stage::Resolving, k));
        }
    };
    match format {
        FormatKind::Csv => {
            match encode_csv(&table) {
                Ok(bytes) => Ok(WritePlan::CsvBytes { request: req, bytes }),
                Err(k) => Err(PipelineError::new(Stage::Encoding, k)),
            }
        }
        FormatKind::Parquet => Ok(WritePlan::ParquetTable { request: req, table }),
    }
}

} // verus!
