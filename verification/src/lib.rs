//! A resilient table-ingestion pipeline: resolves a source reference to a
//! fetch request, retrieves a byte payload with bounded retry on transient
//! failures, decodes it as a columnar table, and can encode a table back out.

use vstd::prelude::*;

mod error;
mod fetch;
mod source;
mod csv;
mod csvspec;
mod numtext;
mod parquet;
mod pipeline;
mod table;

pub use error::ErrorKind;
pub use error::Stage;
pub use error::PipelineError;
pub use fetch::AttemptOutcome;
pub use fetch::FetchResult;
pub use fetch::RetryDecision;
pub use fetch::RetryPolicy;
pub use fetch::delay_for_attempt;
pub use fetch::next_step;
pub use fetch::run_fetch;
pub use fetch::policy_wf;
pub use fetch::spec_attempts;
pub use fetch::spec_backoff;
pub use fetch::spec_fetch_verdict;
pub use fetch::spec_next_step;
pub use fetch::lemma_transient_twice_then_success;
pub use fetch::lemma_retry_exhaustion;
pub use fetch::lemma_fatal_no_retry;
pub use source::FetchRequest;
pub use source::SourceRef;
pub use source::resolve;
pub use source::resolves_to;
pub use source::source_valid;
pub use csv::decode_csv;
pub use csv::encode_csv;
pub use csvspec::lemma_decode_encode_round_trip;
pub use csvspec::lemma_encode_decode_id;
pub use csvspec::spec_decode_csv;
pub use csvspec::spec_encode_csv;
pub use csvspec::table_canonical;
pub use csvspec::table_encodable;
pub use parquet::check_parquet_envelope;
pub use parquet::parquet_envelope_ok;
pub use pipeline::Decoded;
pub use pipeline::PipelineConfig;
pub use pipeline::RawPayload;
pub use pipeline::WritePlan;
pub use pipeline::decode_payload;
pub use pipeline::plan_write;
pub use pipeline::run_read;
pub use table::Cell;
pub use table::CellModel;
pub use table::Column;
pub use table::ColumnModel;
pub use table::Table;
pub use table::TableModel;
pub use table::bytes_eq;
pub use table::col_homogeneous;
pub use table::col_no_int;
pub use table::col_no_text;
pub use table::filtered_cells;
pub use table::table_rows;
pub use table::table_wf;

verus! {

/// The serialization format governing decode and encode.
#[derive(Clone, Copy, PartialEq, Eq, Structural, Debug)]
pub enum FormatKind {
    Parquet,
    Csv,
}

} // verus!
