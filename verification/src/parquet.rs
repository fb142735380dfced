//! Structural validation of a parquet payload's envelope.
//!
//! A parquet file opens with the four magic bytes "PAR1" and closes with a
//! footer, its little-endian 32-bit length, and the magic again. The cell
//! values inside are opaque to this library (they may be floating point);
//! what is verified here is the envelope: magic at both ends and a footer
//! length that fits inside the payload, which rejects every truncation.

use vstd::prelude::*;
use crate::error::ErrorKind;

verus! {

/// The little-endian 32-bit value of four bytes.
pub open spec fn le32(b0: u8, b1: u8, b2: u8, b3: u8) -> int {
    b0 + b1 * 256 + b2 * 65536 + b3 * 16777216
}

/// The envelope is sound: magic bytes "PAR1" open and close the payload,
/// and the declared footer length fits between them.
pub open spec fn parquet_envelope_ok(b: Seq<u8>) -> bool {
    &&& b.len() >= 12
    &&& b[0] == 80 && b[1] == 65 && b[2] == 82 && b[3] == 49
    &&& b[b.len() - 4] == 80 && b[b.len() - 3] == 65 && b[b.len() - 2] == 82 && b[b.len() - 1]
        == 49
    &&& le32(b[b.len() - 8], b[b.len() - 7], b[b.len() - 6], b[b.len() - 5]) <= b.len() - 12
}

/// Checks the envelope. Fails with `CorruptPayload` exactly when the
/// payload is truncated or framed wrongly; it never panics and hands no
/// partially-checked payload on.
pub fn check_parquet_envelope(payload: &Vec<u8>) -> (r: Result<(), ErrorKind>)
    ensures
        r is Ok <==> parquet_envelope_ok(payload@),
        r matches Err(k) ==> k == ErrorKind::CorruptPayload,
{
    let n = payload.len();
    if n < 12 {
        return Err(ErrorKind::CorruptPayload);
    }
    if payload[0] != 80 || payload[1] != 65 || payload[2] != 82 || payload[3] != 49 {
        return Err(ErrorKind::CorruptPayload);
    }
    if payload[n - 4] != 80 || payload[n - 3] != 65 || payload[n - 2] != 82 || payload[n - 1] != 49 {
        return Err(ErrorKind::CorruptPayload);
    }
    let footer_len: u64 = payload[n - 8] as u64 + payload[n - 7] as u64 * 256 + payload[n - 6] as u64
        * 65536 + payload[n - 5] as u64 * 16777216;
    if footer_len > (n as u64) - 12 {
        return Err(ErrorKind::CorruptPayload);
    }
    Ok(())
}

} // verus!
