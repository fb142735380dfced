//! Source references and their resolution into fetch requests.

use vstd::prelude::*;
use crate::error::ErrorKind;

verus! {

/// A logical reference to a payload: either an object in a remote store or a
/// file on the local filesystem. Exactly one variant is populated.
#[derive(Clone, Debug)]
pub enum SourceRef {
    Remote { container_id: Vec<u8>, object_key: Vec<u8>, region: Option<Vec<u8>> },
    Local { path: Vec<u8> },
}

/// A fully resolved byte-stream request: every field a backend needs is
/// present (a remote request always carries a region).
#[derive(Clone, Debug)]
pub enum FetchRequest {
    Remote { container_id: Vec<u8>, object_key: Vec<u8>, region: Vec<u8> },
    Local { path: Vec<u8> },
}

impl FetchRequest {
    /// Whether this request targets the remote store (and so is subject to
    /// the retry policy) rather than the local filesystem.
    pub fn is_remote(&self) -> (r: bool)
        ensures
            r == (*self is Remote),
    {
        match self {
            FetchRequest::Remote { .. } => true,
            FetchRequest::Local { .. } => false,
        }
    }
}

/// A reference is valid when every field its backend requires is non-empty.
/// The region is not required: it defaults during resolution.
pub open spec fn source_valid(s: SourceRef) -> bool {
    match s {
        SourceRef::Remote { container_id, object_key, .. } =>
            container_id@.len() > 0 && object_key@.len() > 0,
        SourceRef::Local { path } => path@.len() > 0,
    }
}

/// The request `req` is the resolution of `s`: same backend, fields carried
/// over, and a remote region defaulted when the reference left it out.
pub open spec fn resolves_to(default_region: Seq<u8>, s: SourceRef, req: FetchRequest) -> bool {
    match s {
        SourceRef::Remote { container_id, object_key, region } => match req {
            FetchRequest::Remote { container_id: c, object_key: k, region: r } =>
                c@ == container_id@ && k@ == object_key@ && r@ == (match region {
                    Option::Some(g) => g@,
                    Option::None => default_region,
                }),
            _ => false,
        },
        SourceRef::Local { path } => match req {
            FetchRequest::Local { path: p } => p@ == path@,
            _ => false,
        },
    }
}

/// Resolves a source reference into a fetch request. Pure: no side effects.
/// Fails with `InvalidReference` exactly when a required field is empty.
pub fn resolve(default_region: &Vec<u8>, source: &SourceRef) -> (r: Result<FetchRequest, ErrorKind>)
    ensures
        r is Ok <==> source_valid(*source),
        r matches Ok(req) ==> resolves_to(default_region@, *source, req),
        r matches Err(k) ==> k == ErrorKind::InvalidReference,
{
    match source {
        SourceRef::Remote { container_id, object_key, region } => {
            if container_id.len() == 0 || object_key.len() == 0 {
                Err(ErrorKind::InvalidReference)
            } else {
                let reg: Vec<u8> = match region {
                    Option::Some(g) => g.clone(),
                    Option::None => default_region.clone(),
                };
                Ok(FetchRequest::Remote {
                    container_id: container_id.clone(),
                    object_key: object_key.clone(),
                    region: reg,
                })
            }
        }
        SourceRef::Local { path } => {
            if path.len() == 0 {
                Err(ErrorKind::InvalidReference)
            } else {
                Ok(FetchRequest::Local { path: path.clone() })
            }
        }
    }
}

} // verus!
