//! Reading the outcome of a failed call to the document store.

use vstd::prelude::*;

verus! {

/// meilisearch_sdk::errors::Error, the failure of a call to the store,
/// carried through as an opaque value.
#[verifier::external_type_specification]
#[verifier::external_body]
pub struct ExStoreError(meilisearch_sdk::errors::Error);

/// What a failed call to the document store amounts to.
#[derive(PartialEq, Eq, Structural, Clone, Copy, Debug)]
pub enum FailureKind {
    /// The store answered that the document does not exist.
    DocumentNotFound,
    /// The store answered with another error.
    Rejected,
    /// The store could not be reached or its answer could not be read.
    Transport,
}

/// How the store failure `err` is read; it depends on the error's variant
/// and, for an answer of the server, on its error code.
pub uninterp spec fn failure_kind_of(err: meilisearch_sdk::errors::Error) -> FailureKind;

/// Relies on the variants of meilisearch_sdk::errors::Error: `Meilisearch`
/// carries the error code the server answered with, every other variant is
/// a failure on the client's side or on the way.
#[verifier::external_body]
fn failure_kind(err: &meilisearch_sdk::errors::Error) -> (r: FailureKind)
    ensures
        r == failure_kind_of(*err),
{
    match err {
        meilisearch_sdk::errors::Error::Meilisearch(e) => match e.error_code {
            meilisearch_sdk::errors::ErrorCode::DocumentNotFound => FailureKind::DocumentNotFound,
            _ => FailureKind::Rejected,
        },
        _ => FailureKind::Transport,
    }
}

/// A failure that a point lookup takes as a plain negative answer: only
/// "document not found" is one; every other failure stops the pipeline.
pub fn is_soft_miss(kind: FailureKind) -> (r: bool)
    ensures
        r == (kind == FailureKind::DocumentNotFound),
{
    match kind {
        FailureKind::DocumentNotFound => true,
        _ => false,
    }
}

/// Turns the failure of a point lookup into its result: no document when
/// the store said it has none, the failure itself otherwise.
pub fn convert_invalid_request_to_none<T>(err: meilisearch_sdk::errors::Error) -> (r: Result<
    Option<T>,
    meilisearch_sdk::errors::Error,
>)
    ensures
        r is Ok <==> failure_kind_of(err) == FailureKind::DocumentNotFound,
        r matches Ok(v) ==> v is None,
        r matches Err(e) ==> e == err,
{
    if is_soft_miss(failure_kind(&err)) {
        Ok(None)
    } else {
        Err(err)
    }
}

} // verus!
