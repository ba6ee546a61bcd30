//! The token by which a run is told to stop.

use tokio_util::sync::CancellationToken;
use vstd::prelude::*;

verus! {

/// The cancellation token of the `tokio-util` crate.
#[verifier::external_type_specification]
#[verifier::external_body]
pub struct ExCancellationToken(CancellationToken);

/// `CancellationToken::is_cancelled`. Others may cancel at any time, so nothing is
/// claimed of the answer.
#[verifier::external_body]
pub(crate) fn is_cancelled(token: &CancellationToken) -> bool {
    token.is_cancelled()
}

} // verus!
