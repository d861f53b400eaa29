//! Cooperative cancellation.

use vstd::prelude::*;

verus! {

/// A token that another thread can trip to ask for the work to stop.
#[verifier::external_type_specification]
#[verifier::external_body]
pub struct ExCancellationToken(cancellation::CancellationToken);

/// The error that signals a tripped token.
#[verifier::external_type_specification]
#[verifier::external_body]
pub struct ExOperationCanceled(cancellation::OperationCanceled);

/// `CancellationToken::result`: `Ok` while the token has not been tripped,
/// an error once it has. The token can be tripped at any moment, so nothing
/// is claimed of the outcome.
#[verifier::external_body]
pub(crate) fn token_result(token: &cancellation::CancellationToken) -> Result<
    (),
    cancellation::OperationCanceled,
> {
    token.result()
}

/// Whether the token had been tripped when it was asked.
pub(crate) fn is_canceled(token: &cancellation::CancellationToken) -> bool {
    says_canceled(token_result(token))
}

/// Whether an answer of the token says that it had been tripped: the error
/// does, `Ok` does not.
pub(crate) fn says_canceled(answer: Result<(), cancellation::OperationCanceled>) -> (canceled: bool)
    ensures
        canceled == answer is Err,
{
    match answer {
        Ok(_) => false,
        Err(_) => true,
    }
}

} // verus!
