//! Errors reported by the Last.fm API and their classification.

use vstd::prelude::*;

verus! {

/// The body Last.fm sends instead of the expected document when a request fails.
pub struct ErrorResponse {
    pub error: i32,
    pub message: String,
}

/// A decoded reply: either the expected document or Last.fm's error body.
pub enum ApiResponse<T> {
    Success(T),
    Failure(ErrorResponse),
}

/// The error conditions named by Last.fm's numeric error codes.
#[derive(Clone, Debug)]
pub enum LastFmApiError {
    InvalidService(String),
    InvalidMethod(String),
    AuthenticationFailed(String),
    InvalidFormat(String),
    InvalidParameters(String),
    InvalidResourceSpecified,
    OperationFailed(String),
    InvalidSessionKey(String),
    InvalidApiKey(String),
    ServiceOffline(String),
    InvalidMethodSignatureSupplied,
    TemporaryError(String),
    SuspendedApiKey(String),
    RateLimitExceeded(String),
}

/// The codes that name a condition of their own; every other code, 8 included,
/// means that the operation failed.
pub open spec fn is_specific_code(code: int) -> bool {
    code == 2 || code == 3 || code == 4 || code == 5 || code == 6 || code == 7 || code == 9
        || code == 10 || code == 11 || code == 13 || code == 16 || code == 26 || code == 29
}

/// The error that a code and its message stand for.
pub open spec fn api_error_for(code: int, message: String) -> LastFmApiError {
    if code == 2 {
        LastFmApiError::InvalidService(message)
    } else if code == 3 {
        LastFmApiError::InvalidMethod(message)
    } else if code == 4 {
        LastFmApiError::AuthenticationFailed(message)
    } else if code == 5 {
        LastFmApiError::InvalidFormat(message)
    } else if code == 6 {
        LastFmApiError::InvalidParameters(message)
    } else if code == 7 {
        LastFmApiError::InvalidResourceSpecified
    } else if code == 9 {
        LastFmApiError::InvalidSessionKey(message)
    } else if code == 10 {
        LastFmApiError::InvalidApiKey(message)
    } else if code == 11 {
        LastFmApiError::ServiceOffline(message)
    } else if code == 13 {
        LastFmApiError::InvalidMethodSignatureSupplied
    } else if code == 16 {
        LastFmApiError::TemporaryError(message)
    } else if code == 26 {
        LastFmApiError::SuspendedApiKey(message)
    } else if code == 29 {
        LastFmApiError::RateLimitExceeded(message)
    } else {
        LastFmApiError::OperationFailed(message)
    }
}

/// Classifies an error body by its code.
pub fn get_lastfm_api_error(error: ErrorResponse) -> (r: LastFmApiError)
    ensures
        r == api_error_for(error.error as int, error.message),
{
    match error.error {
        2 => LastFmApiError::InvalidService(error.message),
        3 => LastFmApiError::InvalidMethod(error.message),
        4 => LastFmApiError::AuthenticationFailed(error.message),
        5 => LastFmApiError::InvalidFormat(error.message),
        6 => LastFmApiError::InvalidParameters(error.message),
        7 => LastFmApiError::InvalidResourceSpecified,
        9 => LastFmApiError::InvalidSessionKey(error.message),
        10 => LastFmApiError::InvalidApiKey(error.message),
        11 => LastFmApiError::ServiceOffline(error.message),
        13 => LastFmApiError::InvalidMethodSignatureSupplied,
        16 => LastFmApiError::TemporaryError(error.message),
        26 => LastFmApiError::SuspendedApiKey(error.message),
        29 => LastFmApiError::RateLimitExceeded(error.message),
        _ => LastFmApiError::OperationFailed(error.message),
    }
}

/// Code 8 and every code without a condition of its own are classified alike,
/// as a failed operation carrying the service's message.
pub proof fn lemma_unmapped_codes_mean_operation_failed(code: int, message: String)
    requires
        code == 8 || !is_specific_code(code),
    ensures
        api_error_for(code, message) == LastFmApiError::OperationFailed(message),
{
}

/// Why a fetch did not complete.
pub enum FetchError {
    /// Last.fm answered with an error body.
    Service(LastFmApiError),
    /// The request did not reach Last.fm or got no answer.
    Transport(String),
    /// The answer was not the expected document.
    Decode(String),
    /// A page failed on every attempt.
    PageAbandoned(i32),
}

/// The document of a successful reply, or the classified error of a failed one.
pub fn into_result<T>(response: ApiResponse<T>) -> (r: Result<T, LastFmApiError>)
    ensures
        match response {
            ApiResponse::Success(v) => r == Ok::<T, LastFmApiError>(v),
            ApiResponse::Failure(e) => r == Err::<T, LastFmApiError>(
                api_error_for(e.error as int, e.message),
            ),
        },
{
    match response {
        ApiResponse::Success(v) => Ok(v),
        ApiResponse::Failure(e) => Err(get_lastfm_api_error(e)),
    }
}

} // verus!
