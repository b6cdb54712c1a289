//! The service as clients see it: paths, and the status and text of errors.
use vstd::prelude::*;

use crate::audio::AudioError;
use crate::scores::GenderResponse;

verus! {

/// What the service offers.
#[derive(Clone, Copy, Debug, PartialEq, Eq, Structural)]
pub enum Endpoint {
    /// Tells that the service is up.
    Health,
    /// Classifies the audio in the body of a request.
    Classify,
}

impl Endpoint {
    /// The path of the endpoint.
    pub open spec fn path_text(self) -> Seq<char> {
        match self {
            Endpoint::Health => "/health"@,
            Endpoint::Classify => "/v1/gender"@,
        }
    }

    /// The path of the endpoint.
    pub fn path(self) -> (path: &'static str)
        ensures
            path@ == self.path_text(),
    {
        match self {
            Endpoint::Health => "/health",
            Endpoint::Classify => "/v1/gender",
        }
    }
}

/// The status that tells that the service is up, without more to say.
pub const NO_CONTENT: u16 = 204;

/// The status of a request whose body cannot be used.
pub const BAD_REQUEST: u16 = 400;

/// The status of a request that cannot be answered.
pub const SERVICE_UNAVAILABLE: u16 = 503;

/// What the health check answers.
pub fn healthz() -> (status: u16)
    ensures
        status == NO_CONTENT,
        status == 204,
{
    NO_CONTENT
}

/// The status and the text that a client gets in place of an answer.
pub struct ApiError {
    pub status: u16,
    pub message: String,
}

impl ApiError {
    /// The body of a request cannot be used.
    pub fn bad_request(message: String) -> (err: ApiError)
        ensures
            err == (ApiError { status: BAD_REQUEST, message }),
            err.status == 400,
    {
        ApiError { status: BAD_REQUEST, message }
    }

    /// A request cannot be answered.
    pub fn unavailable(message: String) -> (err: ApiError)
        ensures
            err == (ApiError { status: SERVICE_UNAVAILABLE, message }),
            err.status == 503,
    {
        ApiError { status: SERVICE_UNAVAILABLE, message }
    }
}

/// What a client is told of a body that cannot be used.
pub fn refuse(err: &AudioError) -> (refusal: ApiError)
    ensures
        refusal.status == BAD_REQUEST,
        refusal.status == 400,
        refusal.message@ == err@.text(),
{
    ApiError::bad_request(err.message())
}

/// What became of a request that was handed on to the worker.
pub enum Delivery {
    /// The worker no longer takes requests.
    NotRunning,
    /// The worker has let go of the request.
    Dropped,
    /// The worker has told the answer, or an error.
    Told { reply: Result<GenderResponse, String> },
}

/// What a client is told of a request that was handed on to the worker.
pub fn conclude(delivery: Delivery) -> (r: Result<GenderResponse, ApiError>)
    ensures
        match delivery {
            Delivery::NotRunning => {
                &&& r matches Err(err)
                &&& err.status == SERVICE_UNAVAILABLE
                &&& err.message@ == "batch worker is not running"@
            },
            Delivery::Dropped => {
                &&& r matches Err(err)
                &&& err.status == SERVICE_UNAVAILABLE
                &&& err.message@ == "batch worker dropped the request"@
            },
            Delivery::Told { reply: Ok(response) } => r == Ok::<GenderResponse, ApiError>(response),
            Delivery::Told { reply: Err(message) } => r == Err::<GenderResponse, ApiError>(
                ApiError { status: SERVICE_UNAVAILABLE, message },
            ),
        },
        r matches Err(err) ==> err.status == 503,
{
    match delivery {
        Delivery::NotRunning => Err(
            ApiError::unavailable("batch worker is not running".to_owned()),
        ),
        Delivery::Dropped => Err(
            ApiError::unavailable("batch worker dropped the request".to_owned()),
        ),
        Delivery::Told { reply } => match reply {
            Ok(response) => Ok(response),
            Err(message) => Err(ApiError::unavailable(message)),
        },
    }
}

/// The paths under which the service is found.
pub proof fn endpoints_have_their_paths()
    ensures
        Endpoint::Health.path_text() == "/health"@,
        Endpoint::Classify.path_text() == "/v1/gender"@,
{
}

} // verus!
