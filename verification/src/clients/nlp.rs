//! Client of the NLP service.

use vstd::prelude::*;
use crate::clients::Client;

verus! {

/// The service's port where its configuration names none.
pub const DEFAULT_PORT: u16 = 8085;

/// Name of the header that carries the model's identifier.
pub const MODEL_ID_HEADER_NAME: &'static str = "mm-model-id";

/// Status code of a gRPC call.
#[derive(Clone, Copy, Debug, PartialEq, Eq, Structural)]
pub enum Code {
    Okay,
    Cancelled,
    Unknown,
    InvalidArgument,
    DeadlineExceeded,
    NotFound,
    AlreadyExists,
    PermissionDenied,
    ResourceExhausted,
    FailedPrecondition,
    Aborted,
    OutOfRange,
    Unimplemented,
    Internal,
    Unavailable,
    DataLoss,
    Unauthenticated,
}

/// Whether a service can be used.
#[derive(Clone, Copy, Debug, PartialEq, Eq, Structural)]
pub enum HealthStatus {
    Healthy,
    Unhealthy,
}

/// What a health check found.
#[derive(Debug)]
pub struct HealthCheckResult {
    pub status: HealthStatus,
    pub code: Code,
    pub reason: Option<String>,
}

/// The code that a health check counts: `Okay` for a call that succeeded, and
/// for one that the service refused as an invalid argument or as not found,
/// since a service that answers so is up; else the code of the failure.
pub open spec fn spec_health_code(outcome: Result<(), Code>) -> Code {
    match outcome {
        Ok(_) => Code::Okay,
        Err(Code::InvalidArgument) => Code::Okay,
        Err(Code::NotFound) => Code::Okay,
        Err(code) => code,
    }
}

/// The code that a health check counts.
pub fn health_code(outcome: Result<(), Code>) -> (r: Code)
    ensures
        r == spec_health_code(outcome),
{
    match outcome {
        Ok(_) => Code::Okay,
        Err(Code::InvalidArgument) => Code::Okay,
        Err(Code::NotFound) => Code::Okay,
        Err(code) => code,
    }
}

/// What a health check found, from the outcome of the call: healthy if and
/// only if the counted code is `Okay`; no reason is given.
pub fn health_of(outcome: Result<(), Code>) -> (r: HealthCheckResult)
    ensures
        r.code == spec_health_code(outcome),
        r.status == (if spec_health_code(outcome) == Code::Okay {
            HealthStatus::Healthy
        } else {
            HealthStatus::Unhealthy
        }),
        r.reason is None,
{
    let code = health_code(outcome);
    let status = if code == Code::Okay {
        HealthStatus::Healthy
    } else {
        HealthStatus::Unhealthy
    };
    HealthCheckResult { status, code, reason: None }
}

/// A client of the NLP service over a service client `C` and a health
/// client `H`.
#[derive(Clone)]
pub struct NlpClient<C, H> {
    pub client: C,
    pub health_client: H,
}

impl<C, H> NlpClient<C, H> {
    pub fn new(client: C, health_client: H) -> (r: Self)
        ensures
            r.client == client,
            r.health_client == health_client,
    {
        NlpClient { client, health_client }
    }

    /// What a health check of the service found, from the outcome of the
    /// call.
    pub fn health(&self, outcome: Result<(), Code>) -> (r: HealthCheckResult)
        ensures
            r.code == spec_health_code(outcome),
            r.status == (if spec_health_code(outcome) == Code::Okay {
                HealthStatus::Healthy
            } else {
                HealthStatus::Unhealthy
            }),
            r.reason is None,
    {
        health_of(outcome)
    }
}

impl<C: Send + Sync + 'static, H: Send + Sync + 'static> Client for NlpClient<C, H> {
    fn name(&self) -> (r: &str)
        ensures
            r@ == "nlp"@,
    {
        "nlp"
    }
}

} // verus!
