//! The response envelope of the mesh API and the payloads it carries.

use crate::instance::{ServiceEndpointResponse, ServiceInstance};
use vstd::prelude::*;

verus! {

/// HTTP 200.
pub const STATUS_OK: u16 = 200;

/// HTTP 400.
pub const STATUS_BAD_REQUEST: u16 = 400;

/// HTTP 401.
pub const STATUS_UNAUTHORIZED: u16 = 401;

/// HTTP 404.
pub const STATUS_NOT_FOUND: u16 = 404;

/// HTTP 408.
pub const STATUS_REQUEST_TIMEOUT: u16 = 408;

/// HTTP 500.
pub const STATUS_INTERNAL_SERVER_ERROR: u16 = 500;

/// The error part of a response.
#[derive(Debug)]
pub struct ApiError {
    pub message: String,
    pub code: String,
}

/// Every response body: a message, the payload on success, the error otherwise.
#[derive(Debug)]
pub struct ApiResponse<T> {
    pub response_message: String,
    pub response: Option<T>,
    pub error: Option<ApiError>,
}

/// A response body with the HTTP status it is sent with.
#[derive(Debug)]
pub struct ApiReply<T> {
    pub status: u16,
    pub body: ApiResponse<T>,
}

/// Payload of registration, heartbeat and unregistration responses.
#[derive(Debug)]
pub struct ServiceRegistrationResponse {
    pub service_name: String,
    pub service_version: String,
    pub ip: String,
    pub port: u16,
    pub internal_ip: String,
    pub internal_port: u16,
    pub url: String,
}

/// Mathematical model of a [`ServiceRegistrationResponse`].
pub struct RegistrationResponseView {
    pub service_name: Seq<char>,
    pub service_version: Seq<char>,
    pub ip: Seq<char>,
    pub port: u16,
    pub internal_ip: Seq<char>,
    pub internal_port: u16,
    pub url: Seq<char>,
}

impl View for ServiceRegistrationResponse {
    type V = RegistrationResponseView;

    open spec fn view(&self) -> RegistrationResponseView {
        RegistrationResponseView {
            service_name: self.service_name@,
            service_version: self.service_version@,
            ip: self.ip@,
            port: self.port,
            internal_ip: self.internal_ip@,
            internal_port: self.internal_port,
            url: self.url@,
        }
    }
}

/// Payload of the health check.
#[derive(Debug)]
pub struct HealthResponse {
    pub status: String,
    pub service: String,
    pub registry_policy: RegistryPolicyResponse,
}

/// The registry's lease policy, as the health check reports it.
#[derive(Debug)]
pub struct RegistryPolicyResponse {
    pub heartbeat_interval_secs: u64,
    pub service_ttl_secs: u64,
}

/// Payload of the listing.
#[derive(Debug)]
pub struct ServicesResponse {
    pub services_count: usize,
    pub services: Vec<ServiceEndpointResponse>,
}

/// Payload of the welcome endpoints.
#[derive(Debug)]
pub struct WelcomeResponse {
    pub status: String,
    pub service: String,
    pub health_url: String,
    pub registry_url: String,
}

/// Payload of a successful lookup: the stored instance for internal-scope
/// callers, its public endpoint for everyone else.
#[derive(Debug)]
pub enum FoundService {
    Internal(ServiceInstance),
    Public(ServiceEndpointResponse),
}

impl<T> ApiResponse<T> {
    /// A successful response carrying `response`.
    pub fn success(message: String, response: T) -> (r: Self)
        ensures
            r.response_message == message,
            r.response == Some(response),
            r.error is None,
    {
        ApiResponse { response_message: message, response: Some(response), error: None }
    }

    /// A failed response: the message is both the response message and the
    /// error's message.
    pub fn error(message: String, code: String) -> (r: Self)
        ensures
            r.response_message@ == message@,
            r.response is None,
            r.error matches Some(e) && e.message@ == message@ && e.code@ == code@,
    {
        let copy = message.clone();
        ApiResponse {
            response_message: message,
            response: None,
            error: Some(ApiError { message: copy, code }),
        }
    }
}

/// A reply with status `status` and a failed body.
pub fn error_reply<T>(status: u16, message: String, code: String) -> (r: ApiReply<T>)
    ensures
        r.status == status,
        r.body.response_message@ == message@,
        r.body.response is None,
        r.body.error matches Some(e) && e.message@ == message@ && e.code@ == code@,
{
    ApiReply { status, body: ApiResponse::error(message, code) }
}

/// A 200 reply carrying `response`.
pub fn success_reply<T>(message: String, response: T) -> (r: ApiReply<T>)
    ensures
        r.status == STATUS_OK,
        r.body.response_message == message,
        r.body.response == Some(response),
        r.body.error is None,
{
    ApiReply { status: STATUS_OK, body: ApiResponse::success(message, response) }
}

/// Whether `r` is a failed reply with this status, message and code.
pub open spec fn is_error_reply<T>(r: ApiReply<T>, status: u16, message: Seq<char>, code: Seq<char>) -> bool {
    &&& r.status == status
    &&& r.body.response_message@ == message
    &&& r.body.response is None
    &&& r.body.error matches Some(e) && e.message@ == message && e.code@ == code
}

/// Whether `r` is a 200 reply with this message.
pub open spec fn is_success_reply<T>(r: ApiReply<T>, message: Seq<char>) -> bool {
    &&& r.status == STATUS_OK
    &&& r.body.response_message@ == message
    &&& r.body.response is Some
    &&& r.body.error is None
}

} // verus!
