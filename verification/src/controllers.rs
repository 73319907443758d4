//! What each registry endpoint answers: request interpretation, registry
//! calls and the replies they lead to. Transport (routing, JSON, headers as
//! bytes) is left to the server around the library.

use crate::auth::{opt_string, trimmed_header, trimmed_nonempty};
use crate::config::{AppConfig, ExternalEndpointResolution};
use crate::instance::{
    build_url, endpoint_url, external_response_of, http_text, https_text, EndpointView,
    ExternalServiceEndpoint, InstanceView, ServiceEndpointResponse, ServiceInstance,
};
use crate::registry::{
    find_balanced_post, find_post, heartbeat_post, opt_endpoint, register_post, registered_instance,
    unregister_post, RegistryError, RegistryStore,
};
use crate::responses::{
    error_reply, is_error_reply, is_success_reply, success_reply, ApiReply, FoundService, HealthResponse,
    RegistrationResponseView, RegistryPolicyResponse, ServiceRegistrationResponse,
    ServicesResponse, WelcomeResponse, STATUS_BAD_REQUEST, STATUS_NOT_FOUND, STATUS_REQUEST_TIMEOUT,
};
use crate::text::{
    ascii_lowercase, chars_of, copy_str, decimal, eq_ignore_ascii_case, is_blank, push_str,
    str_ascii_lowercase, str_eq_ignore_ascii_case, str_equal, string_from_chars, trim,
};
use vstd::prelude::*;

verus! {

/// Body of registration, heartbeat and unregistration requests.
#[derive(Debug)]
pub struct ServiceRegistrationRequest {
    pub service_name: String,
    pub service_version: String,
    pub service_ip: Option<String>,
    pub service_port: u16,
    pub external_host: Option<String>,
    pub external_port: Option<u16>,
    pub external_scheme: Option<String>,
}

/// The request headers the registry reads, as text (absent when missing or
/// not visible ASCII).
#[derive(Debug)]
pub struct MeshHeaders {
    /// `x-mesh-advertise-host`
    pub advertise_host: Option<String>,
    /// `x-forwarded-for`
    pub forwarded_for: Option<String>,
    /// `x-mesh-container-id`
    pub container_id: Option<String>,
    /// `x-mesh-endpoint-scope`
    pub endpoint_scope: Option<String>,
}

// ---------------------------------------------------------------------------
// Addresses
// ---------------------------------------------------------------------------

/// The text `127.0.0.1`.
pub open spec fn loopback_text() -> Seq<char> {
    "127.0.0.1"@
}

/// Loopback spellings are reported as `127.0.0.1`.
pub open spec fn loopback_normalized(ip: Seq<char>) -> Seq<char> {
    if ip == "::1"@ || ip == "::ffff:127.0.0.1"@ {
        loopback_text()
    } else {
        ip
    }
}

/// The text before the first comma.
pub open spec fn first_segment(s: Seq<char>) -> Seq<char>
    decreases s.len(),
{
    if s.len() == 0 {
        s
    } else if s[0] == ',' {
        Seq::empty()
    } else {
        seq![s[0]] + first_segment(s.drop_first())
    }
}

/// The address a request advertises: its `x-mesh-advertise-host`, else the
/// first `x-forwarded-for` entry, else `127.0.0.1`; trimmed, loopback
/// normalized.
pub open spec fn advertised_ip(advertise: Option<Seq<char>>, forwarded: Option<Seq<char>>) -> Seq<char> {
    let candidate = match trimmed_nonempty(advertise) {
        Some(a) => a,
        None => match forwarded {
            Some(f) => if trim(first_segment(f)).len() > 0 {
                trim(first_segment(f))
            } else {
                loopback_text()
            },
            None => loopback_text(),
        },
    };
    loopback_normalized(candidate)
}

/// The model of the advertised address of a request's headers.
pub open spec fn header_ip(headers: MeshHeaders) -> Seq<char> {
    advertised_ip(opt_string(headers.advertise_host), opt_string(headers.forwarded_for))
}

/// The address of a registration or heartbeat: the body's `service_ip`,
/// else the one the headers advertise.
pub open spec fn request_ip(payload: ServiceRegistrationRequest, headers: MeshHeaders) -> Seq<char> {
    match payload.service_ip {
        Some(ip) => ip@,
        None => header_ip(headers),
    }
}

/// Loopback spellings (`::1`, `::ffff:127.0.0.1`) become `127.0.0.1`.
pub fn normalize_loopback_ip(ip: &str) -> (out: String)
    ensures
        out@ == loopback_normalized(ip@),
{
    if str_equal(ip, "::1") || str_equal(ip, "::ffff:127.0.0.1") {
        copy_str("127.0.0.1")
    } else {
        copy_str(ip)
    }
}

proof fn lemma_first_segment_step(s: Seq<char>, i: int)
    requires
        0 <= i < s.len(),
        s[i] != ',',
    ensures
        s.take(i) + first_segment(s.skip(i)) == s.take(i + 1) + first_segment(s.skip(i + 1)),
{
    let t = s.skip(i);
    assert(t.drop_first() =~= s.skip(i + 1));
    assert(first_segment(t) == seq![s[i]] + first_segment(s.skip(i + 1)));
    assert(s.take(i + 1) =~= s.take(i) + seq![s[i]]);
}

/// The text before the first comma.
pub fn first_comma_segment(s: &str) -> (out: String)
    ensures
        out@ == first_segment(s@),
{
    let cs = chars_of(s);
    let mut i: usize = 0;
    assert(s@.skip(0) =~= s@);
    assert(s@.take(0) + s@.skip(0) =~= s@);
    while i < cs.len() && cs[i] != ','
        invariant
            i <= cs@.len(),
            cs@ == s@,
            first_segment(s@) == s@.take(i as int) + first_segment(s@.skip(i as int)),
        decreases cs@.len() - i,
    {
        proof {
            lemma_first_segment_step(s@, i as int);
        }
        i = i + 1;
    }
    assert(first_segment(s@.skip(i as int)) =~= Seq::<char>::empty());
    string_from_chars(&cs, 0, i)
}

/// The address a request advertises (see [`advertised_ip`]).
pub fn get_service_ip(headers: &MeshHeaders) -> (ip: String)
    ensures
        ip@ == header_ip(*headers),
{
    let advertised = match &headers.advertise_host {
        Some(a) => trimmed_header(Some(a.as_str())),
        None => None,
    };
    let candidate = match advertised {
        Some(a) => a,
        None => match &headers.forwarded_for {
            Some(f) => {
                let segment = first_comma_segment(f.as_str());
                match trimmed_header(Some(segment.as_str())) {
                    Some(t) => t,
                    None => copy_str("127.0.0.1"),
                }
            },
            None => copy_str("127.0.0.1"),
        },
    };
    normalize_loopback_ip(candidate.as_str())
}

/// The container id of a registering service: `x-mesh-container-id`, trimmed,
/// when not empty.
pub fn get_container_id(headers: &MeshHeaders) -> (id: Option<String>)
    ensures
        opt_string(id) == trimmed_nonempty(opt_string(headers.container_id)),
{
    match &headers.container_id {
        Some(c) => trimmed_header(Some(c.as_str())),
        None => None,
    }
}

/// Whether the caller asks for the internal endpoint
/// (`x-mesh-endpoint-scope: internal`, any ASCII case).
pub open spec fn internal_scope(scope: Option<Seq<char>>) -> bool {
    match scope {
        Some(s) => eq_ignore_ascii_case(s, "internal"@),
        None => false,
    }
}

/// Whether the caller asks for the internal endpoint.
pub fn wants_internal_endpoint(headers: &MeshHeaders) -> (b: bool)
    ensures
        b == internal_scope(opt_string(headers.endpoint_scope)),
{
    match &headers.endpoint_scope {
        Some(s) => str_eq_ignore_ascii_case(s.as_str(), "internal"),
        None => false,
    }
}

// ---------------------------------------------------------------------------
// External endpoints
// ---------------------------------------------------------------------------

/// The external endpoint a registration names, or why it is refused.
pub open spec fn explicit_endpoint_spec(
    host: Option<Seq<char>>,
    port: Option<u16>,
    scheme: Option<Seq<char>>,
) -> Result<Option<EndpointView>, Seq<char>> {
    let h = trimmed_nonempty(host);
    let sc = trimmed_nonempty(scheme);
    if h is None && port is None && sc is None {
        Ok(None)
    } else if h is None {
        Err("external_host is required when registering an external endpoint."@)
    } else if port is None {
        Err("external_port is required when registering an external endpoint."@)
    } else {
        let lowered = ascii_lowercase(
            match sc {
                Some(x) => x,
                None => http_text(),
            },
        );
        if lowered != http_text() && lowered != https_text() {
            Err("external_scheme must be either 'http' or 'https'."@)
        } else {
            Ok(Some(EndpointView { ip: h->0, port: port->0, scheme: lowered }))
        }
    }
}

/// The model of an endpoint check's outcome.
pub open spec fn endpoint_check_view(r: Result<Option<ExternalServiceEndpoint>, String>) -> Result<
    Option<EndpointView>,
    Seq<char>,
> {
    match r {
        Ok(e) => Ok(opt_endpoint(e)),
        Err(m) => Err(m@),
    }
}

/// The external endpoint named by a registration: host and port must come
/// together; the scheme defaults to `http`, is lower-cased, and must be
/// `http` or `https`.
pub fn explicit_external_endpoint(payload: &ServiceRegistrationRequest) -> (r: Result<
    Option<ExternalServiceEndpoint>,
    String,
>)
    ensures
        endpoint_check_view(r) == explicit_endpoint_spec(
            opt_string(payload.external_host),
            payload.external_port,
            opt_string(payload.external_scheme),
        ),
{
    let host = match &payload.external_host {
        Some(h) => trimmed_header(Some(h.as_str())),
        None => None,
    };
    let port = payload.external_port;
    let scheme = match &payload.external_scheme {
        Some(s) => trimmed_header(Some(s.as_str())),
        None => None,
    };
    proof {
        reveal_strlit("http");
        reveal_strlit("https");
        assert("http"@ =~= http_text());
        assert("https"@ =~= https_text());
    }
    if host.is_none() && port.is_none() && scheme.is_none() {
        return Ok(None);
    }
    let host = match host {
        Some(h) => h,
        None => {
            return Err(copy_str("external_host is required when registering an external endpoint."));
        },
    };
    let port = match port {
        Some(p) => p,
        None => {
            return Err(copy_str("external_port is required when registering an external endpoint."));
        },
    };
    let raw = match scheme {
        Some(s) => s,
        None => copy_str("http"),
    };
    let lowered = str_ascii_lowercase(raw.as_str());
    if !str_equal(lowered.as_str(), "http") && !str_equal(lowered.as_str(), "https") {
        return Err(copy_str("external_scheme must be either 'http' or 'https'."));
    }
    Ok(Some(ExternalServiceEndpoint { ip: host, port, scheme: lowered }))
}

/// How a registration obtains its external endpoint.
#[derive(Debug)]
pub enum EndpointPlan {
    /// Use the endpoint the registration names.
    Explicit(ExternalServiceEndpoint),
    /// Register without an external endpoint.
    Skip,
    /// Ask Docker which host port the container publishes.
    InspectContainer(String),
}

/// Explicit endpoint first; else Docker inspection when it is enabled and a
/// container id was sent; else none.
pub fn external_endpoint_plan(
    explicit: Option<ExternalServiceEndpoint>,
    container_id: Option<String>,
    resolution: &ExternalEndpointResolution,
) -> (plan: EndpointPlan)
    ensures
        match explicit {
            Some(e) => plan matches EndpointPlan::Explicit(p) && p@ == e@,
            None => match resolution {
                ExternalEndpointResolution::Disabled => plan is Skip,
                ExternalEndpointResolution::Docker => match trimmed_nonempty(
                    opt_string(container_id),
                ) {
                    Some(id) => plan matches EndpointPlan::InspectContainer(c) && c@ == id,
                    None => plan is Skip,
                },
            },
        },
{
    match explicit {
        Some(e) => EndpointPlan::Explicit(e),
        None => match resolution {
            ExternalEndpointResolution::Disabled => EndpointPlan::Skip,
            ExternalEndpointResolution::Docker => {
                let id = match &container_id {
                    Some(c) => trimmed_header(Some(c.as_str())),
                    None => None,
                };
                match id {
                    Some(c) => EndpointPlan::InspectContainer(c),
                    None => EndpointPlan::Skip,
                }
            },
        },
    }
}

// ---------------------------------------------------------------------------
// Replies
// ---------------------------------------------------------------------------

/// The registration payload for an identity and its external endpoint.
pub open spec fn registration_response_of(
    name: Seq<char>,
    version: Seq<char>,
    ip: Seq<char>,
    port: u16,
    external: Option<EndpointView>,
) -> RegistrationResponseView {
    let (pip, pport, scheme) = match external {
        Some(e) => (e.ip, e.port, e.scheme),
        None => (ip, port, http_text()),
    };
    RegistrationResponseView {
        service_name: name,
        service_version: version,
        ip: pip,
        port: pport,
        internal_ip: ip,
        internal_port: port,
        url: endpoint_url(scheme, pip, pport),
    }
}

/// The external endpoint stored with an instance: only when both its ip and
/// port are known; the scheme defaults to `http`.
pub open spec fn stored_endpoint(v: InstanceView) -> Option<EndpointView> {
    match (v.external_ip, v.external_port) {
        (Some(eip), Some(eport)) => Some(
            EndpointView {
                ip: eip,
                port: eport,
                scheme: match v.external_scheme {
                    Some(s) => s,
                    None => http_text(),
                },
            },
        ),
        _ => None,
    }
}

/// The registration payload of a stored instance.
pub open spec fn heartbeat_response_of(v: InstanceView) -> RegistrationResponseView {
    registration_response_of(v.name, v.version, v.ip, v.port, stored_endpoint(v))
}

/// A registration that names an external host and port but no scheme (or a
/// blank one) registers the endpoint with scheme `http`, and is answered with
/// the URL `http://host:port`.
pub proof fn law_external_scheme_defaults_to_http(
    host: Seq<char>,
    port: u16,
    scheme: Option<Seq<char>>,
    name: Seq<char>,
    version: Seq<char>,
    ip: Seq<char>,
    internal_port: u16,
)
    requires
        trim(host).len() > 0,
        scheme is None || is_blank(scheme->0),
    ensures
        explicit_endpoint_spec(Some(host), Some(port), scheme) == Ok::<Option<EndpointView>, Seq<char>>(
            Some(EndpointView { ip: trim(host), port, scheme: "http"@ }),
        ),
        registration_response_of(
            name,
            version,
            ip,
            internal_port,
            Some(EndpointView { ip: trim(host), port, scheme: "http"@ }),
        ).url == "http://"@ + trim(host) + ":"@ + decimal(port as nat),
{
    reveal_strlit("http");
    reveal_strlit("http://");
    reveal_strlit(":");
    assert(http_text() =~= "http"@);
    assert(ascii_lowercase(http_text()) =~= http_text());
    assert(trimmed_nonempty(scheme) is None);
    assert(endpoint_url("http"@, trim(host), port) =~= "http://"@ + trim(host) + ":"@ + decimal(
        port as nat,
    ));
}

/// The payload a heartbeat answers for a registered instance is the one its
/// registration answered, and its URL is the instance's public discovery URL;
/// for an instance without an external endpoint that is
/// `http://ip:port` on its internal address.
pub proof fn law_heartbeat_reply_matches_registration(
    name: Seq<char>,
    version: Seq<char>,
    ip: Seq<char>,
    port: u16,
    external: Option<EndpointView>,
    now: u64,
)
    requires
        external matches Some(e) ==> !is_blank(e.scheme),
    ensures
        heartbeat_response_of(registered_instance(name, version, ip, port, external, now))
            == registration_response_of(name, version, ip, port, external),
        heartbeat_response_of(registered_instance(name, version, ip, port, external, now)).url
            == external_response_of(registered_instance(name, version, ip, port, external, now)).url,
        external is None ==> {
            let r = heartbeat_response_of(registered_instance(name, version, ip, port, external, now));
            &&& r.ip == ip
            &&& r.port == port
            &&& r.internal_ip == ip
            &&& r.internal_port == port
            &&& r.url == "http://"@ + ip + ":"@ + decimal(port as nat)
        },
{
    reveal_strlit("http");
    reveal_strlit("http://");
    reveal_strlit(":");
    assert(http_text() =~= "http"@);
    let v = registered_instance(name, version, ip, port, external, now);
    assert(stored_endpoint(v) == external);
    assert(endpoint_url(http_text(), ip, port) =~= "http://"@ + ip + ":"@ + decimal(port as nat));
}

/// The registration payload: public ip, port and URL from the external
/// endpoint when there is one, internal ones otherwise.
pub fn service_registration_response(
    service_name: &str,
    service_version: &str,
    service_ip: &str,
    service_port: u16,
    external_endpoint: Option<&ExternalServiceEndpoint>,
) -> (response: ServiceRegistrationResponse)
    ensures
        response@ == registration_response_of(
            service_name@,
            service_version@,
            service_ip@,
            service_port,
            match external_endpoint {
                Some(e) => Some(e@),
                None => None,
            },
        ),
{
    let (ip, port, scheme) = match external_endpoint {
        Some(e) => (e.ip.clone(), e.port, e.scheme.clone()),
        None => (copy_str(service_ip), service_port, copy_str("http")),
    };
    proof {
        reveal_strlit("http");
        assert("http"@ =~= http_text());
    }
    let url = build_url(scheme.as_str(), ip.as_str(), port);
    ServiceRegistrationResponse {
        service_name: copy_str(service_name),
        service_version: copy_str(service_version),
        ip,
        port,
        internal_ip: copy_str(service_ip),
        internal_port: service_port,
        url,
    }
}

/// The registration payload of a stored instance.
pub fn heartbeat_response(service: &ServiceInstance) -> (response: ServiceRegistrationResponse)
    ensures
        response@ == heartbeat_response_of(service@),
{
    let endpoint = match (&service.external_ip, service.external_port) {
        (Some(eip), Some(eport)) => Some(
            ExternalServiceEndpoint {
                ip: eip.clone(),
                port: eport,
                scheme: match &service.external_scheme {
                    Some(s) => s.clone(),
                    None => copy_str("http"),
                },
            },
        ),
        _ => None,
    };
    proof {
        reveal_strlit("http");
        assert("http"@ =~= http_text());
    }
    let endpoint_ref = match &endpoint {
        Some(e) => Some(e),
        None => None,
    };
    service_registration_response(
        service.name.as_str(),
        service.version.as_str(),
        service.ip.as_str(),
        service.port,
        endpoint_ref,
    )
}

/// `prefix` + `value` + `suffix`.
fn framed(prefix: &str, value: &str, suffix: &str) -> (out: String)
    ensures
        out@ == prefix@ + value@ + suffix@,
{
    let mut out = copy_str(prefix);
    push_str(&mut out, value);
    push_str(&mut out, suffix);
    out
}

/// How a registry refusal is answered.
pub open spec fn registry_error_reply_spec<T>(e: RegistryError, reply: ApiReply<T>) -> bool {
    match e {
        RegistryError::InvalidVersion(v) => is_error_reply(
            reply,
            STATUS_BAD_REQUEST,
            "Invalid service version '"@ + v@ + "'."@,
            "INVALID_SERVICE_VERSION"@,
        ),
        RegistryError::InvalidVersionRequirement(q) => is_error_reply(
            reply,
            STATUS_BAD_REQUEST,
            "Invalid service version requirement '"@ + q@ + "'."@,
            "INVALID_SERVICE_VERSION_REQUIREMENT"@,
        ),
        RegistryError::ServiceNotRegistered => is_error_reply(
            reply,
            STATUS_NOT_FOUND,
            "Service instance is not registered."@,
            "SERVICE_NOT_REGISTERED"@,
        ),
    }
}

/// The reply to a registry refusal.
pub fn registry_error_reply<T>(e: RegistryError) -> (reply: ApiReply<T>)
    ensures
        registry_error_reply_spec(e, reply),
{
    match e {
        RegistryError::InvalidVersion(v) => error_reply(
            STATUS_BAD_REQUEST,
            framed("Invalid service version '", v.as_str(), "'."),
            copy_str("INVALID_SERVICE_VERSION"),
        ),
        RegistryError::InvalidVersionRequirement(q) => error_reply(
            STATUS_BAD_REQUEST,
            framed("Invalid service version requirement '", q.as_str(), "'."),
            copy_str("INVALID_SERVICE_VERSION_REQUIREMENT"),
        ),
        RegistryError::ServiceNotRegistered => error_reply(
            STATUS_NOT_FOUND,
            copy_str("Service instance is not registered."),
            copy_str("SERVICE_NOT_REGISTERED"),
        ),
    }
}

/// The reply to a request body that could not be read: 400 with the reader's
/// explanation. `action` names the request (`registration`, `heartbeat`,
/// `unregistration`).
pub fn invalid_body_reply(action: &str, detail: &str) -> (reply: ApiReply<ServiceRegistrationResponse>)
    ensures
        is_error_reply(
            reply,
            STATUS_BAD_REQUEST,
            "Invalid service "@ + action@ + " request body: "@ + detail@,
            "INVALID_REQUEST_BODY"@,
        ),
{
    let mut message = framed("Invalid service ", action, " request body: ");
    push_str(&mut message, detail);
    error_reply(STATUS_BAD_REQUEST, message, copy_str("INVALID_REQUEST_BODY"))
}

/// The reply to a request that ran out of time.
pub fn timeout_reply() -> (reply: ApiReply<()>)
    ensures
        is_error_reply(reply, STATUS_REQUEST_TIMEOUT, "Request timed out"@, "REQUEST_TIMEOUT"@),
{
    error_reply(STATUS_REQUEST_TIMEOUT, copy_str("Request timed out"), copy_str("REQUEST_TIMEOUT"))
}

/// A registration request after validation, waiting for its external endpoint.
#[derive(Debug)]
pub struct RegistrationPlan {
    pub service_name: String,
    pub service_version: String,
    pub service_ip: String,
    pub service_port: u16,
    pub endpoint: EndpointPlan,
}

/// First half of a registration: the service address (body, else headers),
/// the external endpoint check and how the endpoint is to be obtained.
pub fn plan_registration(
    payload: ServiceRegistrationRequest,
    headers: &MeshHeaders,
    resolution: &ExternalEndpointResolution,
) -> (r: Result<RegistrationPlan, ApiReply<ServiceRegistrationResponse>>)
    ensures
        match explicit_endpoint_spec(
            opt_string(payload.external_host),
            payload.external_port,
            opt_string(payload.external_scheme),
        ) {
            Err(m) => r matches Err(reply) && is_error_reply(
                reply,
                STATUS_BAD_REQUEST,
                m,
                "INVALID_EXTERNAL_ENDPOINT"@,
            ),
            Ok(explicit) => r matches Ok(plan) && {
                &&& plan.service_name@ == payload.service_name@
                &&& plan.service_version@ == payload.service_version@
                &&& plan.service_port == payload.service_port
                &&& plan.service_ip@ == request_ip(payload, *headers)
                &&& match explicit {
                    Some(e) => plan.endpoint matches EndpointPlan::Explicit(p) && p@ == e,
                    None => match resolution {
                        ExternalEndpointResolution::Disabled => plan.endpoint is Skip,
                        ExternalEndpointResolution::Docker => match trimmed_nonempty(
                            opt_string(headers.container_id),
                        ) {
                            Some(id) => plan.endpoint matches EndpointPlan::InspectContainer(c)
                                && c@ == id,
                            None => plan.endpoint is Skip,
                        },
                    },
                }
            },
        },
{
    let service_ip = match &payload.service_ip {
        Some(ip) => ip.clone(),
        None => get_service_ip(headers),
    };
    let explicit = match explicit_external_endpoint(&payload) {
        Ok(e) => e,
        Err(message) => {
            return Err(error_reply(STATUS_BAD_REQUEST, message, copy_str("INVALID_EXTERNAL_ENDPOINT")));
        },
    };
    let container_id = get_container_id(headers);
    proof {
        if let Some(c) = &headers.container_id {
            crate::text::lemma_trim_idempotent(c@);
        }
    }
    let endpoint = external_endpoint_plan(explicit, container_id, resolution);
    assert(service_ip@ == request_ip(payload, *headers));
    Ok(
        RegistrationPlan {
            service_name: payload.service_name,
            service_version: payload.service_version,
            service_ip,
            service_port: payload.service_port,
            endpoint,
        },
    )
}

/// The external endpoint a plan ends with, given what inspection found.
pub open spec fn planned_endpoint(plan: EndpointPlan, inspected: Option<ExternalServiceEndpoint>) -> Option<
    EndpointView,
> {
    match plan {
        EndpointPlan::Explicit(e) => Some(e@),
        EndpointPlan::Skip => None,
        EndpointPlan::InspectContainer(_) => opt_endpoint(inspected),
    }
}

/// Second half of a registration at time `now`: register with the planned
/// endpoint (`inspected` is what Docker inspection found, used only when the
/// plan asked for it) and answer.
pub fn finish_registration(
    store: &mut RegistryStore,
    plan: RegistrationPlan,
    inspected: Option<ExternalServiceEndpoint>,
    now: u64,
) -> (reply: ApiReply<ServiceRegistrationResponse>)
    ensures
        ({
            let ext = planned_endpoint(plan.endpoint, inspected);
            exists|r: Result<String, RegistryError>|
                #[trigger] register_post(
                    old(store)@,
                    final(store)@,
                    plan.service_name@,
                    plan.service_version@,
                    plan.service_ip@,
                    plan.service_port,
                    ext,
                    now,
                    r,
                ) && match r {
                    Ok(_) => is_success_reply(reply, "Service registered successfully"@) && (
                    reply.body.response matches Some(p) && p@ == registration_response_of(
                        plan.service_name@,
                        plan.service_version@,
                        plan.service_ip@,
                        plan.service_port,
                        ext,
                    )),
                    Err(e) => registry_error_reply_spec(e, reply),
                }
        }),
        final(store)@.wf(),
{
    let ghost ext = planned_endpoint(plan.endpoint, inspected);
    let external = match plan.endpoint {
        EndpointPlan::Explicit(e) => Some(e),
        EndpointPlan::Skip => None,
        EndpointPlan::InspectContainer(_) => inspected,
    };
    assert(opt_endpoint(external) == ext);
    let external_ref = match &external {
        Some(e) => Some(e),
        None => None,
    };
    let response = service_registration_response(
        plan.service_name.as_str(),
        plan.service_version.as_str(),
        plan.service_ip.as_str(),
        plan.service_port,
        external_ref,
    );
    let ghost (n0, v0, i0) = (plan.service_name@, plan.service_version@, plan.service_ip@);
    let r = store.register_at(
        plan.service_name,
        plan.service_version,
        plan.service_ip,
        plan.service_port,
        external,
        now,
    );
    let ghost rr = r;
    let reply = match r {
        Ok(_) => success_reply(copy_str("Service registered successfully"), response),
        Err(e) => registry_error_reply(e),
    };
    assert(register_post(old(store)@, store@, n0, v0, i0, plan.service_port, ext, now, rr));
    reply
}

/// A heartbeat at time `now`: the address comes from the body, else the
/// headers; answers with the refreshed instance's registration payload.
pub fn heartbeat_service(
    store: &mut RegistryStore,
    payload: ServiceRegistrationRequest,
    headers: &MeshHeaders,
    now: u64,
) -> (reply: ApiReply<ServiceRegistrationResponse>)
    ensures
        ({
            let ip = request_ip(payload, *headers);
            exists|r: Result<ServiceInstance, RegistryError>|
                #[trigger] heartbeat_post(
                    old(store)@,
                    final(store)@,
                    payload.service_name@,
                    payload.service_version@,
                    ip,
                    payload.service_port,
                    now,
                    r,
                ) && match r {
                    Ok(s) => is_success_reply(reply, "Service heartbeat refreshed successfully"@) && (
                    reply.body.response matches Some(p) && p@ == heartbeat_response_of(s@)),
                    Err(e) => registry_error_reply_spec(e, reply),
                }
        }),
        final(store)@.wf(),
{
    let service_ip = match &payload.service_ip {
        Some(ip) => ip.clone(),
        None => get_service_ip(headers),
    };
    let ghost ip = service_ip@;
    assert(ip == request_ip(payload, *headers));
    let r = store.heartbeat_at(
        payload.service_name,
        payload.service_version,
        service_ip,
        payload.service_port,
        now,
    );
    let ghost rr = r;
    let reply = match r {
        Ok(s) => success_reply(
            copy_str("Service heartbeat refreshed successfully"),
            heartbeat_response(&s),
        ),
        Err(e) => registry_error_reply(e),
    };
    assert(heartbeat_post(
        old(store)@,
        store@,
        payload.service_name@,
        payload.service_version@,
        request_ip(payload, *headers),
        payload.service_port,
        now,
        rr,
    ) && match rr {
        Ok(s) => is_success_reply(reply, "Service heartbeat refreshed successfully"@) && (
        reply.body.response matches Some(p) && p@ == heartbeat_response_of(s@)),
        Err(e) => registry_error_reply_spec(e, reply),
    });
    reply
}

/// An unregistration at time `now`: the address comes from the headers;
/// answers with the removed instance's registration payload, 404 when there
/// was none.
pub fn unregister_service(
    store: &mut RegistryStore,
    payload: ServiceRegistrationRequest,
    headers: &MeshHeaders,
    now: u64,
) -> (reply: ApiReply<ServiceRegistrationResponse>)
    ensures
        exists|r: Result<ServiceInstance, RegistryError>|
            #[trigger] unregister_post(
                old(store)@,
                final(store)@,
                payload.service_name@,
                payload.service_version@,
                header_ip(*headers),
                payload.service_port,
                now,
                r,
            ) && match r {
                Ok(s) => is_success_reply(reply, "Service unregistered successfully"@) && (
                reply.body.response matches Some(p) && p@ == heartbeat_response_of(s@)),
                Err(e) => registry_error_reply_spec(e, reply),
            },
        final(store)@.wf(),
{
    let service_ip = get_service_ip(headers);
    let ghost ip = service_ip@;
    let r = store.unregister_at(
        payload.service_name,
        payload.service_version,
        service_ip,
        payload.service_port,
        now,
    );
    let ghost rr = r;
    let reply = match r {
        Ok(s) => success_reply(copy_str("Service unregistered successfully"), heartbeat_response(&s)),
        Err(e) => registry_error_reply(e),
    };
    assert(unregister_post(
        old(store)@,
        store@,
        payload.service_name@,
        payload.service_version@,
        ip,
        payload.service_port,
        now,
        rr,
    ));
    reply
}

/// How a lookup's outcome is answered.
pub open spec fn lookup_reply_spec(
    r: Result<Option<ServiceInstance>, RegistryError>,
    internal: bool,
    reply: ApiReply<FoundService>,
) -> bool {
    match r {
        Ok(Some(s)) => is_success_reply(reply, "Service found successfully"@) && if internal {
            reply.body.response matches Some(FoundService::Internal(x)) && x@ == s@
        } else {
            reply.body.response matches Some(FoundService::Public(x)) && x@ == external_response_of(
                s@,
            )
        },
        Ok(None) => is_error_reply(
            reply,
            STATUS_NOT_FOUND,
            "No matching service found."@,
            "SERVICE_NOT_FOUND"@,
        ),
        Err(e) => registry_error_reply_spec(e, reply),
    }
}

/// The reply to a lookup's outcome.
fn lookup_reply(r: Result<Option<ServiceInstance>, RegistryError>, internal: bool) -> (reply: ApiReply<
    FoundService,
>)
    ensures
        lookup_reply_spec(r, internal, reply),
{
    match r {
        Ok(Some(s)) => {
            let payload = if internal {
                FoundService::Internal(s)
            } else {
                FoundService::Public(s.external_response())
            };
            success_reply(copy_str("Service found successfully"), payload)
        },
        Ok(None) => error_reply(
            STATUS_NOT_FOUND,
            copy_str("No matching service found."),
            copy_str("SERVICE_NOT_FOUND"),
        ),
        Err(e) => registry_error_reply(e),
    }
}

/// A port-specific lookup at time `now`.
pub fn find_service(
    store: &mut RegistryStore,
    name: &str,
    version_requirement: &str,
    port: u16,
    headers: &MeshHeaders,
    now: u64,
) -> (reply: ApiReply<FoundService>)
    ensures
        exists|r: Result<Option<ServiceInstance>, RegistryError>|
            #[trigger] find_post(old(store)@, final(store)@, name@, version_requirement@, port, now, r)
                && lookup_reply_spec(r, internal_scope(opt_string(headers.endpoint_scope)), reply),
        final(store)@.wf(),
{
    let internal = wants_internal_endpoint(headers);
    let r = store.find_at(name, version_requirement, port, now);
    let ghost rr = r;
    let reply = lookup_reply(r, internal);
    assert(find_post(old(store)@, store@, name@, version_requirement@, port, now, rr));
    reply
}

/// A load-balanced lookup at time `now`.
pub fn find_balanced_service(
    store: &mut RegistryStore,
    name: &str,
    version_requirement: &str,
    headers: &MeshHeaders,
    now: u64,
) -> (reply: ApiReply<FoundService>)
    ensures
        exists|r: Result<Option<ServiceInstance>, RegistryError>|
            #[trigger] find_balanced_post(old(store)@, final(store)@, name@, version_requirement@, now, r)
                && lookup_reply_spec(r, internal_scope(opt_string(headers.endpoint_scope)), reply),
        final(store)@.wf(),
{
    let internal = wants_internal_endpoint(headers);
    let r = store.find_balanced_at(name, version_requirement, now);
    let ghost rr = r;
    let reply = lookup_reply(r, internal);
    assert(find_balanced_post(old(store)@, store@, name@, version_requirement@, now, rr));
    reply
}

/// The listing at time `now`: every live instance's public endpoint, in
/// identity order, with their count.
pub fn list_services(store: &mut RegistryStore, now: u64) -> (reply: ApiReply<ServicesResponse>)
    ensures
        exists|listed: Seq<ServiceInstance>|
            #[trigger] crate::registry::list_post(old(store)@, final(store)@, now, listed) && {
                &&& is_success_reply(reply, "Services listed successfully"@)
                &&& reply.body.response matches Some(p) && p.services_count == p.services@.len()
                    && p.services@.len() == listed.len() && forall|i: int|
                    0 <= i < listed.len() ==> (#[trigger] p.services@[i])@ == external_response_of(
                        listed[i]@,
                    )
            },
        final(store)@.wf(),
{
    let listed = store.list_at(now);
    let mut services: Vec<ServiceEndpointResponse> = Vec::new();
    let mut i: usize = 0;
    while i < listed.len()
        invariant
            i <= listed@.len(),
            services@.len() == i,
            forall|k: int| 0 <= k < i ==> (#[trigger] services@[k])@ == external_response_of(listed@[k]@),
        decreases listed@.len() - i,
    {
        services.push(listed[i].external_response());
        i = i + 1;
    }
    let count = services.len();
    let reply = success_reply(
        copy_str("Services listed successfully"),
        ServicesResponse { services_count: count, services },
    );
    assert(crate::registry::list_post(old(store)@, store@, now, listed@));
    reply
}

/// The health check: the service's name and the registry's lease policy.
pub fn health_check(config: &AppConfig) -> (reply: ApiReply<HealthResponse>)
    ensures
        is_success_reply(reply, "Mesh service is healthy"@),
        reply.body.response matches Some(h) && h.status@ == "ok"@ && h.service@ == config.app.name@
            && h.registry_policy.heartbeat_interval_secs == config.registry.heartbeat_interval_secs
            && h.registry_policy.service_ttl_secs == config.registry.service_ttl_secs,
{
    success_reply(
        copy_str("Mesh service is healthy"),
        HealthResponse {
            status: copy_str("ok"),
            service: config.app.name.clone(),
            registry_policy: RegistryPolicyResponse {
                heartbeat_interval_secs: config.registry.heartbeat_interval_secs,
                service_ttl_secs: config.registry.service_ttl_secs,
            },
        },
    )
}

/// The welcome message, pointing at the health and registry routes.
pub fn welcome(config: &AppConfig) -> (reply: ApiReply<WelcomeResponse>)
    ensures
        is_success_reply(reply, "Welcome to Rusty Mesh"@),
        reply.body.response matches Some(w) && w.status@ == "ok"@ && w.service@ == config.app.name@
            && w.health_url@ == "/api/v1/mesh/health"@ && w.registry_url@ == "/api/v1/mesh/services"@,
{
    success_reply(
        copy_str("Welcome to Rusty Mesh"),
        WelcomeResponse {
            status: copy_str("ok"),
            service: config.app.name.clone(),
            health_url: copy_str("/api/v1/mesh/health"),
            registry_url: copy_str("/api/v1/mesh/services"),
        },
    )
}

} // verus!
