//! What a service that registers itself with the mesh computes before it
//! talks to the registry: its normalized settings, the registration body it
//! sends, and the addresses it calls. Sending the requests is left to the
//! caller.

use crate::auth::{trimmed_header, trimmed_nonempty};
use crate::controllers::ServiceRegistrationRequest;
use crate::instance::{copy_opt_string, opt_text};
use crate::text::{
    chars_of, copy_str, decimal, push_char, push_decimal, push_str, string_from_chars,
};
use vstd::prelude::*;

verus! {

/// A service instance the mesh answered a discovery request with.
#[derive(Debug)]
pub struct ServiceInstance {
    pub name: String,
    pub ip: String,
    pub port: u16,
}

/// The endpoint the mesh recorded for a registration.
#[derive(Debug)]
pub struct EndpointDetails {
    pub ip: String,
    pub port: u16,
    pub internal_ip: String,
    pub internal_port: u16,
    pub url: String,
}

// ---------------------------------------------------------------------------
// Version requirements in a path
// ---------------------------------------------------------------------------

/// How one character of a version requirement is written in a URL path.
pub open spec fn percent_encoded(c: char) -> Seq<char> {
    if c == '^' {
        seq!['%', '5', 'E']
    } else if c == '>' {
        seq!['%', '3', 'E']
    } else if c == '<' {
        seq!['%', '3', 'C']
    } else if c == '=' {
        seq!['%', '3', 'D']
    } else if c == ' ' {
        seq!['%', '2', '0']
    } else {
        seq![c]
    }
}

/// A version requirement written for a URL path: `^`, `>`, `<`, `=` and
/// space percent-encoded, every other character kept.
pub open spec fn encoded_requirement(s: Seq<char>) -> Seq<char>
    decreases s.len(),
{
    if s.len() == 0 {
        Seq::empty()
    } else {
        encoded_requirement(s.drop_last()) + percent_encoded(s.last())
    }
}

/// Writes a version requirement for a URL path.
pub fn encode_version_requirement(requirement: &str) -> (out: String)
    ensures
        out@ == encoded_requirement(requirement@),
{
    let mut out = String::new();
    let cs = chars_of(requirement);
    let ghost s = requirement@;
    let mut i: usize = 0;
    let n = cs.len();
    assert(s.take(0) =~= Seq::<char>::empty());
    while i < n
        invariant
            i <= n == s.len(),
            s == requirement@,
            cs@ == s,
            out@ == encoded_requirement(s.take(i as int)),
        decreases n - i,
    {
        let c = cs[i];
        assert(s.take(i + 1).drop_last() =~= s.take(i as int));
        assert(s.take(i + 1).last() == c);
        if c == '^' {
            push_char(&mut out, '%');
            push_char(&mut out, '5');
            push_char(&mut out, 'E');
        } else if c == '>' {
            push_char(&mut out, '%');
            push_char(&mut out, '3');
            push_char(&mut out, 'E');
        } else if c == '<' {
            push_char(&mut out, '%');
            push_char(&mut out, '3');
            push_char(&mut out, 'C');
        } else if c == '=' {
            push_char(&mut out, '%');
            push_char(&mut out, '3');
            push_char(&mut out, 'D');
        } else if c == ' ' {
            push_char(&mut out, '%');
            push_char(&mut out, '2');
            push_char(&mut out, '0');
        } else {
            push_char(&mut out, c);
        }
        assert(out@ =~= encoded_requirement(s.take(i + 1)));
        i = i + 1;
    }
    assert(s.take(n as int) =~= s);
    out
}

// ---------------------------------------------------------------------------
// Client settings
// ---------------------------------------------------------------------------

/// `s` without its trailing `/` characters.
pub open spec fn trim_end_slashes(s: Seq<char>) -> Seq<char>
    decreases s.len(),
{
    if s.len() > 0 && s.last() == '/' {
        trim_end_slashes(s.drop_last())
    } else {
        s
    }
}

/// The model of a registry client's settings.
pub struct ClientView {
    pub mesh_url: Seq<char>,
    pub mesh_token: Option<Seq<char>>,
    pub advertised_host: Seq<char>,
    pub service_name: Seq<char>,
    pub service_version: Seq<char>,
    pub service_port: u16,
    pub container_id: Option<Seq<char>>,
    pub external_host: Option<Seq<char>>,
    pub external_port: Option<u16>,
    pub external_scheme: Seq<char>,
}

/// The settings a service uses to register itself with the mesh and find
/// its peers through it.
#[derive(Debug)]
pub struct MeshRegistryClient {
    mesh_url: String,
    mesh_token: Option<String>,
    advertised_host: String,
    service_name: String,
    service_version: String,
    service_port: u16,
    container_id: Option<String>,
    external_host: Option<String>,
    external_port: Option<u16>,
    external_scheme: String,
}

impl View for MeshRegistryClient {
    type V = ClientView;

    closed spec fn view(&self) -> ClientView {
        ClientView {
            mesh_url: self.mesh_url@,
            mesh_token: opt_text(self.mesh_token),
            advertised_host: self.advertised_host@,
            service_name: self.service_name@,
            service_version: self.service_version@,
            service_port: self.service_port,
            container_id: opt_text(self.container_id),
            external_host: opt_text(self.external_host),
            external_port: self.external_port,
            external_scheme: self.external_scheme@,
        }
    }
}

/// A service advertises an external endpoint only when both its host and
/// its port are set.
pub open spec fn has_external_endpoint(c: ClientView) -> bool {
    c.external_host is Some && c.external_port is Some
}

/// The model of the registration body a client sends.
pub open spec fn registration_body_of(c: ClientView) -> (
    Seq<char>,
    Seq<char>,
    u16,
    Option<Seq<char>>,
    Option<u16>,
    Option<Seq<char>>,
) {
    if has_external_endpoint(c) {
        (
            c.service_name,
            c.service_version,
            c.service_port,
            c.external_host,
            c.external_port,
            Some(c.external_scheme),
        )
    } else {
        (c.service_name, c.service_version, c.service_port, None, None, None)
    }
}

/// The model of a registration request's body fields (its service IP aside).
pub open spec fn request_body_view(r: ServiceRegistrationRequest) -> (
    Seq<char>,
    Seq<char>,
    u16,
    Option<Seq<char>>,
    Option<u16>,
    Option<Seq<char>>,
) {
    (
        r.service_name@,
        r.service_version@,
        r.service_port,
        opt_text(r.external_host),
        r.external_port,
        opt_text(r.external_scheme),
    )
}

/// The registry's services endpoint under `mesh_url`.
pub open spec fn services_url_of(mesh_url: Seq<char>) -> Seq<char> {
    mesh_url + "/api/v1/mesh/services"@
}

/// The registry's heartbeat endpoint under `mesh_url`.
pub open spec fn heartbeat_url_of(mesh_url: Seq<char>) -> Seq<char> {
    mesh_url + "/api/v1/mesh/services/heartbeat"@
}

/// The version requirement a client discovers its peers with.
pub open spec fn discovery_requirement() -> Seq<char> {
    "^1.0.0"@
}

/// The discovery endpoint for `service_name` under `mesh_url`.
pub open spec fn discovery_url_of(mesh_url: Seq<char>, service_name: Seq<char>) -> Seq<char> {
    services_url_of(mesh_url) + seq!['/'] + service_name + seq!['/'] + encoded_requirement(
        discovery_requirement(),
    )
}

/// `http://ip:port` followed by `path`.
pub open spec fn peer_url_of(ip: Seq<char>, port: u16, path: Seq<char>) -> Seq<char> {
    "http://"@ + ip + seq![':'] + decimal(port as nat) + path
}

impl MeshRegistryClient {
    /// A client for the mesh at `mesh_url` (trailing `/` dropped). The token,
    /// container ID and external host are trimmed, and dropped when that
    /// leaves them empty.
    pub fn new(
        mesh_url: &str,
        mesh_token: Option<String>,
        advertised_host: &str,
        service_name: &str,
        service_version: &str,
        service_port: u16,
        container_id: Option<String>,
        external_host: Option<String>,
        external_port: Option<u16>,
        external_scheme: &str,
    ) -> (c: Self)
        ensures
            c@.mesh_url == trim_end_slashes(mesh_url@),
            c@.mesh_token == trimmed_nonempty(opt_text(mesh_token)),
            c@.advertised_host == advertised_host@,
            c@.service_name == service_name@,
            c@.service_version == service_version@,
            c@.service_port == service_port,
            c@.container_id == trimmed_nonempty(opt_text(container_id)),
            c@.external_host == trimmed_nonempty(opt_text(external_host)),
            c@.external_port == external_port,
            c@.external_scheme == external_scheme@,
    {
        let url = strip_trailing_slashes(mesh_url);
        let token = trimmed_owned(&mesh_token);
        let container = trimmed_owned(&container_id);
        let host = trimmed_owned(&external_host);
        MeshRegistryClient {
            mesh_url: url,
            mesh_token: token,
            advertised_host: copy_str(advertised_host),
            service_name: copy_str(service_name),
            service_version: copy_str(service_version),
            service_port,
            container_id: container,
            external_host: host,
            external_port,
            external_scheme: copy_str(external_scheme),
        }
    }

    /// The body of this service's registration, heartbeat and
    /// unregistration requests: its name, version and port, and its
    /// external endpoint only when both host and port are set.
    pub fn registration_body(&self) -> (r: ServiceRegistrationRequest)
        ensures
            request_body_view(r) == registration_body_of(self@),
            r.service_ip is None,
    {
        let has_external = self.external_host.is_some() && self.external_port.is_some();
        ServiceRegistrationRequest {
            service_name: self.service_name.clone(),
            service_version: self.service_version.clone(),
            service_ip: None,
            service_port: self.service_port,
            external_host: if has_external {
                copy_opt_string(&self.external_host)
            } else {
                None
            },
            external_port: if has_external {
                self.external_port
            } else {
                None
            },
            external_scheme: if has_external {
                Some(self.external_scheme.clone())
            } else {
                None
            },
        }
    }

    /// The bearer token to send, if the client has one.
    pub fn bearer_token(&self) -> (t: Option<String>)
        ensures
            opt_text(t) == self@.mesh_token,
    {
        copy_opt_string(&self.mesh_token)
    }

    /// The container ID to send in `x-mesh-container-id`, if any.
    pub fn container_id(&self) -> (id: Option<String>)
        ensures
            opt_text(id) == self@.container_id,
    {
        copy_opt_string(&self.container_id)
    }

    /// The host to send in `x-mesh-advertise-host`.
    pub fn advertised_host(&self) -> (h: String)
        ensures
            h@ == self@.advertised_host,
    {
        self.advertised_host.clone()
    }

    /// The service's name.
    pub fn service_name(&self) -> (n: String)
        ensures
            n@ == self@.service_name,
    {
        self.service_name.clone()
    }

    /// The service's version.
    pub fn service_version(&self) -> (v: String)
        ensures
            v@ == self@.service_version,
    {
        self.service_version.clone()
    }

    /// Where registrations and unregistrations are sent.
    pub fn services_url(&self) -> (u: String)
        ensures
            u@ == services_url_of(self@.mesh_url),
    {
        let mut u = self.mesh_url.clone();
        push_str(&mut u, "/api/v1/mesh/services");
        proof {
            reveal_strlit("/api/v1/mesh/services");
        }
        u
    }

    /// Where heartbeats are sent.
    pub fn heartbeat_url(&self) -> (u: String)
        ensures
            u@ == heartbeat_url_of(self@.mesh_url),
    {
        let mut u = self.mesh_url.clone();
        push_str(&mut u, "/api/v1/mesh/services/heartbeat");
        proof {
            reveal_strlit("/api/v1/mesh/services/heartbeat");
        }
        u
    }

    /// Where a peer is discovered: its name and the requirement `^1.0.0`,
    /// encoded for the path.
    pub fn discovery_url(&self, service_name: &str) -> (u: String)
        ensures
            u@ == discovery_url_of(self@.mesh_url, service_name@),
    {
        let mut u = self.services_url();
        push_char(&mut u, '/');
        push_str(&mut u, service_name);
        push_char(&mut u, '/');
        let requirement = encode_version_requirement("^1.0.0");
        push_str(&mut u, requirement.as_str());
        assert(u@ =~= discovery_url_of(self@.mesh_url, service_name@));
        u
    }
}

/// Where a peer's endpoint at `path` is called.
pub fn peer_url(service: &ServiceInstance, path: &str) -> (u: String)
    ensures
        u@ == peer_url_of(service.ip@, service.port, path@),
{
    let mut u = copy_str("http://");
    push_str(&mut u, service.ip.as_str());
    push_char(&mut u, ':');
    push_decimal(&mut u, service.port as u64);
    push_str(&mut u, path);
    assert(u@ =~= peer_url_of(service.ip@, service.port, path@));
    u
}

/// `s` without its trailing `/` characters.
fn strip_trailing_slashes(s: &str) -> (out: String)
    ensures
        out@ == trim_end_slashes(s@),
{
    let cs = chars_of(s);
    let n = cs.len();
    let mut end = n;
    assert(s@.take(n as int) =~= s@);
    while end > 0 && cs[end - 1] == '/'
        invariant
            end <= n == s@.len(),
            cs@ == s@,
            trim_end_slashes(s@.take(end as int)) == trim_end_slashes(s@),
        decreases end,
    {
        assert(s@.take(end as int).drop_last() =~= s@.take(end - 1));
        end = end - 1;
    }
    assert(s@.take(n as int) =~= s@);
    assert(cs@.subrange(0, end as int) =~= s@.take(end as int));
    string_from_chars(&cs, 0, end)
}

/// An owned optional text trimmed, dropped when that leaves it empty.
fn trimmed_owned(o: &Option<String>) -> (out: Option<String>)
    ensures
        opt_text(out) == trimmed_nonempty(opt_text(*o)),
{
    match o {
        Some(s) => trimmed_header(Some(s.as_str())),
        None => None,
    }
}

} // verus!
