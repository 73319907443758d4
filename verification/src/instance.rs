//! Registered service instances and their public endpoint view.

use crate::text::{copy_str, decimal, is_blank, push_char, push_decimal, push_str, str_is_blank};
use vstd::prelude::*;

verus! {

/// Registered service instance held by the in-memory mesh registry.
#[derive(Debug)]
pub struct ServiceInstance {
    pub name: String,
    pub version: String,
    pub ip: String,
    pub port: u16,
    pub timestamp: u64,
    pub external_ip: Option<String>,
    pub external_port: Option<u16>,
    pub external_scheme: Option<String>,
}

/// An externally reachable endpoint of a service instance.
#[derive(Debug)]
pub struct ExternalServiceEndpoint {
    pub ip: String,
    pub port: u16,
    pub scheme: String,
}

/// Public discovery view of a service instance.
#[derive(Debug)]
pub struct ServiceEndpointResponse {
    pub name: String,
    pub version: String,
    pub ip: String,
    pub port: u16,
    pub internal_ip: String,
    pub internal_port: u16,
    pub timestamp: u64,
    pub url: String,
}

/// Mathematical model of a [`ServiceInstance`].
pub struct InstanceView {
    pub name: Seq<char>,
    pub version: Seq<char>,
    pub ip: Seq<char>,
    pub port: u16,
    pub timestamp: u64,
    pub external_ip: Option<Seq<char>>,
    pub external_port: Option<u16>,
    pub external_scheme: Option<Seq<char>>,
}

/// Mathematical model of an [`ExternalServiceEndpoint`].
pub struct EndpointView {
    pub ip: Seq<char>,
    pub port: u16,
    pub scheme: Seq<char>,
}

/// Mathematical model of a [`ServiceEndpointResponse`].
pub struct EndpointResponseView {
    pub name: Seq<char>,
    pub version: Seq<char>,
    pub ip: Seq<char>,
    pub port: u16,
    pub internal_ip: Seq<char>,
    pub internal_port: u16,
    pub timestamp: u64,
    pub url: Seq<char>,
}

/// The model of an optional string.
pub open spec fn opt_text(o: Option<String>) -> Option<Seq<char>> {
    match o {
        Some(s) => Some(s@),
        None => None,
    }
}

impl View for ServiceInstance {
    type V = InstanceView;

    open spec fn view(&self) -> InstanceView {
        InstanceView {
            name: self.name@,
            version: self.version@,
            ip: self.ip@,
            port: self.port,
            timestamp: self.timestamp,
            external_ip: opt_text(self.external_ip),
            external_port: self.external_port,
            external_scheme: opt_text(self.external_scheme),
        }
    }
}

impl View for ExternalServiceEndpoint {
    type V = EndpointView;

    open spec fn view(&self) -> EndpointView {
        EndpointView { ip: self.ip@, port: self.port, scheme: self.scheme@ }
    }
}

impl View for ServiceEndpointResponse {
    type V = EndpointResponseView;

    open spec fn view(&self) -> EndpointResponseView {
        EndpointResponseView {
            name: self.name@,
            version: self.version@,
            ip: self.ip@,
            port: self.port,
            internal_ip: self.internal_ip@,
            internal_port: self.internal_port,
            timestamp: self.timestamp,
            url: self.url@,
        }
    }
}

/// The text `http`.
pub open spec fn http_text() -> Seq<char> {
    seq!['h', 't', 't', 'p']
}

/// The text `https`.
pub open spec fn https_text() -> Seq<char> {
    seq!['h', 't', 't', 'p', 's']
}

/// `scheme://ip:port`.
pub open spec fn endpoint_url(scheme: Seq<char>, ip: Seq<char>, port: u16) -> Seq<char> {
    scheme + seq![':', '/', '/'] + ip + seq![':'] + decimal(port as nat)
}

/// The port a port-specific lookup compares against: the external port when
/// there is one, else the internal port.
pub open spec fn lookup_port_of(v: InstanceView) -> u16 {
    match v.external_port {
        Some(p) => p,
        None => v.port,
    }
}

/// The scheme used for an instance's public URL: its external scheme unless
/// that is missing or blank, else `http`.
pub open spec fn public_scheme(v: InstanceView) -> Seq<char> {
    match v.external_scheme {
        Some(s) => if is_blank(s) {
            http_text()
        } else {
            s
        },
        None => http_text(),
    }
}

/// The public endpoint response of an instance.
pub open spec fn external_response_of(v: InstanceView) -> EndpointResponseView {
    let ip = match v.external_ip {
        Some(e) => e,
        None => v.ip,
    };
    let port = lookup_port_of(v);
    EndpointResponseView {
        name: v.name,
        version: v.version,
        ip: ip,
        port: port,
        internal_ip: v.ip,
        internal_port: v.port,
        timestamp: v.timestamp,
        url: endpoint_url(public_scheme(v), ip, port),
    }
}

/// A copy of an optional string.
pub fn copy_opt_string(o: &Option<String>) -> (out: Option<String>)
    ensures
        opt_text(out) == opt_text(*o),
{
    match o {
        Some(s) => Some(s.clone()),
        None => None,
    }
}

/// Builds `scheme://ip:port`.
pub fn build_url(scheme: &str, ip: &str, port: u16) -> (url: String)
    ensures
        url@ == endpoint_url(scheme@, ip@, port),
{
    let mut url = copy_str(scheme);
    push_char(&mut url, ':');
    push_char(&mut url, '/');
    push_char(&mut url, '/');
    push_str(&mut url, ip);
    push_char(&mut url, ':');
    push_decimal(&mut url, port as u64);
    assert(url@ =~= endpoint_url(scheme@, ip@, port));
    url
}

impl Clone for ServiceInstance {
    fn clone(&self) -> (out: Self)
        ensures
            out@ == self@,
    {
        ServiceInstance {
            name: self.name.clone(),
            version: self.version.clone(),
            ip: self.ip.clone(),
            port: self.port,
            timestamp: self.timestamp,
            external_ip: copy_opt_string(&self.external_ip),
            external_port: self.external_port,
            external_scheme: copy_opt_string(&self.external_scheme),
        }
    }
}

impl Clone for ExternalServiceEndpoint {
    fn clone(&self) -> (out: Self)
        ensures
            out@ == self@,
    {
        ExternalServiceEndpoint { ip: self.ip.clone(), port: self.port, scheme: self.scheme.clone() }
    }
}

impl ServiceInstance {
    /// The port a port-specific lookup compares against.
    pub fn lookup_port(&self) -> (port: u16)
        ensures
            port == lookup_port_of(self@),
    {
        match self.external_port {
            Some(p) => p,
            None => self.port,
        }
    }

    /// The public endpoint of this instance: the external endpoint when one
    /// was registered, else the internal one, with its URL.
    pub fn external_response(&self) -> (response: ServiceEndpointResponse)
        ensures
            response@ == external_response_of(self@),
    {
        let ip = match &self.external_ip {
            Some(e) => e.clone(),
            None => self.ip.clone(),
        };
        let port = self.lookup_port();
        let scheme = match &self.external_scheme {
            Some(s) => if str_is_blank(s.as_str()) {
                copy_str("http")
            } else {
                s.clone()
            },
            None => copy_str("http"),
        };
        proof {
            reveal_strlit("http");
        }
        assert(scheme@ == public_scheme(self@));
        let url = build_url(scheme.as_str(), ip.as_str(), port);
        ServiceEndpointResponse {
            name: self.name.clone(),
            version: self.version.clone(),
            ip,
            port,
            internal_ip: self.ip.clone(),
            internal_port: self.port,
            timestamp: self.timestamp,
            url,
        }
    }
}

} // verus!
