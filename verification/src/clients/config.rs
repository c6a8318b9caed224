//! What a service's configuration asks of the client that is built for it.

use vstd::prelude::*;
use super::{DEFAULT_CONNECT_TIMEOUT_SEC, DEFAULT_REQUEST_TIMEOUT_SEC};

verus! {

/// Files of a client certificate and of the authority that signed the
/// service's own.
pub struct TlsConfig {
    pub cert_path: Option<String>,
    pub key_path: Option<String>,
    pub client_ca_cert_path: Option<String>,
    pub insecure: Option<bool>,
}

/// How a service is secured: by a named configuration that is resolved
/// elsewhere, or by one given in place.
pub enum Tls {
    Name(String),
    Config(TlsConfig),
}

/// Where a service is reached and within which limits.
pub struct ServiceConfig {
    pub hostname: String,
    pub port: Option<u16>,
    pub request_timeout: Option<u64>,
    pub tls: Option<Tls>,
}

/// The identity that an HTTP client presents, and whom it trusts.
pub struct HttpTls {
    /// File of the client certificate.
    pub cert_path: String,
    /// File of the key, where it is not bundled with the certificate.
    pub key_path: Option<String>,
    /// Whether certificates that do not validate are accepted.
    pub insecure: bool,
    /// File of an additional root certificate.
    pub client_ca_cert_path: Option<String>,
}

/// Everything that building an HTTP client takes.
pub struct HttpClientPlan {
    pub hostname: String,
    pub port: u16,
    pub connect_timeout_secs: u64,
    pub request_timeout_secs: u64,
    pub tls: Option<HttpTls>,
}

/// The identity that a gRPC client presents, and whom it trusts.
pub struct GrpcTls {
    /// File of the client certificate.
    pub cert_path: String,
    /// File of the key.
    pub key_path: String,
    /// File of the authority's certificate.
    pub client_ca_cert_path: Option<String>,
}

/// Everything that building a gRPC channel takes.
pub struct GrpcClientPlan {
    pub hostname: String,
    pub port: u16,
    pub connect_timeout_secs: u64,
    pub request_timeout_secs: u64,
    pub tls: Option<GrpcTls>,
}

/// A copy of `s`, where there is one.
fn cloned(s: &Option<String>) -> (r: Option<String>)
    ensures
        r == *s,
{
    match s {
        Some(text) => Some(text.clone()),
        None => None,
    }
}

impl ServiceConfig {
    /// The service's port: its own, or `default_port` where it names none.
    pub open spec fn spec_port(self, default_port: u16) -> u16 {
        match self.port {
            Some(port) => port,
            None => default_port,
        }
    }

    /// Seconds that a request may take: the service's own limit, or the
    /// default where it names none.
    pub open spec fn spec_request_timeout(self) -> u64 {
        match self.request_timeout {
            Some(secs) => secs,
            None => DEFAULT_REQUEST_TIMEOUT_SEC,
        }
    }

    /// The TLS configuration given in place, if there is one.
    pub open spec fn spec_tls_config(self) -> Option<TlsConfig> {
        match self.tls {
            Some(Tls::Config(tls)) => Some(tls),
            _ => None,
        }
    }

    /// Whether an HTTP client can be planned: a TLS configuration given in
    /// place names the certificate.
    pub open spec fn plans_http(self) -> bool {
        self.spec_tls_config() matches Some(tls) ==> tls.cert_path is Some
    }

    /// Whether a gRPC client can be planned: a TLS configuration given in
    /// place names the certificate and the key.
    pub open spec fn plans_grpc(self) -> bool {
        self.spec_tls_config() matches Some(tls) ==> tls.cert_path is Some && tls.key_path is Some
    }

    /// What `http_client_plan` returns.
    pub open spec fn spec_http_plan(self, default_port: u16) -> HttpClientPlan {
        HttpClientPlan {
            hostname: self.hostname,
            port: self.spec_port(default_port),
            connect_timeout_secs: DEFAULT_CONNECT_TIMEOUT_SEC,
            request_timeout_secs: self.spec_request_timeout(),
            tls: match self.spec_tls_config() {
                Some(tls) => Some(
                    HttpTls {
                        cert_path: tls.cert_path->0,
                        key_path: tls.key_path,
                        insecure: match tls.insecure {
                            Some(insecure) => insecure,
                            None => false,
                        },
                        client_ca_cert_path: tls.client_ca_cert_path,
                    },
                ),
                None => None,
            },
        }
    }

    /// What `grpc_client_plan` returns.
    pub open spec fn spec_grpc_plan(self, default_port: u16) -> GrpcClientPlan {
        GrpcClientPlan {
            hostname: self.hostname,
            port: self.spec_port(default_port),
            connect_timeout_secs: DEFAULT_CONNECT_TIMEOUT_SEC,
            request_timeout_secs: self.spec_request_timeout(),
            tls: match self.spec_tls_config() {
                Some(tls) => Some(
                    GrpcTls {
                        cert_path: tls.cert_path->0,
                        key_path: tls.key_path->0,
                        client_ca_cert_path: tls.client_ca_cert_path,
                    },
                ),
                None => None,
            },
        }
    }

    /// The service's port.
    pub fn port_or(&self, default_port: u16) -> (r: u16)
        ensures
            r == self.spec_port(default_port),
    {
        match self.port {
            Some(port) => port,
            None => default_port,
        }
    }

    /// Seconds that a request to the service may take.
    pub fn request_timeout_secs(&self) -> (r: u64)
        ensures
            r == self.spec_request_timeout(),
    {
        match self.request_timeout {
            Some(secs) => secs,
            None => DEFAULT_REQUEST_TIMEOUT_SEC,
        }
    }

    /// Whether `http_client_plan` may be called.
    pub fn can_plan_http(&self) -> (r: bool)
        ensures
            r == self.plans_http(),
    {
        match &self.tls {
            Some(Tls::Config(tls)) => tls.cert_path.is_some(),
            _ => true,
        }
    }

    /// Whether `grpc_client_plan` may be called.
    pub fn can_plan_grpc(&self) -> (r: bool)
        ensures
            r == self.plans_grpc(),
    {
        match &self.tls {
            Some(Tls::Config(tls)) => tls.cert_path.is_some() && tls.key_path.is_some(),
            _ => true,
        }
    }

    /// What building the HTTP client of this service takes: where it is
    /// reached, the two timeouts and, where a TLS configuration is given in
    /// place, the files to read.
    pub fn http_client_plan(&self, default_port: u16) -> (r: HttpClientPlan)
        requires
            self.plans_http(),
        ensures
            r == self.spec_http_plan(default_port),
    {
        let tls = match &self.tls {
            Some(Tls::Config(tls)) => {
                let cert_path = match &tls.cert_path {
                    Some(path) => path.clone(),
                    None => String::new(),
                };
                Some(
                    HttpTls {
                        cert_path,
                        key_path: cloned(&tls.key_path),
                        insecure: match tls.insecure {
                            Some(insecure) => insecure,
                            None => false,
                        },
                        client_ca_cert_path: cloned(&tls.client_ca_cert_path),
                    },
                )
            },
            _ => None,
        };
        HttpClientPlan {
            hostname: self.hostname.clone(),
            port: self.port_or(default_port),
            connect_timeout_secs: DEFAULT_CONNECT_TIMEOUT_SEC,
            request_timeout_secs: self.request_timeout_secs(),
            tls,
        }
    }

    /// What building the gRPC channel of this service takes.
    pub fn grpc_client_plan(&self, default_port: u16) -> (r: GrpcClientPlan)
        requires
            self.plans_grpc(),
        ensures
            r == self.spec_grpc_plan(default_port),
    {
        let tls = match &self.tls {
            Some(Tls::Config(tls)) => {
                let cert_path = match &tls.cert_path {
                    Some(path) => path.clone(),
                    None => String::new(),
                };
                let key_path = match &tls.key_path {
                    Some(path) => path.clone(),
                    None => String::new(),
                };
                Some(
                    GrpcTls { cert_path, key_path, client_ca_cert_path: cloned(&tls.client_ca_cert_path) },
                )
            },
            _ => None,
        };
        GrpcClientPlan {
            hostname: self.hostname.clone(),
            port: self.port_or(default_port),
            connect_timeout_secs: DEFAULT_CONNECT_TIMEOUT_SEC,
            request_timeout_secs: self.request_timeout_secs(),
            tls,
        }
    }
}

} // verus!
