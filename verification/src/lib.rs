//! A container-registry admission core: parsing of image references,
//! classification of references as local / proxied / external, and a layered
//! allow/deny admission policy evaluated over pod specifications.

pub mod admission;
pub mod containment;
pub mod image;
pub mod policy;

pub use admission::AdmissionEngine;
pub use containment::{Containment, RegistryProxiesConfig, ServerIdentity, SingleRegistryProxyConfig};
pub use image::{parse, ImageReference, ParseError};
pub use policy::{evaluate, Action, AdmissionVerdict, ImageValidationConfig};

use vstd::prelude::*;

verus! {

/// Builder for a [`TrowServer`]: collects the configuration that the server
/// is constructed from.
pub struct TrowServerBuilder {
    pub data_path: String,
    pub proxy_registry_config: Option<containment::RegistryProxiesConfig>,
    pub image_validation_config: Option<policy::ImageValidationConfig>,
    pub tls_cert: Option<Vec<u8>>,
    pub tls_key: Option<Vec<u8>>,
    pub root_key: Option<Vec<u8>>,
}

/// The registry server core: the validated configuration a running server
/// holds. Creating the data directory and serving requests are I/O and stay
/// with the caller.
pub struct TrowServer {
    pub data_path: String,
    pub proxy_registry_config: Option<containment::RegistryProxiesConfig>,
    pub image_validation_config: Option<policy::ImageValidationConfig>,
}

/// Starts a builder from the pieces of configuration the server needs.
pub fn build_server(
    data_path: &str,
    proxy_registry_config: Option<containment::RegistryProxiesConfig>,
    image_validation_config: Option<policy::ImageValidationConfig>,
) -> (b: TrowServerBuilder)
    ensures
        b.data_path@ == data_path@,
        b.proxy_registry_config == proxy_registry_config,
        b.image_validation_config == image_validation_config,
        b.tls_cert is None,
        b.tls_key is None,
        b.root_key is None,
{
    TrowServerBuilder {
        data_path: data_path.to_owned(),
        proxy_registry_config,
        image_validation_config,
        tls_cert: None,
        tls_key: None,
        root_key: None,
    }
}

impl TrowServerBuilder {
    /// Consumes the builder and yields the server value. The server is a pure
    /// value: the caller performs any deferred I/O (such as creating the data
    /// directory) before serving from it.
    pub fn get_server_future(self) -> (s: TrowServer)
        ensures
            s.data_path == self.data_path,
            s.proxy_registry_config == self.proxy_registry_config,
            s.image_validation_config == self.image_validation_config,
    {
        TrowServer {
            data_path: self.data_path,
            proxy_registry_config: self.proxy_registry_config,
            image_validation_config: self.image_validation_config,
        }
    }
}

impl TrowServer {
    /// Builds the admission engine for this server, given the names the
    /// server answers to. `None` when the server was configured without an
    /// admission policy, in which case admission is not offered at all.
    pub fn admission_engine(self, identity: containment::ServerIdentity) -> (r: Option<
        admission::AdmissionEngine,
    >)
        ensures
            match r {
                Some(e) => self.image_validation_config == Some(e.policy) && e.identity
                    == identity && match self.proxy_registry_config {
                    Some(p) => e.proxies == p,
                    None => e.proxies.registries@.len() == 0,
                },
                None => self.image_validation_config is None,
            },
    {
        match self.image_validation_config {
            Some(policy) => {
                let proxies = match self.proxy_registry_config {
                    Some(p) => p,
                    None => containment::RegistryProxiesConfig { registries: Vec::new() },
                };
                Some(admission::AdmissionEngine::new(identity, proxies, policy))
            },
            None => None,
        }
    }
}

} // verus!

