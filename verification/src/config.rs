//! Resolver entry configuration.

use vstd::prelude::*;

verus! {

/// The fields of a [`ResolverConfig`], seen mathematically.
pub ghost struct ConfigView {
    pub domain: Seq<char>,
    pub nameserver: Seq<char>,
    pub port: u16,
    pub search_order: u32,
}

/// Configuration for a single resolver entry.
///
/// `domain` is used verbatim as the file name under the registry directory;
/// `nameserver` is expected to be an IP address but is not validated here.
/// Lower `search_order` values take precedence.
#[derive(Debug, Clone)]
pub struct ResolverConfig {
    /// Domain suffix (e.g., `"myapp.local"`).
    pub domain: String,
    /// Nameserver IP address (e.g., `"127.0.0.1"`).
    pub nameserver: String,
    /// DNS port.
    pub port: u16,
    /// Search order — lower values are tried first.
    pub search_order: u32,
}

impl View for ResolverConfig {
    type V = ConfigView;

    open spec fn view(&self) -> ConfigView {
        ConfigView {
            domain: self.domain@,
            nameserver: self.nameserver@,
            port: self.port,
            search_order: self.search_order,
        }
    }
}

impl ResolverConfig {
    /// Creates a new resolver config with `search_order = 1`.
    pub fn new(domain: &str, nameserver: &str, port: u16) -> (r: Self)
        ensures
            r@.domain == domain@,
            r@.nameserver == nameserver@,
            r@.port == port,
            r@.search_order == 1,
    {
        ResolverConfig {
            domain: domain.to_owned(),
            nameserver: nameserver.to_owned(),
            port,
            search_order: 1,
        }
    }

    /// Overrides the search order.
    pub fn with_search_order(self, order: u32) -> (r: Self)
        ensures
            r@ == (ConfigView { search_order: order, ..self@ }),
    {
        ResolverConfig { search_order: order, ..self }
    }
}

} // verus!
