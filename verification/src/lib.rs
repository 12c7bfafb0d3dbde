//! Watches a network interface for its current public address and, on a
//! genuine change, pushes the new address to one or more dynamic-DNS
//! providers, persisting each provider's last pushed address to its own file.
//!
//! This crate holds the verified core: the config parser, the address model
//! with its textual form, the per-pipeline change detection, the provider
//! update-request construction, and the persistence key handling. The
//! surrounding process (HTTP transport, file handles, task scheduling) drives
//! these functions from outside.
use vstd::prelude::*;

pub mod addr;
pub mod dyn_dns;
pub mod ip_grabber;
pub mod persistence;
pub mod runner;
pub mod text;

verus! {

/// The IP family a provider entry is configured for.
#[derive(Clone, Copy, Debug, PartialEq, Eq, Structural)]
pub enum IpVersion {
    V4,
    V6,
}

impl IpVersion {
    /// The short lowercase name used in the config grammar and in
    /// persistence keys.
    pub open spec fn simple_name_spec(self) -> Seq<char> {
        match self {
            IpVersion::V4 => "ipv4"@,
            IpVersion::V6 => "ipv6"@,
        }
    }

    pub fn simple_name(&self) -> (r: &'static str)
        ensures
            r@ == self.simple_name_spec(),
    {
        match self {
            IpVersion::V4 => "ipv4",
            IpVersion::V6 => "ipv6",
        }
    }
}

} // verus!
