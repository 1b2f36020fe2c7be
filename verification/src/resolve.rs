//! The address to connect to: as given, or as an SRV record says.
//!
//! SRV only fills in what was left out. An explicit port or an IP literal makes
//! an address complete, and a record could only contradict it.

use crate::ip::is_ip;
use crate::models::{Address, PingOptions, ResolvedAddress, ServerAddress, DEFAULT_PORT};
use crate::srv::{query_name, srv_query, Service, SrvRecord};
use vstd::prelude::*;

verus! {

/// Where to connect, the host as text.
#[verifier::ext_equal]
pub struct Target {
    pub host: Seq<char>,
    pub port: u16,
    pub used_srv: bool,
}

impl View for ResolvedAddress {
    type V = Target;

    open spec fn view(&self) -> Target {
        Target { host: self.host@, port: self.port, used_srv: self.used_srv }
    }
}

/// Whether an address leaves the port open for an SRV record to fill in.
pub open spec fn open_to_srv(address: Address) -> bool {
    address.port is None && !is_ip(address.host)
}

/// The address as given, on the default port if it names none.
pub open spec fn direct_target(address: Address) -> Target {
    Target {
        host: address.host,
        port: match address.port {
            Some(port) => port,
            None => DEFAULT_PORT,
        },
        used_srv: false,
    }
}

/// Where to connect with or without an SRV record.
pub open spec fn target_of(address: Address, record: Option<Service>) -> Target {
    match record {
        Some(service) => Target { host: service.target, port: service.port, used_srv: true },
        None => direct_target(address),
    }
}

/// What an optional record says.
pub open spec fn service_of(record: Option<SrvRecord>) -> Option<Service> {
    match record {
        Some(record) => Some(record@),
        None => None,
    }
}

/// The name to look SRV records up under, if a lookup is to be made at all: the
/// options must allow it, and the address must leave room for it.
pub fn lookup_name(address: &ServerAddress, options: &PingOptions) -> (res: Option<String>)
    ensures
        match res {
            Some(name) => options.use_srv && open_to_srv(address@) && name@ == query_name(
                address@.host,
            ),
            None => !options.use_srv || !open_to_srv(address@),
        },
{
    if !options.use_srv || !address.allows_srv() {
        return None;
    }
    Some(srv_query(address.host.as_str()))
}

/// The address as given, used whenever no SRV record redirects it.
pub fn direct(address: &ServerAddress) -> (res: ResolvedAddress)
    ensures
        res@ == direct_target(address@),
{
    ResolvedAddress {
        host: address.host.as_str().to_owned(),
        port: address.effective_port(),
        used_srv: false,
    }
}

/// Where to connect once the lookup, if there was one, is done. With no usable
/// record this is the address as given.
pub fn resolved_address(address: &ServerAddress, record: Option<SrvRecord>) -> (res:
    ResolvedAddress)
    ensures
        res@ == target_of(address@, service_of(record)),
{
    match record {
        Some(record) => ResolvedAddress { host: record.target, port: record.port, used_srv: true },
        None => direct(address),
    }
}

/// **Only a bare hostname leaves room for an SRV record**: one without a port that
/// is no IP literal.
pub proof fn law_bare_hostnames_are_open_to_srv(address: Address)
    ensures
        open_to_srv(address) <==> address.port is None && !is_ip(address.host),
{
}

/// **A record redirects to its target and port, and without one the address stands
/// as given**, on the default port where it names none.
pub proof fn law_record_redirects(address: Address, service: Service)
    ensures
        target_of(address, Some(service)) == (Target {
            host: service.target,
            port: service.port,
            used_srv: true,
        }),
        target_of(address, None).host == address.host,
        !target_of(address, None).used_srv,
        address.port matches Some(port) ==> target_of(address, None).port == port,
        address.port is None ==> target_of(address, None).port == 25565,
{
}

} // verus!
