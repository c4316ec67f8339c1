//! The configuration file, as far as the daemon reads it.
//!
//! Area ids may be written as numbers or as text; what the file holds is kept as it is until the
//! configuration is built. Route maps are compiled by the reader of the file.
use vstd::prelude::*;

use crate::text;
use crate::text::split_cidr;

verus! {

/// An address of a sub-interface or loopback: one text with the prefix length, or both apart.
#[derive(Debug)]
pub enum AddrEntry {
    Cidr(String),
    Split { address: String, prefix: Option<u8> },
}

/// An address of an interface: one text with the prefix length, or both apart.
#[derive(Debug)]
pub enum Ipv4AddressConfig {
    Cidr(String),
    Split { address: String, prefix: u8 },
}

impl AddrEntry {
    /// Address text and prefix length; nothing if the prefix length is missing or no number.
    pub open spec fn pair(self) -> Option<(Seq<char>, u8)> {
        match self {
            AddrEntry::Cidr(s) => text::cidr(s@),
            AddrEntry::Split { address, prefix } => match prefix {
                Some(p) => Some((address@, p)),
                None => None,
            },
        }
    }

    /// Address text and prefix length.
    pub fn as_pair(&self) -> (r: Option<(&str, u8)>)
        ensures
            match (r, self.pair()) {
                (Some((a, n)), Some((b, m))) => a@ == b && n == m,
                (None, None) => true,
                _ => false,
            },
    {
        match self {
            AddrEntry::Cidr(s) => split_cidr(s.as_str()),
            AddrEntry::Split { address, prefix } => match prefix {
                Some(p) => Some((address.as_str(), *p)),
                None => None,
            },
        }
    }
}

impl Ipv4AddressConfig {
    /// Address text and prefix length; nothing if the text has no prefix length.
    pub open spec fn pair(self) -> Option<(Seq<char>, u8)> {
        match self {
            Ipv4AddressConfig::Cidr(s) => text::cidr(s@),
            Ipv4AddressConfig::Split { address, prefix } => Some((address@, prefix)),
        }
    }

    /// Address text and prefix length.
    pub fn as_pair(&self) -> (r: Option<(&str, u8)>)
        ensures
            match (r, self.pair()) {
                (Some((a, n)), Some((b, m))) => a@ == b && n == m,
                (None, None) => true,
                _ => false,
            },
    {
        match self {
            Ipv4AddressConfig::Cidr(s) => split_cidr(s.as_str()),
            Ipv4AddressConfig::Split { address, prefix } => Some((address.as_str(), *prefix)),
        }
    }
}

impl Default for Ipv4AddressConfig {
    fn default() -> (r: Ipv4AddressConfig)
        ensures
            r matches Ipv4AddressConfig::Cidr(s) && s@ == Seq::<char>::empty(),
    {
        let s = String::new();
        proof {
            reveal_strlit("");
        }
        assert(s@ =~= Seq::<char>::empty());
        Ipv4AddressConfig::Cidr(s)
    }
}

/// An area id as the file holds it.
#[derive(Debug)]
pub enum AreaIdValue {
    /// A number that is not negative.
    Number(u64),
    /// Another number.
    OtherNumber,
    Text(String),
    /// Anything else.
    Other,
}

/// A VRF and the FIBs that belong to it.
#[derive(Debug, Default)]
pub struct VrfYaml {
    pub name: String,
    pub table_id_v4: u32,
    pub table_id_v6: u32,
    pub description: Option<String>,
}

/// A summary range.
#[derive(Debug, Default)]
pub struct SummaryAddressEntry {
    pub prefix: String,
    pub no_advertise: bool,
    pub tag: Option<u32>,
    pub metric: Option<u32>,
    pub metric_type: Option<u8>,
}

/// An area.
#[derive(Debug)]
pub struct AreaConfigEntry {
    pub area_id: AreaIdValue,
    /// `normal`, `stub` or `nssa`.
    pub area_type: Option<String>,
    pub default_cost: Option<u32>,
}

/// A protocol whose routes are redistributed.
#[derive(Debug, Default)]
pub struct RedistributeEntry {
    pub protocol: String,
    pub metric: Option<u32>,
    pub metric_type: Option<u8>,
    /// The route map that filters the routes.
    pub route_map: Option<String>,
}

impl RedistributeEntry {
    /// The name of the protocol.
    pub fn source(&self) -> (r: &str)
        ensures
            r@ == self.protocol@,
    {
        self.protocol.as_str()
    }

    /// The metric to advertise; 20 unless given.
    pub open spec fn spec_metric(self) -> u32 {
        match self.metric {
            Some(m) => m,
            None => 20,
        }
    }

    /// The metric type to advertise; 2 unless given.
    pub open spec fn spec_metric_type(self) -> u8 {
        match self.metric_type {
            Some(m) => m,
            None => 2,
        }
    }

    /// The metric to advertise.
    pub fn metric(&self) -> (m: u32)
        ensures
            m == self.spec_metric(),
    {
        match self.metric {
            Some(m) => m,
            None => 20,
        }
    }

    /// The metric type to advertise.
    pub fn metric_type(&self) -> (m: u8)
        ensures
            m == self.spec_metric_type(),
    {
        match self.metric_type {
            Some(m) => m,
            None => 2,
        }
    }
}

/// A route map with the outcome of compiling its clauses: what each statement does with a route that
/// it matches, or nothing if a clause cannot be understood.
#[derive(Debug)]
pub struct RouteMapEntry {
    pub name: String,
    pub permits: Option<Vec<bool>>,
}

/// A configured neighbor of a non-broadcast network.
#[derive(Debug, Default)]
pub struct OspfNeighborConfig {
    pub address: String,
    pub priority: Option<u8>,
}

/// A configured OSPFv3 neighbor of a non-broadcast network, by link-local address.
#[derive(Debug, Default)]
pub struct Ospf6NeighborConfig {
    pub address: String,
    pub priority: Option<u8>,
}

/// The `ospf` or `ospf3` block.
#[derive(Debug, Default)]
pub struct OspfConfig {
    pub enabled: bool,
    pub router_id: Option<String>,
    pub reference_bandwidth: Option<u32>,
    pub spf_delay: Option<u64>,
    pub spf_holdtime: Option<u64>,
    pub spf_max_holdtime: Option<u64>,
    pub passive_default: bool,
    pub distance: Option<u8>,
    pub distance_intra: Option<u8>,
    pub distance_inter: Option<u8>,
    pub distance_external: Option<u8>,
    pub summary_addresses: Vec<SummaryAddressEntry>,
    pub default_originate: bool,
    pub default_originate_always: bool,
    pub default_originate_metric: Option<u32>,
    pub default_originate_metric_type: Option<u8>,
    pub redistribute: Vec<RedistributeEntry>,
    pub areas: Vec<AreaConfigEntry>,
    /// The instances of other VRFs.
    pub vrfs: Vec<OspfVrfYaml>,
}

/// The block of a VRF.
#[derive(Debug, Default)]
pub struct OspfVrfYaml {
    pub name: String,
    pub enabled: bool,
    pub router_id: Option<String>,
    pub reference_bandwidth: Option<u32>,
    pub spf_delay: Option<u64>,
    pub spf_holdtime: Option<u64>,
    pub spf_max_holdtime: Option<u64>,
    pub passive_default: bool,
    pub distance: Option<u8>,
    pub distance_intra: Option<u8>,
    pub distance_inter: Option<u8>,
    pub distance_external: Option<u8>,
    pub summary_addresses: Vec<SummaryAddressEntry>,
    pub default_originate: bool,
    pub default_originate_always: bool,
    pub default_originate_metric: Option<u32>,
    pub default_originate_metric_type: Option<u8>,
    pub redistribute: Vec<RedistributeEntry>,
    pub areas: Vec<AreaConfigEntry>,
}

/// Whether the block of a VRF counts as enabled when it does not say.
pub fn default_true() -> (b: bool)
    ensures
        b,
{
    true
}

/// What the default block and the block of a VRF have in common.
pub struct OspfBlock<'a> {
    pub enabled: bool,
    pub router_id: &'a Option<String>,
    pub reference_bandwidth: Option<u32>,
    pub spf_delay: Option<u64>,
    pub spf_holdtime: Option<u64>,
    pub spf_max_holdtime: Option<u64>,
    pub passive_default: bool,
    pub distance: Option<u8>,
    pub distance_intra: Option<u8>,
    pub distance_inter: Option<u8>,
    pub distance_external: Option<u8>,
    pub summary_addresses: &'a Vec<SummaryAddressEntry>,
    pub default_originate: bool,
    pub default_originate_metric: Option<u32>,
    pub default_originate_metric_type: Option<u8>,
    pub redistribute: &'a Vec<RedistributeEntry>,
    pub areas: &'a Vec<AreaConfigEntry>,
}

impl OspfConfig {
    /// The block as it stands.
    pub open spec fn spec_block(&self) -> OspfBlock<'_> {
        OspfBlock {
            enabled: self.enabled,
            router_id: &self.router_id,
            reference_bandwidth: self.reference_bandwidth,
            spf_delay: self.spf_delay,
            spf_holdtime: self.spf_holdtime,
            spf_max_holdtime: self.spf_max_holdtime,
            passive_default: self.passive_default,
            distance: self.distance,
            distance_intra: self.distance_intra,
            distance_inter: self.distance_inter,
            distance_external: self.distance_external,
            summary_addresses: &self.summary_addresses,
            default_originate: self.default_originate,
            default_originate_metric: self.default_originate_metric,
            default_originate_metric_type: self.default_originate_metric_type,
            redistribute: &self.redistribute,
            areas: &self.areas,
        }
    }

    /// The block as it stands.
    pub fn block(&self) -> (b: OspfBlock<'_>)
        ensures
            b == self.spec_block(),
    {
        OspfBlock {
            enabled: self.enabled,
            router_id: &self.router_id,
            reference_bandwidth: self.reference_bandwidth,
            spf_delay: self.spf_delay,
            spf_holdtime: self.spf_holdtime,
            spf_max_holdtime: self.spf_max_holdtime,
            passive_default: self.passive_default,
            distance: self.distance,
            distance_intra: self.distance_intra,
            distance_inter: self.distance_inter,
            distance_external: self.distance_external,
            summary_addresses: &self.summary_addresses,
            default_originate: self.default_originate,
            default_originate_metric: self.default_originate_metric,
            default_originate_metric_type: self.default_originate_metric_type,
            redistribute: &self.redistribute,
            areas: &self.areas,
        }
    }
}

impl OspfVrfYaml {
    /// The block without the name of the VRF.
    pub open spec fn spec_block(&self) -> OspfBlock<'_> {
        OspfBlock {
            enabled: self.enabled,
            router_id: &self.router_id,
            reference_bandwidth: self.reference_bandwidth,
            spf_delay: self.spf_delay,
            spf_holdtime: self.spf_holdtime,
            spf_max_holdtime: self.spf_max_holdtime,
            passive_default: self.passive_default,
            distance: self.distance,
            distance_intra: self.distance_intra,
            distance_inter: self.distance_inter,
            distance_external: self.distance_external,
            summary_addresses: &self.summary_addresses,
            default_originate: self.default_originate,
            default_originate_metric: self.default_originate_metric,
            default_originate_metric_type: self.default_originate_metric_type,
            redistribute: &self.redistribute,
            areas: &self.areas,
        }
    }

    /// The block without the name of the VRF.
    pub fn block(&self) -> (b: OspfBlock<'_>)
        ensures
            b == self.spec_block(),
    {
        OspfBlock {
            enabled: self.enabled,
            router_id: &self.router_id,
            reference_bandwidth: self.reference_bandwidth,
            spf_delay: self.spf_delay,
            spf_holdtime: self.spf_holdtime,
            spf_max_holdtime: self.spf_max_holdtime,
            passive_default: self.passive_default,
            distance: self.distance,
            distance_intra: self.distance_intra,
            distance_inter: self.distance_inter,
            distance_external: self.distance_external,
            summary_addresses: &self.summary_addresses,
            default_originate: self.default_originate,
            default_originate_metric: self.default_originate_metric,
            default_originate_metric_type: self.default_originate_metric_type,
            redistribute: &self.redistribute,
            areas: &self.areas,
        }
    }
}

/// An interface.
#[derive(Debug, Default)]
pub struct InterfaceConfig {
    pub name: Option<String>,
    /// The VRF; nothing, the empty text and `default` mean the default one.
    pub vrf: Option<String>,
    pub ipv4: Vec<Ipv4AddressConfig>,
    pub ospf_area: Option<AreaIdValue>,
    pub ospf_cost: Option<u16>,
    pub ospf_passive: Option<bool>,
    pub ospf_network_type: Option<String>,
    pub ospf_hello_interval: Option<u16>,
    pub ospf_dead_interval: Option<u32>,
    pub ospf_retransmit_interval: Option<u16>,
    pub ospf_priority: Option<u8>,
    pub ospf_neighbors: Vec<OspfNeighborConfig>,
    /// `simple`, `message-digest` or one of the HMAC-SHA names.
    pub ospf_auth_type: Option<String>,
    pub ospf_auth_key: Option<String>,
    pub ospf_md5_key_id: Option<u8>,
    pub ospf_md5_key: Option<String>,
    pub ospf3_area: Option<AreaIdValue>,
    pub ospf3_cost: Option<u16>,
    pub ospf3_passive: Option<bool>,
    pub ospf3_network_type: Option<String>,
    pub ospf3_hello_interval: Option<u16>,
    pub ospf3_dead_interval: Option<u32>,
    pub ospf3_retransmit_interval: Option<u16>,
    pub ospf3_transmit_delay: Option<u16>,
    pub ospf3_priority: Option<u8>,
    pub ospf3_instance_id: Option<u8>,
    pub ospf3_neighbors: Vec<Ospf6NeighborConfig>,
    /// The VLANs on the interface.
    pub subinterfaces: Vec<SubInterfaceConfig>,
}

/// A VLAN on an interface. Its VRF does not depend on that of the interface.
#[derive(Debug, Default)]
pub struct SubInterfaceConfig {
    pub vlan_id: u16,
    pub vrf: Option<String>,
    pub ipv4: Vec<AddrEntry>,
    pub ipv6: Vec<AddrEntry>,
    pub ospf_area: Option<AreaIdValue>,
    pub ospf_cost: Option<u16>,
    pub ospf_passive: Option<bool>,
    pub ospf_network_type: Option<String>,
    pub ospf_hello_interval: Option<u16>,
    pub ospf_dead_interval: Option<u32>,
    pub ospf_retransmit_interval: Option<u16>,
    pub ospf_priority: Option<u8>,
    pub ospf_neighbors: Vec<OspfNeighborConfig>,
    pub ospf_auth_type: Option<String>,
    pub ospf_auth_key: Option<String>,
    pub ospf_md5_key_id: Option<u8>,
    pub ospf_md5_key: Option<String>,
    pub ospf3_area: Option<AreaIdValue>,
    pub ospf3_cost: Option<u16>,
    pub ospf3_passive: Option<bool>,
    pub ospf3_network_type: Option<String>,
    pub ospf3_hello_interval: Option<u16>,
    pub ospf3_dead_interval: Option<u32>,
    pub ospf3_retransmit_interval: Option<u16>,
    pub ospf3_transmit_delay: Option<u16>,
    pub ospf3_priority: Option<u8>,
    pub ospf3_instance_id: Option<u8>,
    pub ospf3_neighbors: Vec<Ospf6NeighborConfig>,
}

/// A loopback interface.
#[derive(Debug, Default)]
pub struct LoopbackConfig {
    pub name: Option<String>,
    pub vrf: Option<String>,
    pub ipv4: Vec<AddrEntry>,
    pub ipv6: Vec<AddrEntry>,
    pub ospf_area: Option<AreaIdValue>,
    pub ospf_cost: Option<u16>,
    pub ospf_passive: Option<bool>,
    pub ospf3_area: Option<AreaIdValue>,
    pub ospf3_cost: Option<u16>,
    pub ospf3_passive: Option<bool>,
}

/// The configuration file.
#[derive(Debug, Default)]
pub struct RouterConfig {
    pub ospf: OspfConfig,
    pub ospf3: OspfConfig,
    pub interfaces: Vec<InterfaceConfig>,
    pub loopbacks: Vec<LoopbackConfig>,
    pub route_maps: Vec<RouteMapEntry>,
    pub vrfs: Vec<VrfYaml>,
}

} // verus!
