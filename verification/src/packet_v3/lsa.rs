//! LSA bodies.
use vstd::prelude::*;

use crate::packet_v3;
use crate::packet_v3::prefix;
use crate::packet_v3::prefix::{get_prefixes, put_prefixes, Ospfv3Prefix};
use crate::packet_v3::{get_u32s, put_u32s, PacketV3Error};
use crate::wire;
use crate::wire::{get_u16, get_u24, get_u32, put_u128, put_u16, put_u24, put_u32};

verus! {

/// One link of a Router-LSA.
#[derive(Clone, Copy, Debug, PartialEq, Eq, Structural)]
pub struct RouterLinkV3 {
    pub link_type: u8,
    pub metric: u16,
    pub interface_id: u32,
    pub neighbor_interface_id: u32,
    pub neighbor_router_id: u32,
}

/// Link type of a point-to-point connection to another router.
pub const TYPE_POINT_TO_POINT: u8 = 1;

/// Link type of a connection to a transit network.
pub const TYPE_TRANSIT_NETWORK: u8 = 2;

/// Router-LSA flag of an area border router.
pub const FLAG_B: u8 = 0x01;

/// Router-LSA flag of an AS boundary router.
pub const FLAG_E: u8 = 0x02;

impl RouterLinkV3 {
    /// The sixteen octets of the link.
    pub open spec fn bytes(self) -> Seq<u8> {
        seq![self.link_type, 0u8] + wire::be16(self.metric) + wire::be32(self.interface_id)
            + wire::be32(self.neighbor_interface_id) + wire::be32(self.neighbor_router_id)
    }
}

/// The octets of the links, one after the other.
pub open spec fn links_bytes(ls: Seq<RouterLinkV3>) -> Seq<u8>
    decreases ls.len(),
{
    if ls.len() == 0 {
        Seq::empty()
    } else {
        links_bytes(ls.drop_last()) + ls.last().bytes()
    }
}

/// The links from octet 4 on; fewer than sixteen octets at the end are ignored.
pub open spec fn links_from(s: Seq<u8>) -> Seq<RouterLinkV3> {
    Seq::new(
        ((s.len() - 4) / 16) as nat,
        |k: int|
            RouterLinkV3 {
                link_type: s[4 + 16 * k],
                metric: wire::u16_at(s, 4 + 16 * k + 2),
                interface_id: wire::u32_at(s, 4 + 16 * k + 4),
                neighbor_interface_id: wire::u32_at(s, 4 + 16 * k + 8),
                neighbor_router_id: wire::u32_at(s, 4 + 16 * k + 12),
            },
    )
}

/// The body of a Router-LSA.
#[derive(Debug)]
pub struct RouterLsaV3 {
    pub flags: u8,
    pub options: u32,
    pub links: Vec<RouterLinkV3>,
}

/// The octets of a Router-LSA body.
pub open spec fn router_lsa_bytes(flags: u8, options: u32, links: Seq<RouterLinkV3>) -> Seq<u8> {
    seq![flags] + wire::be24(options) + links_bytes(links)
}

impl RouterLsaV3 {
    /// Appends the octets of the body.
    pub fn encode(&self, buf: &mut Vec<u8>)
        ensures
            final(buf)@ == old(buf)@ + router_lsa_bytes(self.flags, self.options, self.links@),
    {
        buf.push(self.flags);
        put_u24(buf, self.options);
        let ghost start = buf@;
        let ls = &self.links;
        let mut i: usize = 0;
        assert(ls@.take(0) =~= Seq::empty());
        assert(buf@ =~= start + links_bytes(ls@.take(0)));
        while i < ls.len()
            invariant
                i <= ls@.len(),
                buf@ == start + links_bytes(ls@.take(i as int)),
            decreases ls.len() - i,
        {
            let ghost before = buf@;
            buf.push(ls[i].link_type);
            buf.push(0);
            put_u16(buf, ls[i].metric);
            put_u32(buf, ls[i].interface_id);
            put_u32(buf, ls[i].neighbor_interface_id);
            put_u32(buf, ls[i].neighbor_router_id);
            assert(buf@ =~= before + ls@[i as int].bytes());
            assert(ls@.take(i + 1).drop_last() =~= ls@.take(i as int));
            i = i + 1;
            assert(buf@ =~= start + links_bytes(ls@.take(i as int)));
        }
        assert(ls@.take(i as int) =~= ls@);
        assert(buf@ =~= old(buf)@ + router_lsa_bytes(self.flags, self.options, self.links@));
    }

    /// Reads a Router-LSA body.
    pub fn parse(data: &[u8]) -> (r: Result<RouterLsaV3, PacketV3Error>)
        ensures
            match r {
                Err(e) => data@.len() < 4 && e == (PacketV3Error::TooShort {
                    expected: 4,
                    got: data@.len() as usize,
                }),
                Ok(l) => data@.len() >= 4 && l.flags == data@[0] && l.options == wire::u24_at(
                    data@,
                    1,
                ) && l.links@ == links_from(data@),
            },
    {
        if data.len() < 4 {
            return Err(PacketV3Error::TooShort { expected: 4, got: data.len() });
        }
        let mut links: Vec<RouterLinkV3> = Vec::new();
        let mut i: usize = 4;
        while data.len() - i >= 16
            invariant
                4 <= i <= data@.len(),
                i == 4 + 16 * links@.len(),
                links@ == links_from(data@).take(links@.len() as int),
            decreases data.len() - i,
        {
            links.push(
                RouterLinkV3 {
                    link_type: data[i],
                    metric: get_u16(data, i + 2),
                    interface_id: get_u32(data, i + 4),
                    neighbor_interface_id: get_u32(data, i + 8),
                    neighbor_router_id: get_u32(data, i + 12),
                },
            );
            i = i + 16;
            assert(links@ =~= links_from(data@).take(links@.len() as int));
        }
        assert(links@ =~= links_from(data@));
        Ok(RouterLsaV3 { flags: data[0], options: get_u24(data, 1), links })
    }
}

/// The body of a Network-LSA.
#[derive(Debug)]
pub struct NetworkLsaV3 {
    pub options: u32,
    pub attached_routers: Vec<u32>,
}

/// The octets of a Network-LSA body.
pub open spec fn network_lsa_bytes(options: u32, attached: Seq<u32>) -> Seq<u8> {
    seq![0u8] + wire::be24(options) + packet_v3::be32s(attached)
}

impl NetworkLsaV3 {
    /// Appends the octets of the body.
    pub fn encode(&self, buf: &mut Vec<u8>)
        ensures
            final(buf)@ == old(buf)@ + network_lsa_bytes(self.options, self.attached_routers@),
    {
        buf.push(0);
        put_u24(buf, self.options);
        put_u32s(buf, &self.attached_routers);
        assert(buf@ =~= old(buf)@ + network_lsa_bytes(self.options, self.attached_routers@));
    }

    /// Reads a Network-LSA body.
    pub fn parse(data: &[u8]) -> (r: Result<NetworkLsaV3, PacketV3Error>)
        ensures
            match r {
                Err(e) => data@.len() < 4 && e == (PacketV3Error::TooShort {
                    expected: 4,
                    got: data@.len() as usize,
                }),
                Ok(l) => data@.len() >= 4 && l.options == wire::u24_at(data@, 1)
                    && l.attached_routers@ == packet_v3::u32s_from(data@, 4),
            },
    {
        if data.len() < 4 {
            return Err(PacketV3Error::TooShort { expected: 4, got: data.len() });
        }
        Ok(NetworkLsaV3 { options: get_u24(data, 1), attached_routers: get_u32s(data, 4) })
    }
}

/// The body of a Link-LSA.
#[derive(Debug)]
pub struct LinkLsaV3 {
    pub router_priority: u8,
    pub options: u32,
    pub link_local_address: u128,
    pub prefixes: Vec<Ospfv3Prefix>,
}

/// The octets of a Link-LSA body.
pub open spec fn link_lsa_bytes(
    priority: u8,
    options: u32,
    link_local: u128,
    prefixes: Seq<Ospfv3Prefix>,
) -> Seq<u8> {
    seq![priority] + wire::be24(options) + wire::be128(link_local) + wire::be32(
        (prefixes.len() % 0x100000000) as u32,
    ) + prefix::prefixes_bytes(prefixes)
}

impl LinkLsaV3 {
    /// Appends the octets of the body.
    pub fn encode(&self, buf: &mut Vec<u8>)
        ensures
            final(buf)@ == old(buf)@ + link_lsa_bytes(
                self.router_priority,
                self.options,
                self.link_local_address,
                self.prefixes@,
            ),
    {
        buf.push(self.router_priority);
        put_u24(buf, self.options);
        put_u128(buf, self.link_local_address);
        put_u32(buf, (self.prefixes.len() as u64 % 0x100000000) as u32);
        put_prefixes(buf, &self.prefixes);
        assert(buf@ =~= old(buf)@ + link_lsa_bytes(
            self.router_priority,
            self.options,
            self.link_local_address,
            self.prefixes@,
        ));
    }
}

/// The body of an Intra-Area-Prefix-LSA.
#[derive(Debug)]
pub struct IntraAreaPrefixLsaV3 {
    pub referenced_ls_type: u16,
    pub referenced_link_state_id: u32,
    pub referenced_advertising_router: u32,
    pub prefixes: Vec<Ospfv3Prefix>,
}

/// The octets of an Intra-Area-Prefix-LSA body.
pub open spec fn intra_area_prefix_bytes(
    ls_type: u16,
    link_state_id: u32,
    advertising_router: u32,
    prefixes: Seq<Ospfv3Prefix>,
) -> Seq<u8> {
    wire::be16((prefixes.len() % 65536) as u16) + wire::be16(ls_type) + wire::be32(link_state_id)
        + wire::be32(advertising_router) + prefix::prefixes_bytes(prefixes)
}

/// The prefixes that an Intra-Area-Prefix-LSA body lists.
pub open spec fn intra_area_prefix_parse(s: Seq<u8>) -> Result<Seq<Ospfv3Prefix>, PacketV3Error> {
    if s.len() < 12 {
        Err(PacketV3Error::TooShort { expected: 12, got: s.len() as usize })
    } else {
        prefix::prefixes_from(s, 12, wire::u16_at(s, 0) as nat)
    }
}

impl IntraAreaPrefixLsaV3 {
    /// Appends the octets of the body.
    pub fn encode(&self, buf: &mut Vec<u8>)
        ensures
            final(buf)@ == old(buf)@ + intra_area_prefix_bytes(
                self.referenced_ls_type,
                self.referenced_link_state_id,
                self.referenced_advertising_router,
                self.prefixes@,
            ),
    {
        put_u16(buf, (self.prefixes.len() % 65536) as u16);
        put_u16(buf, self.referenced_ls_type);
        put_u32(buf, self.referenced_link_state_id);
        put_u32(buf, self.referenced_advertising_router);
        put_prefixes(buf, &self.prefixes);
        assert(buf@ =~= old(buf)@ + intra_area_prefix_bytes(
            self.referenced_ls_type,
            self.referenced_link_state_id,
            self.referenced_advertising_router,
            self.prefixes@,
        ));
    }

    /// Reads an Intra-Area-Prefix-LSA body.
    pub fn parse(data: &[u8]) -> (r: Result<IntraAreaPrefixLsaV3, PacketV3Error>)
        ensures
            match (r, intra_area_prefix_parse(data@)) {
                (Ok(l), Ok(ps)) => l.referenced_ls_type == wire::u16_at(data@, 2)
                    && l.referenced_link_state_id == wire::u32_at(data@, 4)
                    && l.referenced_advertising_router == wire::u32_at(data@, 8) && l.prefixes@ == ps,
                (Err(e), Err(f)) => e == f,
                _ => false,
            },
    {
        if data.len() < 12 {
            return Err(PacketV3Error::TooShort { expected: 12, got: data.len() });
        }
        match get_prefixes(data, 12, get_u16(data, 0) as u32) {
            Err(e) => Err(e),
            Ok(prefixes) => Ok(
                IntraAreaPrefixLsaV3 {
                    referenced_ls_type: get_u16(data, 2),
                    referenced_link_state_id: get_u32(data, 4),
                    referenced_advertising_router: get_u32(data, 8),
                    prefixes,
                },
            ),
        }
    }
}

/// The body of an Inter-Area-Prefix-LSA.
#[derive(Clone, Copy, Debug, PartialEq, Eq, Structural)]
pub struct InterAreaPrefixLsaV3 {
    pub metric: u32,
    pub prefix: Ospfv3Prefix,
}

impl InterAreaPrefixLsaV3 {
    /// The octets of the body.
    pub open spec fn bytes(self) -> Seq<u8> {
        seq![0u8] + wire::be24(self.metric) + self.prefix.bytes()
    }

    /// Appends the octets of the body.
    pub fn encode(&self, buf: &mut Vec<u8>)
        ensures
            final(buf)@ == old(buf)@ + self.bytes(),
    {
        buf.push(0);
        put_u24(buf, self.metric);
        self.prefix.encode(buf);
        assert(buf@ =~= old(buf)@ + self.bytes());
    }

    /// The body that the octets hold.
    pub open spec fn spec_parse(s: Seq<u8>) -> Result<InterAreaPrefixLsaV3, PacketV3Error> {
        if s.len() < 4 {
            Err(PacketV3Error::TooShort { expected: 4, got: s.len() as usize })
        } else {
            match Ospfv3Prefix::spec_at(s, 4) {
                Ok(p) => Ok(InterAreaPrefixLsaV3 { metric: wire::u24_at(s, 1), prefix: p.0 }),
                Err(e) => Err(e),
            }
        }
    }

    /// Reads an Inter-Area-Prefix-LSA body.
    pub fn parse(data: &[u8]) -> (r: Result<InterAreaPrefixLsaV3, PacketV3Error>)
        ensures
            r == InterAreaPrefixLsaV3::spec_parse(data@),
    {
        if data.len() < 4 {
            return Err(PacketV3Error::TooShort { expected: 4, got: data.len() });
        }
        match Ospfv3Prefix::parse_at(data, 4) {
            Ok(p) => Ok(InterAreaPrefixLsaV3 { metric: get_u24(data, 1), prefix: p.0 }),
            Err(e) => Err(e),
        }
    }
}

/// The body of an AS-External-LSA.
#[derive(Clone, Copy, Debug, PartialEq, Eq, Structural)]
pub struct AsExternalLsaV3 {
    pub metric_type_2: bool,
    pub forwarding_present: bool,
    pub tag_present: bool,
    pub metric: u32,
    pub prefix: Ospfv3Prefix,
    pub referenced_ls_type: u16,
    pub forwarding_address: Option<u128>,
    pub external_route_tag: Option<u32>,
    pub referenced_link_state_id: Option<u32>,
}

impl AsExternalLsaV3 {
    /// The E, F and T bits.
    pub open spec fn flag_bits(self) -> u8 {
        ((if self.metric_type_2 {
            4int
        } else {
            0
        }) + (if self.forwarding_present {
            2int
        } else {
            0
        }) + (if self.tag_present {
            1int
        } else {
            0
        })) as u8
    }

    /// The octets of the body.
    pub open spec fn bytes(self) -> Seq<u8> {
        seq![self.flag_bits()] + wire::be24(self.metric) + seq![
            self.prefix.prefix_length,
            self.prefix.prefix_options,
        ] + wire::be16(self.referenced_ls_type) + self.prefix.address_bytes() + self.tail_bytes()
    }

    /// The body of an external without forwarding address and reference.
    pub open spec fn spec_external(
        type_2: bool,
        metric: u32,
        address: u128,
        len: u8,
        tag: u32,
    ) -> AsExternalLsaV3 {
        AsExternalLsaV3 {
            metric_type_2: type_2,
            forwarding_present: false,
            tag_present: tag != 0,
            metric,
            prefix: Ospfv3Prefix::spec_plain(address, len),
            referenced_ls_type: 0,
            forwarding_address: None,
            external_route_tag: if tag != 0 {
                Some(tag)
            } else {
                None
            },
            referenced_link_state_id: None,
        }
    }

    /// The body of an external without forwarding address and reference; a zero tag is left out.
    pub fn external(type_2: bool, metric: u32, address: u128, len: u8, tag: u32) -> (e:
        AsExternalLsaV3)
        ensures
            e == AsExternalLsaV3::spec_external(type_2, metric, address, len, tag),
    {
        AsExternalLsaV3 {
            metric_type_2: type_2,
            forwarding_present: false,
            tag_present: tag != 0,
            metric,
            prefix: Ospfv3Prefix::plain(address, len),
            referenced_ls_type: 0,
            forwarding_address: None,
            external_route_tag: if tag != 0 {
                Some(tag)
            } else {
                None
            },
            referenced_link_state_id: None,
        }
    }

    /// Appends the octets of the body.
    pub fn encode(&self, buf: &mut Vec<u8>)
        ensures
            final(buf)@ == old(buf)@ + self.bytes(),
    {
        let e: u8 = if self.metric_type_2 {
            4
        } else {
            0
        };
        let f: u8 = if self.forwarding_present {
            2
        } else {
            0
        };
        let t: u8 = if self.tag_present {
            1
        } else {
            0
        };
        let ghost start = buf@;
        let ghost fixed = seq![self.flag_bits()] + wire::be24(self.metric) + seq![
            self.prefix.prefix_length,
            self.prefix.prefix_options,
        ] + wire::be16(self.referenced_ls_type);
        buf.push(e + f + t);
        put_u24(buf, self.metric);
        buf.push(self.prefix.prefix_length);
        buf.push(self.prefix.prefix_options);
        put_u16(buf, self.referenced_ls_type);
        assert(buf@ =~= start + fixed);
        self.prefix.put_address(buf);
        let ghost with_prefix = fixed + self.prefix.address_bytes();
        assert(buf@ =~= start + with_prefix);
        self.put_tail(buf);
        assert(buf@ =~= start + (with_prefix + self.tail_bytes()));
    }

    /// The optional fields behind the prefix.
    pub open spec fn tail_bytes(self) -> Seq<u8> {
        (match self.forwarding_address {
            Some(a) => wire::be128(a),
            None => Seq::empty(),
        }) + (match self.external_route_tag {
            Some(t) => wire::be32(t),
            None => Seq::empty(),
        }) + (match self.referenced_link_state_id {
            Some(l) => wire::be32(l),
            None => Seq::empty(),
        })
    }

    /// Appends the optional fields behind the prefix.
    fn put_tail(&self, buf: &mut Vec<u8>)
        ensures
            final(buf)@ == old(buf)@ + self.tail_bytes(),
    {
        if let Some(a) = self.forwarding_address {
            put_u128(buf, a);
        }
        if let Some(g) = self.external_route_tag {
            put_u32(buf, g);
        }
        if let Some(l) = self.referenced_link_state_id {
            put_u32(buf, l);
        }
        assert(buf@ =~= old(buf)@ + self.tail_bytes());
    }
}

} // verus!
