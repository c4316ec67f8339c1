//! Hello packets.
use vstd::prelude::*;

use crate::packet_v3;
use crate::packet_v3::{get_u32s, put_u32s, Options, PacketV3Error, HELLO_V3_MIN_LEN};
use crate::wire;
use crate::wire::{get_u16, get_u24, get_u32, put_u16, put_u24, put_u32};

verus! {

/// The body of a Hello.
#[derive(Debug)]
pub struct HelloV3Packet {
    pub interface_id: u32,
    pub router_priority: u8,
    pub options: Options,
    pub hello_interval: u16,
    pub router_dead_interval: u16,
    pub designated_router_id: u32,
    pub backup_designated_router_id: u32,
    pub neighbors: Vec<u32>,
}

/// What a Hello says.
pub struct HelloV3View {
    pub interface_id: u32,
    pub router_priority: u8,
    pub options: Options,
    pub hello_interval: u16,
    pub router_dead_interval: u16,
    pub designated_router_id: u32,
    pub backup_designated_router_id: u32,
    pub neighbors: Seq<u32>,
}

impl View for HelloV3Packet {
    type V = HelloV3View;

    open spec fn view(&self) -> HelloV3View {
        HelloV3View {
            interface_id: self.interface_id,
            router_priority: self.router_priority,
            options: self.options,
            hello_interval: self.hello_interval,
            router_dead_interval: self.router_dead_interval,
            designated_router_id: self.designated_router_id,
            backup_designated_router_id: self.backup_designated_router_id,
            neighbors: self.neighbors@,
        }
    }
}

impl HelloV3View {
    /// The octets of the body.
    pub open spec fn bytes(self) -> Seq<u8> {
        wire::be32(self.interface_id) + seq![self.router_priority] + wire::be24(self.options.0)
            + wire::be16(self.hello_interval) + wire::be16(self.router_dead_interval) + wire::be32(
            self.designated_router_id,
        ) + wire::be32(self.backup_designated_router_id) + packet_v3::be32s(self.neighbors)
    }

    /// The Hello whose body is `s`.
    pub open spec fn spec_parse(s: Seq<u8>) -> Result<HelloV3View, PacketV3Error> {
        if s.len() < HELLO_V3_MIN_LEN {
            Err(PacketV3Error::TooShort { expected: HELLO_V3_MIN_LEN, got: s.len() as usize })
        } else {
            Ok(
                HelloV3View {
                    interface_id: wire::u32_at(s, 0),
                    router_priority: s[4],
                    options: Options(wire::u24_at(s, 5)),
                    hello_interval: wire::u16_at(s, 8),
                    router_dead_interval: wire::u16_at(s, 10),
                    designated_router_id: wire::u32_at(s, 12),
                    backup_designated_router_id: wire::u32_at(s, 16),
                    neighbors: packet_v3::u32s_from(s, 20),
                },
            )
        }
    }

    /// What `encode` writes, `parse` reads back.
    pub proof fn lemma_roundtrip(self)
        requires
            self.options.0 < 0x1000000,
        ensures
            HelloV3View::spec_parse(self.bytes()) == Ok::<HelloV3View, PacketV3Error>(self),
    {
        let s = self.bytes();
        let n = packet_v3::be32s(self.neighbors);
        packet_v3::lemma_be32s(self.neighbors);
        assert(s.subrange(0, 4) =~= wire::be32(self.interface_id));
        assert(s.subrange(5, 8) =~= wire::be24(self.options.0));
        assert(s.subrange(8, 10) =~= wire::be16(self.hello_interval));
        assert(s.subrange(10, 12) =~= wire::be16(self.router_dead_interval));
        assert(s.subrange(12, 16) =~= wire::be32(self.designated_router_id));
        assert(s.subrange(16, 20) =~= wire::be32(self.backup_designated_router_id));
        assert(s.subrange(20, s.len() as int) =~= n);
        wire::lemma_be32_inside(s, 0, self.interface_id);
        wire::lemma_be24_inside(s, 5, self.options.0);
        wire::lemma_be16_inside(s, 8, self.hello_interval);
        wire::lemma_be16_inside(s, 10, self.router_dead_interval);
        wire::lemma_be32_inside(s, 12, self.designated_router_id);
        wire::lemma_be32_inside(s, 16, self.backup_designated_router_id);
        assert(packet_v3::u32s_from(s, 20) =~= self.neighbors) by {
            assert forall|k: int| 0 <= k < self.neighbors.len() implies wire::u32_at(s, 20 + 4 * k)
                == self.neighbors[k] by {
                assert(s.subrange(20 + 4 * k, 20 + 4 * k + 4) =~= n.subrange(4 * k, 4 * k + 4));
                wire::lemma_be32_inside(s, 20 + 4 * k, self.neighbors[k]);
            }
        }
    }
}

impl HelloV3Packet {
    /// Appends the octets of the body.
    pub fn encode(&self, buf: &mut Vec<u8>)
        ensures
            final(buf)@ == old(buf)@ + self@.bytes(),
    {
        put_u32(buf, self.interface_id);
        buf.push(self.router_priority);
        put_u24(buf, self.options.0);
        put_u16(buf, self.hello_interval);
        put_u16(buf, self.router_dead_interval);
        put_u32(buf, self.designated_router_id);
        put_u32(buf, self.backup_designated_router_id);
        put_u32s(buf, &self.neighbors);
        assert(buf@ =~= old(buf)@ + self@.bytes());
    }

    /// Reads a Hello body.
    pub fn parse(data: &[u8]) -> (r: Result<HelloV3Packet, PacketV3Error>)
        ensures
            match (r, HelloV3View::spec_parse(data@)) {
                (Ok(h), Ok(v)) => h@ == v,
                (Err(e), Err(f)) => e == f,
                _ => false,
            },
    {
        if data.len() < HELLO_V3_MIN_LEN {
            return Err(PacketV3Error::TooShort { expected: HELLO_V3_MIN_LEN, got: data.len() });
        }
        Ok(
            HelloV3Packet {
                interface_id: get_u32(data, 0),
                router_priority: data[4],
                options: Options(get_u24(data, 5)),
                hello_interval: get_u16(data, 8),
                router_dead_interval: get_u16(data, 10),
                designated_router_id: get_u32(data, 12),
                backup_designated_router_id: get_u32(data, 16),
                neighbors: get_u32s(data, 20),
            },
        )
    }
}

} // verus!
