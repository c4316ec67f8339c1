//! OSPFv2 packets at the boundary of the protocol logic.
use vstd::prelude::*;

use crate::wire;
use crate::wire::{copy_range, get_u32};

verus! {

/// A received OSPFv2 packet.
#[derive(Debug)]
pub struct RxPacket {
    pub sw_if_index: u32,
    pub src_addr: u32,
    pub dst_addr: u32,
    /// The packet from its OSPF header on.
    pub data: Vec<u8>,
}

/// What a received packet says.
pub struct RxPacketView {
    pub sw_if_index: u32,
    pub src_addr: u32,
    pub dst_addr: u32,
    pub data: Seq<u8>,
}

impl View for RxPacket {
    type V = RxPacketView;

    open spec fn view(&self) -> RxPacketView {
        RxPacketView {
            sw_if_index: self.sw_if_index,
            src_addr: self.src_addr,
            dst_addr: self.dst_addr,
            data: self.data@,
        }
    }
}

/// An OSPFv2 packet to send.
#[derive(Debug)]
pub struct TxPacket {
    pub sw_if_index: u32,
    pub src_addr: u32,
    pub dst_addr: u32,
    /// The packet from its OSPF header on.
    pub data: Vec<u8>,
}

/// What a packet to send says.
pub struct TxPacketView {
    pub sw_if_index: u32,
    pub src_addr: u32,
    pub dst_addr: u32,
    pub data: Seq<u8>,
}

impl View for TxPacket {
    type V = TxPacketView;

    open spec fn view(&self) -> TxPacketView {
        TxPacketView {
            sw_if_index: self.sw_if_index,
            src_addr: self.src_addr,
            dst_addr: self.dst_addr,
            data: self.data@,
        }
    }
}

/// An interface that OSPFv2 runs on.
#[derive(Debug)]
pub struct IoInterface {
    pub name: String,
    pub sw_if_index: u32,
    pub kernel_ifindex: u32,
    pub address: u32,
    /// Ethernet address, needed where whole frames are built.
    pub mac_address: [u8; 6],
    /// 802.1Q tag of a sub-interface.
    pub outer_vlan_id: Option<u16>,
    /// Inner tag of a double-tagged sub-interface.
    pub inner_vlan_id: Option<u16>,
}

/// What is known of an interface.
pub struct IoInterfaceView {
    pub name: Seq<char>,
    pub sw_if_index: u32,
    pub kernel_ifindex: u32,
    pub address: u32,
    pub mac_address: Seq<u8>,
    pub outer_vlan_id: Option<u16>,
    pub inner_vlan_id: Option<u16>,
}

impl View for IoInterface {
    type V = IoInterfaceView;

    open spec fn view(&self) -> IoInterfaceView {
        IoInterfaceView {
            name: self.name@,
            sw_if_index: self.sw_if_index,
            kernel_ifindex: self.kernel_ifindex,
            address: self.address,
            mac_address: self.mac_address@,
            outer_vlan_id: self.outer_vlan_id,
            inner_vlan_id: self.inner_vlan_id,
        }
    }
}

impl IoInterface {
    /// A copy of the interface.
    pub fn duplicate(&self) -> (r: IoInterface)
        ensures
            r@ == self@,
    {
        IoInterface {
            name: self.name.as_str().to_owned(),
            sw_if_index: self.sw_if_index,
            kernel_ifindex: self.kernel_ifindex,
            address: self.address,
            mac_address: self.mac_address,
            outer_vlan_id: self.outer_vlan_id,
            inner_vlan_id: self.inner_vlan_id,
        }
    }
}

/// Octets of an IPv4 header without options.
pub const IPV4_HEADER_LEN: usize = 20;

/// The OSPF packet inside an IPv4 packet that a raw socket delivered; nothing if the IPv4 header
/// is cut short.
pub open spec fn raw_packet(sw_if_index: u32, s: Seq<u8>) -> Option<RxPacketView> {
    let header = s[0] % 16 * 4;
    if s.len() < IPV4_HEADER_LEN || s.len() < header {
        None
    } else {
        Some(
            RxPacketView {
                sw_if_index,
                src_addr: wire::u32_at(s, 12),
                dst_addr: wire::u32_at(s, 16),
                data: s.skip(header),
            },
        )
    }
}

/// The OSPF packet inside an IPv4 packet that a raw socket delivered.
pub fn strip_ip_header(sw_if_index: u32, buf: &[u8]) -> (r: Option<RxPacket>)
    ensures
        match (r, raw_packet(sw_if_index, buf@)) {
            (Some(p), Some(v)) => p@ == v,
            (None, None) => true,
            _ => false,
        },
{
    if buf.len() < IPV4_HEADER_LEN {
        return None;
    }
    let header: usize = (buf[0] % 16) as usize * 4;
    if buf.len() < header {
        return None;
    }
    let data = copy_range(buf, header, buf.len());
    assert(data@ =~= buf@.skip(header as int));
    Some(
        RxPacket {
            sw_if_index,
            src_addr: get_u32(buf, 12),
            dst_addr: get_u32(buf, 16),
            data,
        },
    )
}

} // verus!
