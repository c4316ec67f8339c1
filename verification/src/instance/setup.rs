//! Bringing instances up: their interfaces in the forwarder, their first LSAs, and which instance
//! serves which interface.
use vstd::prelude::*;

use crate::cli;
use crate::cli::control_socket_path;
use crate::config;
use crate::config::OspfDaemonConfig;
use crate::instance::originate;
use crate::instance::originate::External;
use crate::instance::{copy_rules, OspfInstance, OspfInstanceView};
use crate::io;
use crate::io::IoInterface;
use crate::packet::lsa::AsExternalLsa;
use crate::prefix;
use crate::prefix::{apply_mask, prefix_len_to_mask};
use crate::proto::interface;
use crate::proto::interface::{InterfaceEvent, OspfInterface};
use crate::wire;
use crate::wire::same_text;

verus! {

broadcast use {wire::lemma_views_push, wire::lemma_views_update};

/// An interface as the forwarder and the kernel know it.
#[derive(Debug)]
pub struct FoundInterface {
    pub name: String,
    pub sw_if_index: u32,
    pub mac_address: [u8; 6],
    pub outer_vlan_id: Option<u16>,
    pub inner_vlan_id: Option<u16>,
    /// The first IPv4 address and the length of its prefix.
    pub address: Option<(u32, u8)>,
    /// The index in the kernel, if the kernel has the interface.
    pub kernel_ifindex: Option<u32>,
}

/// What is known of an interface.
pub struct FoundInterfaceView {
    pub name: Seq<char>,
    pub sw_if_index: u32,
    pub mac_address: Seq<u8>,
    pub outer_vlan_id: Option<u16>,
    pub inner_vlan_id: Option<u16>,
    pub address: Option<(u32, u8)>,
    pub kernel_ifindex: Option<u32>,
}

impl View for FoundInterface {
    type V = FoundInterfaceView;

    open spec fn view(&self) -> FoundInterfaceView {
        FoundInterfaceView {
            name: self.name@,
            sw_if_index: self.sw_if_index,
            mac_address: self.mac_address@,
            outer_vlan_id: self.outer_vlan_id,
            inner_vlan_id: self.inner_vlan_id,
            address: self.address,
            kernel_ifindex: self.kernel_ifindex,
        }
    }
}

/// The position of the interface of that name at or behind `from`.
pub open spec fn found_pos(s: Seq<FoundInterfaceView>, name: Seq<char>, from: int) -> Option<int>
    decreases s.len() - from,
{
    if from < 0 || from >= s.len() {
        None
    } else if s[from].name == name {
        Some(from)
    } else {
        found_pos(s, name, from + 1)
    }
}

/// The position of the interface of that name.
pub fn find_found(found: &Vec<FoundInterface>, name: &str) -> (r: Option<usize>)
    ensures
        match (r, found_pos(wire::views(found@), name@, 0)) {
            (Some(i), Some(j)) => i == j && i < found@.len(),
            (None, None) => true,
            _ => false,
        },
{
    let ghost s = wire::views(found@);
    let mut i: usize = 0;
    while i < found.len()
        invariant
            i <= found@.len(),
            s == wire::views(found@),
            found_pos(s, name@, 0) == found_pos(s, name@, i as int),
        decreases found.len() - i,
    {
        assert(s[i as int] == found@[i as int]@);
        if same_text(found[i].name.as_str(), name) {
            return Some(i);
        }
        i = i + 1;
    }
    None
}

impl interface::OspfInterfaceView {
    /// The interface with the index and, if it has one, the address that the forwarder knows.
    pub open spec fn resolved(self, s: Seq<FoundInterfaceView>) -> interface::OspfInterfaceView {
        match found_pos(s, self.name, 0) {
            None => self,
            Some(i) => match s[i].address {
                Some(a) => interface::OspfInterfaceView {
                    sw_if_index: s[i].sw_if_index,
                    address: a.0,
                    mask: prefix::mask_v4(a.1 as int),
                    ..self
                },
                None => interface::OspfInterfaceView { sw_if_index: s[i].sw_if_index, ..self },
            },
        }
    }

    /// The interface as packets go through it: nothing if the forwarder does not know it, or if raw
    /// sockets are used and the kernel does not know it.
    pub open spec fn io_of(self, s: Seq<FoundInterfaceView>, raw: bool) -> Option<
        io::IoInterfaceView,
    > {
        match found_pos(s, self.name, 0) {
            None => None,
            Some(i) => if raw && s[i].kernel_ifindex is None {
                None
            } else {
                Some(
                    io::IoInterfaceView {
                        name: self.name,
                        sw_if_index: s[i].sw_if_index,
                        kernel_ifindex: match s[i].kernel_ifindex {
                            Some(k) => k,
                            None => 0,
                        },
                        address: self.resolved(s).address,
                        mac_address: s[i].mac_address,
                        outer_vlan_id: s[i].outer_vlan_id,
                        inner_vlan_id: s[i].inner_vlan_id,
                    },
                )
            },
        }
    }

    /// The interface after it came up, if the forwarder knows it.
    pub open spec fn started(self, now: u64) -> interface::OspfInterfaceView {
        if self.sw_if_index != 0 {
            self.after(InterfaceEvent::InterfaceUp, now)
        } else {
            self
        }
    }
}

/// The interfaces that packets go through.
pub open spec fn io_list(
    is: Seq<interface::OspfInterfaceView>,
    s: Seq<FoundInterfaceView>,
    raw: bool,
) -> Seq<io::IoInterfaceView>
    decreases is.len(),
{
    if is.len() == 0 {
        Seq::empty()
    } else {
        match is.last().io_of(s, raw) {
            Some(f) => io_list(is.drop_last(), s, raw).push(f),
            None => io_list(is.drop_last(), s, raw),
        }
    }
}

impl OspfInstanceView {
    /// The instance with the interfaces as the forwarder knows them.
    pub open spec fn resolved(self, s: Seq<FoundInterfaceView>) -> OspfInstanceView {
        OspfInstanceView {
            interfaces: Seq::new(self.interfaces.len(), |k: int| self.interfaces[k].resolved(s)),
            ..self
        }
    }

    /// The instance after its interfaces came up.
    pub open spec fn brought_up(self, now: u64) -> OspfInstanceView {
        OspfInstanceView {
            interfaces: Seq::new(self.interfaces.len(), |k: int| self.interfaces[k].started(now)),
            ..self
        }
    }

    /// The instance after its first LSAs were issued and routes have to be computed.
    pub open spec fn launched(
        self,
        c: OspfDaemonConfig,
        es: Seq<originate::ExternalView>,
        now: u64,
    ) -> OspfInstanceView {
        let a = self.brought_up(now).with_router_lsas(now);
        let b = a.redistributed(a.redistribute, es, c.summary_addresses@, now).0;
        let d = b.aggregates(c.summary_addresses@, now).0;
        let e = if c.default_originate {
            d.issued_external(
                0,
                AsExternalLsa {
                    network_mask: 0,
                    metric_type_2: c.default_originate_metric_type == 2,
                    metric: c.default_originate_metric,
                    forwarding_address: 0,
                    external_route_tag: 0,
                },
                now,
            ).0
        } else {
            d
        };
        e.scheduled(now)
    }
}

impl OspfInterface {
    /// Takes over what the forwarder knows of the interface, and gives it as packets go through
    /// it.
    fn resolve(&mut self, found: &Vec<FoundInterface>, raw: bool) -> (r: Option<IoInterface>)
        requires
            forall|k: int|
                0 <= k < found@.len() ==> ((#[trigger] found@[k]).address matches Some(a) ==> a.1
                    <= 32),
        ensures
            final(self)@ == old(self)@.resolved(wire::views(found@)),
            match (r, old(self)@.io_of(wire::views(found@), raw)) {
                (Some(f), Some(v)) => f@ == v,
                (None, None) => true,
                _ => false,
            },
    {
        let i: usize = match find_found(found, self.name.as_str()) {
            None => {
                return None;
            },
            Some(i) => i,
        };
        let f = &found[i];
        assert(wire::views(found@)[i as int] == f@);
        self.sw_if_index = f.sw_if_index;
        if let Some(a) = f.address {
            self.address = a.0;
            self.mask = prefix_len_to_mask(a.1);
        }
        let kernel_ifindex: u32 = match f.kernel_ifindex {
            Some(k) => k,
            None => {
                if raw {
                    return None;
                }
                0
            },
        };
        Some(
            IoInterface {
                name: self.name.as_str().to_owned(),
                sw_if_index: self.sw_if_index,
                kernel_ifindex,
                address: self.address,
                mac_address: f.mac_address,
                outer_vlan_id: f.outer_vlan_id,
                inner_vlan_id: f.inner_vlan_id,
            },
        )
    }
}

impl OspfInstance {
    /// Takes over the indices and addresses of the interfaces from the forwarder, whose addresses
    /// count more than the configured ones, and gives the interfaces that packets go through.
    pub fn resolve_interfaces(&mut self, found: &Vec<FoundInterface>, raw: bool) -> (r: Vec<
        IoInterface,
    >)
        requires
            forall|k: int|
                0 <= k < found@.len() ==> ((#[trigger] found@[k]).address matches Some(a) ==> a.1
                    <= 32),
        ensures
            final(self)@ == old(self)@.resolved(wire::views(found@)),
            wire::views(r@) == io_list(old(self)@.interfaces, wire::views(found@), raw),
    {
        let ghost start = self@;
        let ghost is = start.interfaces;
        let ghost fs = wire::views(found@);
        let mut out: Vec<IoInterface> = Vec::new();
        let mut i: usize = 0;
        assert(is.take(0) =~= Seq::empty());
        assert(wire::views(out@) =~= Seq::empty());
        while i < self.interfaces.len()
            invariant
                i <= self.interfaces@.len(),
                self.interfaces@.len() == is.len(),
                is == start.interfaces,
                fs == wire::views(found@),
                forall|k: int|
                    0 <= k < found@.len() ==> ((#[trigger] found@[k]).address matches Some(a)
                        ==> a.1 <= 32),
                self@ == (OspfInstanceView { interfaces: self@.interfaces, ..start }),
                forall|k: int|
                    0 <= k < i ==> (#[trigger] self.interfaces@[k])@ == is[k].resolved(fs),
                forall|k: int| i <= k < is.len() ==> (#[trigger] self.interfaces@[k])@ == is[k],
                wire::views(out@) == io_list(is.take(i as int), fs, raw),
            decreases self.interfaces.len() - i,
        {
            assert(is.take(i + 1).drop_last() =~= is.take(i as int));
            assert(self.interfaces@[i as int]@ == is[i as int]);
            match self.interfaces[i].resolve(found, raw) {
                Some(f) => {
                    out.push(f);
                },
                None => {},
            }
            i = i + 1;
        }
        assert(is.take(i as int) =~= is);
        assert(self@.interfaces =~= start.resolved(fs).interfaces);
        out
    }

    /// Brings the interfaces up that the forwarder knows.
    pub fn bring_up(&mut self, now: u64)
        ensures
            final(self)@ == old(self)@.brought_up(now),
    {
        let ghost start = self@;
        let ghost is = start.interfaces;
        let mut i: usize = 0;
        while i < self.interfaces.len()
            invariant
                i <= self.interfaces@.len(),
                self.interfaces@.len() == is.len(),
                is == start.interfaces,
                self@ == (OspfInstanceView { interfaces: self@.interfaces, ..start }),
                forall|k: int|
                    0 <= k < i ==> (#[trigger] self.interfaces@[k])@ == is[k].started(now),
                forall|k: int| i <= k < is.len() ==> (#[trigger] self.interfaces@[k])@ == is[k],
            decreases self.interfaces.len() - i,
        {
            assert(self.interfaces@[i as int]@ == is[i as int]);
            if self.interfaces[i].sw_if_index != 0 {
                self.interfaces[i].handle_event(InterfaceEvent::InterfaceUp, now);
            }
            i = i + 1;
        }
        assert(self@.interfaces =~= start.brought_up(now).interfaces);
    }

    /// Brings the interfaces up, issues the first LSAs and asks for a route computation.
    pub fn launch(&mut self, config: &OspfDaemonConfig, externals: &Vec<External>, now: u64)
        requires
            forall|k: int|
                0 <= k < config.summary_addresses@.len() && !(
                #[trigger] config.summary_addresses@[k]).no_advertise
                    ==> config.summary_addresses@[k].prefix_len <= 32,
        ensures
            final(self)@ == old(self)@.launched(*config, wire::views(externals@), now),
    {
        self.bring_up(now);
        let _routers = self.originate_router_lsas(now);
        let rules = copy_rules(&self.redistribute);
        let _externals = self.originate_external_lsas(
            &rules,
            externals,
            &config.summary_addresses,
            now,
        );
        let _aggregates = self.originate_summary_address_lsas(&config.summary_addresses, now);
        if config.default_originate {
            let _default = self.originate_default_route_lsa(
                config.default_originate_metric,
                config.default_originate_metric_type,
                now,
            );
        }
        self.schedule_spf(now);
    }
}

/// The addresses of an interface, as far as they may be redistributed.
#[derive(Debug)]
pub struct FoundAddresses {
    pub sw_if_index: u32,
    pub admin_up: bool,
    /// The table that the interface belongs to; nothing if that could not be learned.
    pub table: Option<u32>,
    /// Addresses with the lengths of their prefixes.
    pub addresses: Vec<(u32, u8)>,
}

/// The addresses of an interface.
pub struct FoundAddressesView {
    pub sw_if_index: u32,
    pub admin_up: bool,
    pub table: Option<u32>,
    pub addresses: Seq<(u32, u8)>,
}

impl View for FoundAddresses {
    type V = FoundAddressesView;

    open spec fn view(&self) -> FoundAddressesView {
        FoundAddressesView {
            sw_if_index: self.sw_if_index,
            admin_up: self.admin_up,
            table: self.table,
            addresses: self.addresses@,
        }
    }
}

/// The network of an address, and its mask.
pub open spec fn network_of(a: (u32, u8)) -> (u32, u32) {
    (a.0 & prefix::mask_v4(a.1 as int), prefix::mask_v4(a.1 as int))
}

impl FoundAddressesView {
    /// Whether the networks of the interface are outside the protocol: it is up, it belongs to the
    /// table, and no instance serves it. An interface whose table is unknown stays out.
    pub open spec fn is_external(self, enrolled: Seq<u32>, table: u32) -> bool {
        !enrolled.contains(self.sw_if_index) && self.admin_up && self.table == Some(table)
    }
}

/// The networks that may be redistributed.
pub open spec fn external_networks(
    s: Seq<FoundAddressesView>,
    enrolled: Seq<u32>,
    table: u32,
) -> Seq<(u32, u32)>
    decreases s.len(),
{
    if s.len() == 0 {
        Seq::empty()
    } else {
        let front = external_networks(s.drop_last(), enrolled, table);
        if s.last().is_external(enrolled, table) {
            front + Seq::new(s.last().addresses.len(), |k: int| network_of(s.last().addresses[k]))
        } else {
            front
        }
    }
}

/// Whether the list holds the number.
fn holds(v: &Vec<u32>, x: u32) -> (r: bool)
    ensures
        r == v@.contains(x),
{
    let mut i: usize = 0;
    while i < v.len()
        invariant
            i <= v@.len(),
            forall|k: int| 0 <= k < i ==> v@[k] != x,
        decreases v.len() - i,
    {
        if v[i] == x {
            return true;
        }
        i = i + 1;
    }
    false
}

fn push_networks(addresses: &Vec<(u32, u8)>, out: &mut Vec<(u32, u32)>)
    requires
        forall|k: int| 0 <= k < addresses@.len() ==> (#[trigger] addresses@[k]).1 <= 32,
    ensures
        final(out)@ == old(out)@ + Seq::new(addresses@.len(), |k: int| network_of(addresses@[k])),
{
    let ghost before = out@;
    let mut i: usize = 0;
    while i < addresses.len()
        invariant
            i <= addresses@.len(),
            forall|k: int| 0 <= k < addresses@.len() ==> (#[trigger] addresses@[k]).1 <= 32,
            out@ =~= before + Seq::new(i as nat, |k: int| network_of(addresses@[k])),
        decreases addresses.len() - i,
    {
        let a: (u32, u8) = addresses[i];
        let mask: u32 = prefix_len_to_mask(a.1);
        out.push((apply_mask(a.0, mask), mask));
        i = i + 1;
    }
}

/// The networks that may be redistributed: those of interfaces of the table `table` that are up and
/// that no instance serves.
pub fn discover_externals_v4(found: &Vec<FoundAddresses>, enrolled: &Vec<u32>, table: u32) -> (r:
    Vec<(u32, u32)>)
    requires
        forall|i: int, k: int|
            0 <= i < found@.len() && 0 <= k < found@[i].addresses@.len() ==> (
            #[trigger] found@[i].addresses@[k]).1 <= 32,
    ensures
        r@ == external_networks(wire::views(found@), enrolled@, table),
{
    let ghost s = wire::views(found@);
    let mut out: Vec<(u32, u32)> = Vec::new();
    let mut i: usize = 0;
    assert(s.take(0) =~= Seq::empty());
    while i < found.len()
        invariant
            i <= found@.len(),
            s == wire::views(found@),
            forall|i: int, k: int|
                0 <= i < found@.len() && 0 <= k < found@[i].addresses@.len() ==> (
                #[trigger] found@[i].addresses@[k]).1 <= 32,
            out@ == external_networks(s.take(i as int), enrolled@, table),
        decreases found.len() - i,
    {
        assert(s.take(i + 1).drop_last() =~= s.take(i as int));
        let f = &found[i];
        assert(s.take(i + 1).last() == f@);
        let here = match f.table {
            Some(t) => t == table,
            None => false,
        };
        if !holds(enrolled, f.sw_if_index) && f.admin_up && here {
            push_networks(&f.addresses, &mut out);
        }
        i = i + 1;
    }
    assert(s.take(i as int) =~= s);
    out
}

/// The position of the entry of an interface at or behind `from`.
pub open spec fn owner_pos(s: Seq<(u32, usize)>, idx: u32, from: int) -> Option<int>
    decreases s.len() - from,
{
    if from < 0 || from >= s.len() {
        None
    } else if s[from].0 == idx {
        Some(from)
    } else {
        owner_pos(s, idx, from + 1)
    }
}

/// The instance that serves an interface.
pub open spec fn owner_of(s: Seq<(u32, usize)>, idx: u32) -> Option<usize> {
    match owner_pos(s, idx, 0) {
        Some(i) => Some(s[i].1),
        None => None,
    }
}

/// The table after an interface was given to an instance.
pub open spec fn with_owner(s: Seq<(u32, usize)>, idx: u32, owner: usize) -> Seq<(u32, usize)> {
    match owner_pos(s, idx, 0) {
        Some(i) => s.update(i, (idx, owner)),
        None => s.push((idx, owner)),
    }
}

fn find_owner(owners: &Vec<(u32, usize)>, idx: u32) -> (r: Option<usize>)
    ensures
        match (r, owner_pos(owners@, idx, 0)) {
            (Some(i), Some(j)) => i == j && i < owners@.len(),
            (None, None) => true,
            _ => false,
        },
{
    let mut i: usize = 0;
    while i < owners.len()
        invariant
            i <= owners@.len(),
            owner_pos(owners@, idx, 0) == owner_pos(owners@, idx, i as int),
        decreases owners.len() - i,
    {
        if owners[i].0 == idx {
            return Some(i);
        }
        i = i + 1;
    }
    None
}

/// Gives an interface to an instance; the one that it is given to last serves it.
pub fn set_owner(owners: &mut Vec<(u32, usize)>, idx: u32, owner: usize)
    ensures
        final(owners)@ == with_owner(old(owners)@, idx, owner),
{
    match find_owner(owners, idx) {
        Some(i) => {
            owners[i] = (idx, owner);
        },
        None => {
            owners.push((idx, owner));
        },
    }
}

/// The instance that a packet on an interface goes to; nothing if no instance serves it.
pub fn dispatch_target(owners: &Vec<(u32, usize)>, sw_if_index: u32) -> (r: Option<usize>)
    ensures
        r == owner_of(owners@, sw_if_index),
{
    match find_owner(owners, sw_if_index) {
        Some(i) => Some(owners[i].1),
        None => None,
    }
}

/// The table after every interface of the list was given to an instance.
pub open spec fn with_owners(s: Seq<(u32, usize)>, fs: Seq<io::IoInterfaceView>, owner: usize) -> Seq<
    (u32, usize),
>
    decreases fs.len(),
{
    if fs.len() == 0 {
        s
    } else {
        with_owner(with_owners(s, fs.drop_last(), owner), fs.last().sw_if_index, owner)
    }
}

/// Gives every interface of the list to an instance.
pub fn set_owners(owners: &mut Vec<(u32, usize)>, ifs: &Vec<IoInterface>, owner: usize)
    ensures
        final(owners)@ == with_owners(old(owners)@, wire::views(ifs@), owner),
{
    let ghost s = wire::views(ifs@);
    let ghost start = owners@;
    let mut i: usize = 0;
    assert(s.take(0) =~= Seq::empty());
    while i < ifs.len()
        invariant
            i <= ifs@.len(),
            s == wire::views(ifs@),
            owners@ == with_owners(start, s.take(i as int), owner),
        decreases ifs.len() - i,
    {
        assert(s.take(i + 1).drop_last() =~= s.take(i as int));
        assert(s.take(i + 1).last() == ifs@[i as int]@);
        set_owner(owners, ifs[i].sw_if_index, owner);
        i = i + 1;
    }
    assert(s.take(i as int) =~= s);
}

/// Whether an interface with that index is among the first `n`.
pub open spec fn listed(s: Seq<io::IoInterfaceView>, idx: u32) -> bool {
    exists|k: int| 0 <= k < s.len() && (#[trigger] s[k]).sw_if_index == idx
}

/// The list with the interfaces of another behind it that it does not hold yet.
pub open spec fn union_of(s: Seq<io::IoInterfaceView>, fs: Seq<io::IoInterfaceView>) -> Seq<
    io::IoInterfaceView,
>
    decreases fs.len(),
{
    if fs.len() == 0 {
        s
    } else {
        let front = union_of(s, fs.drop_last());
        if listed(front, fs.last().sw_if_index) {
            front
        } else {
            front.push(fs.last())
        }
    }
}

/// Appends the interfaces that the list does not hold yet.
pub fn extend_interfaces(all: &mut Vec<IoInterface>, ifs: &Vec<IoInterface>)
    ensures
        wire::views(final(all)@) == union_of(wire::views(old(all)@), wire::views(ifs@)),
{
    let ghost s = wire::views(ifs@);
    let ghost start = wire::views(all@);
    let mut i: usize = 0;
    assert(s.take(0) =~= Seq::empty());
    while i < ifs.len()
        invariant
            i <= ifs@.len(),
            s == wire::views(ifs@),
            wire::views(all@) == union_of(start, s.take(i as int)),
        decreases ifs.len() - i,
    {
        assert(s.take(i + 1).drop_last() =~= s.take(i as int));
        let f = &ifs[i];
        assert(s.take(i + 1).last() == f@);
        let ghost front = wire::views(all@);
        let mut known = false;
        let mut j: usize = 0;
        while j < all.len()
            invariant
                j <= all@.len(),
                front == wire::views(all@),
                known == exists|k: int|
                    0 <= k < j && (#[trigger] front[k]).sw_if_index == f.sw_if_index,
            decreases all.len() - j,
        {
            assert(front[j as int] == all@[j as int]@);
            if all[j].sw_if_index == f.sw_if_index {
                known = true;
            }
            j = j + 1;
        }
        assert(known == listed(front, f.sw_if_index));
        if !known {
            all.push(f.duplicate());
        }
        i = i + 1;
    }
    assert(s.take(i as int) =~= s);
}

/// No interface is listed twice after lists without repetitions were put together.
pub proof fn lemma_union_distinct(s: Seq<io::IoInterfaceView>, fs: Seq<io::IoInterfaceView>)
    requires
        forall|i: int, j: int|
            0 <= i < j < s.len() ==> (#[trigger] s[i]).sw_if_index != (
            #[trigger] s[j]).sw_if_index,
    ensures
        ({
            let u = union_of(s, fs);
            forall|i: int, j: int|
                0 <= i < j < u.len() ==> (#[trigger] u[i]).sw_if_index != (
                #[trigger] u[j]).sw_if_index
        }),
    decreases fs.len(),
{
    if fs.len() > 0 {
        lemma_union_distinct(s, fs.drop_last());
    }
}

/// An interface goes to the instance that it was given to last, and to nobody else's harm: every
/// other interface keeps its instance.
pub proof fn lemma_owner_after(s: Seq<(u32, usize)>, idx: u32, owner: usize, other: u32)
    ensures
        owner_of(with_owner(s, idx, owner), other) == (if other == idx {
            Some(owner)
        } else {
            owner_of(s, other)
        }),
{
    let t = with_owner(s, idx, owner);
    lemma_owner_pos(s, idx, 0);
    lemma_owner_pos(s, other, 0);
    lemma_owner_pos(t, other, 0);
    match owner_pos(s, idx, 0) {
        Some(i) => {
            if other != idx {
                match owner_pos(s, other, 0) {
                    Some(j) => {
                        assert(t[j] == s[j]);
                        match owner_pos(t, other, 0) {
                            Some(m) => {
                                assert(m != i);
                                assert(s[m] == t[m]);
                                assert(m == j);
                            },
                            None => {},
                        }
                    },
                    None => {
                        match owner_pos(t, other, 0) {
                            Some(m) => {
                                assert(m != i);
                                assert(s[m] == t[m]);
                            },
                            None => {},
                        }
                    },
                }
            } else {
                match owner_pos(t, idx, 0) {
                    Some(m) => {
                        if m < i {
                            assert(s[m] == t[m]);
                        }
                        assert(t[i].0 == idx);
                    },
                    None => {
                        assert(t[i].0 == idx);
                    },
                }
            }
        },
        None => {
            assert(t[s.len() as int] == (idx, owner));
            match owner_pos(t, other, 0) {
                Some(m) => {
                    if m < s.len() {
                        assert(s[m] == t[m]);
                    }
                },
                None => {},
            }
            match owner_pos(s, other, 0) {
                Some(j) => {
                    assert(t[j] == s[j]);
                },
                None => {},
            }
        },
    }
}

/// A search finds the first entry, if there is one.
proof fn lemma_owner_pos(s: Seq<(u32, usize)>, idx: u32, from: int)
    requires
        0 <= from,
    ensures
        match owner_pos(s, idx, from) {
            Some(i) => from <= i < s.len() && s[i].0 == idx && forall|k: int|
                from <= k < i ==> (#[trigger] s[k]).0 != idx,
            None => forall|k: int| from <= k < s.len() ==> (#[trigger] s[k]).0 != idx,
        },
    decreases s.len() - from,
{
    if from < s.len() && s[from].0 != idx {
        lemma_owner_pos(s, idx, from + 1);
    }
}

/// A control socket: the VRF, where it stands, the OSPFv2 instance behind it, and whether the
/// OSPFv3 instance is behind it too.
#[derive(Debug)]
pub struct ControlBinding {
    pub vrf: Option<String>,
    pub path: String,
    pub v2: Option<usize>,
    pub v3: bool,
}

/// What a control socket is.
pub struct ControlBindingView {
    pub vrf: Option<Seq<char>>,
    pub path: Seq<char>,
    pub v2: Option<usize>,
    pub v3: bool,
}

impl View for ControlBinding {
    type V = ControlBindingView;

    open spec fn view(&self) -> ControlBindingView {
        ControlBindingView {
            vrf: config::opt_text(self.vrf),
            path: self.path@,
            v2: self.v2,
            v3: self.v3,
        }
    }
}

/// The position of the socket of a VRF at or behind `from`.
pub open spec fn binding_pos(s: Seq<ControlBindingView>, vrf: Option<Seq<char>>, from: int) -> Option<
    int,
>
    decreases s.len() - from,
{
    if from < 0 || from >= s.len() {
        None
    } else if s[from].vrf == vrf {
        Some(from)
    } else {
        binding_pos(s, vrf, from + 1)
    }
}

/// The sockets after an OSPFv2 instance of a VRF was put behind one.
pub open spec fn with_v2(s: Seq<ControlBindingView>, vrf: Option<Seq<char>>, at: usize) -> Seq<
    ControlBindingView,
> {
    match binding_pos(s, vrf, 0) {
        Some(i) => s.update(i, ControlBindingView { v2: Some(at), ..s[i] }),
        None => s.push(
            ControlBindingView { vrf, path: cli::socket_of(vrf), v2: Some(at), v3: false },
        ),
    }
}

/// The sockets after the OSPFv3 instance of a VRF was put behind one.
pub open spec fn with_v3(s: Seq<ControlBindingView>, vrf: Option<Seq<char>>) -> Seq<
    ControlBindingView,
> {
    match binding_pos(s, vrf, 0) {
        Some(i) => s.update(i, ControlBindingView { v3: true, ..s[i] }),
        None => s.push(
            ControlBindingView { vrf, path: cli::socket_of(vrf), v2: None, v3: true },
        ),
    }
}

/// Whether the two names are the same.
fn same_name(a: &Option<String>, b: &Option<String>) -> (r: bool)
    ensures
        r == (config::opt_text(*a) == config::opt_text(*b)),
{
    match (a, b) {
        (Some(x), Some(y)) => same_text(x.as_str(), y.as_str()),
        (None, None) => true,
        _ => false,
    }
}

fn find_binding(s: &Vec<ControlBinding>, vrf: &Option<String>) -> (r: Option<usize>)
    ensures
        match (r, binding_pos(wire::views(s@), config::opt_text(*vrf), 0)) {
            (Some(i), Some(j)) => i == j && i < s@.len(),
            (None, None) => true,
            _ => false,
        },
{
    let ghost v = wire::views(s@);
    let ghost want = config::opt_text(*vrf);
    let mut i: usize = 0;
    while i < s.len()
        invariant
            i <= s@.len(),
            v == wire::views(s@),
            want == config::opt_text(*vrf),
            binding_pos(v, want, 0) == binding_pos(v, want, i as int),
        decreases s.len() - i,
    {
        assert(v[i as int] == s@[i as int]@);
        if same_name(&s[i].vrf, vrf) {
            return Some(i);
        }
        i = i + 1;
    }
    None
}

fn copy_vrf(vrf: &Option<String>) -> (r: Option<String>)
    ensures
        config::opt_text(r) == config::opt_text(*vrf),
{
    match vrf {
        Some(v) => Some(v.as_str().to_owned()),
        None => None,
    }
}

/// Puts an OSPFv2 instance behind the socket of its VRF.
pub fn bind_v2(s: &mut Vec<ControlBinding>, vrf: &Option<String>, at: usize)
    ensures
        wire::views(final(s)@) == with_v2(wire::views(old(s)@), config::opt_text(*vrf), at),
{
    let ghost v = wire::views(s@);
    match find_binding(s, vrf) {
        Some(i) => {
            assert(v[i as int] == s@[i as int]@);
            s[i].v2 = Some(at);
            assert(wire::views(s@) =~= with_v2(v, config::opt_text(*vrf), at));
        },
        None => {
            s.push(
                ControlBinding {
                    vrf: copy_vrf(vrf),
                    path: control_socket_path(vrf),
                    v2: Some(at),
                    v3: false,
                },
            );
        },
    }
}

/// Puts the OSPFv3 instance behind the socket of its VRF.
pub fn bind_v3(s: &mut Vec<ControlBinding>, vrf: &Option<String>)
    ensures
        wire::views(final(s)@) == with_v3(wire::views(old(s)@), config::opt_text(*vrf)),
{
    let ghost v = wire::views(s@);
    match find_binding(s, vrf) {
        Some(i) => {
            assert(v[i as int] == s@[i as int]@);
            s[i].v3 = true;
            assert(wire::views(s@) =~= with_v3(v, config::opt_text(*vrf)));
        },
        None => {
            s.push(
                ControlBinding {
                    vrf: copy_vrf(vrf),
                    path: control_socket_path(vrf),
                    v2: None,
                    v3: true,
                },
            );
        },
    }
}

} // verus!
