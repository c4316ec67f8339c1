//! The interface state machine.
use vstd::prelude::*;

use crate::election;
use crate::election::{run_election, Candidate};
use crate::packet::auth;
use crate::packet::auth::AuthKey;
use crate::packet::hello::OspfOptions;
use crate::proto::neighbor;
use crate::proto::neighbor::{Neighbor, NeighborEvent, NeighborState};
use crate::wire;

verus! {

broadcast use {wire::lemma_views_push, wire::lemma_views_update};

/// The state of an interface.
#[derive(Clone, Copy, Debug, PartialEq, Eq, Structural)]
pub enum InterfaceState {
    Down,
    Waiting,
    PointToPoint,
    DROther,
    Backup,
    DR,
}

/// The kind of network behind an interface.
#[derive(Clone, Copy, Debug, PartialEq, Eq, Structural)]
pub enum NetworkType {
    Broadcast,
    PointToPoint,
    /// Elects a designated router like a broadcast network, but Hellos go to configured
    /// neighbors one by one.
    NonBroadcast,
    /// A set of point-to-point adjacencies; no election.
    PointToMultipoint,
}

impl NetworkType {
    /// Whether a designated router is elected.
    pub open spec fn spec_elects(self) -> bool {
        self == NetworkType::Broadcast || self == NetworkType::NonBroadcast
    }

    /// Whether a designated router is elected.
    pub fn elects(self) -> (r: bool)
        ensures
            r == self.spec_elects(),
    {
        match self {
            NetworkType::Broadcast | NetworkType::NonBroadcast => true,
            NetworkType::PointToPoint | NetworkType::PointToMultipoint => false,
        }
    }
}

/// What can happen to an interface.
#[derive(Clone, Copy, Debug, PartialEq, Eq, Structural)]
pub enum InterfaceEvent {
    InterfaceUp,
    /// The time in which an incumbent could make itself known is over.
    WaitTimer,
    /// A designated router or backup made itself known.
    BackupSeen,
    /// The set of neighbors or what they declare changed.
    NeighborChange,
    InterfaceDown,
}

/// A configured neighbor of a non-broadcast network.
#[derive(Clone, Copy, Debug, PartialEq, Eq, Structural)]
pub struct StaticNeighbor {
    pub address: u32,
    pub priority: u8,
}

/// An interface. Neighbors keep the order in which they were first heard.
#[derive(Debug)]
pub struct OspfInterface {
    pub name: String,
    pub sw_if_index: u32,
    pub address: u32,
    pub mask: u32,
    pub area_id: u32,
    pub network_type: NetworkType,
    pub router_id: u32,
    pub state: InterfaceState,
    pub hello_interval: u16,
    pub dead_interval: u32,
    pub rxmt_interval: u16,
    pub cost: u16,
    pub priority: u8,
    pub options: OspfOptions,
    pub passive: bool,
    /// The designated router, by address; 0 for none.
    pub dr: u32,
    /// The backup, by address; 0 for none.
    pub bdr: u32,
    pub neighbors: Vec<Neighbor>,
    pub static_neighbors: Vec<StaticNeighbor>,
    pub auth_key: AuthKey,
    /// Counts the authenticated packets that were sent.
    pub crypto_seq: u32,
    /// The MTU that Database Descriptions name.
    pub dd_mtu: u16,
    pub next_hello: u64,
    /// When waiting ends.
    pub wait_until: Option<u64>,
}

/// What is known of an interface.
pub struct OspfInterfaceView {
    pub name: Seq<char>,
    pub sw_if_index: u32,
    pub address: u32,
    pub mask: u32,
    pub area_id: u32,
    pub network_type: NetworkType,
    pub router_id: u32,
    pub state: InterfaceState,
    pub hello_interval: u16,
    pub dead_interval: u32,
    pub rxmt_interval: u16,
    pub cost: u16,
    pub priority: u8,
    pub options: OspfOptions,
    pub passive: bool,
    pub dr: u32,
    pub bdr: u32,
    pub neighbors: Seq<neighbor::NeighborView>,
    pub static_neighbors: Seq<StaticNeighbor>,
    pub auth_key: auth::AuthKeyView,
    pub crypto_seq: u32,
    pub dd_mtu: u16,
    pub next_hello: u64,
    pub wait_until: Option<u64>,
}

impl View for OspfInterface {
    type V = OspfInterfaceView;

    open spec fn view(&self) -> OspfInterfaceView {
        OspfInterfaceView {
            name: self.name@,
            sw_if_index: self.sw_if_index,
            address: self.address,
            mask: self.mask,
            area_id: self.area_id,
            network_type: self.network_type,
            router_id: self.router_id,
            state: self.state,
            hello_interval: self.hello_interval,
            dead_interval: self.dead_interval,
            rxmt_interval: self.rxmt_interval,
            cost: self.cost,
            priority: self.priority,
            options: self.options,
            passive: self.passive,
            dr: self.dr,
            bdr: self.bdr,
            neighbors: wire::views(self.neighbors@),
            static_neighbors: self.static_neighbors@,
            auth_key: self.auth_key@,
            crypto_seq: self.crypto_seq,
            dd_mtu: self.dd_mtu,
            next_hello: self.next_hello,
            wait_until: self.wait_until,
        }
    }
}

/// The position of the neighbor with router id `id` at or behind `from`.
pub open spec fn neighbor_pos(s: Seq<neighbor::NeighborView>, id: u32, from: int) -> Option<int>
    decreases s.len() - from,
{
    if from < 0 || from >= s.len() {
        None
    } else if s[from].router_id == id {
        Some(from)
    } else {
        neighbor_pos(s, id, from + 1)
    }
}

/// The neighbors that take part in the election.
pub open spec fn candidates(ns: Seq<neighbor::NeighborView>) -> Seq<Candidate>
    decreases ns.len(),
{
    if ns.len() == 0 {
        Seq::empty()
    } else {
        let front = candidates(ns.drop_last());
        let n = ns.last();
        if n.state.at_least(NeighborState::TwoWay) && n.priority > 0 {
            front.push(
                Candidate {
                    id: n.address,
                    router_id: n.router_id,
                    priority: n.priority,
                    declared_dr: n.dr,
                    declared_bdr: n.bdr,
                },
            )
        } else {
            front
        }
    }
}

/// Milliseconds of `n` seconds.
pub open spec fn millis(n: u32) -> int {
    n * 1000
}

impl OspfInterfaceView {
    /// An interface with the usual parameters that is down.
    pub open spec fn fresh(
        name: Seq<char>,
        sw_if_index: u32,
        address: u32,
        mask: u32,
        area_id: u32,
        network_type: NetworkType,
        router_id: u32,
    ) -> OspfInterfaceView {
        OspfInterfaceView {
            name,
            sw_if_index,
            address,
            mask,
            area_id,
            network_type,
            router_id,
            state: InterfaceState::Down,
            hello_interval: 10,
            dead_interval: 40,
            rxmt_interval: 5,
            cost: 10,
            priority: 1,
            options: OspfOptions::spec_standard(),
            passive: false,
            dr: 0,
            bdr: 0,
            neighbors: Seq::empty(),
            static_neighbors: Seq::empty(),
            auth_key: auth::AuthKeyView::Null,
            crypto_seq: 0,
            dd_mtu: 1500,
            next_hello: 0,
            wait_until: None,
        }
    }

    /// No neighbor is listed twice.
    pub open spec fn wf(self) -> bool {
        forall|i: int, j: int|
            0 <= i < j < self.neighbors.len() ==> (#[trigger] self.neighbors[i]).router_id != (
            #[trigger] self.neighbors[j]).router_id
    }

    /// Whether an adjacency with every neighbor is wanted: without an election, or if we hold an
    /// office.
    pub open spec fn adjacent_to_all(self) -> bool {
        !self.network_type.spec_elects() || self.state == InterfaceState::DR || self.state
            == InterfaceState::Backup
    }

    /// Whether an adjacency with `n` is wanted: with everyone, or with an office holder.
    pub open spec fn wants_adjacency(self, n: neighbor::NeighborView) -> bool {
        self.adjacent_to_all() || n.dr == n.address || n.bdr == n.address
    }

    /// The offices after an election.
    pub open spec fn offices(self) -> (u32, u32) {
        election::outcome(
            candidates(self.neighbors),
            self.address,
            self.router_id,
            self.priority,
            self.dr,
            self.bdr,
        )
    }

    /// Our role under the given offices.
    pub open spec fn role(self, offices: (u32, u32)) -> InterfaceState {
        if offices.0 == self.address {
            InterfaceState::DR
        } else if offices.1 == self.address {
            InterfaceState::Backup
        } else {
            InterfaceState::DROther
        }
    }

    /// The interface after an election. If the offices changed hands, every neighbor is asked anew
    /// whether an adjacency is wanted.
    pub open spec fn elected(self, now: u64) -> OspfInterfaceView {
        let o = self.offices();
        let mid = OspfInterfaceView {
            dr: o.0,
            bdr: o.1,
            state: self.role(o),
            wait_until: None,
            ..self
        };
        if o.0 == self.dr && o.1 == self.bdr {
            mid
        } else {
            OspfInterfaceView {
                neighbors: Seq::new(
                    self.neighbors.len(),
                    |k: int|
                        self.neighbors[k].after(
                            NeighborEvent::AdjOk,
                            mid.wants_adjacency(self.neighbors[k]),
                            now,
                        ),
                ),
                ..mid
            }
        }
    }

    /// The interface after the event.
    pub open spec fn after(self, ev: InterfaceEvent, now: u64) -> OspfInterfaceView {
        match ev {
            InterfaceEvent::InterfaceUp => if self.state != InterfaceState::Down {
                self
            } else if !self.network_type.spec_elects() {
                OspfInterfaceView { state: InterfaceState::PointToPoint, ..self }
            } else if self.priority == 0 {
                OspfInterfaceView { state: InterfaceState::DROther, ..self }
            } else {
                OspfInterfaceView {
                    state: InterfaceState::Waiting,
                    wait_until: Some(later(now, self.dead_interval)),
                    ..self
                }
            },
            InterfaceEvent::WaitTimer | InterfaceEvent::BackupSeen => if self.state
                == InterfaceState::Waiting {
                self.elected(now)
            } else {
                self
            },
            InterfaceEvent::NeighborChange => if self.state == InterfaceState::DROther || self.state
                == InterfaceState::Backup || self.state == InterfaceState::DR {
                self.elected(now)
            } else {
                self
            },
            InterfaceEvent::InterfaceDown => OspfInterfaceView {
                state: InterfaceState::Down,
                dr: 0,
                bdr: 0,
                neighbors: Seq::empty(),
                wait_until: None,
                ..self
            },
        }
    }
}

/// `n` seconds after `now`.
pub open spec fn later(now: u64, n: u32) -> u64 {
    if now + millis(n) > u64::MAX {
        u64::MAX
    } else {
        (now + millis(n)) as u64
    }
}

/// `n` seconds after `now`.
pub fn seconds_after(now: u64, n: u32) -> (t: u64)
    ensures
        t == later(now, n),
{
    now.saturating_add(n as u64 * 1000)
}

impl OspfInterface {
    /// An interface with the usual parameters that is down.
    pub fn new(
        name: String,
        sw_if_index: u32,
        address: u32,
        mask: u32,
        area_id: u32,
        network_type: NetworkType,
        router_id: u32,
    ) -> (i: OspfInterface)
        ensures
            i@ == OspfInterfaceView::fresh(
                name@,
                sw_if_index,
                address,
                mask,
                area_id,
                network_type,
                router_id,
            ),
    {
        let i = OspfInterface {
            name,
            sw_if_index,
            address,
            mask,
            area_id,
            network_type,
            router_id,
            state: InterfaceState::Down,
            hello_interval: 10,
            dead_interval: 40,
            rxmt_interval: 5,
            cost: 10,
            priority: 1,
            options: OspfOptions::standard(),
            passive: false,
            dr: 0,
            bdr: 0,
            neighbors: Vec::new(),
            static_neighbors: Vec::new(),
            auth_key: AuthKey::Null,
            crypto_seq: 0,
            dd_mtu: 1500,
            next_hello: 0,
            wait_until: None,
        };
        assert(i@.neighbors =~= Seq::empty());
        i
    }

    /// The position of the neighbor with router id `id`.
    pub fn find_neighbor(&self, id: u32) -> (r: Option<usize>)
        ensures
            match (r, neighbor_pos(self@.neighbors, id, 0)) {
                (Some(i), Some(j)) => i == j && i < self.neighbors@.len(),
                (None, None) => true,
                _ => false,
            },
    {
        let mut i: usize = 0;
        while i < self.neighbors.len()
            invariant
                i <= self.neighbors@.len(),
                neighbor_pos(self@.neighbors, id, 0) == neighbor_pos(self@.neighbors, id, i as int),
            decreases self.neighbors.len() - i,
        {
            assert(self@.neighbors[i as int] == self.neighbors@[i as int]@);
            if self.neighbors[i].router_id == id {
                return Some(i);
            }
            i = i + 1;
        }
        None
    }

    /// Milliseconds of silence after which a neighbor is given up.
    pub fn dead_duration(&self) -> (d: u64)
        ensures
            d == millis(self@.dead_interval),
    {
        self.dead_interval as u64 * 1000
    }

    /// Whether an adjacency with every neighbor is wanted.
    pub fn adjacent_to_all(&self) -> (r: bool)
        ensures
            r == self@.adjacent_to_all(),
    {
        !self.network_type.elects() || self.state == InterfaceState::DR || self.state
            == InterfaceState::Backup
    }

    /// Whether an adjacency with the neighbor at position `j` is wanted.
    pub fn wants_adjacency(&self, j: usize) -> (r: bool)
        requires
            j < self@.neighbors.len(),
        ensures
            r == self@.wants_adjacency(self@.neighbors[j as int]),
    {
        let n = &self.neighbors[j];
        self.adjacent_to_all() || n.dr == n.address || n.bdr == n.address
    }

    /// The neighbors that take part in the election.
    fn election_candidates(&self) -> (r: Vec<Candidate>)
        ensures
            r@ == candidates(self@.neighbors),
    {
        let mut cs: Vec<Candidate> = Vec::new();
        let ghost ns = self@.neighbors;
        let mut i: usize = 0;
        assert(ns.take(0) =~= Seq::empty());
        while i < self.neighbors.len()
            invariant
                i <= self.neighbors@.len(),
                ns == self@.neighbors,
                cs@ == candidates(ns.take(i as int)),
            decreases self.neighbors.len() - i,
        {
            assert(ns.take(i + 1).drop_last() =~= ns.take(i as int));
            let n = &self.neighbors[i];
            assert(n@ == ns[i as int]);
            if n.state.reached(NeighborState::TwoWay) && n.priority > 0 {
                cs.push(
                    Candidate {
                        id: n.address,
                        router_id: n.router_id,
                        priority: n.priority,
                        declared_dr: n.dr,
                        declared_bdr: n.bdr,
                    },
                );
            }
            i = i + 1;
        }
        assert(ns.take(i as int) =~= ns);
        cs
    }

    /// Runs the election and takes the outcome over.
    fn elect(&mut self, now: u64)
        ensures
            final(self)@ == old(self)@.elected(now),
    {
        let ghost me = self@;
        let cs = self.election_candidates();
        let o = run_election(
            &cs,
            self.address,
            self.router_id,
            self.priority,
            self.dr,
            self.bdr,
        );
        let moved = o.0 != self.dr || o.1 != self.bdr;
        self.dr = o.0;
        self.bdr = o.1;
        self.state = if o.0 == self.address {
            InterfaceState::DR
        } else if o.1 == self.address {
            InterfaceState::Backup
        } else {
            InterfaceState::DROther
        };
        self.wait_until = None;
        let ghost mid = self@;
        if moved {
            let mut i: usize = 0;
            while i < self.neighbors.len()
                invariant
                    i <= self.neighbors@.len(),
                    self.neighbors@.len() == me.neighbors.len(),
                    mid.neighbors == me.neighbors,
                    self@ == (OspfInterfaceView { neighbors: self@.neighbors, ..mid }),
                    forall|k: int|
                        0 <= k < i ==> (#[trigger] self.neighbors@[k])@ == me.neighbors[k].after(
                            NeighborEvent::AdjOk,
                            mid.wants_adjacency(me.neighbors[k]),
                            now,
                        ),
                    forall|k: int|
                        i <= k < me.neighbors.len() ==> (#[trigger] self.neighbors@[k])@
                            == me.neighbors[k],
                decreases self.neighbors.len() - i,
            {
                let adj = self.wants_adjacency(i);
                let _s = self.neighbors[i].handle_event(NeighborEvent::AdjOk, adj, now);
                i = i + 1;
            }
            assert(self@.neighbors =~= me.elected(now).neighbors);
        }
    }

    /// Takes the event in.
    pub fn handle_event(&mut self, ev: InterfaceEvent, now: u64)
        ensures
            final(self)@ == old(self)@.after(ev, now),
    {
        match ev {
            InterfaceEvent::InterfaceUp => {
                if self.state == InterfaceState::Down {
                    if !self.network_type.elects() {
                        self.state = InterfaceState::PointToPoint;
                    } else if self.priority == 0 {
                        self.state = InterfaceState::DROther;
                    } else {
                        self.state = InterfaceState::Waiting;
                        self.wait_until = Some(seconds_after(now, self.dead_interval));
                    }
                }
            },
            InterfaceEvent::WaitTimer | InterfaceEvent::BackupSeen => {
                if self.state == InterfaceState::Waiting {
                    self.elect(now);
                }
            },
            InterfaceEvent::NeighborChange => {
                if self.state == InterfaceState::DROther || self.state == InterfaceState::Backup
                    || self.state == InterfaceState::DR {
                    self.elect(now);
                }
            },
            InterfaceEvent::InterfaceDown => {
                self.state = InterfaceState::Down;
                self.dr = 0;
                self.bdr = 0;
                self.neighbors = Vec::new();
                self.wait_until = None;
                assert(self@.neighbors =~= Seq::empty());
            },
        }
    }
}

/// What a search for a neighbor finds.
pub proof fn lemma_neighbor_pos(s: Seq<neighbor::NeighborView>, id: u32, from: int)
    requires
        0 <= from,
    ensures
        match neighbor_pos(s, id, from) {
            Some(i) => from <= i < s.len() && s[i].router_id == id && forall|j: int|
                from <= j < i ==> (#[trigger] s[j]).router_id != id,
            None => forall|j: int| from <= j < s.len() ==> (#[trigger] s[j]).router_id != id,
        },
    decreases s.len() - from,
{
    if from < s.len() && s[from].router_id != id {
        lemma_neighbor_pos(s, id, from + 1);
    }
}

impl OspfInterfaceView {
    /// No event makes a neighbor be listed twice.
    pub proof fn lemma_after_wf(self, ev: InterfaceEvent, now: u64)
        requires
            self.wf(),
        ensures
            self.after(ev, now).wf(),
    {
        let t = self.after(ev, now);
        assert forall|i: int, j: int| 0 <= i < j < t.neighbors.len() implies (
        #[trigger] t.neighbors[i]).router_id != (#[trigger] t.neighbors[j]).router_id by {
            assert(self.neighbors[i].router_id != self.neighbors[j].router_id);
        }
    }

    /// An interface that goes down has no neighbors and no designated router left.
    pub proof fn lemma_down_is_bare(self, now: u64)
        ensures
            ({
                let t = self.after(InterfaceEvent::InterfaceDown, now);
                t.state == InterfaceState::Down && t.neighbors.len() == 0 && t.dr == 0 && t.bdr == 0
            }),
    {
    }

    /// An interface whose network elects no designated router never holds an office.
    pub proof fn lemma_no_office_without_election(self, ev: InterfaceEvent, now: u64)
        requires
            !self.network_type.spec_elects(),
            self.state == InterfaceState::Down || self.state == InterfaceState::PointToPoint,
        ensures
            self.after(ev, now).state == InterfaceState::Down || self.after(ev, now).state
                == InterfaceState::PointToPoint,
    {
    }
}

} // verus!
