//! The neighbor state machine.
use vstd::prelude::*;

use crate::packet::dd;
use crate::packet::dd::DbDescPacket;
use crate::packet::lsa::{LsaHeader, LsaKey};

verus! {

/// How far an adjacency has come.
#[derive(Clone, Copy, Debug, PartialEq, Eq, PartialOrd, Ord, Structural)]
pub enum NeighborState {
    Down,
    Attempt,
    Init,
    TwoWay,
    ExStart,
    Exchange,
    Loading,
    Full,
}

impl NeighborState {
    /// The position of the state in the life of an adjacency.
    pub open spec fn level(self) -> int {
        match self {
            NeighborState::Down => 0,
            NeighborState::Attempt => 1,
            NeighborState::Init => 2,
            NeighborState::TwoWay => 3,
            NeighborState::ExStart => 4,
            NeighborState::Exchange => 5,
            NeighborState::Loading => 6,
            NeighborState::Full => 7,
        }
    }

    /// Whether the adjacency has come at least as far as `other`.
    pub open spec fn at_least(self, other: NeighborState) -> bool {
        self.level() >= other.level()
    }

    /// Whether the adjacency has come at least as far as `other`.
    pub fn reached(self, other: NeighborState) -> (r: bool)
        ensures
            r == self.at_least(other),
    {
        self.number() >= other.number()
    }

    fn number(self) -> (n: u8)
        ensures
            n == self.level(),
    {
        match self {
            NeighborState::Down => 0,
            NeighborState::Attempt => 1,
            NeighborState::Init => 2,
            NeighborState::TwoWay => 3,
            NeighborState::ExStart => 4,
            NeighborState::Exchange => 5,
            NeighborState::Loading => 6,
            NeighborState::Full => 7,
        }
    }
}

/// What can happen to an adjacency.
#[derive(Clone, Copy, Debug, PartialEq, Eq, Structural)]
pub enum NeighborEvent {
    /// A Hello arrived.
    HelloReceived,
    /// The neighbor lists us in its Hello.
    TwoWayReceived,
    /// Master and slave are settled.
    NegotiationDone,
    /// Both databases were described.
    ExchangeDone,
    /// Every requested LSA arrived.
    LoadingDone,
    /// The neighbor asked for an LSA that we do not have.
    BadLsReq,
    /// Whether an adjacency is wanted has to be decided anew.
    AdjOk,
    /// The neighbor no longer lists us.
    OneWay,
    /// Nothing was heard for the dead interval.
    InactivityTimer,
}

/// A neighbor on one interface.
#[derive(Debug)]
pub struct Neighbor {
    pub router_id: u32,
    pub address: u32,
    pub state: NeighborState,
    pub priority: u8,
    /// The designated router that the neighbor names, by address.
    pub dr: u32,
    /// The backup that the neighbor names, by address.
    pub bdr: u32,
    /// Whether we are master of the database exchange.
    pub is_master: bool,
    pub dd_seq_number: u32,
    /// Whether our last description packet announced no further one.
    pub sent_m_clear: bool,
    /// Headers that we have yet to describe.
    pub db_summary_list: Vec<LsaHeader>,
    /// LSAs that we have yet to get.
    pub ls_request_list: Vec<LsaKey>,
    /// The last description packet that arrived.
    pub last_dd: Option<DbDescPacket>,
    pub last_dd_sent: u64,
    pub last_lsr_sent: u64,
    pub last_heard: u64,
}

/// What is known of a neighbor.
pub struct NeighborView {
    pub router_id: u32,
    pub address: u32,
    pub state: NeighborState,
    pub priority: u8,
    pub dr: u32,
    pub bdr: u32,
    pub is_master: bool,
    pub dd_seq_number: u32,
    pub sent_m_clear: bool,
    pub db_summary_list: Seq<LsaHeader>,
    pub ls_request_list: Seq<LsaKey>,
    pub last_dd: Option<dd::DbDescView>,
    pub last_dd_sent: u64,
    pub last_lsr_sent: u64,
    pub last_heard: u64,
}

impl View for Neighbor {
    type V = NeighborView;

    open spec fn view(&self) -> NeighborView {
        NeighborView {
            router_id: self.router_id,
            address: self.address,
            state: self.state,
            priority: self.priority,
            dr: self.dr,
            bdr: self.bdr,
            is_master: self.is_master,
            dd_seq_number: self.dd_seq_number,
            sent_m_clear: self.sent_m_clear,
            db_summary_list: self.db_summary_list@,
            ls_request_list: self.ls_request_list@,
            last_dd: match self.last_dd {
                Some(d) => Some(d@),
                None => None,
            },
            last_dd_sent: self.last_dd_sent,
            last_lsr_sent: self.last_lsr_sent,
            last_heard: self.last_heard,
        }
    }
}

impl NeighborView {
    /// A neighbor that was heard for the first time at `now`.
    pub open spec fn fresh(router_id: u32, address: u32, now: u64) -> NeighborView {
        NeighborView {
            router_id,
            address,
            state: NeighborState::Down,
            priority: 0,
            dr: 0,
            bdr: 0,
            is_master: false,
            dd_seq_number: 0,
            sent_m_clear: false,
            db_summary_list: Seq::empty(),
            ls_request_list: Seq::empty(),
            last_dd: None,
            last_dd_sent: 0,
            last_lsr_sent: 0,
            last_heard: now,
        }
    }

    /// The state after the event; `adj` says whether an adjacency is wanted.
    pub open spec fn next_state(self, ev: NeighborEvent, adj: bool) -> NeighborState {
        match ev {
            NeighborEvent::HelloReceived => if self.state.at_least(NeighborState::Init) {
                self.state
            } else {
                NeighborState::Init
            },
            NeighborEvent::TwoWayReceived => if self.state != NeighborState::Init {
                self.state
            } else if adj {
                NeighborState::ExStart
            } else {
                NeighborState::TwoWay
            },
            NeighborEvent::NegotiationDone => if self.state == NeighborState::ExStart {
                NeighborState::Exchange
            } else {
                self.state
            },
            NeighborEvent::ExchangeDone => if self.state != NeighborState::Exchange {
                self.state
            } else if self.ls_request_list.len() == 0 {
                NeighborState::Full
            } else {
                NeighborState::Loading
            },
            NeighborEvent::LoadingDone => if self.state == NeighborState::Loading {
                NeighborState::Full
            } else {
                self.state
            },
            NeighborEvent::BadLsReq => if self.state.at_least(NeighborState::Exchange) {
                NeighborState::ExStart
            } else {
                self.state
            },
            NeighborEvent::AdjOk => if self.state == NeighborState::TwoWay && adj {
                NeighborState::ExStart
            } else if self.state.at_least(NeighborState::ExStart) && !adj {
                NeighborState::TwoWay
            } else {
                self.state
            },
            NeighborEvent::OneWay => if self.state.at_least(NeighborState::TwoWay) {
                NeighborState::Init
            } else {
                self.state
            },
            NeighborEvent::InactivityTimer => NeighborState::Down,
        }
    }

    /// The neighbor after the event. A step back drops what was gathered for the exchange.
    pub open spec fn after(self, ev: NeighborEvent, adj: bool, now: u64) -> NeighborView {
        let state = self.next_state(ev, adj);
        let back = state.level() < self.state.level();
        NeighborView {
            state,
            last_heard: if ev is HelloReceived {
                now
            } else {
                self.last_heard
            },
            db_summary_list: if back {
                Seq::empty()
            } else {
                self.db_summary_list
            },
            ls_request_list: if back {
                Seq::empty()
            } else {
                self.ls_request_list
            },
            ..self
        }
    }
}

impl Neighbor {
    /// A neighbor that was heard for the first time at `now`.
    pub fn new(router_id: u32, address: u32, now: u64) -> (n: Neighbor)
        ensures
            n@ == NeighborView::fresh(router_id, address, now),
    {
        Neighbor {
            router_id,
            address,
            state: NeighborState::Down,
            priority: 0,
            dr: 0,
            bdr: 0,
            is_master: false,
            dd_seq_number: 0,
            sent_m_clear: false,
            db_summary_list: Vec::new(),
            ls_request_list: Vec::new(),
            last_dd: None,
            last_dd_sent: 0,
            last_lsr_sent: 0,
            last_heard: now,
        }
    }

    /// The state after the event.
    fn step(&self, ev: NeighborEvent, adj: bool) -> (s: NeighborState)
        ensures
            s == self@.next_state(ev, adj),
    {
        match ev {
            NeighborEvent::HelloReceived => if self.state.reached(NeighborState::Init) {
                self.state
            } else {
                NeighborState::Init
            },
            NeighborEvent::TwoWayReceived => if self.state != NeighborState::Init {
                self.state
            } else if adj {
                NeighborState::ExStart
            } else {
                NeighborState::TwoWay
            },
            NeighborEvent::NegotiationDone => if self.state == NeighborState::ExStart {
                NeighborState::Exchange
            } else {
                self.state
            },
            NeighborEvent::ExchangeDone => if self.state != NeighborState::Exchange {
                self.state
            } else if self.ls_request_list.len() == 0 {
                NeighborState::Full
            } else {
                NeighborState::Loading
            },
            NeighborEvent::LoadingDone => if self.state == NeighborState::Loading {
                NeighborState::Full
            } else {
                self.state
            },
            NeighborEvent::BadLsReq => if self.state.reached(NeighborState::Exchange) {
                NeighborState::ExStart
            } else {
                self.state
            },
            NeighborEvent::AdjOk => if self.state == NeighborState::TwoWay && adj {
                NeighborState::ExStart
            } else if self.state.reached(NeighborState::ExStart) && !adj {
                NeighborState::TwoWay
            } else {
                self.state
            },
            NeighborEvent::OneWay => if self.state.reached(NeighborState::TwoWay) {
                NeighborState::Init
            } else {
                self.state
            },
            NeighborEvent::InactivityTimer => NeighborState::Down,
        }
    }

    /// Takes the event in. `adj` says whether an adjacency is wanted. Gives the new state if it
    /// changed.
    pub fn handle_event(&mut self, ev: NeighborEvent, adj: bool, now: u64) -> (r: Option<
        NeighborState,
    >)
        ensures
            final(self)@ == old(self)@.after(ev, adj, now),
            r == (if final(self)@.state == old(self)@.state {
                None::<NeighborState>
            } else {
                Some(final(self)@.state)
            }),
    {
        let before = self.state;
        let state = self.step(ev, adj);
        if ev == NeighborEvent::HelloReceived {
            self.last_heard = now;
        }
        if before.reached(state) && before != state {
            self.db_summary_list = Vec::new();
            self.ls_request_list = Vec::new();
        }
        self.state = state;
        if before == state {
            None
        } else {
            Some(state)
        }
    }
}

impl NeighborView {
    /// The inactivity timer takes every adjacency down, and nothing of the exchange is kept.
    pub proof fn lemma_inactivity(self, now: u64)
        ensures
            self.after(NeighborEvent::InactivityTimer, false, now).state == NeighborState::Down,
            self.state != NeighborState::Down ==> self.after(
                NeighborEvent::InactivityTimer,
                false,
                now,
            ).ls_request_list.len() == 0,
    {
    }

    /// An adjacency comes to Full only out of Loading or Exchange, and only when nothing is left to
    /// request or the last request was answered.
    pub proof fn lemma_full_only_when_loaded(self, ev: NeighborEvent, adj: bool, now: u64)
        requires
            self.state != NeighborState::Full,
            self.after(ev, adj, now).state == NeighborState::Full,
        ensures
            (ev is LoadingDone && self.state == NeighborState::Loading) || (ev is ExchangeDone
                && self.state == NeighborState::Exchange && self.ls_request_list.len() == 0),
    {
    }
}

} // verus!
