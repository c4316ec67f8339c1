//! Applying a new configuration to a running instance.
use vstd::prelude::*;

use crate::config::{Ospf6DaemonConfig, Ospf6InterfaceConfig, ParsedSummaryAddress6};
use crate::instance::copy_rules;
use crate::instance::reload::same_rules;
use crate::instance_v3::{InstanceV3, InstanceV3View, InterfaceV3, InterfaceV3View};
use crate::wire;
use crate::wire::same_text;

verus! {

broadcast use {wire::lemma_views_push, wire::lemma_views_update};

/// The position at or behind `from` of the interface with the given name.
pub open spec fn name_pos(ifs: Seq<InterfaceV3View>, name: Seq<char>, from: int) -> Option<int>
    decreases ifs.len() - from,
{
    if from < 0 || from >= ifs.len() {
        None
    } else if ifs[from].io.name == name {
        Some(from)
    } else {
        name_pos(ifs, name, from + 1)
    }
}

impl InterfaceV3View {
    /// The interface with the timers and the priority of its configuration. A new priority asks
    /// for our LSAs to be originated anew; area and network type stay.
    pub open spec fn retuned(self, c: Ospf6InterfaceConfig) -> InterfaceV3View {
        InterfaceV3View {
            priority: c.priority,
            needs_router_lsa_refresh: self.needs_router_lsa_refresh || self.priority != c.priority,
            hello_interval: c.hello_interval,
            dead_interval: (c.dead_interval % 65536) as u16,
            retransmit_interval: c.retransmit_interval,
            transmit_delay: c.transmit_delay,
            ..self
        }
    }

    /// Whether the configuration changes the timers or the priority.
    pub open spec fn differs_from(self, c: Ospf6InterfaceConfig) -> bool {
        self.priority != c.priority || self.hello_interval != c.hello_interval || self.dead_interval
            != (c.dead_interval % 65536) as u16 || self.retransmit_interval != c.retransmit_interval
            || self.transmit_delay != c.transmit_delay
    }
}

/// The interfaces after each configured one was retuned, in order, and whether any changed.
pub open spec fn retuned_all(ifs: Seq<InterfaceV3View>, cs: Seq<Ospf6InterfaceConfig>) -> (
    Seq<InterfaceV3View>,
    bool,
)
    decreases cs.len(),
{
    if cs.len() == 0 {
        (ifs, false)
    } else {
        let before = retuned_all(ifs, cs.drop_last());
        match name_pos(before.0, cs.last().name@, 0) {
            None => before,
            Some(i) => (
                before.0.update(i, before.0[i].retuned(cs.last())),
                before.1 || before.0[i].differs_from(cs.last()),
            ),
        }
    }
}

impl InstanceV3View {
    /// The instance with the configuration applied, and whether anything changed. Router id, area
    /// types and the set of interfaces stay.
    pub open spec fn reconfigured(self, c: Ospf6DaemonConfig) -> (InstanceV3View, bool) {
        let ifs = retuned_all(self.interfaces, c.interfaces@);
        let rules = wire::views(c.redistribute@);
        (
            InstanceV3View {
                interfaces: ifs.0,
                redistribute: rules,
                asbr: if self.redistribute != rules {
                    rules.len() > 0
                } else {
                    self.asbr
                },
                summary_addresses: c.summary_addresses@,
                ..self
            },
            ifs.1 || self.redistribute != rules || self.summary_addresses != c.summary_addresses@,
        )
    }
}

impl InterfaceV3 {
    /// Takes over the timers and the priority and says whether any changed.
    fn retune(&mut self, c: &Ospf6InterfaceConfig) -> (changed: bool)
        ensures
            final(self)@ == old(self)@.retuned(*c),
            changed == old(self)@.differs_from(*c),
    {
        let mut changed = false;
        if self.priority != c.priority {
            self.priority = c.priority;
            self.needs_router_lsa_refresh = true;
            changed = true;
        }
        if self.hello_interval != c.hello_interval {
            self.hello_interval = c.hello_interval;
            changed = true;
        }
        let new_dead: u16 = (c.dead_interval % 65536) as u16;
        if self.dead_interval != new_dead {
            self.dead_interval = new_dead;
            changed = true;
        }
        if self.retransmit_interval != c.retransmit_interval {
            self.retransmit_interval = c.retransmit_interval;
            changed = true;
        }
        if self.transmit_delay != c.transmit_delay {
            self.transmit_delay = c.transmit_delay;
            changed = true;
        }
        changed
    }
}

/// Whether the two lists hold the same summary ranges in the same order.
fn same_summaries(a: &Vec<ParsedSummaryAddress6>, b: &Vec<ParsedSummaryAddress6>) -> (r: bool)
    ensures
        r == (a@ == b@),
{
    if a.len() != b.len() {
        return false;
    }
    let mut i: usize = 0;
    while i < a.len()
        invariant
            i <= a@.len(),
            a@.len() == b@.len(),
            forall|k: int| 0 <= k < i ==> a@[k] == b@[k],
        decreases a.len() - i,
    {
        if a[i] != b[i] {
            return false;
        }
        i = i + 1;
    }
    assert(a@ =~= b@);
    true
}

/// A copy of the summary ranges.
pub fn copy_summaries(a: &Vec<ParsedSummaryAddress6>) -> (r: Vec<ParsedSummaryAddress6>)
    ensures
        r@ == a@,
{
    let mut v: Vec<ParsedSummaryAddress6> = Vec::new();
    let mut i: usize = 0;
    while i < a.len()
        invariant
            i <= a@.len(),
            v@ == a@.take(i as int),
        decreases a.len() - i,
    {
        v.push(a[i]);
        i = i + 1;
        assert(v@ =~= a@.take(i as int));
    }
    assert(v@ =~= a@);
    v
}

impl InstanceV3 {
    /// The position of the interface with the given name.
    pub fn find_by_name(&self, name: &str) -> (r: Option<usize>)
        ensures
            match (r, name_pos(self@.interfaces, name@, 0)) {
                (Some(i), Some(j)) => i == j && i < self.interfaces@.len(),
                (None, None) => true,
                _ => false,
            },
    {
        let mut i: usize = 0;
        while i < self.interfaces.len()
            invariant
                i <= self.interfaces@.len(),
                name_pos(self@.interfaces, name@, 0) == name_pos(
                    self@.interfaces,
                    name@,
                    i as int,
                ),
            decreases self.interfaces.len() - i,
        {
            assert(self.interfaces@[i as int]@ == self@.interfaces[i as int]);
            if same_text(self.interfaces[i].io.name.as_str(), name) {
                return Some(i);
            }
            i = i + 1;
        }
        None
    }

    /// Applies a new configuration without touching adjacencies: timers and priorities per
    /// interface, redistribution rules and summary ranges. A change of the router id, of an area or
    /// network type, or of the set of interfaces takes a restart and is ignored. The result says
    /// whether anything changed.
    pub fn reload_config(&mut self, new: &Ospf6DaemonConfig) -> (changed: bool)
        ensures
            (final(self)@, changed) == old(self)@.reconfigured(*new),
    {
        let ghost me = self@;
        let mut changed = false;
        let ghost cs = new.interfaces@;
        let mut i: usize = 0;
        assert(cs.take(0) =~= Seq::empty());
        while i < new.interfaces.len()
            invariant
                i <= new.interfaces@.len(),
                cs == new.interfaces@,
                self@ == (InstanceV3View { interfaces: self@.interfaces, ..me }),
                (self@.interfaces, changed) == retuned_all(me.interfaces, cs.take(i as int)),
            decreases new.interfaces.len() - i,
        {
            assert(cs.take(i + 1).drop_last() =~= cs.take(i as int));
            let c = &new.interfaces[i];
            if let Some(k) = self.find_by_name(c.name.as_str()) {
                let one = self.interfaces[k].retune(c);
                changed = changed || one;
            }
            i = i + 1;
        }
        assert(cs.take(i as int) =~= cs);
        if !same_rules(&self.redistribute, &new.redistribute) {
            self.redistribute = copy_rules(&new.redistribute);
            self.asbr = self.redistribute.len() > 0;
            changed = true;
        }
        if !same_summaries(&self.summary_addresses, &new.summary_addresses) {
            self.summary_addresses = copy_summaries(&new.summary_addresses);
            changed = true;
        }
        changed
    }
}

} // verus!
