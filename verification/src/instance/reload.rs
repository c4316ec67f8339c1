//! Applying a new configuration to a running instance.
use vstd::prelude::*;

use crate::config::{
    OspfDaemonConfig, OspfInterfaceConfig, ParsedSummaryAddress, RedistributeConfig,
};
use crate::instance::{copy_rules, copy_summaries, OspfInstance, OspfInstanceView};
use crate::packet::lsa;
use crate::packet::lsa::Lsa;
use crate::proto::interface;
use crate::proto::interface::OspfInterface;
use crate::wire;
use crate::wire::same_text;

verus! {

broadcast use {wire::lemma_views_push, wire::lemma_views_update};

/// The position at or behind `from` of the interface with the given name.
pub open spec fn name_pos(
    is: Seq<interface::OspfInterfaceView>,
    name: Seq<char>,
    from: int,
) -> Option<int>
    decreases is.len() - from,
{
    if from < 0 || from >= is.len() {
        None
    } else if is[from].name == name {
        Some(from)
    } else {
        name_pos(is, name, from + 1)
    }
}

impl interface::OspfInterfaceView {
    /// The interface with the cost, priority, timers and passive flag of its configuration. Area,
    /// network type and keys stay.
    pub open spec fn retuned(self, c: OspfInterfaceConfig) -> interface::OspfInterfaceView {
        interface::OspfInterfaceView {
            cost: c.cost,
            priority: c.priority,
            hello_interval: c.hello_interval,
            dead_interval: c.dead_interval,
            rxmt_interval: c.retransmit_interval,
            passive: c.passive,
            ..self
        }
    }

    /// Whether the configuration changes what our Router-LSA says.
    pub open spec fn relinked_by(self, c: OspfInterfaceConfig) -> bool {
        self.cost != c.cost || self.passive != c.passive
    }

    /// Whether the configuration changes anything that is taken over.
    pub open spec fn changed_by(self, c: OspfInterfaceConfig) -> bool {
        self.relinked_by(c) || self.priority != c.priority || self.hello_interval
            != c.hello_interval || self.dead_interval != c.dead_interval || self.rxmt_interval
            != c.retransmit_interval
    }
}

/// The interfaces after each configured one was retuned, in order; whether any changed; whether our
/// Router-LSAs have to be issued anew.
pub open spec fn retuned_all(
    is: Seq<interface::OspfInterfaceView>,
    cs: Seq<OspfInterfaceConfig>,
) -> (Seq<interface::OspfInterfaceView>, bool, bool)
    decreases cs.len(),
{
    if cs.len() == 0 {
        (is, false, false)
    } else {
        let before = retuned_all(is, cs.drop_last());
        match name_pos(before.0, cs.last().name@, 0) {
            None => before,
            Some(i) => (
                before.0.update(i, before.0[i].retuned(cs.last())),
                before.1 || before.0[i].changed_by(cs.last()),
                before.2 || before.0[i].relinked_by(cs.last()),
            ),
        }
    }
}

impl OspfInstanceView {
    /// The instance with the interface settings, summary ranges and redistribution rules of the
    /// configuration.
    pub open spec fn patched(self, c: OspfDaemonConfig) -> OspfInstanceView {
        OspfInstanceView {
            interfaces: retuned_all(self.interfaces, c.interfaces@).0,
            summary_addresses: c.summary_addresses@,
            redistribute: wire::views(c.redistribute@),
            ..self
        }
    }

    /// Whether the configuration makes our Router-LSAs be issued anew: a cost or a passive flag
    /// changed or redistribution was switched on or off.
    pub open spec fn reissues(self, c: OspfDaemonConfig) -> bool {
        retuned_all(self.interfaces, c.interfaces@).2 || (self.redistribute.len() > 0)
            != (wire::views(c.redistribute@).len() > 0)
    }

    /// Whether the configuration changes what is announced of the outside: the redistribution rules
    /// or the summary ranges.
    pub open spec fn reannounces(self, c: OspfDaemonConfig) -> bool {
        self.redistribute != wire::views(c.redistribute@) || self.summary_addresses
            != c.summary_addresses@
    }

    /// The Router-LSAs that are issued when the configuration is applied, each with its area.
    pub open spec fn reissued_by(self, c: OspfDaemonConfig) -> Seq<(u32, lsa::LsaView)> {
        if self.reissues(c) {
            self.patched(c).router_lsas(self.areas)
        } else {
            Seq::empty()
        }
    }

    /// The instance with the configuration applied, and whether anything changed. Router id, areas
    /// and the set of interfaces stay. Router-LSAs are issued anew when a cost or a passive flag
    /// changed or redistribution was switched on or off.
    pub open spec fn reconfigured(self, c: OspfDaemonConfig, now: u64) -> (OspfInstanceView, bool) {
        (
            if self.reissues(c) {
                self.patched(c).with_router_lsas(now).scheduled(now)
            } else {
                self.patched(c)
            },
            retuned_all(self.interfaces, c.interfaces@).1 || self.reannounces(c),
        )
    }
}

impl OspfInterface {
    /// Takes over what may change while running. Says whether anything did, and whether our
    /// Router-LSA is affected.
    fn retune(&mut self, c: &OspfInterfaceConfig) -> (r: (bool, bool))
        ensures
            final(self)@ == old(self)@.retuned(*c),
            r == (old(self)@.changed_by(*c), old(self)@.relinked_by(*c)),
    {
        let relinked = self.cost != c.cost || self.passive != c.passive;
        let changed = relinked || self.priority != c.priority || self.hello_interval
            != c.hello_interval || self.dead_interval != c.dead_interval || self.rxmt_interval
            != c.retransmit_interval;
        self.cost = c.cost;
        self.priority = c.priority;
        self.hello_interval = c.hello_interval;
        self.dead_interval = c.dead_interval;
        self.rxmt_interval = c.retransmit_interval;
        self.passive = c.passive;
        (changed, relinked)
    }
}

/// What a new configuration leaves to be done.
#[derive(Debug)]
pub struct Reloading {
    /// Whether anything changed.
    pub changed: bool,
    /// Whether the redistribution rules or the summary ranges changed.
    pub reannounce: bool,
    /// Our Router-LSAs that were issued anew and have to be flooded, each with its area.
    pub router_lsas: Vec<(u32, Lsa)>,
}

/// Whether two lists hold the same rules in the same order.
pub fn same_rules(a: &Vec<RedistributeConfig>, b: &Vec<RedistributeConfig>) -> (r: bool)
    ensures
        r == (wire::views(a@) == wire::views(b@)),
{
    let ghost x = wire::views(a@);
    let ghost y = wire::views(b@);
    if a.len() != b.len() {
        assert(x.len() != y.len());
        return false;
    }
    let mut i: usize = 0;
    while i < a.len()
        invariant
            i <= a@.len(),
            a@.len() == b@.len(),
            x == wire::views(a@),
            y == wire::views(b@),
            forall|k: int| 0 <= k < i ==> #[trigger] x[k] == y[k],
        decreases a.len() - i,
    {
        assert(x[i as int] == a@[i as int]@);
        assert(y[i as int] == b@[i as int]@);
        if a[i].source != b[i].source || a[i].metric != b[i].metric || a[i].metric_type
            != b[i].metric_type || !same_map(&a[i].route_map, &b[i].route_map) {
            return false;
        }
        i = i + 1;
    }
    assert(x =~= y);
    true
}

fn same_map(a: &Option<String>, b: &Option<String>) -> (r: bool)
    ensures
        r == (match (a, b) {
            (Some(x), Some(y)) => x@ == y@,
            (None, None) => true,
            _ => false,
        }),
{
    match (a, b) {
        (Some(x), Some(y)) => same_text(x.as_str(), y.as_str()),
        (None, None) => true,
        _ => false,
    }
}

/// Whether the two lists hold the same summary ranges in the same order.
fn same_summaries(a: &Vec<ParsedSummaryAddress>, b: &Vec<ParsedSummaryAddress>) -> (r: bool)
    ensures
        r == (a@ == b@),
{
    if a.len() != b.len() {
        return false;
    }
    let mut i: usize = 0;
    while i < a.len()
        invariant
            i <= a@.len(),
            a@.len() == b@.len(),
            forall|k: int| 0 <= k < i ==> a@[k] == b@[k],
        decreases a.len() - i,
    {
        if a[i] != b[i] {
            return false;
        }
        i = i + 1;
    }
    assert(a@ =~= b@);
    true
}

impl OspfInstance {
    /// The position of the interface with the given name.
    pub fn find_by_name(&self, name: &str) -> (r: Option<usize>)
        ensures
            match (r, name_pos(self@.interfaces, name@, 0)) {
                (Some(i), Some(j)) => i == j && i < self.interfaces@.len(),
                (None, None) => true,
                _ => false,
            },
    {
        let mut i: usize = 0;
        while i < self.interfaces.len()
            invariant
                i <= self.interfaces@.len(),
                name_pos(self@.interfaces, name@, 0) == name_pos(
                    self@.interfaces,
                    name@,
                    i as int,
                ),
            decreases self.interfaces.len() - i,
        {
            assert(self.interfaces@[i as int]@ == self@.interfaces[i as int]);
            if same_text(self.interfaces[i].name.as_str(), name) {
                return Some(i);
            }
            i = i + 1;
        }
        None
    }

    /// Applies a new configuration without touching adjacencies: cost, priority, timers and passive
    /// flag per interface, summary ranges and redistribution rules. A change of the router id, of an
    /// area or network type, of a key or of the set of interfaces takes a restart and is ignored.
    /// Says whether anything changed.
    pub fn reload_config(&mut self, new: &OspfDaemonConfig, now: u64) -> (changed: bool)
        ensures
            (final(self)@, changed) == old(self)@.reconfigured(*new, now),
    {
        let r = self.apply_config(new, now);
        r.changed
    }

    /// Applies a new configuration and says what that leaves to be done.
    pub fn apply_config(&mut self, new: &OspfDaemonConfig, now: u64) -> (r: Reloading)
        ensures
            (final(self)@, r.changed) == old(self)@.reconfigured(*new, now),
            r.reannounce == old(self)@.reannounces(*new),
            wire::views(r.router_lsas@) == old(self)@.reissued_by(*new),
    {
        let ghost me = self@;
        let mut changed = false;
        let mut dirty = false;
        let ghost cs = new.interfaces@;
        let mut i: usize = 0;
        assert(cs.take(0) =~= Seq::empty());
        while i < new.interfaces.len()
            invariant
                i <= new.interfaces@.len(),
                cs == new.interfaces@,
                self@ == (OspfInstanceView { interfaces: self@.interfaces, ..me }),
                (self@.interfaces, changed, dirty) == retuned_all(
                    me.interfaces,
                    cs.take(i as int),
                ),
            decreases new.interfaces.len() - i,
        {
            assert(cs.take(i + 1).drop_last() =~= cs.take(i as int));
            let c = &new.interfaces[i];
            if let Some(k) = self.find_by_name(c.name.as_str()) {
                let one = self.interfaces[k].retune(c);
                changed = changed || one.0;
                dirty = dirty || one.1;
            }
            i = i + 1;
        }
        assert(cs.take(i as int) =~= cs);
        let mut reannounce = false;
        if !same_summaries(&self.summary_addresses, &new.summary_addresses) {
            self.summary_addresses = copy_summaries(&new.summary_addresses);
            changed = true;
            reannounce = true;
        }
        if !same_rules(&self.redistribute, &new.redistribute) {
            let was = self.redistribute.len() > 0;
            let is = new.redistribute.len() > 0;
            self.redistribute = copy_rules(&new.redistribute);
            changed = true;
            reannounce = true;
            if was != is {
                dirty = true;
            }
        }
        assert(self@ == me.patched(*new));
        let mut router_lsas: Vec<(u32, Lsa)> = Vec::new();
        assert(wire::views(router_lsas@) =~= Seq::empty());
        if dirty {
            router_lsas = self.originate_router_lsas(now);
            self.schedule_spf(now);
        }
        Reloading { changed, reannounce, router_lsas }
    }
}

} // verus!
