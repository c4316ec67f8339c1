//! Which changes of the configuration take a restart.
use vstd::prelude::*;

use crate::config::restart;
use crate::config::restart::{RestartReason, RestartReasonView};
use crate::config::{OspfDaemonConfig, OspfInterfaceConfig};
use crate::instance;
use crate::instance::reload;
use crate::instance::{parse_network_type, OspfInstance, OspfInstanceView};
use crate::proto::interface;
use crate::wire;
use crate::wire::same_text;

verus! {

broadcast use {wire::lemma_views_push, wire::lemma_views_update};

/// What of one configured interface takes a restart.
pub open spec fn reasons_for(is: Seq<interface::OspfInterfaceView>, c: OspfInterfaceConfig) -> Seq<
    RestartReasonView,
> {
    match reload::name_pos(is, c.name@, 0) {
        None => seq![RestartReasonView::NewInterface(c.name@)],
        Some(i) => restart::moved(
            c.name@,
            is[i].area_id != c.area_id,
            is[i].network_type != instance::network_type_of(c.network_type@),
        ),
    }
}

/// What of the configured interfaces takes a restart, in order.
pub open spec fn changed_reasons(
    is: Seq<interface::OspfInterfaceView>,
    cs: Seq<OspfInterfaceConfig>,
) -> Seq<RestartReasonView>
    decreases cs.len(),
{
    if cs.len() == 0 {
        Seq::empty()
    } else {
        changed_reasons(is, cs.drop_last()) + reasons_for(is, cs.last())
    }
}

/// Whether an interface with the name is configured.
pub open spec fn is_configured(cs: Seq<OspfInterfaceConfig>, name: Seq<char>) -> bool {
    exists|k: int| 0 <= k < cs.len() && (#[trigger] cs[k]).name@ == name
}

/// The running interfaces that are no longer configured, in order.
pub open spec fn removed_reasons(
    is: Seq<interface::OspfInterfaceView>,
    cs: Seq<OspfInterfaceConfig>,
) -> Seq<RestartReasonView>
    decreases is.len(),
{
    if is.len() == 0 {
        Seq::empty()
    } else {
        let front = removed_reasons(is.drop_last(), cs);
        if is_configured(cs, is.last().name) {
            front
        } else {
            front.push(RestartReasonView::RemovedInterface(is.last().name))
        }
    }
}

impl OspfInstanceView {
    /// What of a configuration takes a restart.
    pub open spec fn restart_reasons(self, c: OspfDaemonConfig) -> Seq<RestartReasonView> {
        (if self.router_id != c.router_id {
            seq![RestartReasonView::RouterId]
        } else {
            Seq::empty()
        }) + changed_reasons(self.interfaces, c.interfaces@) + removed_reasons(
            self.interfaces,
            c.interfaces@,
        )
    }
}

/// Whether an interface with the name is configured.
fn names_interface(cs: &Vec<OspfInterfaceConfig>, name: &str) -> (r: bool)
    ensures
        r == is_configured(cs@, name@),
{
    let mut i: usize = 0;
    while i < cs.len()
        invariant
            i <= cs@.len(),
            forall|k: int| 0 <= k < i ==> (#[trigger] cs@[k]).name@ != name@,
        decreases cs.len() - i,
    {
        if same_text(cs[i].name.as_str(), name) {
            assert(cs@[i as int].name@ == name@);
            return true;
        }
        i = i + 1;
    }
    false
}

impl OspfInstance {
    /// Says what of a configuration takes a restart: another router id, an interface that is new or
    /// gone, and an interface with another area or network type. Nothing of it is taken over while
    /// running.
    pub fn restart_reasons(&self, new: &OspfDaemonConfig) -> (r: Vec<RestartReason>)
        ensures
            wire::views(r@) == self@.restart_reasons(*new),
    {
        let ghost is = self@.interfaces;
        let ghost cs = new.interfaces@;
        let mut v: Vec<RestartReason> = Vec::new();
        assert(wire::views(v@) =~= Seq::empty());
        if self.router_id != new.router_id {
            v.push(RestartReason::RouterId);
            assert(wire::views(v@) =~= seq![RestartReasonView::RouterId]);
        }
        let ghost first = wire::views(v@);
        let mut i: usize = 0;
        assert(cs.take(0) =~= Seq::empty());
        assert(first =~= first + changed_reasons(is, cs.take(0)));
        while i < new.interfaces.len()
            invariant
                i <= new.interfaces@.len(),
                cs == new.interfaces@,
                is == self@.interfaces,
                wire::views(v@) == first + changed_reasons(is, cs.take(i as int)),
            decreases new.interfaces.len() - i,
        {
            let ghost before = wire::views(v@);
            assert(cs.take(i + 1).drop_last() =~= cs.take(i as int));
            let c = &new.interfaces[i];
            assert(cs.take(i + 1).last() == *c);
            match self.find_by_name(c.name.as_str()) {
                None => {
                    v.push(RestartReason::NewInterface(c.name.as_str().to_owned()));
                },
                Some(k) => {
                    assert(self.interfaces@[k as int]@ == is[k as int]);
                    if self.interfaces[k].area_id != c.area_id {
                        v.push(RestartReason::Area(c.name.as_str().to_owned()));
                    }
                    if self.interfaces[k].network_type != parse_network_type(c.network_type.as_str()) {
                        v.push(RestartReason::NetworkType(c.name.as_str().to_owned()));
                    }
                },
            }
            assert(wire::views(v@) =~= before + reasons_for(is, *c));
            assert(before + reasons_for(is, *c) =~= first + changed_reasons(is, cs.take(i + 1)));
            i = i + 1;
        }
        assert(cs.take(i as int) =~= cs);
        let ghost second = wire::views(v@);
        let mut j: usize = 0;
        assert(is.take(0) =~= Seq::empty());
        assert(second =~= second + removed_reasons(is.take(0), cs));
        while j < self.interfaces.len()
            invariant
                j <= self.interfaces@.len(),
                cs == new.interfaces@,
                is == self@.interfaces,
                wire::views(v@) == second + removed_reasons(is.take(j as int), cs),
            decreases self.interfaces.len() - j,
        {
            let ghost before = wire::views(v@);
            assert(is.take(j + 1).drop_last() =~= is.take(j as int));
            assert(self.interfaces@[j as int]@ == is[j as int]);
            assert(is.take(j + 1).last() == is[j as int]);
            if !names_interface(&new.interfaces, self.interfaces[j].name.as_str()) {
                v.push(
                    RestartReason::RemovedInterface(self.interfaces[j].name.as_str().to_owned()),
                );
                assert(wire::views(v@) =~= before.push(
                    RestartReasonView::RemovedInterface(is[j as int].name),
                ));
            }
            assert(wire::views(v@) =~= second + removed_reasons(is.take(j + 1), cs));
            j = j + 1;
        }
        assert(is.take(j as int) =~= is);
        v
    }
}

/// A configuration that takes no restart names the running router and exactly the running
/// interfaces, each with its area and network type.
pub proof fn lemma_no_restart(me: OspfInstanceView, c: OspfDaemonConfig, i: int)
    requires
        me.restart_reasons(c).len() == 0,
    ensures
        me.router_id == c.router_id,
        0 <= i < me.interfaces.len() ==> is_configured(c.interfaces@, me.interfaces[i].name),
        0 <= i < c.interfaces@.len() ==> reasons_for(me.interfaces, c.interfaces@[i]).len() == 0,
{
    if 0 <= i < me.interfaces.len() {
        lemma_none_removed(me.interfaces, c.interfaces@, i);
    }
    if 0 <= i < c.interfaces@.len() {
        lemma_none_changed(me.interfaces, c.interfaces@, i);
    }
}

proof fn lemma_none_removed(
    is: Seq<interface::OspfInterfaceView>,
    cs: Seq<OspfInterfaceConfig>,
    i: int,
)
    requires
        removed_reasons(is, cs).len() == 0,
        0 <= i < is.len(),
    ensures
        is_configured(cs, is[i].name),
    decreases is.len(),
{
    if i < is.len() - 1 {
        lemma_none_removed(is.drop_last(), cs, i);
    }
}

proof fn lemma_none_changed(
    is: Seq<interface::OspfInterfaceView>,
    cs: Seq<OspfInterfaceConfig>,
    i: int,
)
    requires
        changed_reasons(is, cs).len() == 0,
        0 <= i < cs.len(),
    ensures
        reasons_for(is, cs[i]).len() == 0,
    decreases cs.len(),
{
    if i < cs.len() - 1 {
        lemma_none_changed(is, cs.drop_last(), i);
    }
}

} // verus!
