//! The control of the subscribers: one runs for each component of the
//! cluster that publishes TopSQL data, and follows the topology as it
//! changes.

use crate::encoding::{decimal, decimal_text, push_char};
use crate::set::{Keyed, VecSet};
use vstd::prelude::*;
use vstd::string::StringExecFns;

verus! {

/// The role of a component in the cluster.
#[derive(Clone, Copy, Debug, PartialEq, Eq, Hash, Structural)]
pub enum InstanceType {
    TiDB,
    TiKV,
    TiFlash,
    PD,
}

/// A live node of the cluster.
#[derive(Debug, PartialEq, Eq, Hash)]
pub struct Component {
    pub instance_type: InstanceType,
    pub host: String,
    pub primary_port: u16,
    pub secondary_port: u16,
}

/// A component as the contracts see it.
pub struct ComponentView {
    pub instance_type: InstanceType,
    pub host: Seq<char>,
    pub primary_port: u16,
    pub secondary_port: u16,
}

impl View for Component {
    type V = ComponentView;

    open spec fn view(&self) -> ComponentView {
        ComponentView {
            instance_type: self.instance_type,
            host: self.host@,
            primary_port: self.primary_port,
            secondary_port: self.secondary_port,
        }
    }
}

impl Clone for Component {
    fn clone(&self) -> (copy: Component)
        ensures
            copy@ == self@,
    {
        Component {
            instance_type: self.instance_type,
            host: self.host.clone(),
            primary_port: self.primary_port,
            secondary_port: self.secondary_port,
        }
    }
}

impl Keyed for Component {
    fn same(&self, other: &Component) -> (r: bool) {
        self.instance_type == other.instance_type && self.host == other.host && self.primary_port
            == other.primary_port && self.secondary_port == other.secondary_port
    }
}

/// The address at which a component publishes TopSQL data: the host with the
/// secondary port of a TiDB and the primary port of a TiKV. Other components
/// publish none.
pub open spec fn topsql_address_of(c: ComponentView) -> Option<Seq<char>> {
    match c.instance_type {
        InstanceType::TiDB => Some(c.host + seq![':'] + decimal(c.secondary_port as nat)),
        InstanceType::TiKV => Some(c.host + seq![':'] + decimal(c.primary_port as nat)),
        _ => None,
    }
}

impl Component {
    /// The address at which the component publishes TopSQL data.
    pub fn topsql_address(&self) -> (address: Option<String>)
        ensures
            match address {
                Some(a) => topsql_address_of(self@) == Some(a@),
                None => topsql_address_of(self@) is None,
            },
    {
        let port = match self.instance_type {
            InstanceType::TiDB => self.secondary_port,
            InstanceType::TiKV => self.primary_port,
            _ => {
                return None;
            },
        };
        let mut address = self.host.clone();
        push_char(&mut address, ':');
        address.append(decimal_text(port as u64).as_str());
        Some(address)
    }
}

/// The views of a list of components.
pub open spec fn component_views(list: Seq<Component>) -> Seq<ComponentView> {
    list.map_values(|c: Component| c@)
}

/// What a new topology asks for.
#[derive(Debug, PartialEq, Eq)]
pub struct TopologyChange {
    /// The components for which a subscriber is to be started.
    pub started: Vec<Component>,
    /// The components whose subscriber is to be shut down; its exit is to be
    /// awaited before the topology is fetched again.
    pub stopped: Vec<Component>,
    /// Whether anything changed.
    pub has_change: bool,
}

/// The state of the controller as the contracts see it.
pub struct ControllerView {
    /// The topology that was seen last, as far as it was followed.
    pub components: Set<ComponentView>,
    /// The components that have a subscriber.
    pub running: Set<ComponentView>,
}

/// A component of the new topology that is to get a subscriber: it is not
/// among the components yet and publishes TopSQL data.
pub open spec fn is_newcomer(s: ControllerView, latest: Set<ComponentView>, c: ComponentView) -> bool {
    latest.contains(c) && !s.components.contains(c) && topsql_address_of(c) is Some
}

/// A component whose subscriber is to be shut down: it is among the
/// components, is gone from the new topology, and has a subscriber.
pub open spec fn is_leaver(s: ControllerView, latest: Set<ComponentView>, c: ComponentView) -> bool {
    s.components.contains(c) && !latest.contains(c) && s.running.contains(c)
}

/// The state after a new topology was followed.
pub open spec fn after_update(s: ControllerView, latest: Set<ComponentView>) -> ControllerView {
    ControllerView {
        components: Set::new(
            |c: ComponentView|
                (s.components.contains(c) || is_newcomer(s, latest, c)) && !is_leaver(
                    s,
                    latest,
                    c,
                ),
        ),
        running: Set::new(
            |c: ComponentView|
                (s.running.contains(c) || is_newcomer(s, latest, c)) && !is_leaver(s, latest, c),
        ),
    }
}

/// No component occurs twice.
pub open spec fn no_duplicates(list: Seq<ComponentView>) -> bool {
    forall|i: int, j: int| 0 <= i < j < list.len() ==> list[i] != list[j]
}

/// Follows the topology of the cluster.
pub struct Controller {
    components: VecSet<Component>,
    running_components: VecSet<Component>,
}

impl View for Controller {
    type V = ControllerView;

    closed spec fn view(&self) -> ControllerView {
        ControllerView { components: self.components@, running: self.running_components@ }
    }
}

fn list_contains(list: &Vec<Component>, c: &Component) -> (r: bool)
    ensures
        r == component_views(list@).contains(c@),
{
    let mut i: usize = 0;
    while i < list.len()
        invariant
            i <= list@.len(),
            forall|j: int| 0 <= j < i ==> component_views(list@)[j] != c@,
        decreases list@.len() - i,
    {
        assert(component_views(list@)[i as int] == list@[i as int]@);
        if list[i].same(c) {
            return true;
        }
        i = i + 1;
    }
    false
}

impl Controller {
    /// A controller that has seen no topology.
    pub fn new() -> (c: Controller)
        ensures
            c@ == (ControllerView {
                components: Set::<ComponentView>::empty(),
                running: Set::<ComponentView>::empty(),
            }),
    {
        Controller { components: VecSet::new(), running_components: VecSet::new() }
    }

    /// Notes that a subscriber runs for `component` and gives the address
    /// that it subscribes to. `None`, and nothing noted, where the component
    /// publishes no TopSQL data.
    pub fn start_component(&mut self, component: &Component) -> (address: Option<String>)
        ensures
            match address {
                Some(a) => topsql_address_of(component@) == Some(a@) && final(self)@ == (
                ControllerView {
                    components: old(self)@.components,
                    running: old(self)@.running.insert(component@),
                }),
                None => topsql_address_of(component@) is None && final(self)@ == old(self)@,
            },
    {
        match component.topsql_address() {
            Some(a) => {
                self.running_components.insert(component.clone());
                Some(a)
            },
            None => None,
        }
    }

    /// Notes that the subscriber of `component` is shut down. `false`, and
    /// nothing noted, where it has none.
    pub fn stop_component(&mut self, component: &Component) -> (stopped: bool)
        ensures
            stopped == old(self)@.running.contains(component@),
            final(self)@ == (ControllerView {
                components: old(self)@.components,
                running: old(self)@.running.remove(component@),
            }),
    {
        if self.running_components.contains(component) {
            self.running_components.remove(component);
            true
        } else {
            proof {
                assert(old(self)@.running.remove(component@) =~= old(self)@.running);
            }
            false
        }
    }

    /// Follows a new topology: subscribers are to be started for the
    /// components that are new and shut down for those that are gone.
    pub fn fetch_and_update(&mut self, latest: &Vec<Component>) -> (change: TopologyChange)
        ensures
            final(self)@ == after_update(old(self)@, component_views(latest@).to_set()),
            forall|c: ComponentView|
                component_views(change.started@).contains(c) <==> is_newcomer(
                    old(self)@,
                    component_views(latest@).to_set(),
                    c,
                ),
            forall|c: ComponentView|
                component_views(change.stopped@).contains(c) <==> is_leaver(
                    old(self)@,
                    component_views(latest@).to_set(),
                    c,
                ),
            change.has_change == (change.started@.len() > 0 || change.stopped@.len() > 0),
            no_duplicates(component_views(change.started@)),
            no_duplicates(component_views(change.stopped@)),
    {
        let ghost s0 = self@;
        let ghost lv = component_views(latest@);
        let ghost ls = lv.to_set();
        let mut started: Vec<Component> = Vec::new();
        let mut stopped: Vec<Component> = Vec::new();
        // the components that are gone
        let prev: Vec<Component> = Self::copy_list(self.components.as_vec());
        proof {
            self.components.lemma_elements();
        }
        let ghost pv = component_views(prev@);
        assert(forall|c: ComponentView| s0.components.contains(c) <==> pv.contains(c)) by {
            assert forall|c: ComponentView| s0.components.contains(c) <==> pv.contains(c) by {
                if s0.components.contains(c) {
                    let i = choose|i: int|
                        0 <= i < self.components.elements().len()
                            && self.components.elements()[i]@ == c;
                    assert(pv[i] == c);
                }
                if pv.contains(c) {
                    let i = choose|i: int| 0 <= i < pv.len() && pv[i] == c;
                    assert(self.components.elements()[i]@ == c);
                }
            }
        }
        let mut i: usize = 0;
        while i < latest.len()
            invariant
                i <= latest@.len(),
                lv == component_views(latest@),
                ls == lv.to_set(),
                s0 == old(self)@,
                forall|c: ComponentView| s0.components.contains(c) <==> pv.contains(c),
                pv == component_views(prev@),
                self@.running == Set::new(
                    |c: ComponentView|
                        s0.running.contains(c) || (is_newcomer(s0, ls, c) && exists|j: int|
                            0 <= j < i && lv[j] == c),
                ),
                self@.components == Set::new(
                    |c: ComponentView|
                        s0.components.contains(c) || (is_newcomer(s0, ls, c) && exists|j: int|
                            0 <= j < i && lv[j] == c),
                ),
                forall|c: ComponentView|
                    #[trigger] component_views(started@).contains(c) <==> (is_newcomer(s0, ls, c)
                        && exists|j: int| 0 <= j < i && lv[j] == c),
                no_duplicates(component_views(started@)),
            decreases latest@.len() - i,
        {
            let c = &latest[i];
            let ghost cv = c@;
            assert(lv[i as int] == cv);
            assert(ls.contains(cv));
            let ghost run_before = self@.running;
            let ghost comp_before = self@.components;
            let ghost started_before = component_views(started@);
            let fresh = !list_contains(&prev, c) && !list_contains(&started, c);
            if fresh {
                match c.topsql_address() {
                    Some(_) => {
                        self.running_components.insert(c.clone());
                        self.components.insert(c.clone());
                        started.push(c.clone());
                        proof {
                            assert(component_views(started@) =~= started_before.push(cv));
                            assert forall|a: int, b: int|
                                0 <= a < b < component_views(started@).len() implies component_views(
                                started@,
                            )[a] != component_views(started@)[b] by {
                                if b == started_before.len() {
                                    assert(started_before[a] != cv) by {
                                        if started_before[a] == cv {
                                            assert(started_before.contains(cv));
                                        }
                                    }
                                } else {
                                    assert(started_before[a] != started_before[b]);
                                }
                            }
                            assert(component_views(started@)[started_before.len() as int] == cv);
                        }
                    },
                    None => {},
                }
            }
            proof {
                let sv = component_views(started@);
                assert forall|x: ComponentView| sv.contains(x) <==> (is_newcomer(s0, ls, x)
                    && exists|j: int| 0 <= j < i + 1 && lv[j] == x) by {
                    if sv.contains(x) {
                        let k = choose|k: int| 0 <= k < sv.len() && sv[k] == x;
                        if k < started_before.len() {
                            assert(started_before[k] == x);
                            assert(started_before.contains(x));
                            let j = choose|j: int| 0 <= j < i && lv[j] == x;
                            assert(0 <= j < i + 1 && lv[j] == x);
                        } else {
                            assert(x == cv);
                            assert(0 <= i < i + 1 && lv[i as int] == x);
                        }
                    }
                    if is_newcomer(s0, ls, x) && exists|j: int| 0 <= j < i + 1 && lv[j] == x {
                        let j = choose|j: int| 0 <= j < i + 1 && lv[j] == x;
                        if j < i {
                            assert(started_before.contains(x));
                            let k = choose|k: int|
                                0 <= k < started_before.len() && started_before[k] == x;
                            assert(sv[k] == x);
                        } else {
                            assert(x == cv);
                            if started_before.contains(x) {
                                let k = choose|k: int|
                                    0 <= k < started_before.len() && started_before[k] == x;
                                assert(sv[k] == x);
                            } else {
                                assert(sv[started_before.len() as int] == x);
                            }
                        }
                    }
                }
                assert(self@.running =~= Set::new(
                    |x: ComponentView|
                        s0.running.contains(x) || (is_newcomer(s0, ls, x) && exists|j: int|
                            0 <= j < i + 1 && lv[j] == x),
                )) by {
                    assert forall|x: ComponentView| self@.running.contains(x) <==> (
                    s0.running.contains(x) || (is_newcomer(s0, ls, x) && exists|j: int|
                        0 <= j < i + 1 && lv[j] == x)) by {
                        if run_before.contains(x) && !s0.running.contains(x) {
                            let j = choose|j: int| 0 <= j < i && lv[j] == x;
                            assert(0 <= j < i + 1 && lv[j] == x);
                        }
                        if is_newcomer(s0, ls, x) && exists|j: int| 0 <= j < i + 1 && lv[j] == x {
                            assert(sv.contains(x));
                            if x != cv {
                                assert(started_before.contains(x)) by {
                                    let k = choose|k: int| 0 <= k < sv.len() && sv[k] == x;
                                    assert(started_before[k] == x);
                                }
                            } else if started_before.contains(x) {
                            }
                        }
                    }
                }
                assert(self@.components =~= Set::new(
                    |x: ComponentView|
                        s0.components.contains(x) || (is_newcomer(s0, ls, x) && exists|j: int|
                            0 <= j < i + 1 && lv[j] == x),
                )) by {
                    assert forall|x: ComponentView| self@.components.contains(x) <==> (
                    s0.components.contains(x) || (is_newcomer(s0, ls, x) && exists|j: int|
                        0 <= j < i + 1 && lv[j] == x)) by {
                        if comp_before.contains(x) && !s0.components.contains(x) {
                            let j = choose|j: int| 0 <= j < i && lv[j] == x;
                            assert(0 <= j < i + 1 && lv[j] == x);
                        }
                        if is_newcomer(s0, ls, x) && exists|j: int| 0 <= j < i + 1 && lv[j] == x {
                            assert(sv.contains(x));
                            if x != cv {
                                assert(started_before.contains(x)) by {
                                    let k = choose|k: int| 0 <= k < sv.len() && sv[k] == x;
                                    assert(started_before[k] == x);
                                }
                            }
                        }
                    }
                }
            }
            i = i + 1;
        }
        let ghost s1 = self@;
        proof {
            assert forall|c: ComponentView| is_newcomer(s0, ls, c) implies exists|j: int|
                0 <= j < latest@.len() && lv[j] == c by {
                let j = choose|j: int| 0 <= j < lv.len() && lv[j] == c;
                assert(lv[j] == c);
            }
        }
        let mut k: usize = 0;
        while k < prev.len()
            invariant
                k <= prev@.len(),
                lv == component_views(latest@),
                ls == lv.to_set(),
                pv == component_views(prev@),
                forall|c: ComponentView| s0.components.contains(c) <==> pv.contains(c),
                s1.running == Set::new(
                    |c: ComponentView| s0.running.contains(c) || is_newcomer(s0, ls, c),
                ),
                s1.components == Set::new(
                    |c: ComponentView| s0.components.contains(c) || is_newcomer(s0, ls, c),
                ),
                self@.running == Set::new(
                    |c: ComponentView|
                        s1.running.contains(c) && !(is_leaver(s0, ls, c) && exists|j: int|
                            0 <= j < k && pv[j] == c),
                ),
                self@.components == Set::new(
                    |c: ComponentView|
                        s1.components.contains(c) && !(is_leaver(s0, ls, c) && exists|j: int|
                            0 <= j < k && pv[j] == c),
                ),
                forall|c: ComponentView|
                    #[trigger] component_views(stopped@).contains(c) <==> (is_leaver(s0, ls, c)
                        && exists|j: int| 0 <= j < k && pv[j] == c),
                no_duplicates(component_views(started@)),
                no_duplicates(component_views(stopped@)),
            decreases prev@.len() - k,
        {
            let c = &prev[k];
            let ghost cv = c@;
            assert(pv[k as int] == cv);
            assert(pv.contains(cv));
            let ghost run_before = self@.running;
            let ghost comp_before = self@.components;
            let ghost stopped_before = component_views(stopped@);
            let gone = !list_contains(latest, c);
            proof {
                assert(gone == !ls.contains(cv));
                if !is_newcomer(s0, ls, cv) && s0.running.contains(cv) && !(exists|j: int|
                    0 <= j < k && pv[j] == cv) {
                    assert(run_before.contains(cv));
                }
            }
            if gone && self.running_components.contains(c) {
                proof {
                    assert(is_leaver(s0, ls, cv));
                }
                proof {
                    assert(!stopped_before.contains(cv));
                }
                self.running_components.remove(c);
                self.components.remove(c);
                stopped.push(c.clone());
                proof {
                    assert(component_views(stopped@) =~= stopped_before.push(cv));
                    assert forall|a: int, b: int|
                        0 <= a < b < component_views(stopped@).len() implies component_views(
                        stopped@,
                    )[a] != component_views(stopped@)[b] by {
                        if b == stopped_before.len() {
                            assert(stopped_before[a] != cv) by {
                                if stopped_before[a] == cv {
                                    assert(stopped_before.contains(cv));
                                }
                            }
                        } else {
                            assert(stopped_before[a] != stopped_before[b]);
                        }
                    }
                    assert(component_views(stopped@)[stopped_before.len() as int] == cv);
                }
            }
            proof {
                let sv = component_views(stopped@);
                assert forall|x: ComponentView| sv.contains(x) <==> (is_leaver(s0, ls, x)
                    && exists|j: int| 0 <= j < k + 1 && pv[j] == x) by {
                    if sv.contains(x) {
                        let q = choose|q: int| 0 <= q < sv.len() && sv[q] == x;
                        if q < stopped_before.len() {
                            assert(stopped_before[q] == x);
                            assert(stopped_before.contains(x));
                            let j = choose|j: int| 0 <= j < k && pv[j] == x;
                            assert(0 <= j < k + 1 && pv[j] == x);
                        } else {
                            assert(x == cv);
                            assert(0 <= k < k + 1 && pv[k as int] == x);
                        }
                    }
                    if is_leaver(s0, ls, x) && exists|j: int| 0 <= j < k + 1 && pv[j] == x {
                        let j = choose|j: int| 0 <= j < k + 1 && pv[j] == x;
                        if j < k {
                            assert(stopped_before.contains(x));
                            let q = choose|q: int|
                                0 <= q < stopped_before.len() && stopped_before[q] == x;
                            assert(sv[q] == x);
                        } else {
                            assert(x == cv);
                            if stopped_before.contains(x) {
                                let q = choose|q: int|
                                    0 <= q < stopped_before.len() && stopped_before[q] == x;
                                assert(sv[q] == x);
                            } else {
                                assert(run_before.contains(cv));
                                assert(sv[stopped_before.len() as int] == x);
                            }
                        }
                    }
                }
                assert(self@.running =~= Set::new(
                    |x: ComponentView|
                        s1.running.contains(x) && !(is_leaver(s0, ls, x) && exists|j: int|
                            0 <= j < k + 1 && pv[j] == x),
                )) by {
                    assert forall|x: ComponentView| self@.running.contains(x) <==> (
                    s1.running.contains(x) && !(is_leaver(s0, ls, x) && exists|j: int|
                        0 <= j < k + 1 && pv[j] == x)) by {
                        if is_leaver(s0, ls, x) && exists|j: int| 0 <= j < k + 1 && pv[j] == x {
                            let j = choose|j: int| 0 <= j < k + 1 && pv[j] == x;
                            if j < k {
                                assert(!run_before.contains(x));
                            }
                        }
                        if x != cv && run_before.contains(x) {
                            if is_leaver(s0, ls, x) && exists|j: int|
                                0 <= j < k + 1 && pv[j] == x {
                                let j = choose|j: int| 0 <= j < k + 1 && pv[j] == x;
                                assert(j < k);
                            }
                        }
                    }
                }
                assert(self@.components =~= Set::new(
                    |x: ComponentView|
                        s1.components.contains(x) && !(is_leaver(s0, ls, x) && exists|j: int|
                            0 <= j < k + 1 && pv[j] == x),
                )) by {
                    assert forall|x: ComponentView| self@.components.contains(x) <==> (
                    s1.components.contains(x) && !(is_leaver(s0, ls, x) && exists|j: int|
                        0 <= j < k + 1 && pv[j] == x)) by {
                        if is_leaver(s0, ls, x) && exists|j: int| 0 <= j < k + 1 && pv[j] == x {
                            let j = choose|j: int| 0 <= j < k + 1 && pv[j] == x;
                            if j < k {
                                assert(!comp_before.contains(x));
                            }
                        }
                        if x != cv && comp_before.contains(x) {
                            if is_leaver(s0, ls, x) && exists|j: int|
                                0 <= j < k + 1 && pv[j] == x {
                                let j = choose|j: int| 0 <= j < k + 1 && pv[j] == x;
                                assert(j < k);
                            }
                        }
                    }
                }
            }
            k = k + 1;
        }
        proof {
            assert forall|c: ComponentView| is_leaver(s0, ls, c) implies exists|j: int|
                0 <= j < prev@.len() && pv[j] == c by {
                assert(pv.contains(c));
                let j = choose|j: int| 0 <= j < pv.len() && pv[j] == c;
                assert(pv[j] == c);
            }
            assert(self@.running =~= after_update(s0, ls).running);
            assert(self@.components =~= after_update(s0, ls).components);
        }
        let has_change = started.len() > 0 || stopped.len() > 0;
        TopologyChange { started, stopped, has_change }
    }

    fn copy_list(list: &Vec<Component>) -> (copy: Vec<Component>)
        ensures
            component_views(copy@) == component_views(list@),
    {
        let mut copy: Vec<Component> = Vec::new();
        let mut i: usize = 0;
        while i < list.len()
            invariant
                i <= list@.len(),
                component_views(copy@) == component_views(list@).take(i as int),
            decreases list@.len() - i,
        {
            let c = list[i].clone();
            let ghost before = component_views(copy@);
            copy.push(c);
            proof {
                assert(component_views(copy@) =~= before.push(list@[i as int]@));
                assert(component_views(list@).take(i + 1) =~= before.push(list@[i as int]@));
            }
            i = i + 1;
        }
        proof {
            assert(component_views(list@).take(i as int) == component_views(list@));
        }
        copy
    }
}

} // verus!
