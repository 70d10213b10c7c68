//! The live registry — who is connected, and which link answers.
//!
//! Discovery is a projection of the registry: a node exists exactly as long
//! as it has a connected link. The registry is generic over the per-link value
//! `T` (a way to call that link back) so the routing and discovery rules hold
//! with no transport in sight.
use vstd::prelude::*;

use crate::protocol::connector::{copy_connectors, Connector};
use crate::protocol::discovery::{
    apply_change, LinkInfo, NodeInfo, Topology, TopologyEvent, TopologySnapshot,
};
use crate::protocol::errors::HubError;
use crate::protocol::identity::{stable_name, LinkLabel, NodeId, NodeLink};
use crate::protocol::registration::Registration;
use crate::protocol::targeting::LinkSelector;
use crate::sorted_map::{entries_map, key_of, lemma_entry_in_map, SortedMap, TextKey};
use crate::text::{lemma_sorted_unique, lex_lt, strictly_sorted};

verus! {

/// One registered link: what it offers, plus the handle used to reach it.
#[derive(Debug)]
pub struct LinkEntry<T> {
    pub connectors: Vec<Connector>,
    pub agent_version: String,
    /// How to call this link back.
    pub handle: T,
}

/// The registry's content: node name to (link label to entry).
pub type RegistryView<T> = Map<Seq<char>, Map<Seq<char>, LinkEntry<T>>>;

/// The entry a registration produces for `handle`.
pub open spec fn entry_of<T>(registration: Registration, handle: T) -> LinkEntry<T> {
    LinkEntry {
        connectors: registration.connectors,
        agent_version: registration.agent_version,
        handle,
    }
}

/// The links registered under `node`; none if the node is absent.
pub open spec fn links_of<T>(m: RegistryView<T>, node: Seq<char>) -> Map<Seq<char>, LinkEntry<T>> {
    if m.contains_key(node) {
        m[node]
    } else {
        Map::empty()
    }
}

/// The registry after `(node, link)` registers `entry`: it is added, or
/// replaces the entry that link had.
pub open spec fn after_register<T>(
    m: RegistryView<T>,
    node: Seq<char>,
    link: Seq<char>,
    entry: LinkEntry<T>,
) -> RegistryView<T> {
    m.insert(node, links_of(m, node).insert(link, entry))
}

/// The registry after `(node, link)` is dropped: a node goes with its last
/// link, and dropping an unknown link changes nothing.
pub open spec fn after_remove<T>(m: RegistryView<T>, node: Seq<char>, link: Seq<char>) -> RegistryView<
    T,
> {
    if !m.contains_key(node) || !m[node].contains_key(link) {
        m
    } else if m[node].remove(link) == Map::<Seq<char>, LinkEntry<T>>::empty() {
        m.remove(node)
    } else {
        m.insert(node, m[node].remove(link))
    }
}

/// Which links each node has.
pub open spec fn topology_of<T>(m: RegistryView<T>) -> Topology {
    Map::new(|n: Seq<char>| m.contains_key(n), |n: Seq<char>| m[n].dom())
}

/// Every node in the registry has at least one link.
pub open spec fn no_empty_nodes<T>(m: RegistryView<T>) -> bool {
    forall|n: Seq<char>| #[trigger] m.contains_key(n) ==> m[n] != Map::<Seq<char>, LinkEntry<T>>::empty()
}

/// Which link answers a request for link `wanted` of `node`: that link if
/// connected, else `stable`, else no link; and no node if it has no links.
pub open spec fn resolution<T>(m: RegistryView<T>, node: Seq<char>, wanted: Seq<char>) -> Result<
    Seq<char>,
    HubError,
> {
    if !m.contains_key(node) || m[node] == Map::<Seq<char>, LinkEntry<T>>::empty() {
        Err(HubError::UnknownNode)
    } else if m[node].contains_key(wanted) {
        Ok(wanted)
    } else if m[node].contains_key(stable_name()) {
        Ok(stable_name())
    } else {
        Err(HubError::UnknownLink)
    }
}

/// `links` lists exactly the links of `lm`, in label order, each with the
/// connectors its entry serves.
pub open spec fn describes_links<T>(links: Seq<LinkInfo>, lm: Map<Seq<char>, LinkEntry<T>>) -> bool {
    &&& forall|i: int, j: int|
        0 <= i < j < links.len() ==> lex_lt(#[trigger] links[i].link@, #[trigger] links[j].link@)
    &&& forall|l: Seq<char>|
        #[trigger] lm.contains_key(l) <==> exists|i: int|
            0 <= i < links.len() && #[trigger] links[i].link@ == l
    &&& forall|i: int|
        0 <= i < links.len() ==> (#[trigger] links[i]).connectors@ == lm[links[i].link@].connectors@
}

/// `snap` lists exactly the nodes of `m`, in name order, each with exactly
/// its links.
pub open spec fn describes<T>(snap: TopologySnapshot, m: RegistryView<T>) -> bool {
    &&& forall|i: int, j: int|
        0 <= i < j < snap.nodes@.len() ==> lex_lt(
            #[trigger] snap.nodes@[i].node@,
            #[trigger] snap.nodes@[j].node@,
        )
    &&& forall|n: Seq<char>|
        #[trigger] m.contains_key(n) <==> exists|i: int|
            0 <= i < snap.nodes@.len() && #[trigger] snap.nodes@[i].node@ == n
    &&& forall|i: int|
        0 <= i < snap.nodes@.len() ==> describes_links(
            (#[trigger] snap.nodes@[i]).links@,
            m[snap.nodes@[i].node@],
        )
}

/// The connected mesh, keyed by node then link, both in name order.
pub struct Registry<T> {
    nodes: SortedMap<NodeId, SortedMap<LinkLabel, LinkEntry<T>>>,
}

impl<T> View for Registry<T> {
    type V = RegistryView<T>;

    closed spec fn view(&self) -> RegistryView<T> {
        Map::new(|n: Seq<char>| self.nodes@.contains_key(n), |n: Seq<char>| self.nodes@[n]@)
    }
}

impl<T> Registry<T> {
    /// Nodes and links stay in name order, and no node is kept without a
    /// link.
    #[verifier::type_invariant]
    closed spec fn well_formed(&self) -> bool {
        &&& self.nodes.wf()
        &&& forall|n: Seq<char>| #[trigger]
            self.nodes@.contains_key(n) ==> self.nodes@[n].wf() && self.nodes@[n].entries@.len() > 0
    }

    /// A well-formed registry holds no node without links.
    proof fn lemma_no_empty_nodes(&self)
        requires
            self.well_formed(),
        ensures
            no_empty_nodes(self@),
    {
        assert forall|n: Seq<char>| #[trigger] self@.contains_key(n) implies self@[n]
            != Map::<Seq<char>, LinkEntry<T>>::empty() by {
            let inner = self.nodes@[n];
            lemma_entry_in_map(inner.entries@, 0);
            assert(inner@.contains_key(key_of(inner.entries@, 0)));
        }
    }

    /// An empty registry — no nodes connected.
    pub fn new() -> (r: Self)
        ensures
            r@ == RegistryView::<T>::empty(),
            no_empty_nodes(r@),
    {
        let r = Registry { nodes: SortedMap::new() };
        assert(r@ =~= RegistryView::<T>::empty());
        r
    }

    /// Record a link's registration, returning the topology change it
    /// implies.
    ///
    /// Re-registration by an already-known `(node, link)` is expected
    /// reconnect churn, not an error: the entry is replaced and no event is
    /// emitted, since nothing about the topology changed.
    pub fn register(&mut self, registration: Registration, handle: T) -> (r: Option<TopologyEvent>)
        ensures
            no_empty_nodes(final(self)@),
            final(self)@ == after_register(
                old(self)@,
                registration.node@,
                registration.link@,
                entry_of(registration, handle),
            ),
            match r {
                None => old(self)@.contains_key(registration.node@) && old(
                    self,
                )@[registration.node@].contains_key(registration.link@),
                Some(TopologyEvent::NodeConnected(info)) => !old(self)@.contains_key(
                    registration.node@,
                ) && info.node@ == registration.node@ && info.links@.len() == 1
                    && info.links@[0].link@ == registration.link@ && info.links@[0].connectors@
                    == registration.connectors@,
                Some(TopologyEvent::LinkConnected(node, info)) => old(self)@.contains_key(
                    registration.node@,
                ) && !old(self)@[registration.node@].contains_key(registration.link@) && node@
                    == registration.node@ && info.link@ == registration.link@ && info.connectors@
                    == registration.connectors@,
                Some(_) => false,
            },
            topology_of(final(self)@) == apply_change(topology_of(old(self)@), r),
    {
        proof {
            use_type_invariant(&*self);
        }
        let ghost m = self@;
        let ghost entry = entry_of(registration, handle);
        let Registration { node, link, connectors, agent_version } = registration;
        let ghost n = node@;
        let ghost l = link@;
        let link_info = LinkInfo { link: link.clone(), connectors: copy_connectors(&connectors) };
        let entry_value = LinkEntry { connectors, agent_version, handle };
        assert(entry_value == entry);
        assert(m =~= Map::new(|k: Seq<char>| self.nodes@.contains_key(k), |k: Seq<char>| self.nodes@[k]@));
        let mut nodes = SortedMap::new();
        std::mem::swap(&mut nodes, &mut self.nodes);
        match nodes.remove(node.key_text()) {
            None => {
                let mut links = SortedMap::new();
                links.insert(link, entry_value);
                nodes.insert(node.clone(), links);
                self.nodes = nodes;
                proof {
                    use_type_invariant(&*self);
                    self.lemma_no_empty_nodes();
                }
                proof {
                    assert(self@ =~= after_register(m, n, l, entry));
                    assert(m.remove(n) =~= m);
                }
                let infos = vec![link_info];
                let event = TopologyEvent::NodeConnected(NodeInfo { node, links: infos });
                proof {
                    let t0 = topology_of(m);
                    let t1 = topology_of(self@);
                    assert(self@[n].dom() =~= set![l]);
                    assert(crate::protocol::discovery::labels_of(infos@) =~= set![l]) by {
                        assert(infos@[0].link@ == l);
                    }
                    assert(t1 =~= apply_change(t0, Some(event)));
                }
                Some(event)
            },
            Some((key, mut links)) => {
                assert(links.wf() && links@ == m[n]);
                let replaced = links.insert(link, entry_value);
                nodes.insert(key, links);
                self.nodes = nodes;
                proof {
                    use_type_invariant(&*self);
                    self.lemma_no_empty_nodes();
                }
                proof {
                    assert(self@ =~= after_register(m, n, l, entry));
                }
                match replaced {
                    Some(_) => {
                        proof {
                            assert(self@[n].dom() =~= m[n].dom());
                            assert(topology_of(self@) =~= topology_of(m));
                        }
                        None
                    },
                    None => {
                        let event = TopologyEvent::LinkConnected(node, link_info);
                        proof {
                            assert(topology_of(self@) =~= apply_change(topology_of(m), Some(event)));
                        }
                        Some(event)
                    },
                }
            },
        }
    }

    /// Drop one link, returning the topology change it implies.
    ///
    /// The node disappears with its last link; dropping a link that is not
    /// registered changes nothing.
    pub fn remove(&mut self, target: &NodeLink) -> (r: Option<TopologyEvent>)
        ensures
            no_empty_nodes(final(self)@),
            final(self)@ == after_remove(old(self)@, target.node@, target.link@),
            match r {
                None => !(old(self)@.contains_key(target.node@) && old(
                    self,
                )@[target.node@].contains_key(target.link@)),
                Some(TopologyEvent::NodeDisconnected(node)) => old(self)@.contains_key(
                    target.node@,
                ) && old(self)@[target.node@].contains_key(target.link@) && old(
                    self,
                )@[target.node@].remove(target.link@) == Map::<Seq<char>, LinkEntry<T>>::empty()
                    && node == target.node,
                Some(TopologyEvent::LinkDisconnected(link)) => old(self)@.contains_key(
                    target.node@,
                ) && old(self)@[target.node@].contains_key(target.link@) && old(
                    self,
                )@[target.node@].remove(target.link@) != Map::<Seq<char>, LinkEntry<T>>::empty()
                    && link == *target,
                Some(_) => false,
            },
            topology_of(final(self)@) == apply_change(topology_of(old(self)@), r),
    {
        proof {
            use_type_invariant(&*self);
        }
        let ghost m = self@;
        let ghost n = target.node@;
        let ghost l = target.link@;
        assert(m =~= Map::new(|k: Seq<char>| self.nodes@.contains_key(k), |k: Seq<char>| self.nodes@[k]@));
        let mut nodes = SortedMap::new();
        std::mem::swap(&mut nodes, &mut self.nodes);
        match nodes.remove(target.node.key_text()) {
            None => {
                self.nodes = nodes;
                proof {
                    use_type_invariant(&*self);
                    self.lemma_no_empty_nodes();
                }
                assert(self@ =~= m);
                None
            },
            Some((key, mut links)) => {
                assert(links.wf() && links@ == m[n]);
                match links.remove(target.link.key_text()) {
                    None => {
                        nodes.insert(key, links);
                        self.nodes = nodes;
                        proof {
                            use_type_invariant(&*self);
                            self.lemma_no_empty_nodes();
                        }
                        assert(self@ =~= m);
                        None
                    },
                    Some(_) => {
                        if links.is_empty() {
                            self.nodes = nodes;
                            proof {
                                use_type_invariant(&*self);
                                self.lemma_no_empty_nodes();
                            }
                            let event = TopologyEvent::NodeDisconnected(target.node.clone());
                            proof {
                                assert(self@ =~= after_remove(m, n, l));
                                assert(topology_of(self@) =~= apply_change(topology_of(m), Some(event)));
                            }
                            Some(event)
                        } else {
                            nodes.insert(key, links);
                            self.nodes = nodes;
                            proof {
                                use_type_invariant(&*self);
                                self.lemma_no_empty_nodes();
                            }
                            let event = TopologyEvent::LinkDisconnected(target.clone());
                            proof {
                                assert(self@ =~= after_remove(m, n, l));
                                assert(topology_of(self@) =~= apply_change(topology_of(m), Some(event)));
                            }
                            Some(event)
                        }
                    },
                }
            },
        }
    }

    /// Resolve a consumer's target to the link that should answer.
    ///
    /// The requested link if connected; otherwise `stable`; otherwise
    /// [`HubError::UnknownLink`]. A node with no links at all is
    /// [`HubError::UnknownNode`] — discovery is live, so "not connected" and
    /// "does not exist" are the same thing.
    pub fn resolve(&self, target: &LinkSelector) -> (r: Result<(&LinkLabel, &LinkEntry<T>), HubError>)
        ensures
            no_empty_nodes(self@),
            match r {
                Ok((label, entry)) => resolution(self@, target.node@, target.preferred_view()) == Ok::<
                    Seq<char>,
                    HubError,
                >(label@) && self@[target.node@].contains_key(label@) && *entry
                    == self@[target.node@][label@],
                Err(e) => resolution(self@, target.node@, target.preferred_view()) == Err::<
                    Seq<char>,
                    HubError,
                >(e),
            },
    {
        proof {
            use_type_invariant(self);
            self.lemma_no_empty_nodes();
        }
        let links = match self.nodes.get(target.node.key_text()) {
            Some(links) => links,
            None => {
                return Err(HubError::UnknownNode);
            },
        };
        assert(links@ == self@[target.node@]);
        if links.is_empty() {
            return Err(HubError::UnknownNode);
        }
        let wanted = target.preferred_link();
        if let Some((label, entry)) = links.get_key_value(wanted.key_text()) {
            return Ok((label, entry));
        }
        proof {
            reveal_strlit("stable");
            assert("stable"@ =~= stable_name());
        }
        match links.get_key_value("stable") {
            Some((label, entry)) => Ok((label, entry)),
            None => Err(HubError::UnknownLink),
        }
    }

    /// Whether no link is currently connected.
    pub fn is_empty(&self) -> (r: bool)
        ensures
            r == (self@ == RegistryView::<T>::empty()),
            no_empty_nodes(self@),
    {
        proof {
            use_type_invariant(self);
            self.lemma_no_empty_nodes();
        }
        let r = self.nodes.is_empty();
        if r {
            assert(self@ =~= RegistryView::<T>::empty());
        } else {
            assert(self.nodes@.contains_key(key_of(self.nodes.entries@, 0))) by {
                lemma_entry_in_map(self.nodes.entries@, 0);
            }
            assert(self@.contains_key(key_of(self.nodes.entries@, 0)));
        }
        r
    }
    /// The links of one node, in label order.
    fn link_infos(links: &SortedMap<LinkLabel, LinkEntry<T>>) -> (r: Vec<LinkInfo>)
        requires
            links.wf(),
        ensures
            describes_links(r@, links@),
    {
        let ghost e = links.entries@;
        let mut r: Vec<LinkInfo> = Vec::new();
        let mut j: usize = 0;
        while j < links.entries.len()
            invariant
                links.wf(),
                e == links.entries@,
                j <= e.len(),
                r@.len() == j,
                forall|k: int|
                    0 <= k < j ==> (#[trigger] r@[k]).link@ == key_of(e, k) && r@[k].connectors@
                        == e[k].1.connectors@,
            decreases e.len() - j,
        {
            let entry = &links.entries[j];
            let info = LinkInfo { link: entry.0.clone(), connectors: copy_connectors(&entry.1.connectors) };
            r.push(info);
            j = j + 1;
        }
        proof {
            let lm = links@;
            assert forall|a: int, b: int| 0 <= a < b < r@.len() implies lex_lt(
                #[trigger] r@[a].link@,
                #[trigger] r@[b].link@,
            ) by {
                assert(lex_lt(key_of(e, a), key_of(e, b)));
            }
            assert forall|l: Seq<char>| #[trigger] lm.contains_key(l) <==> exists|k: int|
                0 <= k < r@.len() && #[trigger] r@[k].link@ == l by {
                if lm.contains_key(l) {
                    let k = choose|k: int| 0 <= k < e.len() && #[trigger] key_of(e, k) == l;
                    assert(r@[k].link@ == l);
                }
                if exists|k: int| 0 <= k < r@.len() && #[trigger] r@[k].link@ == l {
                    let k = choose|k: int| 0 <= k < r@.len() && #[trigger] r@[k].link@ == l;
                    lemma_entry_in_map(e, k);
                }
            }
            assert forall|k: int| 0 <= k < r@.len() implies (#[trigger] r@[k]).connectors@
                == lm[r@[k].link@].connectors@ by {
                lemma_entry_in_map(e, k);
            }
        }
        r
    }

    /// A point-in-time view of everything connected.
    pub fn snapshot(&self) -> (snap: TopologySnapshot)
        ensures
            describes(snap, self@),
            no_empty_nodes(self@),
    {
        proof {
            use_type_invariant(self);
            self.lemma_no_empty_nodes();
        }
        let ghost outer = self.nodes.entries@;
        let mut nodes: Vec<NodeInfo> = Vec::new();
        let mut i: usize = 0;
        while i < self.nodes.entries.len()
            invariant
                self.well_formed(),
                outer == self.nodes.entries@,
                i <= outer.len(),
                nodes@.len() == i,
                forall|k: int|
                    0 <= k < i ==> (#[trigger] nodes@[k]).node@ == key_of(outer, k) && describes_links(
                        nodes@[k].links@,
                        self@[key_of(outer, k)],
                    ),
            decreases outer.len() - i,
        {
            let entry = &self.nodes.entries[i];
            proof {
                lemma_entry_in_map(outer, i as int);
                assert(self@[key_of(outer, i as int)] == entry.1@);
            }
            let infos = Self::link_infos(&entry.1);
            nodes.push(NodeInfo { node: entry.0.clone(), links: infos });
            i = i + 1;
        }
        let snap = TopologySnapshot { nodes };
        proof {
            let m = self@;
            let ns = snap.nodes@;
            assert forall|a: int, b: int| 0 <= a < b < ns.len() implies lex_lt(
                #[trigger] ns[a].node@,
                #[trigger] ns[b].node@,
            ) by {
                assert(lex_lt(key_of(outer, a), key_of(outer, b)));
            }
            assert forall|n: Seq<char>| #[trigger] m.contains_key(n) <==> exists|k: int|
                0 <= k < ns.len() && #[trigger] ns[k].node@ == n by {
                if m.contains_key(n) {
                    let k = choose|k: int| 0 <= k < outer.len() && #[trigger] key_of(outer, k) == n;
                    assert(ns[k].node@ == n);
                }
                if exists|k: int| 0 <= k < ns.len() && #[trigger] ns[k].node@ == n {
                    let k = choose|k: int| 0 <= k < ns.len() && #[trigger] ns[k].node@ == n;
                    lemma_entry_in_map(outer, k);
                }
            }
            assert forall|k: int| 0 <= k < ns.len() implies describes_links(
                (#[trigger] ns[k]).links@,
                m[ns[k].node@],
            ) by {}
        }
        snap
    }
}

impl<T> Default for Registry<T> {
    fn default() -> (r: Self)
        ensures
            r@ == RegistryView::<T>::empty(),
    {
        Registry::new()
    }
}

/// A link's handle together with the connection that registered it.
#[derive(Debug)]
pub struct Attached<H> {
    /// Which accepted connection the registration came over.
    pub connection: u64,
    /// How to call the link back.
    pub handle: H,
}

/// Link `link` of `node` is registered, and the registration came over
/// `connection`.
pub open spec fn held_by<H>(m: RegistryView<Attached<H>>, node: Seq<char>, link: Seq<char>, connection: u64) -> bool {
    m.contains_key(node) && m[node].contains_key(link) && m[node][link].handle.connection == connection
}

impl<H> Registry<Attached<H>> {
    /// Retire what a closed connection registered: drop `(node, link)` if the
    /// registration there still came over `connection`, returning the
    /// topology change; a link that another connection has registered since
    /// is left as it is, and so is a link that is not registered.
    pub fn retire(&mut self, target: &NodeLink, connection: u64) -> (r: Option<TopologyEvent>)
        ensures
            no_empty_nodes(final(self)@),
            held_by(old(self)@, target.node@, target.link@, connection) ==> final(self)@ == after_remove(
                old(self)@,
                target.node@,
                target.link@,
            ) && r is Some,
            !held_by(old(self)@, target.node@, target.link@, connection) ==> final(self)@ == old(
                self,
            )@ && r is None,
            (old(self)@.contains_key(target.node@) && old(self)@[target.node@].contains_key(target.link@)
                && old(self)@[target.node@][target.link@].handle.connection == connection) ==> (
            final(self)@ == after_remove(old(self)@, target.node@, target.link@) && r is Some),
            topology_of(final(self)@) == apply_change(topology_of(old(self)@), r),
    {
        proof {
            use_type_invariant(&*self);
            self.lemma_no_empty_nodes();
        }
        let held = match self.nodes.get(target.node.key_text()) {
            None => false,
            Some(links) => {
                assert(links@ == self@[target.node@]);
                match links.get(target.link.key_text()) {
                    None => false,
                    Some(entry) => entry.handle.connection == connection,
                }
            },
        };
        if held {
            self.remove(target)
        } else {
            proof {
                assert(apply_change(topology_of(self@), None) == topology_of(self@));
            }
            None
        }
    }
}

/// A registration retired by the connection that made it is removed, whatever
/// that connection's number: the link goes, and with it the node if it was
/// the node's last link.
pub proof fn lemma_retire_removes_own_registration<H>(
    m: RegistryView<Attached<H>>,
    node: Seq<char>,
    link: Seq<char>,
    entry: LinkEntry<Attached<H>>,
)
    requires
        no_empty_nodes(m),
        !links_of(m, node).contains_key(link),
    ensures
        held_by(after_register(m, node, link, entry), node, link, entry.handle.connection),
        after_remove(after_register(m, node, link, entry), node, link) == m,
{
    assert(after_register(m, node, link, entry)[node][link] == entry);
    lemma_remove_undoes_register(m, node, link, entry);
}

/// Whichever connection registered a link holds it, until it is registered
/// again.
pub proof fn lemma_registering_connection_holds_the_link<H>(
    m: RegistryView<Attached<H>>,
    node: Seq<char>,
    link: Seq<char>,
    entry: LinkEntry<Attached<H>>,
    connection: u64,
)
    ensures
        held_by(after_register(m, node, link, entry), node, link, connection) <==> connection
            == entry.handle.connection,
{
    assert(after_register(m, node, link, entry)[node][link] == entry);
}

/// Once another connection has registered a link again, retiring the first
/// connection's registration leaves that link in place.
pub proof fn lemma_retire_spares_a_newer_registration<H>(
    m: RegistryView<Attached<H>>,
    node: Seq<char>,
    link: Seq<char>,
    entry: LinkEntry<Attached<H>>,
    earlier: u64,
)
    requires
        entry.handle.connection != earlier,
    ensures
        !held_by(after_register(m, node, link, entry), node, link, earlier),
{
    assert(after_register(m, node, link, entry)[node][link] == entry);
}

/// Two link listings agree: the same labels in the same order, each with the
/// same connectors.
pub open spec fn same_links(a: Seq<LinkInfo>, b: Seq<LinkInfo>) -> bool {
    &&& a.len() == b.len()
    &&& forall|k: int|
        0 <= k < a.len() ==> (#[trigger] a[k]).link@ == b[k].link@ && a[k].connectors@
            == b[k].connectors@
}

/// Two snapshots agree: the same nodes in the same order, each with the same
/// links.
pub open spec fn same_listing(s1: TopologySnapshot, s2: TopologySnapshot) -> bool {
    &&& s1.nodes@.len() == s2.nodes@.len()
    &&& forall|i: int|
        0 <= i < s1.nodes@.len() ==> (#[trigger] s1.nodes@[i]).node@ == s2.nodes@[i].node@
            && same_links(s1.nodes@[i].links@, s2.nodes@[i].links@)
}

/// The labels along a link listing.
spec fn labels_along(links: Seq<LinkInfo>) -> Seq<Seq<char>> {
    links.map_values(|l: LinkInfo| l.link@)
}

/// The names along a snapshot.
spec fn names_along(snap: TopologySnapshot) -> Seq<Seq<char>> {
    snap.nodes@.map_values(|n: NodeInfo| n.node@)
}

/// Two listings that both describe the links of one node agree.
proof fn lemma_links_determined<T>(a: Seq<LinkInfo>, b: Seq<LinkInfo>, lm: Map<Seq<char>, LinkEntry<T>>)
    requires
        describes_links(a, lm),
        describes_links(b, lm),
    ensures
        same_links(a, b),
{
    let la = labels_along(a);
    let lb = labels_along(b);
    assert(strictly_sorted(la));
    assert(strictly_sorted(lb));
    assert forall|x: Seq<char>| la.contains(x) <==> lb.contains(x) by {
        if la.contains(x) {
            let i = choose|i: int| 0 <= i < la.len() && la[i] == x;
            assert(a[i].link@ == x);
            assert(lm.contains_key(x));
            let j = choose|j: int| 0 <= j < b.len() && #[trigger] b[j].link@ == x;
            assert(lb[j] == x);
        }
        if lb.contains(x) {
            let i = choose|i: int| 0 <= i < lb.len() && lb[i] == x;
            assert(b[i].link@ == x);
            assert(lm.contains_key(x));
            let j = choose|j: int| 0 <= j < a.len() && #[trigger] a[j].link@ == x;
            assert(la[j] == x);
        }
    }
    lemma_sorted_unique(la, lb);
    assert(a.len() == la.len() && b.len() == lb.len());
    assert forall|k: int| 0 <= k < a.len() implies (#[trigger] a[k]).link@ == b[k].link@
        && a[k].connectors@ == b[k].connectors@ by {
        assert(la[k] == a[k].link@ && lb[k] == b[k].link@);
    }
}

/// A snapshot is reproducible: any two snapshots of the same registry list
/// the same nodes in the same order, each with the same links in the same
/// order and the same connectors.
pub proof fn lemma_snapshot_is_determined<T>(
    s1: TopologySnapshot,
    s2: TopologySnapshot,
    m: RegistryView<T>,
)
    requires
        describes(s1, m),
        describes(s2, m),
    ensures
        same_listing(s1, s2),
{
    let na = names_along(s1);
    let nb = names_along(s2);
    assert(strictly_sorted(na));
    assert(strictly_sorted(nb));
    assert forall|x: Seq<char>| na.contains(x) <==> nb.contains(x) by {
        if na.contains(x) {
            let i = choose|i: int| 0 <= i < na.len() && na[i] == x;
            assert(s1.nodes@[i].node@ == x);
            assert(m.contains_key(x));
            let j = choose|j: int| 0 <= j < s2.nodes@.len() && #[trigger] s2.nodes@[j].node@ == x;
            assert(nb[j] == x);
        }
        if nb.contains(x) {
            let i = choose|i: int| 0 <= i < nb.len() && nb[i] == x;
            assert(s2.nodes@[i].node@ == x);
            assert(m.contains_key(x));
            let j = choose|j: int| 0 <= j < s1.nodes@.len() && #[trigger] s1.nodes@[j].node@ == x;
            assert(na[j] == x);
        }
    }
    lemma_sorted_unique(na, nb);
    assert(s1.nodes@.len() == na.len() && s2.nodes@.len() == nb.len());
    assert forall|i: int| 0 <= i < s1.nodes@.len() implies (#[trigger] s1.nodes@[i]).node@
        == s2.nodes@[i].node@ && same_links(s1.nodes@[i].links@, s2.nodes@[i].links@) by {
        assert(na[i] == s1.nodes@[i].node@ && nb[i] == s2.nodes@[i].node@);
        lemma_links_determined(s1.nodes@[i].links@, s2.nodes@[i].links@, m[s1.nodes@[i].node@]);
    }
}

/// Dropping a link that was just registered (and was not there before)
/// restores the registry as it was.
pub proof fn lemma_remove_undoes_register<T>(
    m: RegistryView<T>,
    node: Seq<char>,
    link: Seq<char>,
    entry: LinkEntry<T>,
)
    requires
        no_empty_nodes(m),
        !links_of(m, node).contains_key(link),
    ensures
        after_remove(after_register(m, node, link, entry), node, link) == m,
{
    let m1 = after_register(m, node, link, entry);
    assert(m1[node].remove(link) =~= links_of(m, node));
    if m.contains_key(node) {
        assert(m1[node].remove(link) != Map::<Seq<char>, LinkEntry<T>>::empty());
        assert(after_remove(m1, node, link) =~= m);
    } else {
        assert(links_of(m, node) =~= Map::<Seq<char>, LinkEntry<T>>::empty());
        assert(after_remove(m1, node, link) =~= m);
    }
}

/// A link that has just registered is what a request for that link
/// resolves to, and it answers with the entry just stored.
pub proof fn lemma_resolve_after_register<T>(
    m: RegistryView<T>,
    node: Seq<char>,
    link: Seq<char>,
    entry: LinkEntry<T>,
)
    ensures
        resolution(after_register(m, node, link, entry), node, link) == Ok::<Seq<char>, HubError>(
            link,
        ),
        after_register(m, node, link, entry)[node][link] == entry,
{
    let m1 = after_register(m, node, link, entry);
    assert(m1[node].contains_key(link));
    assert(m1[node] != Map::<Seq<char>, LinkEntry<T>>::empty()) by {
        assert(!Map::<Seq<char>, LinkEntry<T>>::empty().contains_key(link));
    }
}

/// Registering an already-known link again changes no topology: the same
/// nodes carry the same links.
pub proof fn lemma_reregister_keeps_topology<T>(
    m: RegistryView<T>,
    node: Seq<char>,
    link: Seq<char>,
    entry: LinkEntry<T>,
)
    requires
        m.contains_key(node),
        m[node].contains_key(link),
    ensures
        topology_of(after_register(m, node, link, entry)) == topology_of(m),
{
    let m1 = after_register(m, node, link, entry);
    assert(m1[node].dom() =~= m[node].dom());
    assert(topology_of(m1) =~= topology_of(m));
}

/// Resolution only ever picks a link that is connected, and it picks the
/// requested one whenever that is connected; otherwise `stable` if that is
/// connected.
pub proof fn lemma_resolution_picks_connected_link<T>(
    m: RegistryView<T>,
    node: Seq<char>,
    wanted: Seq<char>,
)
    ensures
        resolution(m, node, wanted) matches Ok(l) ==> m.contains_key(node) && m[node].contains_key(
            l,
        ),
        m.contains_key(node) && m[node].contains_key(wanted) ==> resolution(m, node, wanted)
            == Ok::<Seq<char>, HubError>(wanted),
        m.contains_key(node) && !m[node].contains_key(wanted) && m[node].contains_key(
            stable_name(),
        ) ==> resolution(m, node, wanted) == Ok::<Seq<char>, HubError>(stable_name()),
{
    if m.contains_key(node) && m[node].contains_key(wanted) {
        assert(!Map::<Seq<char>, LinkEntry<T>>::empty().contains_key(wanted));
    }
    if m.contains_key(node) && m[node].contains_key(stable_name()) {
        assert(!Map::<Seq<char>, LinkEntry<T>>::empty().contains_key(stable_name()));
    }
}

/// A node no longer present resolves to [`HubError::UnknownNode`], whatever
/// link is asked for.
pub proof fn lemma_absent_node_is_unknown<T>(m: RegistryView<T>, node: Seq<char>, wanted: Seq<char>)
    requires
        !m.contains_key(node),
    ensures
        resolution(m, node, wanted) == Err::<Seq<char>, HubError>(HubError::UnknownNode),
{
}

} // verus!
