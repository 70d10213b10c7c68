//! Connectors — the capabilities a node actually offers.
//!
//! A connector is addressed by id and owns its own payload encoding; the hub
//! routes on the addressing fields and never looks inside. Adding a
//! capability therefore touches this node only — not the hub, not the
//! protocol.
use vstd::prelude::*;

use crate::protocol::connector::Connector as ConnectorDescriptor;
use crate::protocol::errors::NodeError;
use crate::protocol::routing::{RoutedCall, RoutedReply};
use crate::sorted_map::{key_of, lemma_entry_in_map, lemma_map_len, SortedMap};
use crate::text::{lemma_sorted_unique, lex_lt, strictly_sorted};

verus! {

/// One capability this node offers.
///
/// `call` receives the method name and the opaque request bytes, and returns
/// opaque response bytes. What those bytes mean is entirely this connector's
/// business.
///
/// An implementation may state the one descriptor it presents
/// ([`Connector::states_descriptor`] and [`Connector::descriptor_spec`]) and
/// which answers it gives ([`Connector::answers`]). One that does not —
/// any implementation outside verified code — claims nothing of itself:
/// its descriptor is then left open, and any answer is possible.
pub trait Connector: Send + Sync {
    /// Whether this implementation states its descriptor in
    /// [`Connector::descriptor_spec`].
    open spec fn states_descriptor(&self) -> bool {
        false
    }

    /// The descriptor this connector presents, where it states one.
    open spec fn descriptor_spec(&self) -> ConnectorDescriptor {
        vstd::pervasive::arbitrary()
    }

    /// Whether `answer` is an answer this connector may give to a call of
    /// `method` with `payload`.
    open spec fn answers(&self, method: Seq<char>, payload: Seq<u8>, answer: Result<Vec<u8>, NodeError>) -> bool {
        true
    }

    /// How this connector appears in a registration and in discovery.
    fn descriptor(&self) -> (r: ConnectorDescriptor)
        ensures
            self.states_descriptor() ==> r == self.descriptor_spec(),
    ;

    /// Handle one call. An unrecognised `method` should be refused, not
    /// ignored.
    fn call(&self, method: &str, payload: &[u8]) -> (r: Result<Vec<u8>, NodeError>)
        ensures
            self.answers(method@, payload@, r),
    ;
}

/// The reply a connector's answer turns into: its bytes relayed as they
/// are, or its refusal passed on.
pub open spec fn reply_of(answer: Result<Vec<u8>, NodeError>) -> Result<RoutedReply, NodeError> {
    match answer {
        Ok(payload) => Ok(RoutedReply { payload }),
        Err(e) => Err(e),
    }
}

/// What dispatching a call of `method` with `payload` to connector `id`
/// may answer, given the connectors `m`: an unknown id is refused, and a
/// known one answers as its connector does.
pub open spec fn dispatch_answers<C: Connector>(
    m: Map<Seq<char>, C>,
    id: Seq<char>,
    method: Seq<char>,
    payload: Seq<u8>,
    r: Result<RoutedReply, NodeError>,
) -> bool {
    &&& !m.contains_key(id) ==> r == Err::<RoutedReply, NodeError>(NodeError::UnknownConnector)
    &&& m.contains_key(id) ==> exists|a: Result<Vec<u8>, NodeError>|
        #[trigger] m[id].answers(method, payload, a) && r == reply_of(a)
}

/// `ds` lists one descriptor per connector of `m`, in the ascending order
/// `keys` gives their ids, and each connector that states its descriptor is
/// listed with it.
pub open spec fn listed_under<C: Connector>(
    ds: Seq<ConnectorDescriptor>,
    m: Map<Seq<char>, C>,
    keys: Seq<Seq<char>>,
) -> bool {
    &&& strictly_sorted(keys)
    &&& keys.len() == ds.len()
    &&& forall|k: Seq<char>| #[trigger] m.contains_key(k) <==> keys.contains(k)
    &&& forall|i: int|
        0 <= i < keys.len() && (#[trigger] m[keys[i]]).states_descriptor() ==> ds[i]
            == m[keys[i]].descriptor_spec()
}

/// `ds` lists the descriptors of the connectors `m`, one per connector, in
/// ascending id order.
pub open spec fn lists_descriptors<C: Connector>(ds: Seq<ConnectorDescriptor>, m: Map<Seq<char>, C>) -> bool {
    exists|keys: Seq<Seq<char>>| #[trigger] listed_under(ds, m, keys)
}

/// Every connector of `m` states its descriptor.
pub open spec fn all_stated<C: Connector>(m: Map<Seq<char>, C>) -> bool {
    forall|k: Seq<char>| #[trigger] m.contains_key(k) ==> m[k].states_descriptor()
}

/// Each connector in `m` that states its descriptor is filed under that
/// descriptor's id.
pub open spec fn filed_by_id<C: Connector>(m: Map<Seq<char>, C>) -> bool {
    forall|k: Seq<char>| #[trigger] m.contains_key(k) && m[k].states_descriptor() ==> m[k].descriptor_spec().id@ == k
}

/// A listing of the descriptors is determined by the connectors, where
/// every connector states its descriptor: any two listings of the same
/// connectors are the same list.
pub proof fn lemma_descriptor_listing_is_determined<C: Connector>(
    a: Seq<ConnectorDescriptor>,
    b: Seq<ConnectorDescriptor>,
    m: Map<Seq<char>, C>,
)
    requires
        lists_descriptors(a, m),
        lists_descriptors(b, m),
        all_stated(m),
    ensures
        a == b,
{
    let ka = choose|keys: Seq<Seq<char>>| #[trigger] listed_under(a, m, keys);
    let kb = choose|keys: Seq<Seq<char>>| #[trigger] listed_under(b, m, keys);
    assert forall|x: Seq<char>| ka.contains(x) <==> kb.contains(x) by {
        assert(m.contains_key(x) <==> ka.contains(x));
        assert(m.contains_key(x) <==> kb.contains(x));
    }
    lemma_sorted_unique(ka, kb);
    assert forall|i: int| 0 <= i < a.len() implies a[i] == b[i] by {
        assert(ka.contains(ka[i]));
        assert(m.contains_key(ka[i]));
        assert(m[ka[i]].states_descriptor());
    }
    assert(a =~= b);
}

/// After a connector is registered, a call addressed to its id is
/// answered as that connector answers, and a call to any other id is
/// answered as before.
pub proof fn lemma_register_then_dispatch<C: Connector>(
    m: Map<Seq<char>, C>,
    c: C,
    id: Seq<char>,
    method: Seq<char>,
    payload: Seq<u8>,
    r: Result<RoutedReply, NodeError>,
)
    requires
        dispatch_answers(m.insert(c.descriptor_spec().id@, c), id, method, payload, r),
    ensures
        id == c.descriptor_spec().id@ ==> exists|a: Result<Vec<u8>, NodeError>|
            #[trigger] c.answers(method, payload, a) && r == reply_of(a),
        id != c.descriptor_spec().id@ ==> dispatch_answers(m, id, method, payload, r),
{
    let m1 = m.insert(c.descriptor_spec().id@, c);
    if id != c.descriptor_spec().id@ {
        assert(m1.contains_key(id) == m.contains_key(id));
        if m.contains_key(id) {
            assert(m1[id] == m[id]);
        }
    } else {
        assert(m1.contains_key(id) && m1[id] == c);
    }
}

/// After a connector that states its descriptor is registered among
/// connectors that all state theirs, the advertised ids are the ones before
/// plus its own, and its own descriptor is among those advertised.
pub proof fn lemma_register_then_descriptors<C: Connector>(
    m: Map<Seq<char>, C>,
    c: C,
    ds: Seq<ConnectorDescriptor>,
)
    requires
        filed_by_id(m),
        all_stated(m),
        c.states_descriptor(),
        lists_descriptors(ds, m.insert(c.descriptor_spec().id@, c)),
    ensures
        forall|x: Seq<char>|
            (exists|i: int| 0 <= i < ds.len() && #[trigger] ds[i].id@ == x) <==> (m.contains_key(x)
                || x == c.descriptor_spec().id@),
        exists|i: int| 0 <= i < ds.len() && #[trigger] ds[i] == c.descriptor_spec(),
{
    let k = c.descriptor_spec().id@;
    let m1 = m.insert(k, c);
    lemma_filed_by_id_after_insert(m, k, c);
    let keys = choose|keys: Seq<Seq<char>>| #[trigger] listed_under(ds, m1, keys);
    assert forall|i: int| 0 <= i < ds.len() implies #[trigger] ds[i].id@ == keys[i] by {
        assert(keys.contains(keys[i]));
        assert(m1.contains_key(keys[i]));
        if keys[i] != k {
            assert(m.contains_key(keys[i]));
        }
        assert(m1[keys[i]].states_descriptor());
    }
    assert forall|x: Seq<char>|
        (exists|i: int| 0 <= i < ds.len() && #[trigger] ds[i].id@ == x) <==> (m.contains_key(x)
            || x == k) by {
        assert(m1.contains_key(x) == (m.contains_key(x) || x == k));
        if m1.contains_key(x) {
            assert(keys.contains(x));
            let i = choose|i: int| 0 <= i < keys.len() && keys[i] == x;
            assert(ds[i].id@ == x);
        }
        if exists|i: int| 0 <= i < ds.len() && #[trigger] ds[i].id@ == x {
            let i = choose|i: int| 0 <= i < ds.len() && #[trigger] ds[i].id@ == x;
            assert(keys[i] == x);
            assert(keys.contains(x));
        }
    }
    assert(m1.contains_key(k));
    assert(keys.contains(k));
    let i = choose|i: int| 0 <= i < keys.len() && keys[i] == k;
    assert(m1[k] == c);
    assert(ds[i] == c.descriptor_spec());
}

/// The reply a connector's answer turns into: its bytes relayed as they are,
/// or its refusal passed on.
pub fn reply_from(answer: Result<Vec<u8>, NodeError>) -> (r: Result<RoutedReply, NodeError>)
    ensures
        r == reply_of(answer),
{
    match answer {
        Ok(payload) => Ok(RoutedReply { payload }),
        Err(e) => Err(e),
    }
}

/// A boxed connector is a connector: it presents, and answers, as the
/// connector inside.
impl Connector for Box<dyn Connector> {
    open spec fn states_descriptor(&self) -> bool {
        (**self).states_descriptor()
    }

    open spec fn descriptor_spec(&self) -> ConnectorDescriptor {
        (**self).descriptor_spec()
    }

    open spec fn answers(&self, method: Seq<char>, payload: Seq<u8>, answer: Result<Vec<u8>, NodeError>) -> bool {
        (**self).answers(method, payload, answer)
    }

    fn descriptor(&self) -> (r: ConnectorDescriptor) {
        (**self).descriptor()
    }

    fn call(&self, method: &str, payload: &[u8]) -> (r: Result<Vec<u8>, NodeError>) {
        (**self).call(method, payload)
    }
}

/// Filing a connector under its own id keeps every connector filed by id.
proof fn lemma_filed_by_id_after_insert<C: Connector>(m: Map<Seq<char>, C>, key: Seq<char>, c: C)
    requires
        filed_by_id(m),
        c.states_descriptor() ==> c.descriptor_spec().id@ == key,
    ensures
        filed_by_id(m.insert(key, c)),
{
    assert forall|k: Seq<char>| #[trigger] m.insert(key, c).contains_key(k) && m.insert(key, c)[k].states_descriptor() implies m.insert(
        key,
        c,
    )[k].descriptor_spec().id@ == k by {
        if k != key {
            assert(m.contains_key(k));
        }
    }
}

/// The connectors a node link serves, addressed by descriptor id. By
/// default they are boxed connectors of any kind.
pub struct Connectors<C: Connector = Box<dyn Connector>> {
    by_id: SortedMap<String, C>,
}

impl<C: Connector> View for Connectors<C> {
    type V = Map<Seq<char>, C>;

    closed spec fn view(&self) -> Map<Seq<char>, C> {
        self.by_id@
    }
}

impl Connectors {
    /// A node offering nothing.
    pub fn new() -> (r: Self)
        ensures
            r@ == Map::<Seq<char>, Box<dyn Connector>>::empty(),
    {
        Connectors { by_id: SortedMap::new() }
    }
}

impl<C: Connector> Connectors<C> {
    /// Ids stay in order and unique, and each connector is filed under its
    /// own descriptor's id.
    #[verifier::type_invariant]
    closed spec fn well_formed(&self) -> bool {
        &&& self.by_id.wf()
        &&& filed_by_id(self.by_id@)
    }

    /// Offer `connector` under its descriptor id, replacing any previous one
    /// with that id.
    pub fn register(&mut self, connector: C) -> (r: &mut Self)
        ensures
            exists|id: Seq<char>| (*r)@ == #[trigger] old(self)@.insert(id, connector),
            connector.states_descriptor() ==> (*r)@ == old(self)@.insert(
                connector.descriptor_spec().id@,
                connector,
            ),
            filed_by_id((*r)@),
            *final(self) == *final(r),
    {
        proof {
            use_type_invariant(&*self);
        }
        let ghost before = self.by_id@;
        let ghost c = connector;
        let id = connector.descriptor().id;
        let ghost key = id@;
        let mut by_id = SortedMap::new();
        std::mem::swap(&mut by_id, &mut self.by_id);
        by_id.insert(id, connector);
        proof {
            lemma_filed_by_id_after_insert(before, key, c);
        }
        self.by_id = by_id;
        assert(self@ == old(self)@.insert(key, c));
        self
    }

    /// Every connector's descriptor, in id order — what this link advertises.
    pub fn descriptors(&self) -> (r: Vec<ConnectorDescriptor>)
        ensures
            lists_descriptors(r@, self@),
            filed_by_id(self@),
    {
        proof {
            use_type_invariant(self);
            lemma_map_len(self.by_id.entries@);
        }
        let ghost e = self.by_id.entries@;
        let ghost keys = Seq::new(e.len(), |k: int| key_of(e, k));
        let mut r: Vec<ConnectorDescriptor> = Vec::new();
        let mut i: usize = 0;
        let n = self.by_id.len();
        while i < n
            invariant
                self.by_id.wf(),
                e == self.by_id.entries@,
                n == e.len(),
                i <= n,
                r@.len() == i,
                forall|k: int| 0 <= k < i && (#[trigger] e[k].1).states_descriptor() ==> r@[k]
                    == e[k].1.descriptor_spec(),
            decreases n - i,
        {
            let d = self.by_id.entries[i].1.descriptor();
            let ghost before = r@;
            r.push(d);
            assert(forall|k: int| 0 <= k < i ==> r@[k] == before[k]);
            i = i + 1;
        }
        proof {
            let m = self@;
            assert forall|a: int, b: int| 0 <= a < b < keys.len() implies lex_lt(
                #[trigger] keys[a],
                #[trigger] keys[b],
            ) by {
                assert(lex_lt(key_of(e, a), key_of(e, b)));
            }
            assert forall|k: Seq<char>| #[trigger] m.contains_key(k) <==> keys.contains(k) by {
                if m.contains_key(k) {
                    let j = choose|j: int| 0 <= j < e.len() && #[trigger] key_of(e, j) == k;
                    assert(keys[j] == k);
                }
                if keys.contains(k) {
                    let j = choose|j: int| 0 <= j < keys.len() && keys[j] == k;
                    lemma_entry_in_map(e, j);
                }
            }
            assert forall|j: int| 0 <= j < keys.len() && (#[trigger] m[keys[j]]).states_descriptor()
                implies r@[j] == m[keys[j]].descriptor_spec() by {
                lemma_entry_in_map(e, j);
            }
            assert(listed_under(r@, m, keys));
        }
        r
    }

    /// Whether anything is registered.
    pub fn is_empty(&self) -> (r: bool)
        ensures
            r == (self@ == Map::<Seq<char>, C>::empty()),
    {
        proof {
            use_type_invariant(self);
        }
        self.by_id.is_empty()
    }

    /// Dispatch a routed call to the addressed connector.
    ///
    /// An id this node does not serve is [`NodeError::UnknownConnector`] —
    /// the same answer a node with no connectors at all gives. Otherwise the
    /// connector's own answer is relayed through [`reply_from`].
    pub fn dispatch(&self, call: &RoutedCall) -> (r: Result<RoutedReply, NodeError>)
        ensures
            dispatch_answers(self@, call.connector@, call.method@, call.payload@, r),
    {
        proof {
            use_type_invariant(self);
        }
        match self.by_id.get(call.connector.as_str()) {
            None => Err(NodeError::UnknownConnector),
            Some(held) => {
                let answer = held.call(call.method.as_str(), call.payload.as_slice());
                let r = reply_from(answer);
                assert(self@[call.connector@].answers(call.method@, call.payload@, answer));
                r
            },
        }
    }
}

impl Default for Connectors {
    fn default() -> (r: Self)
        ensures
            r@ == Map::<Seq<char>, Box<dyn Connector>>::empty(),
    {
        Connectors::new()
    }
}

} // verus!

