//! Discovery fan-out — the subscribers to the live topology.
//!
//! Consumers subscribe with a channel; every registry change is delivered to
//! all of them. A subscriber whose channel has gone away is dropped
//! silently: a console tab closing is ordinary, not an error the hub
//! reports. Sending is the caller's transport work; which channels stay is
//! decided here.
use vstd::prelude::*;

verus! {

/// The channels that took a send, in order.
pub open spec fn delivered<C>(outcomes: Seq<(C, bool)>) -> Seq<C>
    decreases outcomes.len(),
{
    if outcomes.len() == 0 {
        Seq::empty()
    } else if outcomes.last().1 {
        delivered(outcomes.drop_last()).push(outcomes.last().0)
    } else {
        delivered(outcomes.drop_last())
    }
}

/// Whether a send went through.
pub open spec fn took_send<C>() -> spec_fn((C, bool)) -> bool {
    |o: (C, bool)| o.1
}

/// The channel an outcome is about.
pub open spec fn channel_of<C>() -> spec_fn((C, bool)) -> C {
    |o: (C, bool)| o.0
}

/// The channels kept are exactly those whose send went through, in their
/// order; a channel whose send failed is never kept, and the count is the
/// number of sends that went through.
pub proof fn lemma_delivered_keeps_exactly_the_live<C>(outcomes: Seq<(C, bool)>)
    ensures
        delivered(outcomes) == outcomes.filter(took_send::<C>()).map_values(channel_of::<C>()),
        delivered(outcomes).len() == outcomes.filter(took_send::<C>()).len(),
    decreases outcomes.len(),
{
    reveal(Seq::filter);
    let live = took_send::<C>();
    let ch = channel_of::<C>();
    if outcomes.len() == 0 {
        assert(outcomes.filter(live) =~= Seq::<(C, bool)>::empty());
        assert(outcomes.filter(live).map_values(ch) =~= Seq::<C>::empty());
    } else {
        lemma_delivered_keeps_exactly_the_live(outcomes.drop_last());
        let rest = outcomes.drop_last().filter(live);
        if outcomes.last().1 {
            assert(outcomes.filter(live) == rest.push(outcomes.last()));
            assert(rest.push(outcomes.last()).map_values(ch) =~= rest.map_values(ch).push(
                outcomes.last().0,
            ));
        } else {
            assert(outcomes.filter(live) == rest);
        }
    }
}

/// The set of live topology subscribers, each a channel of type `C`.
pub struct Subscribers<C> {
    channels: Vec<C>,
}

impl<C> View for Subscribers<C> {
    type V = Seq<C>;

    closed spec fn view(&self) -> Seq<C> {
        self.channels@
    }
}

impl<C> Subscribers<C> {
    /// No subscribers yet.
    pub fn new() -> (r: Self)
        ensures
            r@ == Seq::<C>::empty(),
    {
        Subscribers { channels: Vec::new() }
    }

    /// Add a subscriber's channel to the fan-out.
    pub fn add(&mut self, events: C)
        ensures
            final(self)@ == old(self)@.push(events),
    {
        self.channels.push(events);
    }

    /// How many subscribers are currently attached.
    pub fn len(&self) -> (r: usize)
        ensures
            r == self@.len(),
    {
        self.channels.len()
    }

    /// Whether anyone is listening.
    pub fn is_empty(&self) -> (r: bool)
        ensures
            r == (self@.len() == 0),
    {
        self.channels.len() == 0
    }

    /// Take every channel out for a send, leaving none attached.
    pub fn take_all(&mut self) -> (r: Vec<C>)
        ensures
            r@ == old(self)@,
            final(self)@ == Seq::<C>::empty(),
    {
        let mut taken = Vec::new();
        std::mem::swap(&mut taken, &mut self.channels);
        taken
    }

    /// Put back the channels that took the send, in their order, dropping
    /// the ones that have gone away; returns how many took it.
    pub fn keep_delivered(&mut self, outcomes: Vec<(C, bool)>) -> (r: usize)
        ensures
            final(self)@ == old(self)@ + delivered(outcomes@),
            r == delivered(outcomes@).len(),
            final(self)@ == old(self)@ + outcomes@.filter(took_send::<C>()).map_values(
                channel_of::<C>(),
            ),
            r == outcomes@.filter(took_send::<C>()).len(),
    {
        proof {
            lemma_delivered_keeps_exactly_the_live(outcomes@);
        }
        let ghost all = outcomes@;
        let total = outcomes.len();
        assert(all.len() == total);
        let ghost start = self@;
        let mut rest = outcomes;
        let mut count: usize = 0;
        let mut k: usize = 0;
        assert(all.take(0) =~= Seq::<(C, bool)>::empty());
        while rest.len() > 0
            invariant
                k <= all.len(),
                all.len() <= usize::MAX,
                rest@ == all.skip(k as int),
                self@ == start + delivered(all.take(k as int)),
                count == delivered(all.take(k as int)).len(),
                count <= k,
            decreases rest@.len(),
        {
            let (channel, ok) = rest.remove(0);
            proof {
                assert(all.take(k + 1).drop_last() =~= all.take(k as int));
                assert(all.take(k + 1).last() == all[k as int]);
                assert(all.skip(k + 1) =~= all.skip(k as int).drop_first());
            }
            if ok {
                self.channels.push(channel);
                count = count + 1;
            }
            k = k + 1;
            assert(self@ =~= start + delivered(all.take(k as int)));
        }
        assert(all.take(k as int) =~= all);
        count
    }
}

impl<C> Default for Subscribers<C> {
    fn default() -> (r: Self)
        ensures
            r@ == Seq::<C>::empty(),
    {
        Subscribers::new()
    }
}

} // verus!
