//! Counters: the usage of one limit by one set of variable values.

use vstd::prelude::*;
use crate::limit::{LimitDefinition, LimitModel};

verus! {

/// The map that a list of (name, value) pairs spells out. Where a name
/// stands twice, the later pair counts.
pub open spec fn pairs_map(pairs: Seq<(String, String)>) -> Map<Seq<char>, Seq<char>>
    decreases pairs.len(),
{
    if pairs.len() == 0 {
        Map::empty()
    } else {
        pairs_map(pairs.drop_last()).insert(pairs.last().0@, pairs.last().1@)
    }
}

/// Which counter it is: its limit and the values of the limit's variables.
/// Two counters are the same counter exactly when these are equal.
#[verifier::ext_equal]
pub struct CounterIdentity {
    pub limit: LimitModel,
    pub set_variables: Map<Seq<char>, Seq<char>>,
}

/// What a counter says of its usage: the hits that remain in its window and
/// the nanoseconds until the window ends, each where known.
pub struct CounterReport {
    pub remaining: Option<int>,
    pub expires_in: Option<nat>,
}

/// A counter: its identity and, where known, its usage.
#[derive(Clone, Debug, PartialEq, Eq)]
pub struct Counter {
    pub limit: LimitDefinition,
    pub set_variables: Vec<(String, String)>,
    /// The hits that remain in the window.
    pub remaining: Option<i64>,
    /// The nanoseconds until the window ends.
    pub expires_in: Option<u128>,
}

impl Counter {
    /// Which counter this is.
    pub open spec fn identity(&self) -> CounterIdentity {
        CounterIdentity { limit: self.limit@, set_variables: pairs_map(self.set_variables@) }
    }

    /// What it says of its usage.
    pub open spec fn report(&self) -> CounterReport {
        CounterReport {
            remaining: match self.remaining {
                Some(hits) => Some(hits as int),
                None => None,
            },
            expires_in: match self.expires_in {
                Some(nanos) => Some(nanos as nat),
                None => None,
            },
        }
    }

    /// Every variable that has a value is a variable of the limit.
    pub open spec fn normalized(&self) -> bool {
        self.identity().set_variables.dom().subset_of(self.limit@.variables)
    }
}

/// The identities of a list of counters, in its order.
pub open spec fn identities(counters: Seq<Counter>) -> Seq<CounterIdentity> {
    counters.map_values(|counter: Counter| counter.identity())
}

/// The counters that a limiter reports: no two of them are the same counter.
pub struct CounterSet {
    pub(crate) counters: Vec<Counter>,
}

impl View for CounterSet {
    type V = Map<CounterIdentity, CounterReport>;

    closed spec fn view(&self) -> Map<CounterIdentity, CounterReport> {
        counters_map(self.counters@)
    }
}

/// The reports of a list of counters, by identity.
pub open spec fn counters_map(counters: Seq<Counter>) -> Map<CounterIdentity, CounterReport> {
    Map::new(
        |identity: CounterIdentity| identities(counters).contains(identity),
        |identity: CounterIdentity| counters[identities(counters).index_of(identity)].report(),
    )
}

impl CounterSet {
    /// The counters, in no particular order.
    pub closed spec fn listing(&self) -> Seq<Counter> {
        self.counters@
    }

    /// No counter is listed twice, and the listing is what the view maps.
    pub closed spec fn wf(&self) -> bool {
        identities(self.counters@).no_duplicates()
    }

    /// The view is the listing, by identity.
    pub proof fn lemma_view(&self)
        ensures
            self@ == counters_map(self.listing()),
            self.wf() <==> identities(self.listing()).no_duplicates(),
    {
    }

    /// How many counters there are.
    pub fn len(&self) -> (n: usize)
        ensures
            n == self.listing().len(),
    {
        self.counters.len()
    }

    /// Takes the last counter of the listing out of the set.
    pub fn pop(&mut self) -> (counter: Option<Counter>)
        ensures
            old(self).wf() ==> final(self).wf(),
            match counter {
                Some(taken) => {
                    &&& old(self).listing().len() > 0
                    &&& taken == old(self).listing().last()
                    &&& final(self).listing() == old(self).listing().drop_last()
                },
                None => old(self).listing().len() == 0 && final(self).listing() == old(self).listing(),
            },
    {
        let counter = self.counters.pop();
        proof {
            if old(self).wf() && counter is Some {
                let before = identities(old(self).counters@);
                let after = identities(self.counters@);
                assert forall|i: int, j: int| 0 <= i < after.len() && 0 <= j < after.len() && i != j implies after[i]
                    != after[j] by {
                    assert(after[i] == before[i]);
                    assert(after[j] == before[j]);
                }
            }
        }
        counter
    }

    /// The counter at `index` of the listing.
    pub fn get(&self, index: usize) -> (counter: &Counter)
        requires
            index < self.listing().len(),
        ensures
            *counter == self.listing()[index as int],
    {
        &self.counters[index]
    }
}

/// In a list without repeated identities, the counter at `index` is the one
/// that its identity finds.
pub proof fn lemma_counters_map_at(counters: Seq<Counter>, index: int)
    requires
        identities(counters).no_duplicates(),
        0 <= index < counters.len(),
    ensures
        counters_map(counters).contains_key(counters[index].identity()),
        counters_map(counters)[counters[index].identity()] == counters[index].report(),
{
    let ids = identities(counters);
    assert(ids[index] == counters[index].identity());
    assert(ids.contains(ids[index]));
    let found = ids.index_of(ids[index]);
    assert(0 <= found < ids.len() && ids[found] == ids[index]);
    assert(found == index);
}

/// Every counter that a list of counters reports stands somewhere in the
/// list.
pub proof fn lemma_counters_map_from(counters: Seq<Counter>, identity: CounterIdentity) -> (index: int)
    requires
        counters_map(counters).contains_key(identity),
    ensures
        0 <= index < counters.len(),
        counters[index].identity() == identity,
        counters_map(counters)[identity] == counters[index].report(),
{
    let ids = identities(counters);
    assert(ids.contains(identity));
    let found = ids.index_of(identity);
    assert(0 <= found < ids.len() && ids[found] == identity);
    found
}

} // verus!
