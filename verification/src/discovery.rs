//! Discovery: from a deployment to the set of endpoints that serve it.
//!
//! The registry is asked for the active allocations on the deployment, one page
//! of them and no more. Each allocation names an indexer's address; the
//! answer of this stage is the set of those addresses in canonical form, each
//! once, in key order. One address that cannot be read fails the whole stage.

use crate::address::{canonical_url, canonicalize};
use crate::order::{ascending, count_less};
use crate::sorted_map::{
    lemma_ascending_no_duplicates, lemma_insert_splits, lemma_update_splits, SortedMap,
};
use vstd::prelude::*;
use vstd::string::*;

verus! {

/// The query text up to the deployment's identifier.
pub const DISCOVERY_QUERY_OPENING: &'static str =
    "{ allocations(first: 1000 where: { status: Active subgraphDeployment_: { ipfsHash: \"";

/// The query text after the deployment's identifier.
pub const DISCOVERY_QUERY_CLOSING: &'static str = "\" } }) { indexer { url } } }";

/// The query that asks the registry for the indexers with an active allocation
/// on `deployment`.
pub open spec fn discovery_query_text(deployment: Seq<char>) -> Seq<char> {
    DISCOVERY_QUERY_OPENING@ + deployment + DISCOVERY_QUERY_CLOSING@
}

/// Writes the query that asks the registry for the indexers with an active
/// allocation on `deployment`, with the address of each.
pub fn discovery_query(deployment: &str) -> (query: String)
    ensures
        query@ == discovery_query_text(deployment@),
{
    let mut query = String::from_str(DISCOVERY_QUERY_OPENING);
    query.append(deployment);
    query.append(DISCOVERY_QUERY_CLOSING);
    query
}

/// The texts of a sequence of strings.
pub open spec fn texts(list: Seq<String>) -> Seq<Seq<char>> {
    list.map_values(|s: String| s@)
}

/// The canonical form of `address`; the address itself where it has none.
pub open spec fn canonical_form(address: Seq<char>) -> Seq<char> {
    match canonical_url(address) {
        Ok(canonical) => canonical,
        Err(_) => address,
    }
}

/// Every address can be read as an absolute URL.
pub open spec fn all_readable(addresses: Seq<Seq<char>>) -> bool {
    forall|i: int| 0 <= i < addresses.len() ==> (#[trigger] canonical_url(addresses[i])) is Ok
}

/// The canonical forms of `addresses`, one for one.
pub open spec fn canonical_forms(addresses: Seq<Seq<char>>) -> Seq<Seq<char>> {
    addresses.map_values(|a: Seq<char>| canonical_form(a))
}

/// The endpoints that `addresses` name.
pub open spec fn named_endpoints(addresses: Seq<Seq<char>>) -> Set<Seq<char>> {
    canonical_forms(addresses).to_set()
}

/// A set of endpoints, held in key order.
#[derive(Debug)]
pub struct EndpointSet {
    members: SortedMap<()>,
}

impl View for EndpointSet {
    type V = Set<Seq<char>>;

    open spec fn view(&self) -> Set<Seq<char>> {
        self.keys().to_set()
    }
}

impl EndpointSet {
    /// The endpoints in key order.
    pub closed spec fn keys(&self) -> Seq<Seq<char>> {
        self.members.keys()
    }

    /// The endpoints are in ascending order, so each occurs once.
    #[verifier::type_invariant]
    pub open spec fn wf(&self) -> bool {
        ascending(self.keys())
    }

    /// The empty set.
    pub fn new() -> (set: Self)
        ensures
            set.keys() == Seq::<Seq<char>>::empty(),
    {
        let members: SortedMap<()> = SortedMap::new();
        assert(members.keys() =~= Seq::<Seq<char>>::empty());
        EndpointSet { members }
    }

    /// The number of endpoints.
    pub fn len(&self) -> (n: usize)
        ensures
            n == self.keys().len(),
            n == self@.len(),
    {
        proof {
            use_type_invariant(self);
            lemma_ascending_no_duplicates(self.keys());
            self.keys().unique_seq_to_set();
        }
        self.members.len()
    }

    /// The endpoint at position `i` of the key order.
    pub fn get(&self, i: usize) -> (endpoint: &String)
        requires
            i < self.keys().len(),
        ensures
            endpoint@ == self.keys()[i as int],
    {
        self.members.key_at(i)
    }

    /// Whether `endpoint` is in the set.
    pub fn contains(&self, endpoint: &str) -> (held: bool)
        ensures
            held == self@.contains(endpoint@),
    {
        self.members.contains_key(endpoint)
    }

    /// Adds `endpoint` and says whether it was new. An endpoint that is there
    /// already leaves the set as it was.
    pub fn insert(&mut self, endpoint: String) -> (added: bool)
        ensures
            final(self)@ == old(self)@.insert(endpoint@),
            added == !old(self)@.contains(endpoint@),
            !added ==> final(self).keys() == old(self).keys(),
            added ==> final(self).keys() == old(self).keys().insert(
                count_less(old(self).keys(), endpoint@) as int,
                endpoint@,
            ),
    {
        let ghost before = self.members@;
        let ghost name = endpoint@;
        let mut members: SortedMap<()> = SortedMap::new();
        core::mem::swap(&mut self.members, &mut members);
        let previous = members.insert(endpoint, ());
        proof {
            use_type_invariant(&members);
            let r = count_less(old(self).keys(), name) as int;
            if before.contains_key(name) {
                lemma_update_splits(old(self).members.pairs(), r, (name, ()));
                assert(old(self).keys().update(r, name) =~= old(self).keys());
            } else {
                lemma_insert_splits(old(self).members.pairs(), r, (name, ()));
            }
            assert(members@.dom() =~= before.dom().insert(name));
            assert forall|k: Seq<char>| members.keys().to_set().contains(k) <==> (old(
                self,
            ).keys().to_set().contains(k) || k == name) by {
                assert(members@.contains_key(k) <==> members.keys().contains(k));
                assert(before.contains_key(k) <==> old(self).keys().contains(k));
            }
            assert(members.keys().to_set() =~= old(self).keys().to_set().insert(name));
        }
        self.members = members;
        previous.is_none()
    }
}

/// Why discovery failed: one of the addresses that the registry gave is no
/// absolute URL.
#[derive(Debug)]
pub struct MalformedAddress {
    /// The position of the first such address in the registry's answer.
    pub position: usize,
    /// What the URL parser said of it.
    pub reason: String,
}

/// The set of the endpoints that the registry's answer names: the canonical
/// form of each address, each once. The first address that cannot be read as
/// an absolute URL fails the whole step.
pub fn discover(addresses: &Vec<String>) -> (found: Result<EndpointSet, MalformedAddress>)
    ensures
        match found {
            Ok(endpoints) => {
                &&& all_readable(texts(addresses@))
                &&& endpoints@ == named_endpoints(texts(addresses@))
            },
            Err(failure) => {
                &&& failure.position < addresses.len()
                &&& canonical_url(addresses[failure.position as int]@) == Err::<
                    Seq<char>,
                    Seq<char>,
                >(failure.reason@)
                &&& all_readable(texts(addresses@).take(failure.position as int))
            },
        },
{
    let ghost raw = texts(addresses@);
    let ghost forms = canonical_forms(raw);
    let mut endpoints = EndpointSet::new();
    let mut i: usize = 0;
    assert(endpoints@ =~= forms.take(0).to_set());
    while i < addresses.len()
        invariant
            raw == texts(addresses@),
            forms == canonical_forms(raw),
            0 <= i <= addresses.len(),
            all_readable(raw.take(i as int)),
            endpoints@ == forms.take(i as int).to_set(),
        decreases addresses.len() - i,
    {
        match canonicalize(addresses[i].as_str()) {
            Ok(canonical) => {
                let ghost name = canonical@;
                endpoints.insert(canonical);
                proof {
                    assert(raw[i as int] == addresses[i as int]@);
                    assert(forms[i as int] == name);
                    let next = forms.take(i + 1);
                    assert(next =~= forms.take(i as int).push(name));
                    assert forall|k: Seq<char>| next.contains(k) <==> (forms.take(
                        i as int,
                    ).contains(k) || k == name) by {
                        if next.contains(k) {
                            let j = choose|j: int| 0 <= j < next.len() && next[j] == k;
                            if j < i {
                                assert(forms.take(i as int)[j] == k);
                            }
                        }
                        if forms.take(i as int).contains(k) {
                            let j = choose|j: int|
                                0 <= j < forms.take(i as int).len() && forms.take(i as int)[j] == k;
                            assert(next[j] == k);
                        }
                        assert(next[i as int] == name);
                    }
                    assert(next.to_set() =~= forms.take(i as int).to_set().insert(name));
                    assert forall|j: int| 0 <= j < raw.take(i + 1).len() implies (
                    #[trigger] canonical_url(raw.take(i + 1)[j])) is Ok by {
                        if j < i {
                            assert(raw.take(i + 1)[j] == raw.take(i as int)[j]);
                        }
                    }
                }
            },
            Err(reason) => {
                assert(raw[i as int] == addresses[i as int]@);
                return Err(MalformedAddress { position: i, reason });
            },
        }
        i = i + 1;
    }
    proof {
        assert(raw.take(i as int) =~= raw);
        assert(forms.take(i as int) =~= forms);
    }
    Ok(endpoints)
}

/// Relationships are counted by the endpoint they name: however many
/// addresses the registry gives, the set holds no more endpoints than
/// addresses, and fewer wherever two addresses name the same endpoint.
pub proof fn lemma_same_endpoint_counts_once(addresses: Seq<Seq<char>>, i: int, j: int)
    requires
        0 <= i < j < addresses.len(),
        canonical_form(addresses[i]) == canonical_form(addresses[j]),
    ensures
        named_endpoints(addresses).finite(),
        named_endpoints(addresses).len() < addresses.len(),
{
    let forms = canonical_forms(addresses);
    let fewer = forms.remove(j);
    assert(forms[i] == forms[j]);
    assert forall|k: Seq<char>| forms.contains(k) <==> fewer.contains(k) by {
        if forms.contains(k) {
            let n = choose|n: int| 0 <= n < forms.len() && forms[n] == k;
            if n < j {
                assert(fewer[n] == k);
            } else if n > j {
                assert(fewer[n - 1] == k);
            } else {
                assert(fewer[i] == k);
            }
        }
        if fewer.contains(k) {
            let n = choose|n: int| 0 <= n < fewer.len() && fewer[n] == k;
            if n < j {
                assert(forms[n] == k);
            } else {
                assert(forms[n + 1] == k);
            }
        }
    }
    assert(forms.to_set() =~= fewer.to_set());
    fewer.lemma_cardinality_of_set();
    vstd::seq_lib::seq_to_set_is_finite(fewer);
}

} // verus!
