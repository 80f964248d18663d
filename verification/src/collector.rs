//! Collection: one cost model record, or none, for every discovered endpoint.
//!
//! The collector walks the endpoints in key order. For each it says where to
//! ask, and takes back what came of asking. An endpoint that has declared no
//! cost model, and one that could not be asked or did not answer as it should,
//! both end up without a record; the second also yields a line for the
//! operator. No outcome at one endpoint touches the entry of another, and when
//! the walk is over every endpoint has its entry.

use crate::address::{resolve, resolved_url};
use crate::discovery::EndpointSet;
use crate::order::ascending;
use crate::record::CostModelRecord;
use crate::sorted_map::{
    assoc, keys_of, lemma_ascending_no_duplicates, lemma_insert_splits, lemma_next_key_goes_last,
    SortedMap,
};
use vstd::prelude::*;
use vstd::string::*;

verus! {

/// The cost models of a deployment: for every endpoint its record, or none.
pub type CollectedCostModels = SortedMap<Option<CostModelRecord>>;

/// The path, relative to an endpoint's address, at which it reports its cost model.
pub const COST_PATH: &'static str = "cost";

/// The query text up to the deployment's identifier.
pub const COST_MODEL_QUERY_OPENING: &'static str = "{ costModel(deployment: \"";

/// The query text after the deployment's identifier.
pub const COST_MODEL_QUERY_CLOSING: &'static str = "\") { program variables } }";

/// How a line about a failed fetch begins.
pub const DIAGNOSTIC_OPENING: &'static str = "failed to fetch cost model from ";

/// What stands between the endpoint and the cause in such a line.
pub const DIAGNOSTIC_JOINT: &'static str = ": ";

/// The query that asks an indexer for the cost model it declares for `deployment`.
pub open spec fn cost_model_query_text(deployment: Seq<char>) -> Seq<char> {
    COST_MODEL_QUERY_OPENING@ + deployment + COST_MODEL_QUERY_CLOSING@
}

/// The line that tells the operator that `endpoint` gave no cost model, and why.
pub open spec fn diagnostic_text(endpoint: Seq<char>, cause: Seq<char>) -> Seq<char> {
    DIAGNOSTIC_OPENING@ + endpoint + DIAGNOSTIC_JOINT@ + cause
}

/// Writes the query that asks an indexer for the program and the variables of
/// the cost model it declares for `deployment`.
pub fn cost_model_query(deployment: &str) -> (query: String)
    ensures
        query@ == cost_model_query_text(deployment@),
{
    let mut query = String::from_str(COST_MODEL_QUERY_OPENING);
    query.append(deployment);
    query.append(COST_MODEL_QUERY_CLOSING);
    query
}

/// Writes the line that tells the operator that `endpoint` gave no cost model, and why.
pub fn diagnostic(endpoint: &str, cause: &str) -> (line: String)
    ensures
        line@ == diagnostic_text(endpoint@, cause@),
{
    let mut line = String::from_str(DIAGNOSTIC_OPENING);
    line.append(endpoint);
    line.append(DIAGNOSTIC_JOINT);
    line.append(cause);
    line
}

/// What came of asking one endpoint for its cost model.
#[derive(Debug)]
pub enum FetchOutcome {
    /// The endpoint answered with the cost model it declares.
    Declared(CostModelRecord),
    /// The endpoint answered that it declares none.
    Undeclared,
    /// The endpoint could not be reached, took too long, or gave an answer
    /// that could not be read; the text says what went wrong.
    Failed(String),
}

impl FetchOutcome {
    /// The record that the endpoint's entry gets.
    pub open spec fn settled(self) -> Option<CostModelRecord> {
        match self {
            FetchOutcome::Declared(record) => Some(record),
            FetchOutcome::Undeclared => None,
            FetchOutcome::Failed(_) => None,
        }
    }

    /// What went wrong, where something did.
    pub open spec fn cause(self) -> Option<Seq<char>> {
        match self {
            FetchOutcome::Declared(_) => None,
            FetchOutcome::Undeclared => None,
            FetchOutcome::Failed(cause) => Some(cause@),
        }
    }
}

/// What the collector asks of its caller next.
#[derive(Debug)]
pub enum Advance {
    /// Send `query` to `target`, the cost path of the pending endpoint, and
    /// hand the outcome to `record`.
    Fetch { target: String, query: String },
    /// The pending endpoint has no cost path and was given no record;
    /// `diagnostic` is the line for the operator. Advance again.
    Skipped { diagnostic: String },
    /// Every endpoint has its entry.
    Finished,
}

/// The state of one collection run: the endpoints to ask, what to ask them,
/// and the entries of those that are done.
pub struct Collector {
    endpoints: EndpointSet,
    query: String,
    collected: CollectedCostModels,
}

impl Collector {
    /// The endpoints of this run, in key order.
    pub closed spec fn endpoints(&self) -> Seq<Seq<char>> {
        self.endpoints.keys()
    }

    /// The query that every endpoint is asked.
    pub closed spec fn query(&self) -> Seq<char> {
        self.query@
    }

    /// The entries made so far, in key order.
    pub closed spec fn collected(&self) -> Seq<(Seq<char>, Option<CostModelRecord>)> {
        self.collected.pairs()
    }

    /// The entries made so far are those of the first endpoints, one each.
    #[verifier::type_invariant]
    pub open spec fn wf(&self) -> bool {
        &&& ascending(self.endpoints())
        &&& self.collected().len() <= self.endpoints().len()
        &&& keys_of(self.collected()) == self.endpoints().take(self.collected().len() as int)
    }

    /// Every endpoint has its entry.
    pub open spec fn finished(&self) -> bool {
        self.collected().len() == self.endpoints().len()
    }

    /// The endpoint whose entry is made next.
    pub open spec fn pending(&self) -> Seq<char>
        recommends
            !self.finished(),
    {
        self.endpoints()[self.collected().len() as int]
    }

    /// A run that asks each of `endpoints` for the cost model it declares for
    /// `deployment`, with no entry made yet.
    pub fn new(endpoints: EndpointSet, deployment: &str) -> (collector: Self)
        ensures
            collector.endpoints() == endpoints.keys(),
            collector.query() == cost_model_query_text(deployment@),
            collector.collected() == Seq::<(Seq<char>, Option<CostModelRecord>)>::empty(),
    {
        proof {
            use_type_invariant(&endpoints);
        }
        let collected: CollectedCostModels = SortedMap::new();
        assert(keys_of(collected.pairs()) =~= endpoints.keys().take(0));
        Collector { endpoints, query: cost_model_query(deployment), collected }
    }

    /// Whether every endpoint has its entry.
    pub fn is_finished(&self) -> (done: bool)
        ensures
            done == self.finished(),
    {
        proof {
            use_type_invariant(self);
        }
        self.collected.len() == self.endpoints.len()
    }

    /// Makes the entry of the pending endpoint with `entry`.
    fn settle(&mut self, entry: Option<CostModelRecord>)
        requires
            !old(self).finished(),
        ensures
            final(self).endpoints() == old(self).endpoints(),
            final(self).query() == old(self).query(),
            final(self).collected() == old(self).collected().push((old(self).pending(), entry)),
    {
        proof {
            use_type_invariant(&*self);
            use_type_invariant(&self.collected);
        }
        let n: usize = self.collected.len();
        let endpoint = self.endpoints.get(n).clone();
        let ghost before = self.collected.pairs();
        let ghost all = self.endpoints();
        proof {
            lemma_next_key_goes_last(all, n as int);
            lemma_ascending_no_duplicates(keys_of(before));
            assert(!assoc(keys_of(before), self.collected.values()).contains_key(endpoint@));
            lemma_insert_splits(before, n as int, (endpoint@, entry));
            assert(before.insert(n as int, (endpoint@, entry)) =~= before.push((endpoint@, entry)));
            assert(all.take(n as int).insert(n as int, endpoint@) =~= all.take(n + 1));
        }
        let mut collected: CollectedCostModels = SortedMap::new();
        assert(keys_of(collected.pairs()) =~= all.take(0));
        core::mem::swap(&mut self.collected, &mut collected);
        collected.insert(endpoint, entry);
        self.collected = collected;
    }

    /// Makes the entry of the pending endpoint from what came of asking it:
    /// its record where it declared one, no record otherwise. A failure also
    /// gives the line for the operator. The entries made before stay as they are.
    pub fn record(&mut self, outcome: FetchOutcome) -> (diagnostic: Option<String>)
        requires
            !old(self).finished(),
        ensures
            final(self).endpoints() == old(self).endpoints(),
            final(self).query() == old(self).query(),
            final(self).collected() == old(self).collected().push(
                (old(self).pending(), outcome.settled()),
            ),
            match outcome.cause() {
                Some(cause) => diagnostic matches Some(line) && line@ == diagnostic_text(
                    old(self).pending(),
                    cause,
                ),
                None => diagnostic is None,
            },
    {
        proof {
            use_type_invariant(&*self);
        }
        match outcome {
            FetchOutcome::Declared(record) => {
                self.settle(Some(record));
                None
            },
            FetchOutcome::Undeclared => {
                self.settle(None);
                None
            },
            FetchOutcome::Failed(cause) => {
                let n: usize = self.collected.len();
                let line = diagnostic(self.endpoints.get(n).as_str(), cause.as_str());
                self.settle(None);
                Some(line)
            },
        }
    }

    /// Says what to do next. Where the pending endpoint has a cost path, that
    /// is where to ask, and nothing changes until the outcome is recorded.
    /// Where it has none, the endpoint gets its entry at once, without a
    /// record, and the line about it is handed out.
    pub fn advance(&mut self) -> (next: Advance)
        ensures
            final(self).endpoints() == old(self).endpoints(),
            final(self).query() == old(self).query(),
            old(self).finished() ==> next is Finished && final(self).collected() == old(
                self,
            ).collected(),
            !old(self).finished() ==> match resolved_url(old(self).pending(), COST_PATH@) {
                Ok(path) => {
                    &&& next matches Advance::Fetch { target, query }
                    &&& target@ == path
                    &&& query@ == old(self).query()
                    &&& final(self).collected() == old(self).collected()
                },
                Err(reason) => {
                    &&& next matches Advance::Skipped { diagnostic }
                    &&& diagnostic@ == diagnostic_text(old(self).pending(), reason)
                    &&& final(self).collected() == old(self).collected().push(
                        (old(self).pending(), None),
                    )
                },
            },
    {
        if self.is_finished() {
            return Advance::Finished;
        }
        proof {
            use_type_invariant(&*self);
        }
        let n: usize = self.collected.len();
        let endpoint = self.endpoints.get(n);
        match resolve(endpoint.as_str(), COST_PATH) {
            Ok(target) => Advance::Fetch { target, query: self.query.clone() },
            Err(reason) => {
                let line = diagnostic(endpoint.as_str(), reason.as_str());
                self.settle(None);
                Advance::Skipped { diagnostic: line }
            },
        }
    }

    /// The cost models of the run, once every endpoint has its entry: one
    /// entry for each endpoint and no other, whatever came of asking.
    pub fn finish(self) -> (collected: CollectedCostModels)
        requires
            self.finished(),
        ensures
            collected.pairs() == self.collected(),
            collected.keys() == self.endpoints(),
            collected.pairs().len() == self.endpoints().len(),
    {
        proof {
            use_type_invariant(&self);
            assert(self.endpoints().take(self.endpoints().len() as int) =~= self.endpoints());
        }
        self.collected
    }
}

} // verus!
