//! Evaluation: from the collected cost models to a fee for every endpoint.
//!
//! The evaluator walks the collected entries in key order. An endpoint without
//! a record charges nothing, and gets the fee zero at once. For an endpoint
//! with a record the evaluator hands out the program and its bindings, to be
//! compiled and priced against the query, and takes the outcome back: an amount
//! that is finite and not negative becomes the fee, and a program that does not
//! compile, does not evaluate, or yields no such amount leaves the fee
//! undetermined.
//! One endpoint is priced at a time, and whatever happens at one, every
//! endpoint ends up with its entry.

use crate::collector::CollectedCostModels;
use crate::order::ascending;
use crate::record::CostModelRecord;
use crate::sorted_map::{
    assoc, keys_of, lemma_ascending_no_duplicates, lemma_next_key_goes_last, SortedMap,
};
use vstd::prelude::*;

verus! {

/// The bit pattern of positive infinity. The patterns below it are the finite
/// doubles that are not negative; those from it on are infinite, not a
/// number, or carry the sign.
pub const INFINITY_BITS: u64 = 0x7FF0_0000_0000_0000;

/// A fee: an amount carried as the bit pattern of an IEEE 754 double
/// precision number. Nothing here computes with fees, so the bits are all
/// there is to one.
#[derive(Clone, Copy, Debug, PartialEq, Eq, Structural)]
pub struct Fee {
    pub bits: u64,
}

impl Fee {
    /// The fee zero: the double `0.0`, whose bits are all clear.
    pub open spec fn free() -> Fee {
        Fee { bits: 0 }
    }

    /// The bits are those of a finite double that is not negative: an amount
    /// that can be charged.
    pub open spec fn is_amount(self) -> bool {
        self.bits < INFINITY_BITS
    }

    /// Whether the bits are those of a finite double that is not negative.
    pub fn holds_amount(&self) -> (held: bool)
        ensures
            held == self.is_amount(),
    {
        self.bits < INFINITY_BITS
    }

    /// The fee zero.
    pub fn zero() -> (fee: Fee)
        ensures
            fee == Fee::free(),
    {
        Fee { bits: 0 }
    }

    /// The fee whose double has the given bits.
    pub fn from_bits(bits: u64) -> (fee: Fee)
        ensures
            fee.bits == bits,
    {
        Fee { bits }
    }

    /// The bits of the fee's double.
    pub fn to_bits(self) -> (bits: u64)
        ensures
            bits == self.bits,
    {
        self.bits
    }
}

/// What came of pricing the query with one endpoint's program.
#[derive(Clone, Copy, Debug, PartialEq, Eq, Structural)]
pub enum Evaluation {
    /// The program, with its bindings, did not compile.
    CompileFailed,
    /// The program compiled, and evaluating it against the query failed.
    EvaluationFailed,
    /// The program gave an amount that no double stands for.
    Unrepresentable,
    /// The program gave the amount that this double stands for.
    Amount(Fee),
}

/// The fees of a deployment: for every endpoint its fee, or none where the fee
/// could not be determined.
pub type FeeResult = SortedMap<Option<Fee>>;

/// The fee of an endpoint with the given entry, where pricing its program, if
/// it was priced, came out as `evaluation`. No record means no charge: the fee
/// is zero. With a record the fee is the amount that came out, provided it is
/// finite and not negative; in every other case there is no fee.
pub open spec fn quote(entry: Option<CostModelRecord>, evaluation: Option<Evaluation>) -> Option<
    Fee,
> {
    match entry {
        None => Some(Fee::free()),
        Some(_) => match evaluation {
            Some(Evaluation::Amount(fee)) => if fee.is_amount() {
                Some(fee)
            } else {
                None
            },
            _ => None,
        },
    }
}

/// The fees that go with `models` where the program of the entry at each
/// position came out as `evaluations` has it at that position: the same
/// endpoints in the same order, each with its quote.
pub open spec fn fee_table(
    models: Seq<(Seq<char>, Option<CostModelRecord>)>,
    evaluations: Seq<Option<Evaluation>>,
) -> Seq<(Seq<char>, Option<Fee>)>
    recommends
        evaluations.len() == models.len(),
{
    Seq::new(models.len(), |i: int| (models[i].0, quote(models[i].1, evaluations[i])))
}

/// The fees name the endpoints of the cost models they were made from, each
/// once and in the same order.
pub proof fn lemma_fees_keep_endpoints(
    models: Seq<(Seq<char>, Option<CostModelRecord>)>,
    evaluations: Seq<Option<Evaluation>>,
)
    ensures
        fee_table(models, evaluations).len() == models.len(),
        keys_of(fee_table(models, evaluations)) == keys_of(models),
{
    assert(keys_of(fee_table(models, evaluations)) =~= keys_of(models));
}

/// An endpoint without a cost model record has the fee zero, whatever came of
/// any pricing.
pub proof fn lemma_no_record_is_free(
    models: Seq<(Seq<char>, Option<CostModelRecord>)>,
    evaluations: Seq<Option<Evaluation>>,
    i: int,
)
    requires
        0 <= i < models.len(),
        models[i].1 is None,
    ensures
        fee_table(models, evaluations)[i] == (models[i].0, Some(Fee::free())),
{
}

/// Every fee in the table is a finite amount that is not negative.
pub proof fn lemma_fees_are_amounts(
    models: Seq<(Seq<char>, Option<CostModelRecord>)>,
    evaluations: Seq<Option<Evaluation>>,
    i: int,
)
    requires
        0 <= i < models.len(),
    ensures
        fee_table(models, evaluations)[i].1 matches Some(fee) ==> fee.is_amount(),
{
}

/// An endpoint whose program did not compile, did not evaluate or gave no
/// amount that a double stands for has its entry like every other endpoint,
/// and the entry holds no fee.
pub proof fn lemma_failure_leaves_no_fee(
    models: Seq<(Seq<char>, Option<CostModelRecord>)>,
    evaluations: Seq<Option<Evaluation>>,
    i: int,
)
    requires
        0 <= i < models.len(),
        models[i].1 is Some,
        !(evaluations[i] matches Some(Evaluation::Amount(_))),
    ensures
        fee_table(models, evaluations).len() == models.len(),
        fee_table(models, evaluations)[i] == (models[i].0, None::<Fee>),
{
}

/// What comes of pricing at one endpoint changes no entry but that endpoint's.
pub proof fn lemma_pricing_is_isolated(
    models: Seq<(Seq<char>, Option<CostModelRecord>)>,
    evaluations: Seq<Option<Evaluation>>,
    i: int,
    other: Option<Evaluation>,
    j: int,
)
    requires
        evaluations.len() == models.len(),
        0 <= i < models.len(),
        0 <= j < models.len(),
        j != i,
    ensures
        fee_table(models, evaluations.update(i, other))[j] == fee_table(models, evaluations)[j],
{
}

/// Two runs over the same cost models in which pricing came out the same for
/// every endpoint that declared a program give the same fees, entry for entry.
pub proof fn lemma_fees_determined(
    models: Seq<(Seq<char>, Option<CostModelRecord>)>,
    first: Seq<Option<Evaluation>>,
    second: Seq<Option<Evaluation>>,
)
    requires
        forall|i: int| 0 <= i < models.len() && models[i].1 is Some ==> first[i] == second[i],
    ensures
        fee_table(models, first) == fee_table(models, second),
{
    assert(fee_table(models, first) =~= fee_table(models, second));
}

/// Computes the fee of an endpoint from its entry and from what came of
/// pricing its program.
pub fn fee_for(entry: &Option<CostModelRecord>, evaluation: Option<Evaluation>) -> (fee: Option<
    Fee,
>)
    ensures
        fee == quote(*entry, evaluation),
{
    match entry {
        None => Some(Fee::zero()),
        Some(_) => match evaluation {
            Some(Evaluation::Amount(fee)) => if fee.holds_amount() {
                Some(fee)
            } else {
                None
            },
            _ => None,
        },
    }
}

/// What the evaluator asks of its caller next.
#[derive(Debug)]
pub enum EvalStep {
    /// Compile `program` with `bindings`, price the query with it, and hand
    /// the outcome to `record`.
    Evaluate { program: String, bindings: String },
    /// The pending endpoint declared no program and got the fee zero.
    /// Advance again.
    Settled,
    /// Every endpoint has its fee entry.
    Finished,
}

/// The state of one evaluation run: the collected cost models, and the fee
/// entries of the endpoints that are done.
pub struct Evaluator {
    models: CollectedCostModels,
    fees: FeeResult,
    log: Ghost<Seq<Option<Evaluation>>>,
}

impl Evaluator {
    /// The collected entries of this run, in key order.
    pub closed spec fn models(&self) -> Seq<(Seq<char>, Option<CostModelRecord>)> {
        self.models.pairs()
    }

    /// The fee entries made so far, in key order.
    pub closed spec fn fees(&self) -> Seq<(Seq<char>, Option<Fee>)> {
        self.fees.pairs()
    }

    /// For each fee entry made so far, what came of pricing the endpoint's
    /// program; nothing where the program was not priced.
    pub closed spec fn evaluations(&self) -> Seq<Option<Evaluation>> {
        self.log@.take(self.fees.pairs().len() as int)
    }

    /// The fee entries made so far are those of the first endpoints, each the
    /// quote of its entry.
    #[verifier::type_invariant]
    pub open spec fn wf(&self) -> bool {
        &&& ascending(keys_of(self.models()))
        &&& self.fees().len() <= self.models().len()
        &&& self.evaluations().len() == self.fees().len()
        &&& self.fees() == fee_table(
            self.models().take(self.fees().len() as int),
            self.evaluations(),
        )
    }

    /// Every endpoint has its fee entry.
    pub open spec fn finished(&self) -> bool {
        self.fees().len() == self.models().len()
    }

    /// The endpoint whose fee entry is made next.
    pub open spec fn pending(&self) -> Seq<char>
        recommends
            !self.finished(),
    {
        self.models()[self.fees().len() as int].0
    }

    /// The collected entry of that endpoint.
    pub open spec fn pending_entry(&self) -> Option<CostModelRecord>
        recommends
            !self.finished(),
    {
        self.models()[self.fees().len() as int].1
    }

    /// Two finished runs over the same cost models, in which pricing came out
    /// the same for every endpoint that declared a program, hold the same
    /// fees, entry for entry.
    pub proof fn lemma_runs_agree(self, other: Self)
        requires
            self.wf(),
            other.wf(),
            self.finished(),
            other.finished(),
            self.models() == other.models(),
            forall|i: int|
                0 <= i < self.models().len() && self.models()[i].1 is Some
                    ==> self.evaluations()[i] == other.evaluations()[i],
        ensures
            self.fees() == other.fees(),
    {
        let models = self.models();
        assert(models.take(models.len() as int) =~= models);
        lemma_fees_determined(models, self.evaluations(), other.evaluations());
    }

    /// A run over `models` with no fee entry made yet.
    pub fn new(models: CollectedCostModels) -> (evaluator: Self)
        ensures
            evaluator.models() == models.pairs(),
            evaluator.fees() == Seq::<(Seq<char>, Option<Fee>)>::empty(),
            evaluator.evaluations() == Seq::<Option<Evaluation>>::empty(),
    {
        proof {
            use_type_invariant(&models);
        }
        let fees: FeeResult = SortedMap::new();
        let log = Ghost(Seq::<Option<Evaluation>>::empty());
        assert(fees.pairs() =~= fee_table(models.pairs().take(0), log@.take(0)));
        assert(log@.take(0) =~= Seq::<Option<Evaluation>>::empty());
        Evaluator { models, fees, log }
    }

    /// Whether every endpoint has its fee entry.
    pub fn is_finished(&self) -> (done: bool)
        ensures
            done == self.finished(),
    {
        proof {
            use_type_invariant(self);
        }
        self.fees.len() == self.models.len()
    }

    /// Makes the fee entry of the pending endpoint with what came of pricing
    /// `evaluation`, or with nothing where `evaluation` is `None`.
    fn settle(&mut self, evaluation: Option<Evaluation>)
        requires
            !old(self).finished(),
        ensures
            final(self).models() == old(self).models(),
            final(self).fees() == old(self).fees().push(
                (old(self).pending(), quote(old(self).pending_entry(), evaluation)),
            ),
            final(self).evaluations() == old(self).evaluations().push(evaluation),
    {
        proof {
            use_type_invariant(&*self);
            use_type_invariant(&self.fees);
        }
        let n: usize = self.fees.len();
        let endpoint = self.models.key_at(n).clone();
        let fee = fee_for(self.models.value_at(n), evaluation);
        let ghost models = self.models();
        let ghost before = self.fees.pairs();
        let ghost seen = self.evaluations();
        let ghost entry = (endpoint@, fee);
        proof {
            let keys = keys_of(models);
            assert(keys[n as int] == endpoint@);
            assert(keys_of(before) =~= keys.take(n as int));
            lemma_next_key_goes_last(keys, n as int);
            lemma_ascending_no_duplicates(keys_of(before));
            assert(!assoc(keys_of(before), self.fees.values()).contains_key(endpoint@));
            assert(before.insert(n as int, entry) =~= before.push(entry));
            assert(seen.push(evaluation).take(n + 1) =~= seen.push(evaluation));
            assert(before.push(entry) =~= fee_table(models.take(n + 1), seen.push(evaluation)));
        }
        let mut fees: FeeResult = SortedMap::new();
        assert(fees.pairs() =~= fee_table(models.take(0), self.log@.take(0)));
        core::mem::swap(&mut self.fees, &mut fees);
        assert(self.fees.pairs() =~= fee_table(models.take(0), seen.push(evaluation).take(0)));
        assert(seen.push(evaluation).take(0).len() == 0);
        self.log = Ghost(seen.push(evaluation));
        assert(fees.pairs() == before);
        fees.insert(endpoint, fee);
        self.fees = fees;
    }

    /// Makes the fee entry of the pending endpoint from what came of pricing
    /// its program: the amount where there is one, no fee otherwise. An
    /// endpoint that declared no program gets the fee zero whatever
    /// `evaluation` says. The entries made before stay as they are.
    pub fn record(&mut self, evaluation: Evaluation)
        requires
            !old(self).finished(),
        ensures
            final(self).models() == old(self).models(),
            final(self).fees() == old(self).fees().push(
                (old(self).pending(), quote(old(self).pending_entry(), Some(evaluation))),
            ),
            final(self).evaluations() == old(self).evaluations().push(Some(evaluation)),
    {
        self.settle(Some(evaluation));
    }

    /// Says what to do next. Where the pending endpoint declared a program,
    /// that program and its bindings are handed out, and nothing changes until
    /// the outcome is recorded. Where it declared none, it gets the fee zero
    /// at once.
    pub fn advance(&mut self) -> (next: EvalStep)
        ensures
            final(self).models() == old(self).models(),
            old(self).finished() ==> {
                &&& next is Finished
                &&& final(self).fees() == old(self).fees()
                &&& final(self).evaluations() == old(self).evaluations()
            },
            !old(self).finished() ==> match old(self).pending_entry() {
                Some(record) => {
                    &&& next matches EvalStep::Evaluate { program, bindings }
                    &&& program@ == record@.program
                    &&& bindings@ == record@.bindings()
                    &&& final(self).fees() == old(self).fees()
                    &&& final(self).evaluations() == old(self).evaluations()
                },
                None => {
                    &&& next is Settled
                    &&& final(self).fees() == old(self).fees().push(
                        (old(self).pending(), Some(Fee::free())),
                    )
                    &&& final(self).evaluations() == old(self).evaluations().push(None)
                },
            },
    {
        if self.is_finished() {
            return EvalStep::Finished;
        }
        proof {
            use_type_invariant(&*self);
        }
        let n: usize = self.fees.len();
        match self.models.value_at(n) {
            Some(record) => {
                let program = record.program().to_owned();
                let bindings = record.bindings().to_owned();
                EvalStep::Evaluate { program, bindings }
            },
            None => {
                self.settle(None);
                EvalStep::Settled
            },
        }
    }

    /// The fees of the run, once every endpoint has its entry: the endpoints
    /// of the collected cost models and no other, in the same order, each
    /// with the quote of its entry.
    pub fn finish(self) -> (fees: FeeResult)
        requires
            self.finished(),
        ensures
            fees.pairs() == self.fees(),
            fees.pairs() == fee_table(self.models(), self.evaluations()),
            fees.keys() == keys_of(self.models()),
    {
        proof {
            use_type_invariant(&self);
            assert(self.models().take(self.models().len() as int) =~= self.models());
            assert(keys_of(fee_table(self.models(), self.evaluations())) =~= keys_of(self.models()));
        }
        self.fees
    }
}

} // verus!
