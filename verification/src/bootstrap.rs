use vstd::prelude::*;
use crate::samplers::{sample_post, strategy_wf, Sampler, SamplingStrategy};
use rayon::iter::{IntoParallelIterator, ParallelIterator};

verus! {

/// The algebra a statistic type must support: componentwise sum and
/// difference, multiplication by a rational scalar, a zero element of a given
/// shape, and a component count. The library ships no instance of its own;
/// callers supply one for their numeric type (a single number, a vector of
/// components), and the driver and the bias correction are verified for every
/// such instance.
///
/// Each executable method is paired with a specification function naming its
/// mathematical value, so that contracts downstream can say which statistic
/// an evaluation returns. An implementation outside the verified library is
/// trusted to meet these clauses; since every specification function belongs
/// to the implementation itself, the clauses assert no more than that the
/// implementation's own algebra is a function of the operands.
pub trait BootstrapStatistic: Sized + Clone + Send + Sync {
    /// The value of the componentwise sum.
    spec fn spec_add(&self, other: &Self) -> Self;

    /// The value of the componentwise difference.
    spec fn spec_sub(&self, other: &Self) -> Self;

    /// The value of the scalar multiple by `num / den`.
    spec fn spec_scale(&self, num: usize, den: usize) -> Self;

    /// The value of the additive identity with `len` components.
    spec fn spec_zero(len: usize) -> Self;

    /// The component count.
    spec fn spec_len(&self) -> usize;

    /// Componentwise sum.
    fn add(&self, other: &Self) -> (r: Self)
        ensures
            r == self.spec_add(other),
    ;

    /// Componentwise difference.
    fn sub(&self, other: &Self) -> (r: Self)
        ensures
            r == self.spec_sub(other),
    ;

    /// Multiplication of every component by the ratio `num / den`.
    fn scale(&self, num: usize, den: usize) -> (r: Self)
        ensures
            r == self.spec_scale(num, den),
    ;

    /// The additive identity with `len` components.
    fn zero(len: usize) -> (r: Self)
        ensures
            r == Self::spec_zero(len),
    ;

    /// The component count.
    fn len(&self) -> (r: usize)
        ensures
            r == self.spec_len(),
    ;
}

/// The estimator function can be called on every index sequence.
pub open spec fn func_callable<F: Fn(&[usize]) -> Option<T>, T>(f: F) -> bool {
    forall|s: &[usize]| #[trigger] call_requires(f, (s,))
}

/// The estimator function never reports a failed resample.
pub open spec fn estimator_total<F: Fn(&[usize]) -> Option<T>, T>(f: F) -> bool {
    forall|s: &[usize], out: Option<T>| #[trigger] call_ensures(f, (s,), out) ==> out is Some
}

/// `out` is an outcome the configured run can deliver as a replica: the
/// estimator function applied to some resample the strategy can draw from
/// the population index sequence.
pub open spec fn replica_of<F: Fn(&[usize]) -> Option<T>, T>(
    f: F,
    strategy: SamplingStrategy,
    src: Seq<usize>,
    out: Option<T>,
) -> bool {
    exists|s: &[usize]| #[trigger] call_ensures(f, (s,), out) && sample_post(strategy, src, s@)
}

/// `out` is an outcome of the estimator function on the full population
/// index sequence itself.
pub open spec fn central_of<F: Fn(&[usize]) -> Option<T>, T>(
    f: F,
    src: Seq<usize>,
    out: Option<T>,
) -> bool {
    exists|s: &[usize]| #[trigger] call_ensures(f, (s,), out) && s@ == src
}

/// The successful replica outcomes, in order, stripped of their `Some`.
pub open spec fn successes_of<T>(outcomes: Seq<Option<T>>) -> Seq<T>
    decreases outcomes.len(),
{
    if outcomes.len() == 0 {
        Seq::empty()
    } else {
        let rest = successes_of(outcomes.drop_last());
        match outcomes.last() {
            Some(v) => rest.push(v),
            None => rest,
        }
    }
}

/// `init` plus the successful outcomes, summed left to right in outcome
/// order.
pub open spec fn success_sum<T: BootstrapStatistic>(init: T, outcomes: Seq<Option<T>>) -> T
    decreases outcomes.len(),
{
    if outcomes.len() == 0 {
        init
    } else {
        let rest = success_sum(init, outcomes.drop_last());
        match outcomes.last() {
            Some(v) => rest.spec_add(&v),
            None => rest,
        }
    }
}

/// How many of the replica outcomes failed.
pub open spec fn failure_count<T>(outcomes: Seq<Option<T>>) -> nat
    decreases outcomes.len(),
{
    if outcomes.len() == 0 {
        0
    } else {
        failure_count(outcomes.drop_last()) + if outcomes.last() is None {
            1nat
        } else {
            0nat
        }
    }
}

/// `out` is an outcome the estimator can deliver on the index sequence `s`
/// under the bias-correction stack `bias`. Without wrapping it is an outcome
/// of the stored function itself. Each wrapping level first evaluates one
/// level down on `s`: a failure there propagates at once; a success `theta`
/// is followed by one inner evaluation per count of `bias.last()`, each one
/// level down on some simple resample of `s`. The level succeeds exactly
/// when at least half of those inner evaluations do, and then returns the
/// first-order corrected estimate: twice `theta` minus the mean of the
/// successful inner evaluations.
pub open spec fn eval_outcome<F: Fn(&[usize]) -> Option<T>, T: BootstrapStatistic>(
    f: F,
    bias: Seq<usize>,
    s: Seq<usize>,
    out: Option<T>,
) -> bool
    decreases bias.len(),
{
    if bias.len() == 0 {
        exists|sl: &[usize]| #[trigger] call_ensures(f, (sl,), out) && sl@ == s
    } else {
        exists|theta: Option<T>|
            #![trigger theta->Some_0]
            {
                &&& eval_outcome(f, bias.drop_last(), s, theta)
                &&& if theta is None {
                    out is None
                } else {
                    exists|inner: Seq<Option<T>>|
                        {
                            &&& #[trigger] inner.len() == bias.last()
                            &&& (forall|i: int|
                                0 <= i < inner.len() ==> exists|rs: Seq<usize>|
                                    sample_post(SamplingStrategy::Simple, s, rs) && eval_outcome(
                                        f,
                                        bias.drop_last(),
                                        rs,
                                        #[trigger] inner[i],
                                    ))
                            &&& (out is Some <==> successes_of(inner).len() >= bias.last() / 2)
                            &&& (out is Some ==> out->Some_0 == corrected_estimate(
                                theta->Some_0,
                                inner,
                            ))
                        }
                }
            }
    }
}

/// The first-order bias-corrected estimate that one wrapping level returns
/// on a success: `2*theta - mean(inner successes)`, the mean summed in
/// outcome order from the zero element of `theta`'s shape.
pub open spec fn corrected_estimate<T: BootstrapStatistic>(
    theta: T,
    inner: Seq<Option<T>>,
) -> T {
    let boot_sum = success_sum(T::spec_zero(theta.spec_len()), inner);
    theta.spec_scale(2, 1).spec_sub(&boot_sum.spec_scale(1, successes_of(inner).len() as usize))
}

/// `out` is an outcome the configured run can deliver as one replica: the
/// estimator, bias correction and all, evaluated on some resample the
/// strategy can draw from the population index sequence.
pub open spec fn wrapped_replica_of<F: Fn(&[usize]) -> Option<T>, T: BootstrapStatistic>(
    f: F,
    bias: Seq<usize>,
    strategy: SamplingStrategy,
    src: Seq<usize>,
    out: Option<T>,
) -> bool {
    exists|rs: Seq<usize>|
        #[trigger] sample_post(strategy, src, rs) && eval_outcome(f, bias, rs, out)
}

/// Shape law for unwrapped estimators: when every successful outcome of the
/// estimator function has `len` components, so do all the replicas a run
/// reports and any central value it produces. (A wrapped estimator's
/// replicas pass through the statistic algebra, whose spec functions carry
/// no shape laws, so this law speaks of unwrapped estimators only.)
pub proof fn lemma_replica_shape<F: Fn(&[usize]) -> Option<T>, T: BootstrapStatistic>(
    f: F,
    strategy: SamplingStrategy,
    src: Seq<usize>,
    samples: Seq<T>,
    central: Option<T>,
    len: usize,
)
    requires
        forall|j: int|
            0 <= j < samples.len() ==> replica_of(f, strategy, src, Some(#[trigger] samples[j])),
        central_of(f, src, central),
        forall|s: &[usize], out: Option<T>|
            #[trigger] call_ensures(f, (s,), out) && out is Some ==> out->Some_0.spec_len() == len,
    ensures
        forall|j: int| 0 <= j < samples.len() ==> (#[trigger] samples[j]).spec_len() == len,
        central is Some ==> central->Some_0.spec_len() == len,
{
    assert forall|j: int| 0 <= j < samples.len() implies (#[trigger] samples[j]).spec_len()
        == len by {
        let s = choose|s: &[usize]|
            #[trigger] call_ensures(f, (s,), Some(samples[j])) && sample_post(strategy, src, s@);
        assert(call_ensures(f, (s,), Some(samples[j])));
    }
    if central is Some {
        let s = choose|s: &[usize]| #[trigger] call_ensures(f, (s,), central) && s@ == src;
        assert(call_ensures(f, (s,), central));
    }
}

/// Every outcome is either a success that `successes_of` keeps or a failure
/// that `failure_count` counts: the two always add up to the outcome count.
pub proof fn lemma_outcome_partition<T>(outcomes: Seq<Option<T>>)
    ensures
        successes_of(outcomes).len() + failure_count(outcomes) == outcomes.len(),
    decreases outcomes.len(),
{
    if outcomes.len() > 0 {
        lemma_outcome_partition(outcomes.drop_last());
    }
}

/// An estimator owns the function that turns an index sequence into a
/// statistic, together with the population index sequence, and records how
/// often it has been wrapped for bias correction. It is immutable and safe to
/// share across threads.
pub struct Estimator<F> {
    func: F,
    indices: Vec<usize>,
    bias_levels: Vec<usize>,
}

/// Accumulates the two required pieces of an estimator before `build`.
pub struct EstimatorBuilder<F> {
    pub func: Option<F>,
    pub indices: Option<Vec<usize>>,
}

impl<F> Estimator<F> {
    /// The stored estimator function.
    pub closed spec fn spec_func(&self) -> F {
        self.func
    }

    /// The stored population index sequence.
    pub closed spec fn spec_indices(&self) -> Seq<usize> {
        self.indices@
    }

    /// The stack of inner-resample counts, one per bias-correction wrapping,
    /// innermost first.
    pub closed spec fn spec_bias(&self) -> Seq<usize> {
        self.bias_levels@
    }

    /// Start building an estimator; `from` and `indices` are both required.
    pub fn new() -> (r: EstimatorBuilder<F>)
        ensures
            r.func is None,
            r.indices is None,
    {
        EstimatorBuilder { func: None, indices: None }
    }

    /// Borrow the population index sequence.
    pub fn indices(&self) -> (r: &[usize])
        ensures
            r@ == self.spec_indices(),
    {
        self.indices.as_slice()
    }
}

impl<F> EstimatorBuilder<F> {
    /// Set the estimator function.
    pub fn from(self, func: F) -> (r: Self)
        ensures
            r.func == Some(func),
            r.indices == self.indices,
    {
        EstimatorBuilder { func: Some(func), indices: self.indices }
    }

    /// Set the population index sequence.
    pub fn indices(self, indices: Vec<usize>) -> (r: Self)
        ensures
            r.func == self.func,
            r.indices is Some,
            r.indices.unwrap()@ == indices@,
    {
        EstimatorBuilder { func: self.func, indices: Some(indices) }
    }

    /// Finish the estimator. Both pieces must have been set.
    pub fn build(self) -> (r: Estimator<F>)
        requires
            self.func is Some,
            self.indices is Some,
        ensures
            r.spec_func() == self.func.unwrap(),
            r.spec_indices() == self.indices.unwrap()@,
            r.spec_bias() == Seq::<usize>::empty(),
    {
        match (self.func, self.indices) {
            (Some(func), Some(indices)) => Estimator { func, indices, bias_levels: Vec::new() },
            _ => vstd::pervasive::unreached(),
        }
    }
}

/// Finish one level of bias correction after the inner resampling loop:
/// fewer successes than half of `n_inner` (integer division) is a
/// cooperative failure, and otherwise the result is exactly the first-order
/// corrected estimate `2*theta - boot_sum/valid`.
fn bias_finish<T: BootstrapStatistic>(
    theta_hat: T,
    boot_sum: T,
    valid: usize,
    n_inner: usize,
) -> (r: Option<T>)
    ensures
        r is Some <==> valid >= n_inner / 2,
        r is Some ==> r->Some_0 == theta_hat.spec_scale(2, 1).spec_sub(
            &boot_sum.spec_scale(1, valid),
        ),
{
    if valid < n_inner / 2 {
        return None;
    }
    let mean_boot = boot_sum.scale(1, valid);
    Some(theta_hat.scale(2, 1).sub(&mean_boot))
}

impl<F> Estimator<F> {
    /// Evaluate the estimator with the outermost `depth` bias-correction
    /// wrappings active. At depth zero this is exactly one call of the stored
    /// function; each further level computes the first-order corrected
    /// estimate `2*theta - mean(inner resamples)` and reports failure when
    /// fewer than half of the inner resamples succeed. A failure of the
    /// stored function on `indices` itself propagates out through every
    /// level before any inner resampling.
    fn eval<T>(&self, depth: usize, indices: &[usize]) -> (r: Option<T>) where
        F: Fn(&[usize]) -> Option<T> + Sync,
        T: BootstrapStatistic,

        requires
            depth <= self.spec_bias().len(),
            func_callable(self.spec_func()),
        ensures
            depth == 0 ==> call_ensures(self.spec_func(), (indices,), r),
            estimator_total(self.spec_func()) ==> r is Some,
            (forall|out: Option<T>|
                call_ensures(self.spec_func(), (indices,), out) ==> out is None) ==> r is None,
            eval_outcome(self.spec_func(), self.spec_bias().take(depth as int), indices@, r),
        decreases depth,
    {
        let ghost active = self.spec_bias().take(depth as int);
        let ghost sub = self.spec_bias().take(depth as int - 1);
        if depth == 0 {
            let out = (self.func)(indices);
            proof {
                assert(active.len() == 0);
                assert(call_ensures(self.spec_func(), (indices,), out) && indices@ == indices@);
            }
            return out;
        }
        proof {
            assert(active.drop_last() =~= sub);
            assert(active.last() == self.spec_bias()[depth - 1]);
        }
        let n_inner = self.bias_levels[depth - 1];
        let theta_opt: Option<T> = self.eval(depth - 1, indices);
        let ghost gtheta = theta_opt;
        let theta_hat: T = match theta_opt {
            Some(t) => t,
            None => {
                proof {
                    assert(eval_outcome(self.spec_func(), active, indices@, None::<T>)) by {
                        // The existential in `eval_outcome` triggers on this
                        // field term of its witness.
                        let ghost witness = gtheta->Some_0;
                        assert(eval_outcome(
                            self.spec_func(),
                            active.drop_last(),
                            indices@,
                            gtheta,
                        ));
                    }
                }
                return None;
            },
        };
        let mut boot_sum = T::zero(theta_hat.len());
        let ghost init = boot_sum;
        let mut valid: usize = 0;
        let mut i: usize = 0;
        let ghost mut inner_outs: Seq<Option<T>> = Seq::empty();
        while i < n_inner
            invariant
                i <= n_inner,
                valid <= i,
                1 <= depth <= self.spec_bias().len(),
                func_callable(self.spec_func()),
                estimator_total(self.spec_func()) ==> valid == i,
                sub == self.spec_bias().take(depth as int - 1),
                inner_outs.len() == i,
                valid == successes_of(inner_outs).len(),
                init == T::spec_zero(gtheta->Some_0.spec_len()),
                boot_sum == success_sum(init, inner_outs),
                forall|j: int|
                    0 <= j < inner_outs.len() ==> exists|rs: Seq<usize>|
                        sample_post(SamplingStrategy::Simple, indices@, rs) && eval_outcome(
                            self.spec_func(),
                            sub,
                            rs,
                            #[trigger] inner_outs[j],
                        ),
            decreases n_inner - i,
        {
            let resampled = SamplingStrategy::Simple.sample(indices);
            let inner_r = self.eval(depth - 1, resampled.as_slice());
            proof {
                let prior = inner_outs;
                inner_outs = inner_outs.push(inner_r);
                assert(inner_outs.drop_last() =~= prior);
                assert(sample_post(SamplingStrategy::Simple, indices@, resampled@) && eval_outcome(
                    self.spec_func(),
                    sub,
                    resampled@,
                    inner_r,
                ));
            }
            if let Some(val) = inner_r {
                boot_sum = boot_sum.add(&val);
                valid = valid + 1;
            }
            i += 1;
        }
        proof {
            vstd::arithmetic::div_mod::lemma_div_nonincreasing(n_inner as int, 2);
        }
        let r = bias_finish(theta_hat, boot_sum, valid, n_inner);
        proof {
            // The existential in `eval_outcome` triggers on this field term
            // of its witness.
            let witness = gtheta->Some_0;
            assert(eval_outcome(self.spec_func(), active.drop_last(), indices@, gtheta));
            assert(inner_outs.len() == active.last());
            assert(r is Some <==> successes_of(inner_outs).len() >= active.last() / 2);
            assert(r is Some ==> r->Some_0 == corrected_estimate(gtheta->Some_0, inner_outs));
        }
        r
    }

    /// Evaluate the estimator, bias correction and all, on an index
    /// sequence. For an unwrapped estimator the result is exactly one
    /// outcome of the stored function; a function that never fails yields a
    /// replica here whatever the wrapping; and a function that can only fail
    /// on this index sequence fails here too, through every wrapping.
    pub fn apply<T>(&self, indices: &[usize]) -> (r: Option<T>) where
        F: Fn(&[usize]) -> Option<T> + Sync,
        T: BootstrapStatistic,

        requires
            func_callable(self.spec_func()),
        ensures
            self.spec_bias().len() == 0 ==> call_ensures(self.spec_func(), (indices,), r),
            estimator_total(self.spec_func()) ==> r is Some,
            (forall|out: Option<T>|
                call_ensures(self.spec_func(), (indices,), out) ==> out is None) ==> r is None,
            eval_outcome(self.spec_func(), self.spec_bias(), indices@, r),
    {
        proof {
            assert(self.spec_bias().take(self.spec_bias().len() as int) =~= self.spec_bias());
        }
        self.eval(self.bias_levels.len(), indices)
    }

    /// Wrap the estimator with one more level of first-order bias
    /// correction: evaluation then returns `2*theta - mean(theta*)`, the
    /// mean running over `n_inner` simple inner resamples, and fails when
    /// fewer than half of them succeed. Wrappings stack.
    pub fn bias_correct(self, n_inner: usize) -> (r: Estimator<F>)
        requires
            n_inner >= 1,
        ensures
            r.spec_func() == self.spec_func(),
            r.spec_indices() == self.spec_indices(),
            r.spec_bias() == self.spec_bias().push(n_inner),
    {
        let mut bias_levels = self.bias_levels;
        bias_levels.push(n_inner);
        Estimator { func: self.func, indices: self.indices, bias_levels }
    }
}

/// Drives one bootstrap: the estimator, the number of replicas to draw, and
/// the sampling strategy.
pub struct Bootstrap<F> {
    estimator: Estimator<F>,
    n_boot: usize,
    sampler: SamplingStrategy,
}

/// Accumulates the driver's pieces before `build`; only the estimator is
/// required, the replica count defaults to 1000 and the strategy to `Simple`.
pub struct BootstrapBuilder<F> {
    pub estimator: Option<Estimator<F>>,
    pub n_boot: usize,
    pub sampler: SamplingStrategy,
}

/// What one bootstrap run reports: how many replicas were asked for, how many
/// resamples failed, the successful replicas, the estimate on the full
/// population, and the strategy that drew the resamples.
pub struct BootstrapResult<T> {
    pub n_boot: usize,
    pub failed_samples: usize,
    pub samples: Vec<T>,
    pub central_val: Option<T>,
    pub sampler: SamplingStrategy,
}

impl<F> Bootstrap<F> {
    /// The stored estimator.
    pub closed spec fn spec_estimator(&self) -> Estimator<F> {
        self.estimator
    }

    /// The number of replicas a run draws.
    pub closed spec fn spec_n_boot(&self) -> usize {
        self.n_boot
    }

    /// The sampling strategy a run draws with.
    pub closed spec fn spec_sampler(&self) -> SamplingStrategy {
        self.sampler
    }

    /// Start building a driver around a defaulted configuration.
    pub fn new() -> (r: BootstrapBuilder<F>)
        ensures
            r.estimator is None,
            r.n_boot == 1000,
            r.sampler == SamplingStrategy::Simple,
    {
        BootstrapBuilder { estimator: None, n_boot: 1000, sampler: SamplingStrategy::Simple }
    }
}

impl<F> BootstrapBuilder<F> {
    /// Set the estimator.
    pub fn estimator(self, estimator: Estimator<F>) -> (r: Self)
        ensures
            r.estimator == Some(estimator),
            r.n_boot == self.n_boot,
            r.sampler == self.sampler,
    {
        BootstrapBuilder { estimator: Some(estimator), n_boot: self.n_boot, sampler: self.sampler }
    }

    /// Set the number of replicas.
    pub fn n_boot(self, n_boot: usize) -> (r: Self)
        ensures
            r.estimator == self.estimator,
            r.n_boot == n_boot,
            r.sampler == self.sampler,
    {
        BootstrapBuilder { estimator: self.estimator, n_boot, sampler: self.sampler }
    }

    /// Set the sampling strategy.
    pub fn sampler(self, sampler: SamplingStrategy) -> (r: Self)
        ensures
            r.estimator == self.estimator,
            r.n_boot == self.n_boot,
            r.sampler == sampler,
    {
        BootstrapBuilder { estimator: self.estimator, n_boot: self.n_boot, sampler }
    }

    /// Finish the driver. The estimator must have been set.
    pub fn build(self) -> (r: Bootstrap<F>)
        requires
            self.estimator is Some,
        ensures
            r.spec_estimator() == self.estimator.unwrap(),
            r.spec_n_boot() == self.n_boot,
            r.spec_sampler() == self.sampler,
    {
        match self.estimator {
            Some(estimator) => Bootstrap { estimator, n_boot: self.n_boot, sampler: self.sampler },
            None => vstd::pervasive::unreached(),
        }
    }
}

/// Relies on rayon's parallel iterator over the range `0..n`: `map` applies
/// the function once per position and `collect` gathers exactly one result
/// per position, in position order.
#[verifier::external_body]
fn parallel_replicas<T, G>(n: usize, g: G) -> (r: Vec<Option<T>>) where
    T: Send,
    G: Fn(usize) -> Option<T> + Send + Sync,

    requires
        forall|i: usize| i < n ==> #[trigger] call_requires(g, (i,)),
    ensures
        r@.len() == n,
        forall|i: int| 0 <= i < r@.len() ==> call_ensures(g, (i as usize,), #[trigger] r@[i]),
{
    (0..n).into_par_iter().map(g).collect()
}

impl<F> Bootstrap<F> {
    /// Evaluate the estimator once on the full population, then draw and
    /// evaluate `n_boot` independent replicas in parallel, each on a fresh
    /// resample of the population indices, and report the successes together
    /// with the count of failed resamples. The report is the exact partition
    /// of the `n_boot` outcomes: `samples` holds precisely the successful
    /// ones in evaluation order, `failed_samples` counts the failed ones
    /// verbatim, and an estimator that never fails fails nowhere here
    /// either.
    pub fn run<T>(self) -> (r: BootstrapResult<T>) where
        F: Fn(&[usize]) -> Option<T> + Send + Sync,
        T: BootstrapStatistic,

        requires
            func_callable(self.spec_estimator().spec_func()),
            strategy_wf(self.spec_sampler()),
        ensures
            r.n_boot == self.spec_n_boot(),
            r.sampler == self.spec_sampler(),
            r.samples@.len() + r.failed_samples == r.n_boot,
            estimator_total(self.spec_estimator().spec_func()) ==> r.failed_samples == 0
                && r.central_val is Some,
            self.spec_estimator().spec_bias().len() == 0 ==> central_of(
                self.spec_estimator().spec_func(),
                self.spec_estimator().spec_indices(),
                r.central_val,
            ),
            eval_outcome(
                self.spec_estimator().spec_func(),
                self.spec_estimator().spec_bias(),
                self.spec_estimator().spec_indices(),
                r.central_val,
            ),
            exists|outcomes: Seq<Option<T>>|
                {
                    &&& #[trigger] outcomes.len() == self.spec_n_boot()
                    &&& r.samples@ == successes_of(outcomes)
                    &&& r.failed_samples == failure_count(outcomes)
                    &&& (forall|i: int|
                        0 <= i < outcomes.len() ==> wrapped_replica_of(
                            self.spec_estimator().spec_func(),
                            self.spec_estimator().spec_bias(),
                            self.spec_sampler(),
                            self.spec_estimator().spec_indices(),
                            #[trigger] outcomes[i],
                        ))
                    &&& (self.spec_estimator().spec_bias().len() == 0 ==> forall|i: int|
                        0 <= i < outcomes.len() ==> replica_of(
                            self.spec_estimator().spec_func(),
                            self.spec_sampler(),
                            self.spec_estimator().spec_indices(),
                            #[trigger] outcomes[i],
                        ))
                    &&& (estimator_total(self.spec_estimator().spec_func()) ==> forall|i: int|
                        0 <= i < outcomes.len() ==> (#[trigger] outcomes[i]) is Some)
                },
            self.spec_estimator().spec_bias().len() == 0 ==> forall|j: int|
                0 <= j < r.samples@.len() ==> replica_of(
                    self.spec_estimator().spec_func(),
                    self.spec_sampler(),
                    self.spec_estimator().spec_indices(),
                    Some(#[trigger] r.samples@[j]),
                ),
    {
        let population = self.estimator.indices();
        let central_val = self.estimator.apply(population);
        let est = &self.estimator;
        let sampler = self.sampler;
        let g = |_i: usize| -> (out: Option<T>)
            ensures
                estimator_total(est.spec_func()) ==> out is Some,
                wrapped_replica_of(est.spec_func(), est.spec_bias(), sampler, est.spec_indices(), out),
                est.spec_bias().len() == 0 ==> replica_of(
                    est.spec_func(),
                    sampler,
                    est.spec_indices(),
                    out,
                ),
            {
                let resampled = sampler.sample(est.indices());
                let drawn = resampled.as_slice();
                let out = est.apply(drawn);
                proof {
                    assert(sample_post(sampler, est.spec_indices(), resampled@) && eval_outcome(
                        est.spec_func(),
                        est.spec_bias(),
                        resampled@,
                        out,
                    ));
                    if est.spec_bias().len() == 0 {
                        assert(call_ensures(est.spec_func(), (drawn,), out)
                            && sample_post(sampler, est.spec_indices(), drawn@));
                    }
                }
                out
            };
        proof {
            if self.spec_estimator().spec_bias().len() == 0 {
                assert(call_ensures(self.spec_estimator().spec_func(), (population,), central_val)
                    && population@ == self.spec_estimator().spec_indices());
            }
        }
        let mut results = parallel_replicas(self.n_boot, g);
        let ghost all = results@;
        let ghost mut processed: int = 0;
        let mut samples: Vec<T> = Vec::new();
        let mut failed: usize = 0;
        while results.len() > 0
            invariant
                0 <= processed <= all.len(),
                processed + results@.len() == all.len(),
                results@ == all.skip(processed),
                all.len() == self.spec_n_boot(),
                samples@ == successes_of(all.take(processed)),
                failed == failure_count(all.take(processed)),
                samples@.len() + failed + results@.len() == self.spec_n_boot(),
                forall|i: int|
                    0 <= i < all.len() ==> call_ensures(g, (i as usize,), #[trigger] all[i]),
                forall|i: usize, out: Option<T>|
                    #[trigger] call_ensures(g, (i,), out) ==> (estimator_total(est.spec_func())
                        ==> out is Some),
                forall|i: usize, out: Option<T>|
                    #[trigger] call_ensures(g, (i,), out) ==> (est.spec_bias().len() == 0
                        ==> replica_of(est.spec_func(), sampler, est.spec_indices(), out)),
                forall|i: usize, out: Option<T>|
                    #[trigger] call_ensures(g, (i,), out) ==> wrapped_replica_of(
                        est.spec_func(),
                        est.spec_bias(),
                        sampler,
                        est.spec_indices(),
                        out,
                    ),
                estimator_total(self.spec_estimator().spec_func()) ==> failed == 0,
                est.spec_func() == self.spec_estimator().spec_func(),
                est.spec_bias() == self.spec_estimator().spec_bias(),
                est.spec_indices() == self.spec_estimator().spec_indices(),
                sampler == self.spec_sampler(),
                self.spec_estimator().spec_bias().len() == 0 ==> forall|j: int|
                    0 <= j < samples@.len() ==> replica_of(
                        self.spec_estimator().spec_func(),
                        self.spec_sampler(),
                        self.spec_estimator().spec_indices(),
                        Some(#[trigger] samples@[j]),
                    ),
            decreases results@.len(),
        {
            proof {
                assert(results@[0] == all[processed]);
            }
            let o = results.remove(0);
            proof {
                let prev = all.take(processed);
                let cur = all.take(processed + 1);
                assert(cur.drop_last() =~= prev);
                assert(cur.last() == o);
                assert(results@ =~= all.skip(processed + 1));
                processed = processed + 1;
            }
            match o {
                Some(v) => samples.push(v),
                None => { failed = failed + 1 },
            }
        }
        proof {
            assert(all.take(processed) =~= all);
            assert forall|i: int| 0 <= i < all.len() implies wrapped_replica_of(
                self.spec_estimator().spec_func(),
                self.spec_estimator().spec_bias(),
                self.spec_sampler(),
                self.spec_estimator().spec_indices(),
                #[trigger] all[i],
            ) && (self.spec_estimator().spec_bias().len() == 0 ==> replica_of(
                self.spec_estimator().spec_func(),
                self.spec_sampler(),
                self.spec_estimator().spec_indices(),
                all[i],
            )) && (estimator_total(self.spec_estimator().spec_func()) ==> all[i] is Some) by {
                assert(call_ensures(g, (i as usize,), all[i]));
            }
        }
        BootstrapResult {
            n_boot: self.n_boot,
            failed_samples: failed,
            samples,
            central_val,
            sampler: self.sampler,
        }
    }
}

} // verus!
