use vstd::prelude::*;
use rand::Rng;

verus! {

/// How one resampled index sequence is drawn from a source index sequence.
#[derive(Debug, Clone, Copy, PartialEq, Eq, Structural)]
pub enum SamplingStrategy {
    /// Draw `n` positions iid uniformly from `[0, n)` (the classical bootstrap).
    Simple,
    /// Draw `m` positions iid uniformly from `[0, n)`; `m > n` oversamples.
    MOutOfN { m: usize },
    /// Concatenate `n / block_size` contiguous runs of length `block_size`,
    /// each starting on the grid rooted after the front remainder.
    Block { block_size: usize },
    /// Draw `n / block_size` positions iid uniformly from `[0, n)`.
    Thinned { block_size: usize },
}

/// A strategy is well formed when its block size, where it has one, is positive.
pub open spec fn strategy_wf(s: SamplingStrategy) -> bool {
    match s {
        SamplingStrategy::Simple => true,
        SamplingStrategy::MOutOfN { m: _ } => true,
        SamplingStrategy::Block { block_size } => block_size > 0,
        SamplingStrategy::Thinned { block_size } => block_size > 0,
    }
}

/// The exact length of a resample drawn by strategy `s` from a source of length `n`.
pub open spec fn resample_len(s: SamplingStrategy, n: nat) -> nat
    recommends
        strategy_wf(s),
{
    match s {
        SamplingStrategy::Simple => n,
        SamplingStrategy::MOutOfN { m } => if m == 0 || n == 0 {
            0
        } else {
            m as nat
        },
        SamplingStrategy::Block { block_size } => (n - n % (block_size as nat)) as nat,
        SamplingStrategy::Thinned { block_size } => n / (block_size as nat),
    }
}

/// The output of the block strategy is a concatenation of contiguous runs of
/// length `b`, each starting at `off + j * b` for some block choice `j`.
pub open spec fn is_block_concat(src: Seq<usize>, b: nat, out: Seq<usize>) -> bool
    recommends
        b > 0,
{
    let off = src.len() % b;
    let nb = ((src.len() - off) as nat) / b;
    exists|choice: Seq<nat>|
        {
            &&& choice.len() == nb
            &&& (forall|k: int| 0 <= k < nb ==> #[trigger] choice[k] < nb)
            &&& (forall|i: int|
                0 <= i < out.len() ==> #[trigger] out[i] == src[off + choice[i / (b as int)] * b
                    + i % (b as int)])
        }
}

/// What `sample` guarantees: the output has the strategy's exact length, every
/// output entry occurs in the source, and a block resample is a concatenation
/// of grid-aligned contiguous runs.
pub open spec fn sample_post(s: SamplingStrategy, src: Seq<usize>, out: Seq<usize>) -> bool {
    &&& out.len() == resample_len(s, src.len())
    &&& (forall|i: int| 0 <= i < out.len() ==> src.contains(#[trigger] out[i]))
    &&& (s matches SamplingStrategy::Block { block_size } ==> is_block_concat(
        src,
        block_size as nat,
        out,
    ))
}

/// Anything that can draw a resampled index sequence from a source sequence.
pub trait Sampler {
    /// When the draw is permitted.
    spec fn sample_req(&self, src: Seq<usize>) -> bool;

    /// What the drawn sequence guarantees.
    spec fn sample_ensures(&self, src: Seq<usize>, out: Seq<usize>) -> bool;

    fn sample(&self, indices: &[usize]) -> (r: Vec<usize>)
        requires
            self.sample_req(indices@),
        ensures
            self.sample_ensures(indices@, r@),
    ;
}

/// Relies on `rand::Rng::random_range` over `0..n` on the thread-local
/// generator: it returns a value of the given range, uniformly distributed,
/// and panics only when the range is empty.
#[verifier::external_body]
fn draw_position(n: usize) -> (r: usize)
    requires
        n > 0,
    ensures
        r < n,
{
    rand::rng().random_range(0..n)
}

/// Draw `m` entries of `indices` iid uniformly with replacement; empty when
/// `m` is zero or there is nothing to draw from.
fn m_of_n_indices(indices: &[usize], m: usize) -> (r: Vec<usize>)
    ensures
        r@.len() == if m == 0 || indices@.len() == 0 {
            0int
        } else {
            m as int
        },
        forall|i: int| 0 <= i < r@.len() ==> indices@.contains(#[trigger] r@[i]),
{
    if m == 0 || indices.len() == 0 {
        return Vec::new();
    }
    let mut out: Vec<usize> = Vec::with_capacity(m);
    let mut k: usize = 0;
    while k < m
        invariant
            k <= m,
            out@.len() == k,
            indices@.len() > 0,
            forall|i: int| 0 <= i < out@.len() ==> indices@.contains(#[trigger] out@[i]),
        decreases m - k,
    {
        let p = draw_position(indices.len());
        out.push(indices[p]);
        k += 1;
    }
    out
}

/// Concatenate `n / b` randomly chosen contiguous runs of length `b`, aligned
/// to the grid that starts after the front remainder of `n % b` entries.
fn block_indices(indices: &[usize], block_size: usize) -> (r: Vec<usize>)
    requires
        block_size > 0,
    ensures
        r@.len() == indices@.len() as int - indices@.len() as int % (block_size as int),
        forall|i: int| 0 <= i < r@.len() ==> indices@.contains(#[trigger] r@[i]),
        is_block_concat(indices@, block_size as nat, r@),
{
    let data_len = indices.len();
    proof {
        vstd::arithmetic::div_mod::lemma_mod_decreases(data_len as nat, block_size as nat);
        vstd::arithmetic::div_mod::lemma_fundamental_div_mod(data_len as int, block_size as int);
        vstd::arithmetic::mul::lemma_mul_is_commutative(
            block_size as int,
            data_len as int / block_size as int,
        );
        vstd::arithmetic::div_mod::lemma_div_by_multiple(
            data_len as int / block_size as int,
            block_size as int,
        );
    }
    let effective_len = data_len - data_len % block_size;
    let offset = data_len - effective_len;
    let n_blocks = effective_len / block_size;
    proof {
        assert(n_blocks == data_len as int / block_size as int);
        assert(n_blocks * block_size == effective_len);
        assert(offset == data_len % block_size);
    }
    if effective_len == 0 {
        proof {
            let choice = Seq::<nat>::empty();
            assert(is_block_concat(indices@, block_size as nat, Seq::<usize>::empty())) by {
                assert(choice.len() == 0);
            }
        }
        return Vec::new();
    }
    let mut out: Vec<usize> = Vec::with_capacity(effective_len);
    let ghost mut choice: Seq<nat> = Seq::empty();
    let mut k: usize = 0;
    while k < n_blocks
        invariant
            block_size > 0,
            k <= n_blocks,
            data_len == indices@.len(),
            offset == data_len % block_size,
            effective_len == data_len - offset,
            n_blocks * block_size == effective_len,
            out@.len() == k * block_size,
            choice.len() == k,
            forall|j: int| 0 <= j < k ==> #[trigger] choice[j] < n_blocks,
            forall|i: int|
                0 <= i < out@.len() ==> #[trigger] out@[i] == indices@[offset + choice[i / (
                block_size as int)] * block_size + i % (block_size as int)],
            forall|i: int| 0 <= i < out@.len() ==> indices@.contains(#[trigger] out@[i]),
        decreases n_blocks - k,
    {
        let b_choice = draw_position(n_blocks);
        proof {
            vstd::arithmetic::mul::lemma_mul_inequality(
                b_choice as int + 1,
                n_blocks as int,
                block_size as int,
            );
            vstd::arithmetic::mul::lemma_mul_is_distributive_add_other_way(
                block_size as int,
                b_choice as int,
                1,
            );
            assert(b_choice * block_size + block_size <= effective_len);
            vstd::arithmetic::mul::lemma_mul_inequality(
                k as int + 1,
                n_blocks as int,
                block_size as int,
            );
            vstd::arithmetic::mul::lemma_mul_is_distributive_add_other_way(
                block_size as int,
                k as int,
                1,
            );
        }
        let start = offset + b_choice * block_size;
        let mut j: usize = 0;
        while j < block_size
            invariant
                block_size > 0,
                j <= block_size,
                k < n_blocks,
                b_choice < n_blocks,
                data_len == indices@.len(),
                offset == data_len % block_size,
                effective_len == data_len - offset,
                n_blocks * block_size == effective_len,
                start == offset + b_choice * block_size,
                start + block_size <= data_len,
                k * block_size + block_size <= effective_len,
                out@.len() == k * block_size + j,
                choice.len() == k,
                forall|jj: int| 0 <= jj < k ==> #[trigger] choice[jj] < n_blocks,
                forall|i: int|
                    0 <= i < k * block_size ==> #[trigger] out@[i] == indices@[offset + choice[i / (
                    block_size as int)] * block_size + i % (block_size as int)],
                forall|i: int|
                    k * block_size <= i < out@.len() ==> #[trigger] out@[i] == indices@[start + (i
                        - k * block_size)],
                forall|i: int| 0 <= i < out@.len() ==> indices@.contains(#[trigger] out@[i]),
            decreases block_size - j,
        {
            out.push(indices[start + j]);
            j += 1;
        }
        proof {
            let prior = choice;
            choice = choice.push(b_choice as nat);
            assert forall|i: int| 0 <= i < out@.len() implies #[trigger] out@[i] == indices@[offset
                + choice[i / (block_size as int)] * block_size + i % (block_size as int)] by {
                let b = block_size as int;
                if i < k * block_size {
                    assert(choice[i / b] == prior[i / b]) by {
                        assert(0 <= i / b < k) by {
                            vstd::arithmetic::mul::lemma_mul_is_commutative(k as int, b);
                            vstd::arithmetic::div_mod::lemma_multiply_divide_lt(i, b, k as int);
                            vstd::arithmetic::div_mod::lemma_div_pos_is_pos(i, b);
                        }
                    }
                } else {
                    let t = i - k * b;
                    vstd::arithmetic::div_mod::lemma_fundamental_div_mod_converse(
                        i,
                        b,
                        k as int,
                        t,
                    );
                    assert(i / b == k && i % b == t);
                    assert(out@[i] == indices@[offset + b_choice * b + t]);
                }
            }
        }
        k += 1;
    }
    proof {
        assert(is_block_concat(indices@, block_size as nat, out@)) by {
            let b = block_size as int;
            let nb = ((indices@.len() - indices@.len() % (block_size as nat)) as nat) / (
            block_size as nat);
            assert(nb == n_blocks);
            assert(choice.len() == nb);
        }
    }
    out
}

impl Sampler for SamplingStrategy {
    /// The block strategies need a positive block size.
    open spec fn sample_req(&self, src: Seq<usize>) -> bool {
        strategy_wf(*self)
    }

    /// Exact output length, containment in the source, and for the block
    /// strategy the grid-aligned run structure.
    open spec fn sample_ensures(&self, src: Seq<usize>, out: Seq<usize>) -> bool {
        sample_post(*self, src, out)
    }

    fn sample(&self, indices: &[usize]) -> (r: Vec<usize>) {
        match self {
            SamplingStrategy::Simple => m_of_n_indices(indices, indices.len()),
            SamplingStrategy::MOutOfN { m } => m_of_n_indices(indices, *m),
            SamplingStrategy::Block { block_size } => block_indices(indices, *block_size),
            SamplingStrategy::Thinned { block_size } => {
                let m = indices.len() / *block_size;
                m_of_n_indices(indices, m)
            },
        }
    }
}

/// The number of leave-one-block-out sets the block jackknife emits.
pub open spec fn jack_num_blocks(blocksize: nat, data_length: nat) -> nat
    recommends
        blocksize > 0,
{
    ((data_length - data_length % blocksize) as nat) / blocksize
}

/// Entry `i` of the `k`-th held-in sequence: the front remainder is dropped,
/// block `k` is left out, and everything else is kept in source order.
pub open spec fn jack_entry(blocksize: nat, data_length: nat, k: nat, i: nat) -> nat
    recommends
        blocksize > 0,
{
    let rem = data_length % blocksize;
    if i < k * blocksize {
        rem + i
    } else {
        rem + i + blocksize
    }
}

/// Emit one held-in index sequence per block: the `k`-th leaves out the
/// contiguous block `[rem + k*b, rem + (k+1)*b)` and never takes in the front
/// remainder `[0, rem)`.
pub fn generate_block_jackknife_indices(blocksize: usize, data_length: usize) -> (r: Vec<
    Vec<usize>,
>)
    requires
        blocksize > 0,
    ensures
        r@.len() == jack_num_blocks(blocksize as nat, data_length as nat),
        forall|k: int|
            0 <= k < r@.len() ==> (#[trigger] r@[k])@.len() == data_length as int
                - data_length as int % (blocksize as int) - blocksize as int,
        forall|k: int, i: int|
            0 <= k < r@.len() && 0 <= i < r@[k]@.len() ==> #[trigger] r@[k]@[i] == jack_entry(
                blocksize as nat,
                data_length as nat,
                k as nat,
                i as nat,
            ),
{
    proof {
        vstd::arithmetic::div_mod::lemma_mod_decreases(data_length as nat, blocksize as nat);
        vstd::arithmetic::div_mod::lemma_fundamental_div_mod(
            data_length as int,
            blocksize as int,
        );
        vstd::arithmetic::mul::lemma_mul_is_commutative(
            blocksize as int,
            data_length as int / blocksize as int,
        );
        vstd::arithmetic::div_mod::lemma_div_by_multiple(
            data_length as int / blocksize as int,
            blocksize as int,
        );
    }
    let remainder = data_length % blocksize;
    let sample_start_index = remainder;
    let num_blocks = (data_length - remainder) / blocksize;
    proof {
        assert(num_blocks * blocksize == data_length - remainder);
    }
    let mut r: Vec<Vec<usize>> = Vec::new();
    let mut k: usize = 0;
    while k < num_blocks
        invariant
            blocksize > 0,
            k <= num_blocks,
            remainder == data_length as int % (blocksize as int),
            sample_start_index == remainder,
            num_blocks == jack_num_blocks(blocksize as nat, data_length as nat),
            num_blocks * blocksize == data_length - remainder,
            r@.len() == k,
            forall|kk: int|
                0 <= kk < k ==> (#[trigger] r@[kk])@.len() == data_length as int
                    - remainder as int - blocksize as int,
            forall|kk: int, i: int|
                0 <= kk < k && 0 <= i < r@[kk]@.len() ==> #[trigger] r@[kk]@[i] == jack_entry(
                    blocksize as nat,
                    data_length as nat,
                    kk as nat,
                    i as nat,
                ),
        decreases num_blocks - k,
    {
        proof {
            vstd::arithmetic::mul::lemma_mul_inequality(
                k as int + 1,
                num_blocks as int,
                blocksize as int,
            );
            vstd::arithmetic::mul::lemma_mul_is_distributive_add_other_way(
                blocksize as int,
                k as int,
                1,
            );
            assert(k * blocksize + blocksize <= num_blocks * blocksize);
        }
        let start_block = sample_start_index + k * blocksize;
        let end_block = start_block + blocksize;
        let mut row: Vec<usize> = Vec::new();
        let mut x: usize = sample_start_index;
        while x < start_block
            invariant
                sample_start_index <= x <= start_block,
                start_block == sample_start_index + k * blocksize,
                row@.len() == x - sample_start_index,
                forall|i: int|
                    0 <= i < row@.len() ==> #[trigger] row@[i] == sample_start_index + i,
            decreases start_block - x,
        {
            row.push(x);
            x += 1;
        }
        let mut y: usize = end_block;
        while y < data_length
            invariant
                end_block <= y <= data_length || (end_block > data_length && y == end_block),
                end_block == sample_start_index + k * blocksize + blocksize,
                row@.len() == k * blocksize + (y - end_block),
                forall|i: int|
                    0 <= i < k * blocksize ==> #[trigger] row@[i] == sample_start_index + i,
                forall|i: int|
                    k * blocksize <= i < row@.len() ==> #[trigger] row@[i] == end_block + (i - k
                        * blocksize),
            decreases data_length - y,
        {
            row.push(y);
            y += 1;
        }
        proof {
            assert(end_block <= data_length);
            assert(row@.len() == data_length as int - remainder as int - blocksize as int);
            assert forall|i: int| 0 <= i < row@.len() implies #[trigger] row@[i] == jack_entry(
                blocksize as nat,
                data_length as nat,
                k as nat,
                i as nat,
            ) by {
                if i < k * blocksize {
                    assert(row@[i] == sample_start_index + i);
                } else {
                    assert(row@[i] == end_block + (i - k * blocksize));
                }
            }
        }
        r.push(row);
        k += 1;
    }
    r
}

/// Block jackknife partitioning law: within the tail `[rem, N)` of the index
/// range, the `k`-th held-in sequence contains exactly the indices that lie
/// outside the left-out block `[rem + k*b, rem + (k+1)*b)`.
pub proof fn lemma_jackknife_partitioning(b: nat, n: nat, k: nat, x: nat)
    requires
        b > 0,
        k < jack_num_blocks(b, n),
        n % b <= x < n,
    ensures
        (exists|i: nat|
            i < n - n % b - b && #[trigger] jack_entry(b, n, k, i) == x) <==> !(n % b + k * b <= x
            < n % b + (k + 1) * b),
{
    let rem = n % b;
    let nb = jack_num_blocks(b, n);
    vstd::arithmetic::div_mod::lemma_mod_decreases(n, b);
    vstd::arithmetic::div_mod::lemma_fundamental_div_mod(n as int, b as int);
    vstd::arithmetic::mul::lemma_mul_is_commutative(b as int, n as int / b as int);
    vstd::arithmetic::div_mod::lemma_div_by_multiple(n as int / b as int, b as int);
    assert(nb * b == n - rem);
    vstd::arithmetic::mul::lemma_mul_inequality(k as int + 1, nb as int, b as int);
    vstd::arithmetic::mul::lemma_mul_is_distributive_add_other_way(b as int, k as int, 1);
    assert(k * b + b <= n - rem);
    if rem + k * b <= x < rem + k * b + b {
        // Inside the left-out block: no held-in entry can equal `x`.
        assert forall|i: nat| i < n - rem - b implies #[trigger] jack_entry(b, n, k, i) != x by {
            if i < k * b {
                assert(jack_entry(b, n, k, i) == rem + i);
            } else {
                assert(jack_entry(b, n, k, i) == rem + i + b);
            }
        }
    } else {
        // Outside the block: the entry that equals `x` exists.
        if x < rem + k * b {
            let i = (x - rem) as nat;
            assert(i < k * b);
            assert(jack_entry(b, n, k, i) == x);
            assert(i < n - rem - b);
        } else {
            let i = (x - rem - b) as nat;
            assert(i >= k * b);
            assert(jack_entry(b, n, k, i) == x);
            assert(i < n - rem - b);
        }
    }
}

/// The left-out blocks cover the whole tail `[rem, N)`: every index there
/// falls inside block `k` for exactly one `k`, namely `(x - rem) / b`.
pub proof fn lemma_jackknife_blocks_cover(b: nat, n: nat, x: nat)
    requires
        b > 0,
        n % b <= x < n,
    ensures
        exists|k: nat|
            k < jack_num_blocks(b, n) && n % b + #[trigger] (k * b) <= x < n % b + (k + 1) * b,
{
    let rem = n % b;
    let nb = jack_num_blocks(b, n);
    vstd::arithmetic::div_mod::lemma_mod_decreases(n, b);
    vstd::arithmetic::div_mod::lemma_fundamental_div_mod(n as int, b as int);
    vstd::arithmetic::mul::lemma_mul_is_commutative(b as int, n as int / b as int);
    vstd::arithmetic::div_mod::lemma_div_by_multiple(n as int / b as int, b as int);
    assert(nb * b == n - rem);
    let k = ((x - rem) as nat) / b;
    vstd::arithmetic::div_mod::lemma_fundamental_div_mod((x - rem) as int, b as int);
    vstd::arithmetic::div_mod::lemma_mod_bound((x - rem) as int, b as int);
    vstd::arithmetic::div_mod::lemma_div_pos_is_pos((x - rem) as int, b as int);
    vstd::arithmetic::div_mod::lemma_multiply_divide_lt((x - rem) as int, b as int, nb as int);
    vstd::arithmetic::mul::lemma_mul_is_commutative(b as int, k as int);
    vstd::arithmetic::mul::lemma_mul_is_distributive_add_other_way(b as int, k as int, 1);
    assert(k < nb);
    assert(k * b <= x - rem < (k + 1) * b);
    assert(rem + k * b <= x < rem + (k + 1) * b);
}

} // verus!
