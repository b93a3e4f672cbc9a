//! Settings of the command-line renderer and how it shares out work.

use vstd::prelude::*;

verus! {

/// The options of the command-line renderer.
pub struct CliConfig {
    /// Scene to render, an `.obj` file; the built-in scene when absent.
    pub input_file_path: Option<String>,
    /// Where to write the image, an `.exr` file.
    pub output: String,
    /// Samples per pixel.
    pub samples: u32,
    /// Seed of the sampler.
    pub seed: Option<u32>,
    /// Image width.
    pub width: u32,
    /// Image height.
    pub height: u32,
    /// Side of a render tile.
    pub tile: u32,
    /// Most bounces of a path.
    pub bounces: u32,
    /// Threads to render with; at most the number of cores is used.
    pub nthreads: Option<usize>,
}

/// How many render threads to start: the requested number when it is below
/// the number of cores, else the number of cores.
pub fn worker_count(nthreads: Option<usize>, cores: usize) -> (n: usize)
    ensures
        n == match nthreads {
            None => cores,
            Some(t) => if t < cores {
                t
            } else {
                cores
            },
        },
{
    match nthreads {
        None => cores,
        Some(n) => {
            if n < cores {
                n
            } else {
                cores
            }
        },
    }
}

/// The sum of a list of counts.
pub open spec fn total(s: Seq<u32>) -> int
    decreases s.len(),
{
    if s.len() == 0 {
        0
    } else {
        total(s.drop_last()) + s.last()
    }
}

/// How many samples each node of a cluster renders when `samples` are
/// shared out by cores: every core gets `samples / total cores` samples, and
/// node `i`, with `cores[i]` cores, renders that many times `cores[i]`.
pub fn split_samples(samples: u32, cores: &Vec<u32>) -> (shares: Vec<u32>)
    requires
        0 < total(cores@) <= u32::MAX,
    ensures
        shares@.len() == cores@.len(),
        forall|i: int|
            0 <= i < cores@.len() ==> #[trigger] shares@[i] == (samples as int / total(cores@))
                * cores@[i],
{
    let mut sum: u32 = 0;
    let mut i: usize = 0;
    while i < cores.len()
        invariant
            i <= cores@.len(),
            total(cores@) <= u32::MAX,
            sum == total(cores@.take(i as int)),
        decreases cores@.len() - i,
    {
        proof {
            assert(cores@.take(i + 1).drop_last() == cores@.take(i as int));
            lemma_total_prefix_le(cores@, i + 1);
        }
        sum = sum + cores[i];
        i += 1;
    }
    proof {
        assert(cores@.take(i as int) == cores@);
    }
    let per_core = samples / sum;
    let mut shares: Vec<u32> = Vec::new();
    let mut k: usize = 0;
    while k < cores.len()
        invariant
            k <= cores@.len(),
            sum == total(cores@),
            sum > 0,
            per_core == samples / sum,
            shares@.len() == k,
            forall|j: int|
                0 <= j < k ==> #[trigger] shares@[j] == (samples as int / total(cores@)) * cores@[j],
        decreases cores@.len() - k,
    {
        proof {
            lemma_total_element_le(cores@, k as int);
            assert(per_core * cores@[k as int] <= samples) by (nonlinear_arith)
                requires
                    per_core == samples / sum,
                    sum > 0,
                    cores@[k as int] <= sum,
            {
                vstd::arithmetic::div_mod::lemma_fundamental_div_mod(samples as int, sum as int);
                vstd::arithmetic::div_mod::lemma_mod_bound(samples as int, sum as int);
            }
        }
        shares.push(per_core * cores[k]);
        k += 1;
    }
    shares
}

/// Sharing out never hands out more samples than were asked for: the shares
/// that `split_samples` returns add up to at most `samples`.
pub proof fn lemma_split_samples_within(samples: u32, cores: Seq<u32>, shares: Seq<u32>)
    requires
        0 < total(cores) <= u32::MAX,
        shares.len() == cores.len(),
        forall|i: int|
            0 <= i < cores.len() ==> #[trigger] shares[i] == (samples as int / total(cores)) * cores[i],
    ensures
        total(shares) <= samples,
{
    let per = samples as int / total(cores);
    lemma_total_scaled(shares, cores, per);
    assert(per * total(cores) <= samples) by (nonlinear_arith)
        requires
            per == samples as int / total(cores),
            total(cores) > 0,
    {
        vstd::arithmetic::div_mod::lemma_fundamental_div_mod(samples as int, total(cores));
        vstd::arithmetic::div_mod::lemma_mod_bound(samples as int, total(cores));
    }
}

proof fn lemma_total_scaled(shares: Seq<u32>, cores: Seq<u32>, per: int)
    requires
        shares.len() == cores.len(),
        forall|i: int| 0 <= i < cores.len() ==> #[trigger] shares[i] == per * cores[i],
    ensures
        total(shares) == per * total(cores),
    decreases cores.len(),
{
    if cores.len() > 0 {
        lemma_total_scaled(shares.drop_last(), cores.drop_last(), per);
        assert(per * total(cores.drop_last()) + per * cores.last() == per * (total(cores.drop_last())
            + cores.last())) by (nonlinear_arith);
    }
}

proof fn lemma_total_prefix_le(s: Seq<u32>, n: int)
    requires
        0 <= n <= s.len(),
    ensures
        total(s.take(n)) <= total(s),
        0 <= total(s.take(n)),
    decreases s.len() - n,
{
    if n < s.len() {
        lemma_total_prefix_le(s, n + 1);
        assert(s.take(n + 1).drop_last() == s.take(n));
        lemma_total_nonneg(s.take(n));
    } else {
        assert(s.take(n) == s);
        lemma_total_nonneg(s);
    }
}

proof fn lemma_total_nonneg(s: Seq<u32>)
    ensures
        total(s) >= 0,
    decreases s.len(),
{
    if s.len() > 0 {
        lemma_total_nonneg(s.drop_last());
    }
}

proof fn lemma_total_element_le(s: Seq<u32>, i: int)
    requires
        0 <= i < s.len(),
    ensures
        s[i] <= total(s),
    decreases s.len(),
{
    lemma_total_nonneg(s.drop_last());
    if i < s.len() - 1 {
        lemma_total_element_le(s.drop_last(), i);
    }
}

} // verus!
