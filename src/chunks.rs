//! Partition of a simulation into chunks of trials, each run on its own
//! random stream.
//!
//! A base generator seeded from the simulation seed hands out one 128-bit
//! draw per chunk, in chunk order, before any chunk runs. The stream
//! identifier of a chunk is that draw shifted left by one with the lowest
//! bit set, so it is always odd. Which trials form a chunk and which stream
//! it gets therefore depends only on the seed, the trial count and the chunk
//! size.
use vstd::prelude::*;

verus! {

#[verifier::external_type_specification]
#[verifier::external_body]
pub struct ExLcg128Xsl64(rand_pcg::Lcg128Xsl64);

/// Relies on rand_core's `SeedableRng::seed_from_u64` for rand_pcg's
/// `Pcg64`: the base generator of a simulation, built from its seed.
#[verifier::external_body]
fn base_generator(seed: u64) -> (r: rand_pcg::Lcg128Xsl64) {
    <rand_pcg::Pcg64 as rand::SeedableRng>::seed_from_u64(seed)
}

/// Relies on rand's `Rng::gen::<u128>`: the next 128 bits of the generator.
#[verifier::external_body]
fn next_draw(rng: &mut rand_pcg::Lcg128Xsl64) -> (r: u128) {
    rand::Rng::gen::<u128>(rng)
}

/// A run of consecutive trials `start..end` simulated on one stream.
pub struct Chunk {
    pub start: usize,
    pub end: usize,
    pub stream: u128,
}

/// Number of chunks of at most `cs` trials that `n` trials fill.
pub open spec fn chunk_count(n: nat, cs: nat) -> nat
    recommends
        cs > 0,
{
    if n % cs == 0 {
        n / cs
    } else {
        n / cs + 1
    }
}

/// First trial of chunk `k`.
pub open spec fn chunk_start(cs: nat, k: nat) -> nat {
    k * cs
}

/// One past the last trial of chunk `k`.
pub open spec fn chunk_end(n: nat, cs: nat, k: nat) -> nat {
    if (k + 1) * cs <= n {
        (k + 1) * cs
    } else {
        n
    }
}

/// Stream identifier made from a draw of the base generator.
pub open spec fn stream_of(d: u128) -> u128 {
    (d << 1u128) | 1u128
}

/// A chunk starts before the end of the trials exactly when its index is
/// below the chunk count.
proof fn lemma_chunk_index(n: nat, cs: nat, k: nat)
    requires
        cs > 0,
    ensures
        k < chunk_count(n, cs) <==> k * cs < n,
{
    let q = n / cs;
    let r = n % cs;
    assert(n == q * cs + r && 0 <= r < cs) by (nonlinear_arith)
        requires
            cs > 0,
            q == n / cs,
            r == n % cs,
    ;
    if k < chunk_count(n, cs) {
        if r == 0 {
            assert(k * cs < n) by (nonlinear_arith)
                requires
                    k < q,
                    n == q * cs,
                    cs > 0,
            ;
        } else {
            assert(k * cs < n) by (nonlinear_arith)
                requires
                    k <= q,
                    n == q * cs + r,
                    r > 0,
            ;
        }
    } else {
        if r == 0 {
            assert(k * cs >= n) by (nonlinear_arith)
                requires
                    k >= q,
                    n == q * cs,
                    cs > 0,
            ;
        } else {
            assert(k * cs >= n) by (nonlinear_arith)
                requires
                    k >= q + 1,
                    n == q * cs + r,
                    r < cs,
                    cs > 0,
            ;
        }
    }
}

/// Number of chunks of at most `chunk_size` trials that `num_trials` fill.
pub fn num_chunks(num_trials: usize, chunk_size: usize) -> (r: usize)
    requires
        chunk_size > 0,
    ensures
        r == chunk_count(num_trials as nat, chunk_size as nat),
{
    if num_trials % chunk_size == 0 {
        num_trials / chunk_size
    } else {
        assert(num_trials / chunk_size < usize::MAX) by (nonlinear_arith)
            requires
                chunk_size > 1,
        ;
        num_trials / chunk_size + 1
    }
}

/// Stream identifier made from the draw `d`: `d` shifted left by one bit,
/// with the lowest bit set.
pub fn stream_id(d: u128) -> (r: u128)
    ensures
        r == stream_of(d),
        r % 2 == 1,
{
    let r: u128 = (d << 1u128) | 1u128;
    assert(((d << 1u128) | 1u128) % 2 == 1) by (bit_vector);
    r
}

/// Splits `num_trials` trials into consecutive chunks of `chunk_size` trials
/// (the last one possibly shorter) and gives chunk `k` the stream made from
/// `draws[k]`.
pub fn chunks_from_draws(num_trials: usize, chunk_size: usize, draws: &[u128]) -> (r: Vec<Chunk>)
    requires
        chunk_size > 0,
        draws@.len() == chunk_count(num_trials as nat, chunk_size as nat),
    ensures
        r@.len() == draws@.len(),
        forall|k: int|
            0 <= k < r@.len() ==> {
                &&& r@[k].start == chunk_start(chunk_size as nat, k as nat)
                &&& r@[k].end == chunk_end(num_trials as nat, chunk_size as nat, k as nat)
                &&& r@[k].stream == stream_of(draws@[k])
            },
{
    let mut out: Vec<Chunk> = Vec::new();
    let mut start: usize = 0;
    let ghost cs = chunk_size as nat;
    let ghost n = num_trials as nat;
    proof {
        assert(0 * cs == 0) by (nonlinear_arith);
        lemma_chunk_index(n, cs, 0);
    }
    while start < num_trials
        invariant
            cs == chunk_size as nat,
            n == num_trials as nat,
            cs > 0,
            draws@.len() == chunk_count(n, cs),
            start <= num_trials,
            start < n ==> start as nat == out@.len() * cs,
            out@.len() <= chunk_count(n, cs),
            start < n ==> out@.len() < chunk_count(n, cs),
            start >= n ==> out@.len() == chunk_count(n, cs),
            forall|k: int|
                0 <= k < out@.len() ==> {
                    &&& out@[k].start == chunk_start(cs, k as nat)
                    &&& out@[k].end == chunk_end(n, cs, k as nat)
                    &&& out@[k].stream == stream_of(draws@[k])
                },
        decreases num_trials - start,
    {
        let ghost k = out@.len();
        proof {
            lemma_chunk_index(n, cs, k);
            lemma_chunk_index(n, cs, k + 1);
            assert((k + 1) * cs == k * cs + cs) by (nonlinear_arith);
            assert(k + 1 == (k + 1) as nat);
        }
        let end: usize = if num_trials - start > chunk_size {
            start + chunk_size
        } else {
            num_trials
        };
        let stream = stream_id(draws[out.len()]);
        out.push(Chunk { start, end, stream });
        start = end;
        proof {
            assert(out@.len() == k + 1);
            if end < num_trials {
                assert(start as nat == (k + 1) * cs);
            } else {
                assert((k + 1) * cs >= n);
            }
        }
    }
    out
}

/// Splits `num_trials` trials into consecutive chunks of `chunk_size` trials
/// (the last one possibly shorter) and gives each chunk, in order, a stream
/// made from the next draw of the generator seeded with `seed`; all draws are
/// taken before any chunk is built.
pub fn plan_chunks(num_trials: usize, chunk_size: usize, seed: u64) -> (r: Vec<Chunk>)
    requires
        chunk_size > 0,
    ensures
        r@.len() == chunk_count(num_trials as nat, chunk_size as nat),
        forall|k: int|
            0 <= k < r@.len() ==> {
                &&& r@[k].start == chunk_start(chunk_size as nat, k as nat)
                &&& r@[k].end == chunk_end(num_trials as nat, chunk_size as nat, k as nat)
                &&& r@[k].stream % 2 == 1
            },
{
    let count = num_chunks(num_trials, chunk_size);
    let mut base = base_generator(seed);
    let mut draws: Vec<u128> = Vec::new();
    while draws.len() < count
        invariant
            draws@.len() <= count,
        decreases count - draws@.len(),
    {
        let d = next_draw(&mut base);
        draws.push(d);
    }
    let out = chunks_from_draws(num_trials, chunk_size, draws.as_slice());
    proof {
        assert forall|k: int| 0 <= k < out@.len() implies out@[k].stream % 2 == 1 by {
            let d = draws@[k];
            assert(((d << 1u128) | 1u128) % 2 == 1) by (bit_vector);
        }
    }
    out
}

/// The chunks partition the trials: each chunk is a non-empty run of at most
/// `cs` trials, each chunk ends where the next one starts, the first starts at
/// trial 0, the last ends at trial `n`, and every trial `t` lies in chunk
/// `t / cs`.
pub proof fn lemma_chunks_partition(n: nat, cs: nat)
    requires
        cs > 0,
    ensures
        forall|k: nat|
            k < chunk_count(n, cs) ==> {
                &&& chunk_start(cs, k) < chunk_end(n, cs, k) <= n
                &&& chunk_end(n, cs, k) - chunk_start(cs, k) <= cs
                &&& k + 1 < chunk_count(n, cs) ==> chunk_end(n, cs, k) == chunk_start(cs, k + 1)
            },
        chunk_count(n, cs) > 0 ==> chunk_start(cs, 0) == 0,
        chunk_count(n, cs) > 0 ==> chunk_end(n, cs, (chunk_count(n, cs) - 1) as nat) == n,
        forall|t: nat|
            t < n ==> {
                &&& #[trigger] (t / cs) < chunk_count(n, cs)
                &&& chunk_start(cs, t / cs) <= t < chunk_end(n, cs, t / cs)
            },
{
    assert forall|k: nat| k < chunk_count(n, cs) implies {
        &&& chunk_start(cs, k) < chunk_end(n, cs, k) <= n
        &&& chunk_end(n, cs, k) - chunk_start(cs, k) <= cs
        &&& k + 1 < chunk_count(n, cs) ==> chunk_end(n, cs, k) == chunk_start(cs, k + 1)
    } by {
        lemma_chunk_index(n, cs, k);
        lemma_chunk_index(n, cs, k + 1);
        assert((k + 1) * cs == k * cs + cs) by (nonlinear_arith);
    }
    if chunk_count(n, cs) > 0 {
        let last = (chunk_count(n, cs) - 1) as nat;
        lemma_chunk_index(n, cs, last);
        lemma_chunk_index(n, cs, last + 1);
    }
    assert forall|t: nat| t < n implies {
        &&& #[trigger] (t / cs) < chunk_count(n, cs)
        &&& chunk_start(cs, t / cs) <= t < chunk_end(n, cs, t / cs)
    } by {
        let k = t / cs;
        assert(k * cs <= t && t < (k + 1) * cs) by (nonlinear_arith)
            requires
                k == t / cs,
                cs > 0,
        ;
        lemma_chunk_index(n, cs, k);
    }
}

} // verus!
