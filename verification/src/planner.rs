use vstd::prelude::*;
use crate::config::{ConfigurationError, WindowConfig};
use vstd::arithmetic::div_mod::{
    lemma_basic_div, lemma_div_is_ordered, lemma_div_nonincreasing, lemma_div_plus_one,
    lemma_div_pos_is_pos, lemma_fundamental_div_mod, lemma_fundamental_div_mod_converse,
    lemma_mod_division_less_than_divisor,
};
use vstd::arithmetic::mul::{lemma_mul_inequality, lemma_mul_nonnegative};

verus! {

/// One unit of work for the transformation service: a contiguous content
/// range plus its flanking context and suffix ranges, all indices into one
/// token sequence.  The content range is `[start, end)`, the leading context
/// is `[context_start, start)`, and the trailing suffix is `[end,
/// suffix_end)`.
#[derive(Clone, Copy, Debug, PartialEq, Eq, Structural)]
pub struct ChunkDescriptor {
    pub index: usize,
    pub start: usize,
    pub end: usize,
    pub context_start: usize,
    pub suffix_end: usize,
}

impl ChunkDescriptor {
    /// The three ranges are ordered and lie within a token sequence of
    /// length `n`.
    pub open spec fn wf(self, n: int) -> bool {
        self.context_start <= self.start <= self.end <= self.suffix_end <= n
    }
}

/// How many chunks a token sequence of length `n` yields under `cfg`:
/// the ceiling of `n / chunk_size`.
pub open spec fn spec_total_chunks(n: int, cfg: WindowConfig) -> int
    recommends
        cfg.is_valid(),
        n >= 0,
{
    (n + cfg.spec_chunk_size() - 1) / cfg.spec_chunk_size()
}

/// The descriptor the planner emits for chunk `i` of a token sequence of
/// length `n`: the content range advances by one chunk size per index and is
/// clamped to `n`; context and suffix extend it by the overlap margin,
/// clamped to `[0, n]`.
pub open spec fn spec_descriptor(n: int, cfg: WindowConfig, i: int) -> ChunkDescriptor
    recommends
        cfg.is_valid(),
        0 <= i < spec_total_chunks(n, cfg),
        0 <= n <= usize::MAX,
{
    let cs = cfg.spec_chunk_size();
    let start = i * cs;
    let end = if start + cs <= n {
        start + cs
    } else {
        n
    };
    let context_start = if start - cfg.overlap_margin >= 0 {
        start - cfg.overlap_margin
    } else {
        0
    };
    let suffix_end = if end + cfg.overlap_margin <= n {
        end + cfg.overlap_margin
    } else {
        n
    };
    ChunkDescriptor {
        index: i as usize,
        start: start as usize,
        end: end as usize,
        context_start: context_start as usize,
        suffix_end: suffix_end as usize,
    }
}

/// `ds` is exactly the plan for a token sequence of length `n` under `cfg`.
pub open spec fn plan_matches(n: int, cfg: WindowConfig, ds: Seq<ChunkDescriptor>) -> bool {
    &&& ds.len() == spec_total_chunks(n, cfg)
    &&& forall|i: int| 0 <= i < ds.len() ==> ds[i] == spec_descriptor(n, cfg, i)
}

/// Any chunk index below the total keeps its content start strictly below
/// `n`, so the descriptor arithmetic stays within the token sequence.
proof fn lemma_start_in_bounds(n: int, cfg: WindowConfig, i: int)
    requires
        cfg.is_valid(),
        n >= 1,
        0 <= i < spec_total_chunks(n, cfg),
    ensures
        i * cfg.spec_chunk_size() <= n - 1,
{
    let cs = cfg.spec_chunk_size();
    lemma_div_plus_one(n - 1, cs);
    assert(spec_total_chunks(n, cfg) == (n - 1) / cs + 1);
    assert(i <= (n - 1) / cs);
    lemma_fundamental_div_mod(n - 1, cs);
    lemma_mod_division_less_than_divisor(n - 1, cs);
    assert(((n - 1) / cs) * cs <= n - 1) by {
        assert(n - 1 == cs * ((n - 1) / cs) + (n - 1) % cs);
    };
    lemma_mul_inequality(i, (n - 1) / cs, cs);
}

/// Deterministically plans the chunk descriptors for a token sequence of
/// length `token_count`.  Rejects exactly the invalid configurations with a
/// `ConfigurationError` before any planning; otherwise the result is the
/// full ordered sequence of descriptors given by `spec_descriptor`.
pub fn plan(token_count: usize, config: &WindowConfig) -> (r: Result<
    Vec<ChunkDescriptor>,
    ConfigurationError,
>)
    ensures
        r is Ok <==> config.is_valid(),
        r matches Ok(ds) ==> plan_matches(token_count as int, *config, ds@),
{
    if config.overlap_margin >= config.context_limit {
        return Err(ConfigurationError);
    }
    let n = token_count;
    let cs = config.context_limit - config.overlap_margin;
    let total: usize = if n == 0 {
        proof {
            lemma_basic_div(cs - 1, cs as int);
        }
        0
    } else {
        proof {
            lemma_div_plus_one(n - 1, cs as int);
            lemma_div_nonincreasing(n - 1, cs as int);
            lemma_div_pos_is_pos(n - 1, cs as int);
        }
        (n - 1) / cs + 1
    };
    assert(total == spec_total_chunks(n as int, *config));
    let mut ds: Vec<ChunkDescriptor> = Vec::new();
    let mut i: usize = 0;
    while i < total
        invariant
            config.is_valid(),
            cs == config.spec_chunk_size(),
            total == spec_total_chunks(n as int, *config),
            i <= total,
            ds@.len() == i,
            forall|j: int| 0 <= j < i ==> ds@[j] == spec_descriptor(n as int, *config, j),
        decreases total - i,
    {
        proof {
            if n == 0 {
                lemma_basic_div(cs - 1, cs as int);
            }
            lemma_start_in_bounds(n as int, *config, i as int);
        }
        let start = i * cs;
        let end = if n - start >= cs {
            start + cs
        } else {
            n
        };
        let context_start = if start >= config.overlap_margin {
            start - config.overlap_margin
        } else {
            0
        };
        let suffix_end = if n - end >= config.overlap_margin {
            end + config.overlap_margin
        } else {
            n
        };
        let d = ChunkDescriptor { index: i, start, end, context_start, suffix_end };
        assert(d == spec_descriptor(n as int, *config, i as int));
        ds.push(d);
        i = i + 1;
    }
    Ok(ds)
}

/// Law (chunk count): the plan holds `ceil(n / chunk_size)` descriptors,
/// zero exactly when the token sequence is empty, and the chunks together
/// advance just far enough to cover `n` tokens.
pub proof fn lemma_chunk_count(n: int, cfg: WindowConfig)
    requires
        n >= 0,
        cfg.is_valid(),
    ensures
        spec_total_chunks(n, cfg) == (n + cfg.spec_chunk_size() - 1) / cfg.spec_chunk_size(),
        spec_total_chunks(n, cfg) == 0 <==> n == 0,
        n <= spec_total_chunks(n, cfg) * cfg.spec_chunk_size(),
        spec_total_chunks(n, cfg) * cfg.spec_chunk_size() < n + cfg.spec_chunk_size(),
{
    let cs = cfg.spec_chunk_size();
    let t = spec_total_chunks(n, cfg);
    if n == 0 {
        lemma_basic_div(cs - 1, cs);
    } else {
        lemma_div_plus_one(n - 1, cs);
        lemma_div_pos_is_pos(n - 1, cs);
    }
    lemma_fundamental_div_mod(n + cs - 1, cs);
    lemma_mod_division_less_than_divisor(n + cs - 1, cs);
    assert(n + cs - 1 == cs * t + (n + cs - 1) % cs);
}

/// The index of the chunk whose content range holds position `t`.
pub open spec fn chunk_of(cfg: WindowConfig, t: int) -> int
    recommends
        cfg.is_valid(),
        t >= 0,
{
    t / cfg.spec_chunk_size()
}

/// Law (partition): over a token sequence of length `n`, the planned content
/// ranges are pairwise disjoint and together cover `[0, n)` exactly once:
/// each position `t` falls in the content range of chunk `chunk_of(cfg, t)`
/// and of no other chunk.
pub proof fn lemma_plan_partition(n: int, cfg: WindowConfig)
    requires
        0 <= n <= usize::MAX,
        cfg.is_valid(),
    ensures
        forall|i: int, j: int|
            0 <= i < j < spec_total_chunks(n, cfg) ==> (#[trigger] spec_descriptor(n, cfg, i)).end
                <= (#[trigger] spec_descriptor(n, cfg, j)).start,
        forall|t: int|
            0 <= t < n ==> {
                &&& 0 <= #[trigger] chunk_of(cfg, t) < spec_total_chunks(n, cfg)
                &&& spec_descriptor(n, cfg, chunk_of(cfg, t)).start <= t
                &&& t < spec_descriptor(n, cfg, chunk_of(cfg, t)).end
            },
        forall|t: int, i: int|
            #![trigger spec_descriptor(n, cfg, i), chunk_of(cfg, t)]
            0 <= t < n && 0 <= i < spec_total_chunks(n, cfg) && spec_descriptor(n, cfg, i).start
                <= t && t < spec_descriptor(n, cfg, i).end ==> i == chunk_of(cfg, t),
{
    let cs = cfg.spec_chunk_size();
    let total = spec_total_chunks(n, cfg);
    lemma_chunk_count(n, cfg);
    assert forall|i: int, j: int| 0 <= i < j < total implies (#[trigger] spec_descriptor(
        n,
        cfg,
        i,
    )).end <= (#[trigger] spec_descriptor(n, cfg, j)).start by {
        lemma_start_in_bounds(n, cfg, i);
        lemma_start_in_bounds(n, cfg, j);
        lemma_mul_nonnegative(i, cs);
        lemma_mul_nonnegative(j, cs);
        lemma_mul_inequality(i + 1, j, cs);
        assert((i + 1) * cs == i * cs + cs) by (nonlinear_arith);
    };
    assert forall|t: int| 0 <= t < n implies {
        &&& 0 <= #[trigger] chunk_of(cfg, t) < total
        &&& spec_descriptor(n, cfg, chunk_of(cfg, t)).start <= t
        &&& t < spec_descriptor(n, cfg, chunk_of(cfg, t)).end
    } by {
        let i = t / cs;
        lemma_div_pos_is_pos(t, cs);
        lemma_div_is_ordered(t, n - 1, cs);
        lemma_div_plus_one(n - 1, cs);
        assert(i < total);
        lemma_fundamental_div_mod(t, cs);
        lemma_mod_division_less_than_divisor(t, cs);
        assert(t == cs * i + t % cs);
        lemma_start_in_bounds(n, cfg, i);
        lemma_mul_nonnegative(i, cs);
        assert(cs * i == i * cs) by (nonlinear_arith);
        assert(i * cs <= t);
        assert(t < i * cs + cs);
        assert(spec_descriptor(n, cfg, i).start <= t);
        assert(t < spec_descriptor(n, cfg, i).end);
    };
    assert forall|t: int, i: int|
        #![trigger spec_descriptor(n, cfg, i), chunk_of(cfg, t)]
        0 <= t < n && 0 <= i < total && spec_descriptor(n, cfg, i).start <= t && t
            < spec_descriptor(n, cfg, i).end implies i == chunk_of(cfg, t) by {
        lemma_start_in_bounds(n, cfg, i);
        lemma_mul_nonnegative(i, cs);
        assert(i * cs <= t < i * cs + cs);
        lemma_fundamental_div_mod_converse(t, cs, i, t - i * cs);
    };
}

/// Law (boundary clamping): the first descriptor's context range is empty,
/// the last descriptor's suffix range is empty, and every descriptor's
/// ranges are ordered and lie within `[0, n]`.
pub proof fn lemma_boundary_clamping(n: int, cfg: WindowConfig)
    requires
        0 <= n <= usize::MAX,
        cfg.is_valid(),
    ensures
        spec_total_chunks(n, cfg) > 0 ==> spec_descriptor(n, cfg, 0).context_start
            == spec_descriptor(n, cfg, 0).start,
        spec_total_chunks(n, cfg) > 0 ==> {
            let last = spec_descriptor(n, cfg, spec_total_chunks(n, cfg) - 1);
            last.suffix_end == last.end && last.end == n
        },
        forall|i: int|
            0 <= i < spec_total_chunks(n, cfg) ==> (#[trigger] spec_descriptor(n, cfg, i)).wf(n),
{
    let cs = cfg.spec_chunk_size();
    let total = spec_total_chunks(n, cfg);
    lemma_chunk_count(n, cfg);
    if total > 0 {
        let last = spec_descriptor(n, cfg, total - 1);
        lemma_start_in_bounds(n, cfg, total - 1);
        assert((total - 1) * cs + cs == total * cs) by (nonlinear_arith);
        assert(last.end == n);
    }
    assert forall|i: int| 0 <= i < total implies (#[trigger] spec_descriptor(n, cfg, i)).wf(
        n,
    ) by {
        lemma_start_in_bounds(n, cfg, i);
        lemma_mul_nonnegative(i, cs);
    };
}

} // verus!
