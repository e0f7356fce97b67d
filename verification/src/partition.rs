//! The work partitioner: divides the flat output-cell index space
//! `[0, total_cells)` into one contiguous range per worker.
//!
//! The requested thread count is clamped to the number of cells and to at
//! least one. Every range spans `chunk` cells, where `chunk` is the cell
//! count divided by the effective thread count, rounded up; range ends are
//! clamped to the cell count, so the final ranges absorb the remainder of an
//! uneven division (workers near the end may do less work — a deliberate
//! simplicity-over-balance policy).

use vstd::arithmetic::div_mod::lemma_fundamental_div_mod;
use vstd::arithmetic::div_mod::lemma_fundamental_div_mod_converse;
use vstd::arithmetic::div_mod::lemma_mod_pos_bound;
use vstd::prelude::*;

verus! {

/// The number of workers actually used: the request, clamped to the number
/// of cells, and to at least one.
pub open spec fn eff_threads(total: nat, req: nat) -> nat {
    if req == 0 {
        1
    } else if req > total {
        total
    } else {
        req
    }
}

/// Cells per range: the cell count divided by the effective thread count,
/// rounded up.
pub open spec fn chunk_size(total: nat, req: nat) -> nat {
    ((total + eff_threads(total, req) - 1) / eff_threads(total, req) as int) as nat
}

/// A range boundary, clamped so it never passes the end of the index space.
pub open spec fn capped(x: int, total: nat) -> int {
    if x > total {
        total as int
    } else {
        x
    }
}

/// The partition itself: range `t` runs from `t * chunk` to
/// `(t + 1) * chunk`, both clamped to the cell count.
pub open spec fn spec_partition(total: nat, req: nat) -> Seq<(usize, usize)> {
    let chunk = chunk_size(total, req) as int;
    Seq::new(
        eff_threads(total, req),
        |t: int| ((capped(t * chunk, total) as usize), (capped((t + 1) * chunk, total) as usize)),
    )
}

/// Whether flat cell index `e` falls in the half-open range `rg`.
pub open spec fn range_contains(rg: (usize, usize), e: int) -> bool {
    rg.0 <= e < rg.1
}

/// Basic bounds of the chunk size: at least one cell per range, and enough
/// ranges to reach the end of the index space.
proof fn lemma_chunk_bounds(total: nat, req: nat)
    requires
        1 <= total,
    ensures
        1 <= eff_threads(total, req) <= total,
        1 <= chunk_size(total, req),
        eff_threads(total, req) * chunk_size(total, req) >= total,
{
    let eff = eff_threads(total, req) as int;
    let chunk = chunk_size(total, req) as int;
    lemma_fundamental_div_mod(total + eff - 1, eff);
    lemma_mod_pos_bound(total + eff - 1, eff);
    assert(total + eff - 1 == eff * chunk + (total + eff - 1) % eff);
    assert(eff * chunk >= total);
    assert(chunk >= 1) by (nonlinear_arith)
        requires
            eff * chunk >= total >= 1,
            eff <= total,
            chunk >= 0,
    ;
}

/// The shape of every partition: it starts at zero, its ranges are ordered
/// and contiguous, and it ends exactly at `total`.
pub open spec fn partition_chain(s: Seq<(usize, usize)>, total: int) -> bool {
    &&& s.len() >= 1
    &&& s[0].0 == 0
    &&& s[s.len() - 1].1 == total
    &&& forall|t: int| 0 <= t < s.len() ==> (#[trigger] s[t]).0 <= s[t].1 <= total
    &&& forall|t: int| 0 <= t < s.len() - 1 ==> (#[trigger] s[t]).1 == s[t + 1].0
}

/// Every partition is a contiguous chain over `[0, total)`.
pub proof fn lemma_partition_chain(total: nat, req: nat)
    requires
        1 <= total <= usize::MAX,
    ensures
        partition_chain(spec_partition(total, req), total as int),
        spec_partition(total, req).len() == eff_threads(total, req),
{
    let s = spec_partition(total, req);
    let eff = eff_threads(total, req) as int;
    let chunk = chunk_size(total, req) as int;
    lemma_chunk_bounds(total, req);
    assert forall|t: int| 0 <= t < s.len() implies (#[trigger] s[t]).0 <= s[t].1 <= total by {
        assert(t * chunk <= (t + 1) * chunk) by (nonlinear_arith)
            requires
                chunk >= 0,
        ;
        assert(t * chunk >= 0) by (nonlinear_arith)
            requires
                t >= 0,
                chunk >= 0,
        ;
    }
    assert forall|t: int| 0 <= t < s.len() - 1 implies (#[trigger] s[t]).1 == s[t + 1].0 by {
        assert(t * chunk >= 0) by (nonlinear_arith)
            requires
                t >= 0,
                chunk >= 0,
        ;
    }
    assert(eff * chunk >= total);
    assert(s[s.len() - 1].1 == total) by {
        assert(((eff - 1) + 1) * chunk == eff * chunk);
        assert((eff - 1) * chunk >= 0) by (nonlinear_arith)
            requires
                eff >= 1,
                chunk >= 0,
        ;
    }
}

/// Partition completeness: every flat cell index below `total` lies in
/// exactly one range of the partition.
pub proof fn lemma_partition_complete(total: nat, req: nat, e: int)
    requires
        1 <= total <= usize::MAX,
        0 <= e < total,
    ensures
        exists|t: int|
            0 <= t < spec_partition(total, req).len() && range_contains(
                #[trigger] spec_partition(total, req)[t],
                e,
            ),
        forall|t1: int, t2: int|
            (0 <= t1 < spec_partition(total, req).len() && range_contains(
                #[trigger] spec_partition(total, req)[t1],
                e,
            ) && 0 <= t2 < spec_partition(total, req).len() && range_contains(
                #[trigger] spec_partition(total, req)[t2],
                e,
            )) ==> t1 == t2,
{
    let s = spec_partition(total, req);
    let eff = eff_threads(total, req) as int;
    let chunk = chunk_size(total, req) as int;
    lemma_chunk_bounds(total, req);
    // Existence: index `e` falls in range `e / chunk`.
    let t = e / chunk;
    lemma_fundamental_div_mod(e, chunk);
    lemma_mod_pos_bound(e, chunk);
    assert(e == chunk * t + e % chunk);
    assert(t * chunk <= e < (t + 1) * chunk) by (nonlinear_arith)
        requires
            chunk >= 1,
            e == chunk * t + e % chunk,
            0 <= e % chunk < chunk,
    ;
    assert(t >= 0) by (nonlinear_arith)
        requires
            t * chunk <= e,
            e >= 0,
            chunk >= 1,
            e < (t + 1) * chunk,
    ;
    assert(t < eff) by (nonlinear_arith)
        requires
            t * chunk <= e,
            e < total,
            eff * chunk >= total,
            chunk >= 1,
            t >= 0,
            eff >= 1,
    ;
    assert(range_contains(s[t], e));
    // Uniqueness: two distinct ranges cannot share an index, because the end
    // of the earlier one is no later than the start of the later one.
    assert forall|t1: int, t2: int|
        (0 <= t1 < s.len() && range_contains(#[trigger] s[t1], e) && 0 <= t2 < s.len()
            && range_contains(#[trigger] s[t2], e)) implies t1 == t2 by {
        if t1 < t2 {
            assert((t1 + 1) * chunk <= t2 * chunk) by (nonlinear_arith)
                requires
                    t1 < t2,
                    chunk >= 0,
            ;
            assert(false);
        }
        if t2 < t1 {
            assert((t2 + 1) * chunk <= t1 * chunk) by (nonlinear_arith)
                requires
                    t2 < t1,
                    chunk >= 0,
            ;
            assert(false);
        }
    }
}

/// Thread-count clamping: requesting at least as many threads as there are
/// cells partitions the cells exactly as requesting one thread per cell.
pub proof fn lemma_partition_clamp(total: nat, req: nat)
    requires
        1 <= total <= req,
    ensures
        spec_partition(total, req) == spec_partition(total, total),
{
    assert(eff_threads(total, req) == eff_threads(total, total));
    assert(spec_partition(total, req) =~= spec_partition(total, total));
}

/// Computes the partition: one `(start, end)` range per effective worker,
/// covering `[0, total_cells)` without gaps or overlaps.
pub fn partition(total_cells: usize, requested_threads: usize) -> (r: Vec<(usize, usize)>)
    requires
        1 <= total_cells,
    ensures
        r@ == spec_partition(total_cells as nat, requested_threads as nat),
{
    let ghost total = total_cells as nat;
    let ghost req = requested_threads as nat;
    let eff: usize = if requested_threads == 0 {
        1
    } else if requested_threads > total_cells {
        total_cells
    } else {
        requested_threads
    };
    assert(eff == eff_threads(total, req));
    proof {
        lemma_chunk_bounds(total, req);
    }
    // `total_cells / eff`, rounded up, computed without overflow.
    let quotient: usize = total_cells / eff;
    let remainder: usize = total_cells % eff;
    proof {
        let t = total as int;
        let e = eff as int;
        lemma_fundamental_div_mod(t, e);
        lemma_mod_pos_bound(t, e);
        assert(e * (t / e) == (t / e) * e) by (nonlinear_arith);
        if t % e != 0 {
            if e == 1 {
                lemma_fundamental_div_mod_converse(t, 1, t, 0);
                assert(false);
            }
            vstd::arithmetic::div_mod::lemma_div_is_ordered_by_denominator(t, 2, e);
            vstd::arithmetic::div_mod::lemma_div_is_ordered(t, usize::MAX as int, 2);
            assert(t / e + 1 <= usize::MAX);
        }
    }
    let chunk: usize = quotient + (if remainder == 0 {
        0
    } else {
        1
    });
    proof {
        let t = total as int;
        let e = eff as int;
        assert(e * (t / e) == (t / e) * e) by (nonlinear_arith);
        assert((t / e + 1) * e == (t / e) * e + e) by (nonlinear_arith);
        if t % e == 0 {
            lemma_fundamental_div_mod_converse(t + e - 1, e, t / e, e - 1);
        } else {
            lemma_fundamental_div_mod_converse(t + e - 1, e, t / e + 1, (t % e) - 1);
        }
        assert(chunk == chunk_size(total, req));
    }
    let mut r: Vec<(usize, usize)> = Vec::new();
    let mut start: usize = 0;
    for t in 0..eff
        invariant
            total == total_cells as nat,
            req == requested_threads as nat,
            eff == eff_threads(total, req),
            chunk == chunk_size(total, req),
            1 <= chunk,
            1 <= eff <= total <= usize::MAX,
            eff as int * chunk as int >= total,
            r@.len() == t,
            start <= total_cells,
            start == capped(t as int * chunk as int, total),
            forall|u: int| 0 <= u < t ==> r@[u] == spec_partition(total, req)[u],
    {
        let end: usize = if total_cells - start <= chunk {
            total_cells
        } else {
            start + chunk
        };
        proof {
            let ti = t as int;
            let c = chunk as int;
            assert((ti + 1) * c == ti * c + c) by (nonlinear_arith);
            if total_cells - start <= chunk {
                if start as int == total as int {
                    assert(ti * c >= total);
                    assert((ti + 1) * c >= total) by (nonlinear_arith)
                        requires
                            ti * c >= total,
                            c >= 1,
                            (ti + 1) * c == ti * c + c,
                    ;
                } else {
                    assert(start == ti * c);
                    assert((ti + 1) * c >= total);
                }
                assert(end == capped((ti + 1) * c, total));
            } else {
                assert(start < total_cells);
                assert(start == ti * c);
                assert(end == ti * c + c);
                assert(end == capped((ti + 1) * c, total));
            }
            assert((spec_partition(total, req)[ti]).0 == start);
            assert((spec_partition(total, req)[ti]).1 == end);
        }
        r.push((start, end));
        start = end;
    }
    proof {
        assert(r@ =~= spec_partition(total, req));
    }
    r
}

} // verus!
