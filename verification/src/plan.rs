//! Segment planner: partitions a known content length into contiguous,
//! non-overlapping byte ranges, one per connection.

use vstd::prelude::*;
use vstd::arithmetic::div_mod::lemma_fundamental_div_mod;
use vstd::arithmetic::div_mod::lemma_mod_division_less_than_divisor;
use vstd::arithmetic::mul::lemma_mul_inequality;
use vstd::arithmetic::mul::lemma_mul_is_distributive_add_other_way;

verus! {

/// One contiguous byte range of the resource, assigned to one fetch unit.
/// `end` is inclusive.
#[derive(Clone, Copy, Debug, PartialEq, Eq, Structural)]
pub struct Segment {
    pub index: usize,
    pub start: u64,
    pub end: u64,
}

/// The number of segments actually planned: the requested connection count,
/// raised to at least 1, then lowered to the content length so that no
/// segment is shorter than one byte.
pub open spec fn effective_count(content_length: u64, conn_count: usize) -> int {
    let base: int = if conn_count >= 1 {
        conn_count as int
    } else {
        1
    };
    if base <= content_length as int {
        base
    } else {
        content_length as int
    }
}

/// The size of every segment but the last, by truncating integer division.
pub open spec fn chunk_size(content_length: u64, conn_count: usize) -> int {
    content_length as int / effective_count(content_length, conn_count)
}

/// Where segment `i` begins.
pub open spec fn seg_start(content_length: u64, conn_count: usize, i: int) -> int {
    i * chunk_size(content_length, conn_count)
}

/// Where segment `i` ends (inclusive); the last segment absorbs the
/// remainder of the division.
pub open spec fn seg_end(content_length: u64, conn_count: usize, i: int) -> int {
    if i == effective_count(content_length, conn_count) - 1 {
        content_length as int - 1
    } else {
        seg_start(content_length, conn_count, i) + chunk_size(content_length, conn_count) - 1
    }
}

/// The segment sequence is exactly the one the planner promises for the
/// given content length and requested connection count.
pub open spec fn plan_matches(segs: Seq<Segment>, content_length: u64, conn_count: usize) -> bool {
    &&& segs.len() == effective_count(content_length, conn_count)
    &&& forall|i: int|
        0 <= i < segs.len() ==> {
            &&& (#[trigger] segs[i]).index == i
            &&& segs[i].start == seg_start(content_length, conn_count, i)
            &&& segs[i].end == seg_end(content_length, conn_count, i)
        }
}

/// Basic bounds on the planned count and chunk: there is at least one
/// segment, at most `content_length` of them, and every chunk holds at
/// least one byte with all chunks together no larger than the resource.
proof fn lemma_count_chunk_bounds(content_length: u64, conn_count: usize)
    requires
        content_length > 0,
    ensures
        1 <= effective_count(content_length, conn_count) <= content_length,
        chunk_size(content_length, conn_count) >= 1,
        effective_count(content_length, conn_count) * chunk_size(content_length, conn_count)
            <= content_length,
{
    let n = effective_count(content_length, conn_count);
    let c = chunk_size(content_length, conn_count);
    lemma_fundamental_div_mod(content_length as int, n);
    lemma_mod_division_less_than_divisor(content_length as int, n);
    assert(content_length as int == n * c + content_length as int % n);
    assert(n * c <= content_length);
    // c >= 1 because the dividend is at least the divisor
    if c < 1 {
        assert(n * c <= n * 0 + n - 1) by {
            assert(c <= 0);
            lemma_mul_inequality(c, 0, n);
        }
        assert(false);
    }
}

/// `start` of any segment in range, and the byte after its nominal chunk,
/// stay within the resource.
proof fn lemma_start_bounds(content_length: u64, conn_count: usize, i: int)
    requires
        content_length > 0,
        0 <= i < effective_count(content_length, conn_count),
    ensures
        0 <= seg_start(content_length, conn_count, i),
        seg_start(content_length, conn_count, i) + chunk_size(content_length, conn_count)
            <= content_length,
{
    let n = effective_count(content_length, conn_count);
    let c = chunk_size(content_length, conn_count);
    lemma_count_chunk_bounds(content_length, conn_count);
    assert(i * c >= 0) by {
        lemma_mul_inequality(0, i, c);
    }
    assert((i + 1) * c <= n * c) by {
        lemma_mul_inequality(i + 1, n, c);
    }
    assert((i + 1) * c == i * c + c) by {
        lemma_mul_is_distributive_add_other_way(c, i, 1);
    }
}

/// Every planned segment holds at least one byte and lies inside
/// `[0, content_length - 1]`.
pub proof fn lemma_seg_in_range(content_length: u64, conn_count: usize, i: int)
    requires
        content_length > 0,
        0 <= i < effective_count(content_length, conn_count),
    ensures
        0 <= seg_start(content_length, conn_count, i),
        seg_start(content_length, conn_count, i) <= seg_end(content_length, conn_count, i),
        seg_end(content_length, conn_count, i) < content_length,
{
    lemma_count_chunk_bounds(content_length, conn_count);
    lemma_start_bounds(content_length, conn_count, i);
}

/// The segments of a plan partition `[0, content_length - 1]` exactly:
/// the first begins at byte 0, each later segment begins one past the end
/// of the one before it, no segment is empty, distinct segments do not
/// overlap, and the last ends at `content_length - 1`.
pub proof fn lemma_plan_partitions(segs: Seq<Segment>, content_length: u64, conn_count: usize)
    requires
        content_length > 0,
        plan_matches(segs, content_length, conn_count),
    ensures
        segs.len() >= 1,
        segs[0].start == 0,
        segs[segs.len() - 1].end == content_length - 1,
        forall|i: int| 0 <= i < segs.len() ==> (#[trigger] segs[i]).start <= segs[i].end,
        forall|i: int| 0 <= i < segs.len() ==> (#[trigger] segs[i]).end < content_length,
        forall|i: int|
            0 <= i < segs.len() - 1 ==> (#[trigger] segs[i]).end + 1 == segs[i + 1].start,
        forall|i: int, j: int|
            0 <= i < j < segs.len() ==> (#[trigger] segs[i]).end < (#[trigger] segs[j]).start,
{
    let n = effective_count(content_length, conn_count);
    let c = chunk_size(content_length, conn_count);
    lemma_count_chunk_bounds(content_length, conn_count);
    assert forall|i: int| 0 <= i < segs.len() implies (#[trigger] segs[i]).start <= segs[i].end
        && segs[i].end < content_length by {
        lemma_seg_in_range(content_length, conn_count, i);
    }
    assert forall|i: int|
        0 <= i < segs.len() - 1 implies (#[trigger] segs[i]).end + 1 == segs[i + 1].start by {
        assert((i + 1) * c == i * c + c) by {
            lemma_mul_is_distributive_add_other_way(c, i, 1);
        }
    }
    assert forall|i: int, j: int|
        0 <= i < j < segs.len() implies (#[trigger] segs[i]).end < (#[trigger] segs[j]).start by {
        lemma_seg_in_range(content_length, conn_count, i);
        if j == n - 1 {
            if i < j {
                assert(segs[i].end == i * c + c - 1);
                assert((i + 1) * c == i * c + c) by {
                    lemma_mul_is_distributive_add_other_way(c, i, 1);
                }
                assert((i + 1) * c <= j * c) by {
                    lemma_mul_inequality(i + 1, j, c);
                }
                lemma_seg_in_range(content_length, conn_count, j);
                assert(segs[j].start == j * c);
            }
        } else {
            assert(segs[i].end == i * c + c - 1);
            assert((i + 1) * c == i * c + c) by {
                lemma_mul_is_distributive_add_other_way(c, i, 1);
            }
            assert((i + 1) * c <= j * c) by {
                lemma_mul_inequality(i + 1, j, c);
            }
        }
    }
    assert(segs[0].start == 0 * c);
}

/// The last segment of any plan ends exactly at `content_length - 1`.
pub proof fn lemma_last_segment_end(segs: Seq<Segment>, content_length: u64, conn_count: usize)
    requires
        content_length > 0,
        plan_matches(segs, content_length, conn_count),
    ensures
        segs.len() >= 1,
        segs[segs.len() - 1].end == content_length - 1,
{
    lemma_count_chunk_bounds(content_length, conn_count);
}

/// When more connections are requested than there are bytes, the planner
/// clamps the segment count to the content length instead of producing
/// degenerate ranges.
pub proof fn lemma_count_clamped(content_length: u64, conn_count: usize)
    requires
        content_length > 0,
        conn_count as int > content_length as int,
    ensures
        effective_count(content_length, conn_count) == content_length as int,
        chunk_size(content_length, conn_count) == 1,
{
    let n = effective_count(content_length, conn_count);
    assert(n == content_length as int);
    lemma_fundamental_div_mod(content_length as int, n);
    lemma_mod_division_less_than_divisor(content_length as int, n);
    lemma_count_chunk_bounds(content_length, conn_count);
    let c = chunk_size(content_length, conn_count);
    if c > 1 {
        assert(n * c >= n * 2) by {
            lemma_mul_inequality(2, c, n);
        }
        assert(false);
    }
}

/// Every byte position of the resource lies inside some planned segment.
pub proof fn lemma_plan_covers(content_length: u64, conn_count: usize, p: int)
    requires
        content_length > 0,
        0 <= p < content_length,
    ensures
        exists|i: int|
            0 <= i < effective_count(content_length, conn_count)
                && (#[trigger] seg_start(content_length, conn_count, i)) <= p
                <= seg_end(content_length, conn_count, i),
{
    let n = effective_count(content_length, conn_count);
    let c = chunk_size(content_length, conn_count);
    lemma_count_chunk_bounds(content_length, conn_count);
    let q = p / c;
    lemma_fundamental_div_mod(p, c);
    lemma_mod_division_less_than_divisor(p, c);
    assert(p == q * c + p % c);
    if q <= n - 2 {
        // segment q is not the last one; its nominal window holds p
        assert(seg_start(content_length, conn_count, q) == q * c);
        assert(q * c <= p < q * c + c);
        assert(q >= 0) by {
            if q < 0 {
                assert(q * c <= -1 * c) by {
                    lemma_mul_inequality(q, -1, c);
                }
            }
        }
        assert(seg_end(content_length, conn_count, q) == q * c + c - 1);
        assert(seg_start(content_length, conn_count, q) <= p <= seg_end(
            content_length,
            conn_count,
            q,
        ));
    } else {
        // p falls at or beyond the start of the last segment
        let i = n - 1;
        assert(q >= n - 1);
        assert((n - 1) * c <= q * c) by {
            lemma_mul_inequality(n - 1, q, c);
        }
        assert(seg_start(content_length, conn_count, i) == i * c);
        assert(seg_start(content_length, conn_count, i) <= p);
        assert(seg_end(content_length, conn_count, i) == content_length - 1);
    }
}

/// Builds the download plan for a resource of `content_length` bytes over
/// at most `conn_count` connections. The requested count is clamped to at
/// least 1 and to at most `content_length`; the segments returned are
/// ascending, contiguous and cover `[0, content_length - 1]` exactly.
pub fn plan(content_length: u64, conn_count: usize) -> (segs: Vec<Segment>)
    requires
        content_length > 0,
    ensures
        plan_matches(segs@, content_length, conn_count),
{
    let requested: u64 = if conn_count >= 1 {
        conn_count as u64
    } else {
        1
    };
    let count_w: u64 = if requested <= content_length {
        requested
    } else {
        content_length
    };
    proof {
        lemma_count_chunk_bounds(content_length, conn_count);
    }
    assert(count_w as int == effective_count(content_length, conn_count));
    let chunk: u64 = content_length / count_w;
    let count: usize = count_w as usize;
    let ghost n = effective_count(content_length, conn_count);
    let ghost c = chunk_size(content_length, conn_count);
    let mut segs: Vec<Segment> = Vec::new();
    let mut i: usize = 0;
    while i < count
        invariant
            content_length > 0,
            count as int == n,
            n == effective_count(content_length, conn_count),
            c == chunk_size(content_length, conn_count),
            chunk as int == c,
            0 <= i <= count,
            segs@.len() == i,
            forall|k: int|
                0 <= k < i ==> {
                    &&& (#[trigger] segs@[k]).index == k
                    &&& segs@[k].start == seg_start(content_length, conn_count, k)
                    &&& segs@[k].end == seg_end(content_length, conn_count, k)
                },
        decreases count - i,
    {
        proof {
            lemma_count_chunk_bounds(content_length, conn_count);
            lemma_start_bounds(content_length, conn_count, i as int);
            lemma_seg_in_range(content_length, conn_count, i as int);
            assert((i as int) * c >= 0);
        }
        let start: u64 = (i as u64) * chunk;
        let end: u64 = if i == count - 1 {
            content_length - 1
        } else {
            start + chunk - 1
        };
        segs.push(Segment { index: i, start, end });
        i = i + 1;
    }
    segs
}

} // verus!
