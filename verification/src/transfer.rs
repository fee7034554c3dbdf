//! Model of how fetched bytes land in the output file: positional writes
//! for segment fetchers, appends for the sequential fetcher, and the proof
//! that disjoint segment writes reassemble the resource byte for byte in
//! whatever order the segments complete.

use vstd::prelude::*;
use vstd::pervasive::VecAdditionalExecFns;
use crate::error::DownloadError;
use crate::plan::Segment;
use crate::plan::effective_count;
use crate::plan::seg_start;
use crate::plan::seg_end;
use crate::plan::plan;
use crate::plan::plan_matches;
use crate::plan::lemma_seg_in_range;
use crate::plan::lemma_plan_covers;

verus! {

/// `buf` with the bytes of `data` placed at offset `off`; everything
/// outside that window keeps its old value, and the length never changes.
pub open spec fn write_at(buf: Seq<u8>, off: int, data: Seq<u8>) -> Seq<u8> {
    Seq::new(
        buf.len(),
        |p: int|
            if off <= p < off + data.len() {
                data[p - off]
            } else {
                buf[p]
            },
    )
}

/// The bytes of the resource that segment `i` of the plan is responsible
/// for, written at that segment's own offset.
pub open spec fn write_segment(
    buf: Seq<u8>,
    source: Seq<u8>,
    content_length: u64,
    conn_count: usize,
    i: int,
) -> Seq<u8> {
    let s = seg_start(content_length, conn_count, i);
    let e = seg_end(content_length, conn_count, i);
    write_at(buf, s, source.subrange(s, e + 1))
}

/// The output buffer after the segments listed in `order` have delivered
/// their bytes, first to last.
pub open spec fn apply_segments(
    buf: Seq<u8>,
    source: Seq<u8>,
    content_length: u64,
    conn_count: usize,
    order: Seq<int>,
) -> Seq<u8>
    decreases order.len(),
{
    if order.len() == 0 {
        buf
    } else {
        apply_segments(
            write_segment(buf, source, content_length, conn_count, order[0]),
            source,
            content_length,
            conn_count,
            order.drop_first(),
        )
    }
}

/// Byte position `p` lies inside segment `i` of the plan.
pub open spec fn covers(content_length: u64, conn_count: usize, i: int, p: int) -> bool {
    seg_start(content_length, conn_count, i) <= p <= seg_end(content_length, conn_count, i)
}

/// Some segment listed in `order` holds byte position `p`.
pub open spec fn order_hits(
    order: Seq<int>,
    content_length: u64,
    conn_count: usize,
    p: int,
) -> bool {
    exists|j: int|
        0 <= j < order.len() && covers(content_length, conn_count, #[trigger] order[j], p)
}

/// After the writes of `order`, a position inside some written segment
/// holds the source byte, and every other position is untouched.
proof fn lemma_apply_pointwise(
    buf: Seq<u8>,
    source: Seq<u8>,
    content_length: u64,
    conn_count: usize,
    order: Seq<int>,
    p: int,
)
    requires
        content_length > 0,
        buf.len() == content_length,
        source.len() == content_length,
        forall|j: int|
            0 <= j < order.len() ==> 0 <= #[trigger] order[j] < effective_count(
                content_length,
                conn_count,
            ),
        0 <= p < content_length,
    ensures
        apply_segments(buf, source, content_length, conn_count, order).len() == content_length,
        order_hits(order, content_length, conn_count, p) ==> apply_segments(
            buf,
            source,
            content_length,
            conn_count,
            order,
        )[p] == source[p],
        !order_hits(order, content_length, conn_count, p) ==> apply_segments(
            buf,
            source,
            content_length,
            conn_count,
            order,
        )[p] == buf[p],
    decreases order.len(),
{
    if order.len() == 0 {
    } else {
        let i = order[0];
        let rest = order.drop_first();
        lemma_seg_in_range(content_length, conn_count, i);
        let buf2 = write_segment(buf, source, content_length, conn_count, i);
        let s = seg_start(content_length, conn_count, i);
        let e = seg_end(content_length, conn_count, i);
        assert(buf2.len() == content_length);
        assert(forall|j: int| 0 <= j < rest.len() ==> rest[j] == order[j + 1]);
        lemma_apply_pointwise(buf2, source, content_length, conn_count, rest, p);
        // a hit on the whole order is a hit on its head or on its tail
        if covers(content_length, conn_count, i, p) {
            assert(buf2[p] == source.subrange(s, e + 1)[p - s]);
            assert(buf2[p] == source[p]);
            assert(order_hits(order, content_length, conn_count, p));
        } else {
            assert(buf2[p] == buf[p]);
            if order_hits(rest, content_length, conn_count, p) {
                let j = choose|j: int|
                    0 <= j < rest.len() && covers(content_length, conn_count, rest[j], p);
                assert(covers(content_length, conn_count, order[j + 1], p));
                assert(order_hits(order, content_length, conn_count, p));
            } else {
                if order_hits(order, content_length, conn_count, p) {
                    let j = choose|j: int|
                        0 <= j < order.len() && covers(content_length, conn_count, order[j], p);
                    assert(j != 0);
                    assert(rest[j - 1] == order[j]);
                    assert(order_hits(rest, content_length, conn_count, p));
                }
            }
        }
    }
}

/// Applying one more segment at the back of the order is one more write
/// on the result of the previous order.
proof fn lemma_apply_snoc(
    buf: Seq<u8>,
    source: Seq<u8>,
    content_length: u64,
    conn_count: usize,
    order: Seq<int>,
    i: int,
)
    ensures
        apply_segments(buf, source, content_length, conn_count, order.push(i)) == write_segment(
            apply_segments(buf, source, content_length, conn_count, order),
            source,
            content_length,
            conn_count,
            i,
        ),
    decreases order.len(),
{
    if order.len() == 0 {
        assert(order.push(i)[0] == i);
        assert(order.push(i).drop_first() =~= Seq::<int>::empty());
        assert(apply_segments(buf, source, content_length, conn_count, order.push(i))
            == apply_segments(
            write_segment(buf, source, content_length, conn_count, i),
            source,
            content_length,
            conn_count,
            Seq::<int>::empty(),
        ));
        assert(apply_segments(buf, source, content_length, conn_count, order) == buf);
    } else {
        assert(order.push(i)[0] == order[0]);
        assert(order.push(i).drop_first() =~= order.drop_first().push(i));
        let buf2 = write_segment(buf, source, content_length, conn_count, order[0]);
        lemma_apply_snoc(buf2, source, content_length, conn_count, order.drop_first(), i);
        assert(apply_segments(buf, source, content_length, conn_count, order.push(i))
            == apply_segments(buf2, source, content_length, conn_count, order.drop_first().push(i)));
        assert(apply_segments(buf, source, content_length, conn_count, order)
            == apply_segments(buf2, source, content_length, conn_count, order.drop_first()));
    }
}

/// Round trip of the parallel strategy: start from any pre-sized buffer,
/// let every planned segment deliver its byte range — in any completion
/// order, duplicates allowed — and the buffer is byte-identical to the
/// resource.
pub proof fn lemma_parallel_roundtrip(
    init: Seq<u8>,
    source: Seq<u8>,
    content_length: u64,
    conn_count: usize,
    order: Seq<int>,
)
    requires
        content_length > 0,
        init.len() == content_length,
        source.len() == content_length,
        forall|j: int|
            0 <= j < order.len() ==> 0 <= #[trigger] order[j] < effective_count(
                content_length,
                conn_count,
            ),
        forall|i: int|
            0 <= i < effective_count(content_length, conn_count) ==> order.contains(i),
    ensures
        apply_segments(init, source, content_length, conn_count, order) == source,
{
    let r = apply_segments(init, source, content_length, conn_count, order);
    assert forall|p: int| 0 <= p < content_length implies r[p] == source[p] by {
        lemma_plan_covers(content_length, conn_count, p);
        let i = choose|i: int|
            0 <= i < effective_count(content_length, conn_count) && (#[trigger] seg_start(
                content_length,
                conn_count,
                i,
            )) <= p <= seg_end(content_length, conn_count, i);
        assert(order.contains(i));
        let j = choose|j: int| 0 <= j < order.len() && order[j] == i;
        assert(covers(content_length, conn_count, order[j], p));
        assert(order_hits(order, content_length, conn_count, p));
        lemma_apply_pointwise(init, source, content_length, conn_count, order, p);
    }
    lemma_apply_pointwise(init, source, content_length, conn_count, order, 0);
    assert(r =~= source);
}

/// Writes `data` into `buf` starting at `offset`, leaving every byte
/// outside the window untouched. This is the in-memory model of one
/// positional write into the shared output file.
pub fn apply_chunk(buf: &mut Vec<u8>, offset: usize, data: &Vec<u8>)
    requires
        offset + data@.len() <= old(buf)@.len(),
    ensures
        final(buf)@ == write_at(old(buf)@, offset as int, data@),
{
    let total = buf.len();
    assert(total == buf@.len());
    let mut k: usize = 0;
    while k < data.len()
        invariant
            offset + data@.len() <= buf@.len(),
            buf@.len() <= usize::MAX,
            buf@.len() == old(buf)@.len(),
            0 <= k <= data@.len(),
            forall|p: int|
                0 <= p < buf@.len() && !(offset <= p < offset + k) ==> buf@[p] == old(buf)@[p],
            forall|p: int| offset <= p < offset + k ==> buf@[p] == data@[p - offset],
        decreases data@.len() - k,
    {
        buf.set(offset + k, data[k]);
        k = k + 1;
    }
    assert(buf@ =~= write_at(old(buf)@, offset as int, data@));
}

/// Appends `data` to the end of `buf`: the in-memory model of one write
/// of the sequential fetcher, which only ever extends the file in order.
pub fn append_chunk(buf: &mut Vec<u8>, data: &Vec<u8>)
    requires
        old(buf)@.len() + data@.len() <= usize::MAX,
    ensures
        final(buf)@ == old(buf)@ + data@,
{
    let mut k: usize = 0;
    while k < data.len()
        invariant
            old(buf)@.len() + data@.len() <= usize::MAX,
            0 <= k <= data@.len(),
            buf@ == old(buf)@ + data@.take(k as int),
        decreases data@.len() - k,
    {
        buf.push(data[k]);
        proof {
            assert(old(buf)@ + data@.take(k as int + 1) =~= (old(buf)@ + data@.take(
                k as int,
            )).push(data@[k as int]));
        }
        k = k + 1;
    }
    assert(buf@ =~= old(buf)@ + data@);
}

/// Copies the inclusive byte range `[start, end]` out of the source.
pub fn take_range(source: &Vec<u8>, start: usize, end: usize) -> (r: Vec<u8>)
    requires
        start <= end < source@.len(),
    ensures
        r@ == source@.subrange(start as int, end as int + 1),
{
    let n = source.len();
    assert(end < n);
    let mut r: Vec<u8> = Vec::new();
    let mut k: usize = start;
    while k <= end
        invariant
            start <= k <= end + 1,
            end < source@.len(),
            source@.len() <= usize::MAX,
            r@ == source@.subrange(start as int, k as int),
        decreases end + 1 - k,
    {
        r.push(source[k]);
        proof {
            assert(source@.subrange(start as int, k as int + 1) =~= source@.subrange(
                start as int,
                k as int,
            ).push(source@[k as int]));
        }
        k = k + 1;
    }
    r
}

/// Executable witness of the parallel round trip: plans the segments for
/// `source`, replays each segment's positional write in the completion
/// order given by `order`, and returns a buffer equal to the source.
pub fn assemble_in_order(source: &Vec<u8>, conn_count: usize, order: &Vec<usize>) -> (out: Vec<u8>)
    requires
        source@.len() > 0,
        forall|j: int|
            0 <= j < order@.len() ==> (#[trigger] order@[j]) < effective_count(
                source@.len() as u64,
                conn_count,
            ),
        forall|i: usize|
            (i as int) < effective_count(source@.len() as u64, conn_count)
                ==> #[trigger] order@.contains(i),
    ensures
        out@ == source@,
{
    let n_bytes = source.len();
    let content_length: u64 = n_bytes as u64;
    assert(source@.len() <= usize::MAX);
    let ghost ord: Seq<int> = order@.map(|_j: int, v: usize| v as int);
    let segs = plan(content_length, conn_count);
    let mut out: Vec<u8> = Vec::new();
    while out.len() < source.len()
        invariant
            out@.len() <= source@.len(),
        decreases source@.len() - out@.len(),
    {
        out.push(0);
    }
    let ghost init = out@;
    let mut k: usize = 0;
    while k < order.len()
        invariant
            content_length == source@.len(),
            source@.len() <= usize::MAX,
            content_length > 0,
            init.len() == content_length,
            ord == order@.map(|_j: int, v: usize| v as int),
            ord.len() == order@.len(),
            forall|j: int|
                0 <= j < order@.len() ==> (#[trigger] order@[j]) < effective_count(
                    content_length,
                    conn_count,
                ),
            plan_matches(segs@, content_length, conn_count),
            0 <= k <= order@.len(),
            out@ == apply_segments(init, source@, content_length, conn_count, ord.take(k as int)),
            out@.len() == content_length,
        decreases order@.len() - k,
    {
        let idx = order[k];
        assert(ord[k as int] == idx as int);
        let seg = segs[idx];
        proof {
            lemma_seg_in_range(content_length, conn_count, idx as int);
            assert(seg == segs@[idx as int]);
            assert(seg.start == seg_start(content_length, conn_count, idx as int));
            assert(seg.end == seg_end(content_length, conn_count, idx as int));
            assert(source@.len() <= usize::MAX);
        }
        let s = seg.start as usize;
        let e = seg.end as usize;
        let data = take_range(source, s, e);
        apply_chunk(&mut out, s, &data);
        proof {
            lemma_apply_snoc(
                init,
                source@,
                content_length,
                conn_count,
                ord.take(k as int),
                idx as int,
            );
            assert(ord.take(k as int + 1) =~= ord.take(k as int).push(idx as int));
        }
        k = k + 1;
    }
    proof {
        assert(ord.take(order@.len() as int) =~= ord);
        assert forall|j: int| 0 <= j < ord.len() implies 0 <= #[trigger] ord[j] < effective_count(
            content_length,
            conn_count,
        ) by {
            assert(ord[j] == order@[j] as int);
        }
        assert forall|i: int|
            0 <= i < effective_count(content_length, conn_count) implies ord.contains(i) by {
            assert(order@.contains(i as usize));
            let j = choose|j: int| 0 <= j < order@.len() && order@[j] == i as usize;
            assert(ord[j] == i);
        }
        lemma_parallel_roundtrip(init, source@, content_length, conn_count, ord);
    }
    out
}

/// Tracks the write cursor of one segment fetcher. The cursor starts at
/// the segment's first byte, advances monotonically, and never leaves the
/// window `[start, end + 1]`; a chunk that would run past the end of the
/// segment is refused before anything is written.
#[derive(Clone, Copy, Debug, PartialEq, Eq, Structural)]
pub struct SegmentCursor {
    pub start: u64,
    pub end: u64,
    pub cursor: u64,
}

impl SegmentCursor {
    /// The cursor is inside its segment's window.
    pub open spec fn wf(self) -> bool {
        self.start <= self.cursor <= self.end + 1 && self.end < u64::MAX
    }

    /// A cursor for `seg`, positioned at the segment's first byte.
    pub fn new(seg: &Segment) -> (c: Self)
        requires
            seg.start <= seg.end,
            seg.end < u64::MAX,
        ensures
            c.wf(),
            c.start == seg.start,
            c.end == seg.end,
            c.cursor == seg.start,
    {
        SegmentCursor { start: seg.start, end: seg.end, cursor: seg.start }
    }

    /// Claims the file offset for the next `len` bytes of the response
    /// body. Succeeds with the current offset and advances exactly when
    /// the bytes still fit inside the segment; a body running past the
    /// segment is a malformed range response and is refused unchanged.
    pub fn claim(&mut self, len: u64) -> (r: Result<u64, DownloadError>)
        requires
            old(self).wf(),
        ensures
            final(self).wf(),
            final(self).start == old(self).start,
            final(self).end == old(self).end,
            len <= old(self).end + 1 - old(self).cursor ==> r == Result::<
                u64,
                DownloadError,
            >::Ok(old(self).cursor) && final(self).cursor == old(self).cursor + len,
            len > old(self).end + 1 - old(self).cursor ==> r == Result::<
                u64,
                DownloadError,
            >::Err(DownloadError::RequestError) && final(self).cursor == old(self).cursor,
    {
        let remaining = self.end + 1 - self.cursor;
        if len <= remaining {
            let at = self.cursor;
            self.cursor = self.cursor + len;
            Result::Ok(at)
        } else {
            Result::Err(DownloadError::RequestError)
        }
    }

    /// The whole segment has been written.
    pub fn is_complete(&self) -> (b: bool)
        requires
            self.wf(),
        ensures
            b == (self.cursor == self.end + 1),
    {
        self.cursor == self.end + 1
    }
}

} // verus!
