//! How a byte range of a task is cut into runs that each lie inside one page.
use crate::config::PAGE_SIZE;
use crate::mm::model::{end_page, first_page, lemma_page_touches_bounds, page_touches};
use vstd::prelude::*;

verus! {

/// A run of bytes inside one page: the page, where in the page the run
/// starts, and how long it is.
#[derive(Clone, Copy, Debug, PartialEq, Eq, Structural)]
pub struct ByteSpan {
    pub vpn: usize,
    pub offset: usize,
    pub len: usize,
}

impl ByteSpan {
    /// Address of the first byte of the run.
    pub open spec fn start(self) -> int {
        self.vpn * PAGE_SIZE + self.offset
    }

    /// Address after the last byte of the run.
    pub open spec fn end(self) -> int {
        self.start() + self.len
    }

    /// The run is not empty and does not leave its page.
    pub open spec fn in_one_page(self) -> bool {
        self.len > 0 && self.offset + self.len <= PAGE_SIZE
    }
}

/// The part of the range `[start, start + len)` that lies in the `i`-th page
/// that the range touches.
pub open spec fn span_at(start: int, len: int, i: int) -> ByteSpan {
    let vpn = first_page(start) + i;
    let lo = if start > vpn * PAGE_SIZE { start } else { vpn * PAGE_SIZE };
    let hi = if start + len < (vpn + 1) * PAGE_SIZE {
        start + len
    } else {
        (vpn + 1) * PAGE_SIZE
    };
    ByteSpan { vpn: vpn as usize, offset: (lo - vpn * PAGE_SIZE) as usize, len: (hi - lo) as usize }
}

/// The runs that the range `[start, start + len)` is cut into: one for each
/// page that it touches, in the order of their addresses.
pub open spec fn spans_of(start: int, len: int) -> Seq<ByteSpan> {
    Seq::new((end_page(start, len) - first_page(start)) as nat, |i: int| span_at(start, len, i))
}

/// Sum of the lengths of the runs.
pub open spec fn total_len(spans: Seq<ByteSpan>) -> int
    decreases spans.len(),
{
    if spans.len() == 0 {
        0
    } else {
        total_len(spans.drop_last()) + spans.last().len
    }
}

/// The runs of a range lie one behind the other from the start of the range
/// to its end, each inside one page and none of them empty.
pub proof fn lemma_spans_tile_range(start: int, len: int)
    requires
        0 <= start,
        0 <= len,
        start + len <= usize::MAX,
    ensures
        len == 0 <==> spans_of(start, len).len() == 0,
        len > 0 ==> spans_of(start, len).first().start() == start,
        len > 0 ==> spans_of(start, len).last().end() == start + len,
        forall|i: int|
            0 <= i < spans_of(start, len).len() ==> (#[trigger] spans_of(
                start,
                len,
            )[i]).in_one_page(),
        forall|i: int|
            0 <= i < spans_of(start, len).len() ==> (#[trigger] spans_of(start, len)[i]).vpn
                == first_page(start) + i,
        forall|i: int|
            0 <= i < spans_of(start, len).len() ==> page_touches(
                (#[trigger] spans_of(start, len)[i]).vpn as int,
                start,
                len,
            ),
        forall|i: int|
            0 <= i < spans_of(start, len).len() - 1 ==> (#[trigger] spans_of(start, len)[i]).end()
                == spans_of(start, len)[i + 1].start(),
{
    assert forall|i: int| 0 <= i < spans_of(start, len).len() implies page_touches(
        (#[trigger] spans_of(start, len)[i]).vpn as int,
        start,
        len,
    ) by {
        lemma_page_touches_bounds(first_page(start) + i, start, len);
    }
}

/// The runs of a range come in the order of their addresses: each ends
/// before any later one starts.
pub proof fn lemma_spans_in_order(start: int, len: int)
    requires
        0 <= start,
        0 <= len,
        start + len <= usize::MAX,
    ensures
        forall|i: int, j: int|
            0 <= i < j < spans_of(start, len).len() ==> (#[trigger] spans_of(start, len)[i]).end()
                <= (#[trigger] spans_of(start, len)[j]).start(),
{
}

/// A range that is made longer by what is left of its last page, or by less,
/// keeps its runs and gains one.
pub proof fn lemma_spans_grow(start: int, len: int, more: int)
    requires
        0 <= start,
        0 <= len,
        0 < more,
        len == 0 || (start + len) % (PAGE_SIZE as int) == 0,
        more <= PAGE_SIZE - (start + len) % (PAGE_SIZE as int),
    ensures
        spans_of(start, len + more) == spans_of(start, len).push(
            ByteSpan {
                vpn: ((start + len) / (PAGE_SIZE as int)) as usize,
                offset: ((start + len) % (PAGE_SIZE as int)) as usize,
                len: more as usize,
            },
        ),
{
    assert(spans_of(start, len + more) =~= spans_of(start, len).push(
        ByteSpan {
            vpn: ((start + len) / (PAGE_SIZE as int)) as usize,
            offset: ((start + len) % (PAGE_SIZE as int)) as usize,
            len: more as usize,
        },
    ));
}

/// The runs of a range are together as long as the range.
pub proof fn lemma_spans_total_len(start: int, len: int)
    requires
        0 <= start,
        0 <= len,
        start + len <= usize::MAX,
    ensures
        total_len(spans_of(start, len)) == len,
    decreases len,
{
    if len > 0 {
        // Take off what the range holds of its last page.
        let last_base = ((start + len - 1) / (PAGE_SIZE as int)) * PAGE_SIZE;
        let shorter = if last_base > start { last_base - start } else { 0 };
        let more = len - shorter;
        lemma_spans_grow(start, shorter, more);
        lemma_spans_total_len(start, shorter);
        let grown = spans_of(start, len);
        assert(grown.drop_last() =~= spans_of(start, shorter));
    }
}

} // verus!
