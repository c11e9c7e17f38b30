//! Page fragments: contiguous runs of file bytes destined for one output
//! page, together with the overlap discipline between runs on a page.

use vstd::prelude::*;

verus! {

/// A contiguous run of `bytes` bytes, read from `file_offset` in the input
/// file and written at `page_offset` inside one output page.
#[derive(Copy, Clone, Debug, Default, Eq, PartialEq, Structural)]
pub struct PageFragment {
    pub file_offset: u64,
    pub page_offset: u64,
    pub bytes: u64,
}

impl PageFragment {
    pub fn new(file_offset: u64, page_offset: u64, bytes: u64) -> (r: Self)
        ensures
            r == (PageFragment { file_offset, page_offset, bytes }),
    {
        Self { file_offset, page_offset, bytes }
    }
}

/// A fragment is a non-empty run lying entirely inside one page.
pub open spec fn spec_fragment_wf(f: PageFragment, page_size: u64) -> bool {
    &&& 0 < f.bytes
    &&& f.page_offset < page_size
    &&& f.page_offset + f.bytes <= page_size
}

/// The overlap test between a queued fragment and a new run `[off, off+len)`:
/// exactly one of "the new run starts before the queued one ends" and "the
/// new run ends at or before the queued one starts" may hold; otherwise the
/// two runs collide.
pub open spec fn spec_runs_conflict(f: PageFragment, off: u64, len: u64) -> bool {
    (off < f.page_offset + f.bytes) != (off + len <= f.page_offset)
}

/// Whether the new run `[off, off+len)` collides with any queued fragment.
pub open spec fn spec_any_conflict(fs: Seq<PageFragment>, off: u64, len: u64) -> bool {
    exists|k: int| 0 <= k < fs.len() && spec_runs_conflict(#[trigger] fs[k], off, len)
}

/// Two fragments occupy disjoint in-page intervals.
pub open spec fn spec_fragments_disjoint(a: PageFragment, b: PageFragment) -> bool {
    a.page_offset + a.bytes <= b.page_offset || b.page_offset + b.bytes <= a.page_offset
}

/// All fragments queued for one page are pairwise disjoint.
pub open spec fn spec_fragments_pairwise_disjoint(fs: Seq<PageFragment>) -> bool {
    forall|i: int, j: int|
        0 <= i < j < fs.len() ==> spec_fragments_disjoint(#[trigger] fs[i], #[trigger] fs[j])
}

/// A conflict-free pair of non-empty runs is disjoint.
pub proof fn lemma_no_conflict_disjoint(f: PageFragment, g: PageFragment)
    requires
        0 < f.bytes,
        0 < g.bytes,
        !spec_runs_conflict(f, g.page_offset, g.bytes),
    ensures
        spec_fragments_disjoint(f, g),
{
}

} // verus!
