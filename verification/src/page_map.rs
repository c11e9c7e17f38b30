//! The page map: an ordered mapping from page-aligned target addresses to
//! the fragments that fill each page. Entries are kept sorted by address;
//! fragments on one page never overlap.

use vstd::prelude::*;

use crate::elf::AddressRangesFromElfError;
use crate::page_fragment::{
    lemma_no_conflict_disjoint, spec_any_conflict, spec_fragment_wf, spec_fragments_disjoint,
    spec_fragments_pairwise_disjoint, spec_runs_conflict, PageFragment,
};

verus! {

#[derive(Debug)]
struct PageEntry {
    addr: u64,
    fragments: Vec<PageFragment>,
}

/// Ordered mapping from page-aligned target address to the list of
/// fragments that fill that page. Viewed as the sequence of
/// `(address, fragments)` pairs in ascending address order.
#[derive(Debug)]
pub struct PageMap {
    entries: Vec<PageEntry>,
}

impl View for PageMap {
    type V = Seq<(u64, Seq<PageFragment>)>;

    closed spec fn view(&self) -> Seq<(u64, Seq<PageFragment>)> {
        self.entries@.map_values(|e: PageEntry| (e.addr, e.fragments@))
    }
}

/// Entry addresses are strictly increasing.
pub open spec fn spec_entries_sorted(v: Seq<(u64, Seq<PageFragment>)>) -> bool {
    forall|i: int, j: int| 0 <= i < j < v.len() ==> (#[trigger] v[i]).0 < (#[trigger] v[j]).0
}

/// Every entry address is below `bound`.
pub open spec fn spec_keys_below(v: Seq<(u64, Seq<PageFragment>)>, bound: u64) -> bool {
    forall|i: int| 0 <= i < v.len() ==> (#[trigger] v[i]).0 < bound
}

/// Well-formedness of a page map for a given page size: sorted, each entry
/// page-aligned, every fragment inside the page, and the fragments of each
/// page pairwise disjoint.
pub open spec fn spec_page_map_wf(v: Seq<(u64, Seq<PageFragment>)>, page_size: u64) -> bool {
    &&& spec_entries_sorted(v)
    &&& forall|i: int| 0 <= i < v.len() ==> (#[trigger] v[i]).0 % page_size == 0
    &&& forall|i: int, k: int|
        0 <= i < v.len() && 0 <= k < v[i].1.len() ==> spec_fragment_wf(
            #[trigger] v[i].1[k],
            page_size,
        )
    &&& forall|i: int| 0 <= i < v.len() ==> spec_fragments_pairwise_disjoint((#[trigger] v[i]).1)
}

/// Index of the first entry whose address is `>= a`, scanning from `i`.
pub open spec fn spec_lower_bound_from(v: Seq<(u64, Seq<PageFragment>)>, a: u64, i: int) -> int
    decreases v.len() - i,
{
    if i >= v.len() {
        i
    } else if v[i].0 >= a {
        i
    } else {
        spec_lower_bound_from(v, a, i + 1)
    }
}

/// Index of the first entry whose address is `>= a` (the insertion point).
pub open spec fn spec_lower_bound(v: Seq<(u64, Seq<PageFragment>)>, a: u64) -> int {
    spec_lower_bound_from(v, a, 0)
}

/// Index of the entry with address `a`, if the map has one at its insertion
/// point.
pub open spec fn spec_find(v: Seq<(u64, Seq<PageFragment>)>, a: u64) -> Option<int> {
    let i = spec_lower_bound(v, a);
    if i < v.len() && v[i].0 == a {
        Some(i)
    } else {
        None
    }
}

pub open spec fn spec_contains_key(v: Seq<(u64, Seq<PageFragment>)>, a: u64) -> bool {
    spec_find(v, a) is Some
}

/// The fragment list stored for address `a`, if any.
pub open spec fn spec_value_of(v: Seq<(u64, Seq<PageFragment>)>, a: u64) -> Option<
    Seq<PageFragment>,
> {
    match spec_find(v, a) {
        Some(i) => Some(v[i].1),
        None => None,
    }
}

/// What adding one fragment to the page at `base` does: a colliding run
/// yields `None`; otherwise the fragment is appended to the page's list,
/// creating the page at its sorted position if it is new.
pub open spec fn spec_seq_add_fragment(
    v: Seq<(u64, Seq<PageFragment>)>,
    base: u64,
    f: PageFragment,
) -> Option<Seq<(u64, Seq<PageFragment>)>> {
    match spec_find(v, base) {
        Some(i) => if spec_any_conflict(v[i].1, f.page_offset, f.bytes) {
            None
        } else {
            Some(v.update(i, (base, v[i].1.push(f))))
        },
        None => Some(v.insert(spec_lower_bound(v, base), (base, seq![f]))),
    }
}

/// What inserting a fresh page with an empty fragment list does.
pub open spec fn spec_seq_insert_empty(v: Seq<(u64, Seq<PageFragment>)>, a: u64) -> Seq<
    (u64, Seq<PageFragment>),
> {
    v.insert(spec_lower_bound(v, a), (a, Seq::empty()))
}

proof fn lemma_lower_bound_from_props(v: Seq<(u64, Seq<PageFragment>)>, a: u64, i: int)
    requires
        0 <= i <= v.len(),
    ensures
        i <= spec_lower_bound_from(v, a, i) <= v.len(),
        forall|j: int| i <= j < spec_lower_bound_from(v, a, i) ==> (#[trigger] v[j]).0 < a,
        spec_lower_bound_from(v, a, i) < v.len() ==> v[spec_lower_bound_from(v, a, i)].0 >= a,
    decreases v.len() - i,
{
    if i >= v.len() {
    } else if v[i].0 >= a {
    } else {
        lemma_lower_bound_from_props(v, a, i + 1);
    }
}

/// The insertion point: everything before it is `< a`, everything at or
/// after it is `>= a` once the entries are sorted.
pub proof fn lemma_lower_bound_props(v: Seq<(u64, Seq<PageFragment>)>, a: u64)
    ensures
        0 <= spec_lower_bound(v, a) <= v.len(),
        forall|j: int| 0 <= j < spec_lower_bound(v, a) ==> (#[trigger] v[j]).0 < a,
        spec_lower_bound(v, a) < v.len() ==> v[spec_lower_bound(v, a)].0 >= a,
{
    lemma_lower_bound_from_props(v, a, 0);
}

/// In a sorted map, `spec_find` succeeds exactly on the stored addresses.
pub proof fn lemma_find_characterization(v: Seq<(u64, Seq<PageFragment>)>, a: u64)
    requires
        spec_entries_sorted(v),
    ensures
        match spec_find(v, a) {
            Some(i) => 0 <= i < v.len() && v[i].0 == a,
            None => forall|k: int| 0 <= k < v.len() ==> (#[trigger] v[k]).0 != a,
        },
{
    lemma_lower_bound_props(v, a);
}

/// In a sorted map, an entry holding address `a` is the one `spec_find`
/// returns.
pub proof fn lemma_sorted_find_key(v: Seq<(u64, Seq<PageFragment>)>, a: u64, j: int)
    requires
        spec_entries_sorted(v),
        0 <= j < v.len(),
        v[j].0 == a,
    ensures
        spec_find(v, a) == Some(j),
{
    lemma_lower_bound_props(v, a);
    let i = spec_lower_bound(v, a);
    if i < j {
        assert(v[i].0 < v[j].0);
    }
    if j < i {
        assert(v[j].0 < a);
    }
}

/// Adding a well-formed fragment on an aligned page keeps the map
/// well-formed; in particular the fragments of each page stay pairwise
/// disjoint.
pub proof fn lemma_add_fragment_wf(
    v: Seq<(u64, Seq<PageFragment>)>,
    base: u64,
    f: PageFragment,
    page_size: u64,
)
    requires
        spec_page_map_wf(v, page_size),
        base % page_size == 0,
        spec_fragment_wf(f, page_size),
        spec_seq_add_fragment(v, base, f) is Some,
    ensures
        spec_page_map_wf(spec_seq_add_fragment(v, base, f).unwrap(), page_size),
{
    lemma_lower_bound_props(v, base);
    let lb = spec_lower_bound(v, base);
    match spec_find(v, base) {
        Some(i) => {
            let fs = v[i].1;
            let fs2 = fs.push(f);
            let v2 = v.update(i, (base, fs2));
            assert(!spec_any_conflict(fs, f.page_offset, f.bytes));
            assert forall|a: int, b: int| 0 <= a < b < fs2.len() implies spec_fragments_disjoint(
                fs2[a],
                fs2[b],
            ) by {
                if b == fs.len() {
                    assert(!spec_runs_conflict(fs[a], f.page_offset, f.bytes));
                    lemma_no_conflict_disjoint(fs[a], f);
                }
            }
            assert forall|k: int, m: int|
                0 <= k < v2.len() && 0 <= m < v2[k].1.len() implies spec_fragment_wf(
                #[trigger] v2[k].1[m],
                page_size,
            ) by {
                if k == i && m == fs.len() {
                } else if k == i {
                    assert(v2[k].1[m] == fs[m]);
                }
            }
        },
        None => {
            let v2 = v.insert(lb, (base, seq![f]));
            assert forall|k: int, m: int|
                0 <= k < v2.len() && 0 <= m < v2[k].1.len() implies spec_fragment_wf(
                #[trigger] v2[k].1[m],
                page_size,
            ) by {
                if k < lb {
                    assert(v2[k] == v[k]);
                } else if k == lb {
                    assert(v2[k].1 == seq![f]);
                } else {
                    assert(v2[k] == v[k - 1]);
                }
            }
            assert forall|a: int, b: int| 0 <= a < b < v2.len() implies (#[trigger] v2[a]).0 < (
            #[trigger] v2[b]).0 by {
                if a < lb && b == lb {
                    assert(v[a].0 < base);
                } else if a == lb && lb < b {
                    assert(v[b - 1].0 >= base);
                    assert(v[b - 1].0 != base);
                }
            }
            assert forall|k: int| 0 <= k < v2.len() implies (#[trigger] v2[k]).0 % page_size
                == 0 by {
                if k < lb {
                    assert(v2[k] == v[k]);
                } else if k > lb {
                    assert(v2[k] == v[k - 1]);
                }
            }
            assert forall|k: int| 0 <= k < v2.len() implies spec_fragments_pairwise_disjoint(
                (#[trigger] v2[k]).1,
            ) by {
                if k < lb {
                    assert(v2[k] == v[k]);
                } else if k > lb {
                    assert(v2[k] == v[k - 1]);
                }
            }
        },
    }
}

/// Adding a fragment on a page below `bound` keeps all page addresses below
/// `bound`.
pub proof fn lemma_add_fragment_keys_below(
    v: Seq<(u64, Seq<PageFragment>)>,
    base: u64,
    f: PageFragment,
    bound: u64,
)
    requires
        spec_keys_below(v, bound),
        base < bound,
        spec_seq_add_fragment(v, base, f) is Some,
    ensures
        spec_keys_below(spec_seq_add_fragment(v, base, f).unwrap(), bound),
{
    lemma_lower_bound_props(v, base);
    let lb = spec_lower_bound(v, base);
    match spec_find(v, base) {
        Some(i) => {
            let v2 = v.update(i, (base, v[i].1.push(f)));
            assert forall|k: int| 0 <= k < v2.len() implies (#[trigger] v2[k]).0 < bound by {
                if k != i {
                    assert(v2[k] == v[k]);
                }
            }
        },
        None => {
            let v2 = v.insert(lb, (base, seq![f]));
            assert forall|k: int| 0 <= k < v2.len() implies (#[trigger] v2[k]).0 < bound by {
                if k < lb {
                    assert(v2[k] == v[k]);
                } else if k > lb {
                    assert(v2[k] == v[k - 1]);
                }
            }
        },
    }
}

/// Inserting a fresh aligned page with no fragments keeps the map
/// well-formed.
pub proof fn lemma_insert_empty_wf(v: Seq<(u64, Seq<PageFragment>)>, a: u64, page_size: u64)
    requires
        spec_page_map_wf(v, page_size),
        a % page_size == 0,
        !spec_contains_key(v, a),
    ensures
        spec_page_map_wf(spec_seq_insert_empty(v, a), page_size),
{
    lemma_lower_bound_props(v, a);
    let lb = spec_lower_bound(v, a);
    let v2 = spec_seq_insert_empty(v, a);
    assert forall|k: int, m: int|
        0 <= k < v2.len() && 0 <= m < v2[k].1.len() implies spec_fragment_wf(
        #[trigger] v2[k].1[m],
        page_size,
    ) by {
        if k < lb {
            assert(v2[k] == v[k]);
        } else if k > lb {
            assert(v2[k] == v[k - 1]);
        }
    }
    assert forall|x: int, b: int| 0 <= x < b < v2.len() implies (#[trigger] v2[x]).0 < (
    #[trigger] v2[b]).0 by {
        if x < lb && b == lb {
            assert(v[x].0 < a);
        } else if x == lb && lb < b {
            assert(v[b - 1].0 >= a);
            assert(v[b - 1].0 != a);
        }
    }
    assert forall|k: int| 0 <= k < v2.len() implies (#[trigger] v2[k]).0 % page_size == 0 by {
        if k < lb {
            assert(v2[k] == v[k]);
        } else if k > lb {
            assert(v2[k] == v[k - 1]);
        }
    }
    assert forall|k: int| 0 <= k < v2.len() implies spec_fragments_pairwise_disjoint(
        (#[trigger] v2[k]).1,
    ) by {
        if k < lb {
            assert(v2[k] == v[k]);
        } else if k > lb {
            assert(v2[k] == v[k - 1]);
        }
    }
}

/// Inserting a fresh page below `bound` keeps all page addresses below
/// `bound`.
pub proof fn lemma_insert_empty_keys_below(v: Seq<(u64, Seq<PageFragment>)>, a: u64, bound: u64)
    requires
        spec_keys_below(v, bound),
        a < bound,
    ensures
        spec_keys_below(spec_seq_insert_empty(v, a), bound),
{
    lemma_lower_bound_props(v, a);
    let lb = spec_lower_bound(v, a);
    let v2 = spec_seq_insert_empty(v, a);
    assert forall|k: int| 0 <= k < v2.len() implies (#[trigger] v2[k]).0 < bound by {
        if k < lb {
            assert(v2[k] == v[k]);
        } else if k > lb {
            assert(v2[k] == v[k - 1]);
        }
    }
}

/// Inserting a fresh page leaves every other page's fragments unchanged and
/// binds the new page to an empty list.
pub proof fn lemma_insert_empty_value(v: Seq<(u64, Seq<PageFragment>)>, a: u64, b: u64)
    requires
        spec_entries_sorted(v),
        !spec_contains_key(v, a),
    ensures
        spec_entries_sorted(spec_seq_insert_empty(v, a)),
        spec_contains_key(spec_seq_insert_empty(v, a), b) == (b == a || spec_contains_key(v, b)),
        b == a ==> spec_value_of(spec_seq_insert_empty(v, a), b) == Some(
            Seq::<PageFragment>::empty(),
        ),
        b != a ==> spec_value_of(spec_seq_insert_empty(v, a), b) == spec_value_of(v, b),
{
    lemma_lower_bound_props(v, a);
    let lb = spec_lower_bound(v, a);
    let v2 = spec_seq_insert_empty(v, a);
    assert forall|x: int, y: int| 0 <= x < y < v2.len() implies (#[trigger] v2[x]).0 < (
    #[trigger] v2[y]).0 by {
        if x < lb && y == lb {
            assert(v[x].0 < a);
        } else if x == lb && lb < y {
            assert(v[y - 1].0 >= a);
            assert(v[y - 1].0 != a);
        }
    }
    lemma_find_characterization(v, b);
    lemma_find_characterization(v2, b);
    if b == a {
        lemma_sorted_find_key(v2, a, lb);
    } else {
        match spec_find(v, b) {
            Some(j) => {
                if j < lb {
                    assert(v2[j] == v[j]);
                    lemma_sorted_find_key(v2, b, j);
                } else {
                    assert(v2[j + 1] == v[j]);
                    lemma_sorted_find_key(v2, b, j + 1);
                }
            },
            None => {
                assert forall|k: int| 0 <= k < v2.len() implies (#[trigger] v2[k]).0 != b by {
                    if k < lb {
                        assert(v2[k] == v[k]);
                    } else if k > lb {
                        assert(v2[k] == v[k - 1]);
                    }
                }
            },
        }
    }
}

/// In a well-formed map the key at index `i` is at least `i` pages up.
pub proof fn lemma_key_index_lower_bound(v: Seq<(u64, Seq<PageFragment>)>, page_size: u64, i: int)
    requires
        spec_page_map_wf(v, page_size),
        0 < page_size,
        0 <= i < v.len(),
    ensures
        v[i].0 >= i * page_size,
    decreases i,
{
    if i > 0 {
        lemma_key_index_lower_bound(v, page_size, i - 1);
        assert(v[i - 1].0 >= (i - 1) * page_size);
        assert(v[i - 1].0 < v[i].0);
        assert(v[i].0 >= v[i - 1].0 + page_size) by (nonlinear_arith)
            requires
                v[i - 1].0 < v[i].0,
                v[i - 1].0 % page_size == 0,
                v[i].0 % page_size == 0,
                page_size > 0,
        ;
        assert(i * page_size == (i - 1) * page_size + page_size) by (nonlinear_arith);
        assert(v[i].0 >= i * page_size);
    } else {
        assert(i * page_size == 0) by (nonlinear_arith)
            requires
                i == 0,
        ;
    }
}

/// A well-formed map whose keys lie below `bound` has fewer than
/// `bound / page_size + 1` pages.
pub proof fn lemma_wf_len_bound(v: Seq<(u64, Seq<PageFragment>)>, page_size: u64, bound: u64)
    requires
        spec_page_map_wf(v, page_size),
        spec_keys_below(v, bound),
        0 < page_size,
    ensures
        (v.len() as int - 1) * page_size < bound,
{
    if v.len() > 0 {
        lemma_key_index_lower_bound(v, page_size, v.len() - 1);
        assert(v[v.len() - 1].0 < bound);
    } else {
        assert((0 - 1) * page_size < 0) by (nonlinear_arith)
            requires
                page_size > 0,
        ;
    }
}

impl PageMap {
    pub fn new() -> (r: Self)
        ensures
            r@ == Seq::<(u64, Seq<PageFragment>)>::empty(),
    {
        let r = PageMap { entries: Vec::new() };
        proof {
            assert(r@ =~= Seq::<(u64, Seq<PageFragment>)>::empty());
        }
        r
    }

    pub fn len(&self) -> (r: usize)
        ensures
            r == self@.len(),
    {
        self.entries.len()
    }

    pub fn is_empty(&self) -> (r: bool)
        ensures
            r == (self@.len() == 0),
    {
        self.entries.len() == 0
    }

    pub fn addr_at(&self, i: usize) -> (r: u64)
        requires
            i < self@.len(),
        ensures
            r == self@[i as int].0,
    {
        self.entries[i].addr
    }

    pub fn fragments_at(&self, i: usize) -> (r: &Vec<PageFragment>)
        requires
            i < self@.len(),
        ensures
            r@ == self@[i as int].1,
    {
        &self.entries[i].fragments
    }

    /// Address of the highest page in the map.
    pub fn last_addr(&self) -> (r: u64)
        requires
            self@.len() > 0,
        ensures
            r == self@[self@.len() - 1].0,
    {
        self.entries[self.entries.len() - 1].addr
    }

    /// All page addresses, in ascending order.
    pub fn keys(&self) -> (r: Vec<u64>)
        ensures
            r@ == self@.map_values(|p: (u64, Seq<PageFragment>)| p.0),
    {
        let mut r: Vec<u64> = Vec::new();
        let mut i: usize = 0;
        while i < self.entries.len()
            invariant
                0 <= i <= self@.len(),
                self@.len() == self.entries@.len(),
                r@ =~= self@.take(i as int).map_values(|p: (u64, Seq<PageFragment>)| p.0),
            decreases self@.len() - i,
        {
            r.push(self.entries[i].addr);
            proof {
                assert(r@ =~= self@.take(i + 1).map_values(
                    |p: (u64, Seq<PageFragment>)| p.0,
                ));
            }
            i = i + 1;
        }
        proof {
            assert(self@.take(self@.len() as int) =~= self@);
        }
        r
    }

    fn find_idx(&self, addr: u64) -> (r: usize)
        ensures
            r == spec_lower_bound(self@, addr),
    {
        let mut i: usize = 0;
        while i < self.entries.len()
            invariant
                0 <= i <= self@.len(),
                self@.len() == self.entries@.len(),
                spec_lower_bound(self@, addr) == spec_lower_bound_from(self@, addr, i as int),
            decreases self@.len() - i,
        {
            if self.entries[i].addr >= addr {
                return i;
            }
            i = i + 1;
        }
        i
    }

    pub fn contains_key(&self, addr: u64) -> (r: bool)
        ensures
            r == spec_contains_key(self@, addr),
    {
        let i = self.find_idx(addr);
        i < self.entries.len() && self.entries[i].addr == addr
    }

    /// Appends a fragment to the page at `base`, creating the page at its
    /// sorted position if it is new, and rejects a run that collides with a
    /// fragment already queued for that page.
    #[verifier::loop_isolation(false)]
    pub fn add_fragment(&mut self, base: u64, f: PageFragment) -> (r: Result<
        (),
        AddressRangesFromElfError,
    >)
        requires
            f.page_offset + f.bytes <= u64::MAX,
            forall|i: int, k: int|
                0 <= i < old(self)@.len() && 0 <= k < (#[trigger] old(self)@[i]).1.len() ==> (
                #[trigger] old(self)@[i].1[k]).page_offset + old(self)@[i].1[k].bytes <= u64::MAX,
        ensures
            match spec_seq_add_fragment(old(self)@, base, f) {
                Some(v2) => r == Ok::<(), AddressRangesFromElfError>(()) && final(self)@ == v2,
                None => r == Err::<(), AddressRangesFromElfError>(
                    AddressRangesFromElfError::SegmentsOverlap,
                ) && final(self)@ == old(self)@,
            },
    {
        let idx = self.find_idx(base);
        proof {
            lemma_lower_bound_props(self@, base);
        }
        if idx < self.entries.len() && self.entries[idx].addr == base {
            proof {
                assert(self@[idx as int].0 == base);
                assert(spec_find(self@, base) == Some(idx as int));
            }
            let frags = &self.entries[idx].fragments;
            let mut j: usize = 0;
            while j < frags.len()
                invariant
                    0 <= j <= frags@.len(),
                    frags@ == self@[idx as int].1,
                    idx < self@.len(),
                    f.page_offset + f.bytes <= u64::MAX,
                    forall|k: int|
                        0 <= k < frags@.len() ==> (#[trigger] frags@[k]).page_offset
                            + frags@[k].bytes <= u64::MAX,
                    forall|k: int|
                        0 <= k < j ==> !spec_runs_conflict(
                            #[trigger] frags@[k],
                            f.page_offset,
                            f.bytes,
                        ),
                decreases frags@.len() - j,
            {
                let fr = frags[j];
                if (f.page_offset < fr.page_offset + fr.bytes) != (f.page_offset + f.bytes
                    <= fr.page_offset) {
                    proof {
                        assert(spec_runs_conflict(frags@[j as int], f.page_offset, f.bytes));
                        assert(spec_any_conflict(self@[idx as int].1, f.page_offset, f.bytes));
                    }
                    return Err(AddressRangesFromElfError::SegmentsOverlap);
                }
                j = j + 1;
            }
            let mut e = self.entries.remove(idx);
            e.fragments.push(f);
            self.entries.insert(idx, e);
            proof {
                assert(self@ =~= old(self)@.update(
                    idx as int,
                    (base, old(self)@[idx as int].1.push(f)),
                ));
            }
            Ok(())
        } else {
            proof {
                assert(spec_find(self@, base) is None);
            }
            let mut fv: Vec<PageFragment> = Vec::new();
            fv.push(f);
            self.entries.insert(idx, PageEntry { addr: base, fragments: fv });
            proof {
                assert(fv@ =~= seq![f]);
                assert(self@ =~= old(self)@.insert(idx as int, (base, seq![f])));
            }
            Ok(())
        }
    }

    /// Inserts a fresh page with an empty fragment list at its sorted
    /// position.
    pub fn insert_empty(&mut self, addr: u64)
        requires
            !spec_contains_key(old(self)@, addr),
        ensures
            final(self)@ == spec_seq_insert_empty(old(self)@, addr),
    {
        let idx = self.find_idx(addr);
        proof {
            lemma_lower_bound_props(self@, addr);
        }
        self.entries.insert(idx, PageEntry { addr, fragments: Vec::new() });
        proof {
            assert(self@ =~= old(self)@.insert(idx as int, (addr, Seq::<PageFragment>::empty())));
        }
    }
}

} // verus!
