//! Index bookkeeping of the hierarchical 16-bit weight quantization: 256 pages of 256
//! sub-centroids, a weight index being `(page << 8) | sub`. Pages are tagged by how
//! their centroids are stored; this module splits and builds indices, lists the fully
//! stored pages and finds a page among them, and groups weights by page.
use vstd::prelude::*;

verus! {

/// How the 256 sub-centroids of a page are stored.
#[derive(Debug, Clone, Copy, PartialEq, Eq, Structural)]
pub enum PageKindTag {
    /// One value for the whole page.
    Constant,
    /// `slope * sub + offset`.
    Linear,
    /// All 256 values.
    Full,
}

/// The 16-bit index of sub-centroid `sub` of page `page`.
pub open spec fn spec_q16_index(page: u8, sub: u8) -> u16 {
    (page as nat * 256 + sub as nat) as u16
}

/// The 16-bit index of sub-centroid `sub` of page `page`: `(page << 8) | sub`.
pub fn q16_index(page: u8, sub: u8) -> (idx: u16)
    ensures
        idx == spec_q16_index(page, sub),
{
    let idx = ((page as u16) << 8u16) | (sub as u16);
    assert(idx == (page as u16) * 256 + (sub as u16)) by (bit_vector)
        requires idx == ((page as u16) << 8u16) | (sub as u16);
    idx
}

/// Page and sub-centroid of a 16-bit index: its high and low bytes.
pub fn split_q16_index(idx: u16) -> (ps: (u8, u8))
    ensures
        ps.0 == idx / 256,
        ps.1 == idx % 256,
{
    let page = (idx >> 8u16) as u8;
    let sub = (idx & 0xffu16) as u8;
    assert((idx >> 8u16) as u8 == idx / 256 && (idx & 0xffu16) as u8 == idx % 256) by (bit_vector);
    (page, sub)
}

/// Splitting an index built from a page and a sub-centroid gives them back.
pub proof fn lemma_q16_split_index(page: u8, sub: u8)
    ensures
        spec_q16_index(page, sub) / 256 == page,
        spec_q16_index(page, sub) % 256 == sub,
{
}

/// Building an index from the page and sub-centroid of a split index gives it back.
pub proof fn lemma_q16_index_split(idx: u16)
    ensures
        spec_q16_index((idx / 256) as u8, (idx % 256) as u8) == idx,
{
}

/// The pages tagged `Full` among the first `n` tags, in increasing order.
pub open spec fn spec_full_pages(tags: Seq<PageKindTag>, n: int) -> Seq<u8>
    decreases n,
{
    if n <= 0 {
        Seq::empty()
    } else {
        let prev = spec_full_pages(tags, n - 1);
        if tags[n - 1] == PageKindTag::Full {
            prev.push((n - 1) as u8)
        } else {
            prev
        }
    }
}

/// A page is listed exactly when it is tagged `Full`, and the list is strictly increasing.
pub proof fn lemma_full_pages(tags: Seq<PageKindTag>, n: int)
    requires
        0 <= n <= tags.len() <= 256,
    ensures
        forall|p: int| 0 <= p < n ==> (tags[p] == PageKindTag::Full <==> spec_full_pages(tags, n).contains(p as u8)),
        forall|i: int, j: int| 0 <= i < j < spec_full_pages(tags, n).len() ==> spec_full_pages(tags, n)[i] < spec_full_pages(tags, n)[j],
        forall|i: int| 0 <= i < spec_full_pages(tags, n).len() ==> spec_full_pages(tags, n)[i] < n,
        spec_full_pages(tags, n).len() <= n,
    decreases n,
{
    if n > 0 {
        lemma_full_pages(tags, n - 1);
        let prev = spec_full_pages(tags, n - 1);
        let cur = spec_full_pages(tags, n);
        assert forall|p: int| 0 <= p < n implies (tags[p] == PageKindTag::Full <==> cur.contains(p as u8)) by {
            if p < n - 1 {
                if cur.contains(p as u8) && !prev.contains(p as u8) {
                    let k = choose|k: int| 0 <= k < cur.len() && cur[k] == p as u8;
                    assert(k == prev.len());
                    assert(cur[k] == (n - 1) as u8);
                }
                if prev.contains(p as u8) {
                    let k = choose|k: int| 0 <= k < prev.len() && prev[k] == p as u8;
                    assert(cur[k] == p as u8);
                }
            } else {
                if tags[p] == PageKindTag::Full {
                    assert(cur[cur.len() - 1] == p as u8);
                } else if cur.contains(p as u8) {
                    let k = choose|k: int| 0 <= k < cur.len() && cur[k] == p as u8;
                    assert(prev[k] < n - 1);
                }
            }
        }
    }
}

/// The pages tagged `Full`, in increasing order (the pages that get a 256-entry book).
pub fn full_pages(tags: &[PageKindTag]) -> (pages: Vec<u8>)
    requires
        tags@.len() <= 256,
    ensures
        pages@ == spec_full_pages(tags@, tags@.len() as int),
{
    let n = tags.len();
    let mut pages: Vec<u8> = Vec::new();
    let mut p: usize = 0;
    while p < n
        invariant
            n == tags@.len(),
            n <= 256,
            p <= n,
            pages@ == spec_full_pages(tags@, p as int),
        decreases n - p,
    {
        if tags[p] == PageKindTag::Full {
            pages.push(p as u8);
        }
        p = p + 1;
    }
    pages
}

/// Position of the first occurrence of `page` in `pages`, if any.
pub open spec fn spec_page_position(pages: Seq<u8>, page: u8) -> Option<usize> {
    if exists|i: int| 0 <= i < pages.len() && pages[i] == page {
        Some((choose|i: int| 0 <= i < pages.len() && pages[i] == page && forall|j: int| 0 <= j < i ==> pages[j] != page) as usize)
    } else {
        None
    }
}

/// Position of `page` in the list of fully stored pages (where its centroids are kept).
pub fn page_position(pages: &[u8], page: u8) -> (r: Option<usize>)
    ensures
        match r {
            Some(i) => i < pages@.len() && pages@[i as int] == page && forall|j: int| 0 <= j < i ==> pages@[j] != page,
            None => forall|j: int| 0 <= j < pages@.len() ==> pages@[j] != page,
        },
        r == spec_page_position(pages@, page),
{
    let n = pages.len();
    let mut i: usize = 0;
    while i < n
        invariant
            n == pages@.len(),
            i <= n,
            forall|j: int| 0 <= j < i ==> pages@[j] != page,
        decreases n - i,
    {
        if pages[i] == page {
            proof {
                let w = choose|k: int| 0 <= k < pages@.len() && pages@[k] == page && forall|j: int| 0 <= j < k ==> pages@[j] != page;
                assert(0 <= i < pages@.len() && pages@[i as int] == page && forall|j: int| 0 <= j < i ==> pages@[j] != page);
                if w < i {
                    assert(pages@[w] != page);
                } else if w > i {
                    assert(pages@[i as int] != page);
                }
            }
            return Some(i);
        }
        i = i + 1;
    }
    None
}

/// The values whose page assignment is `page`, in order (pairs past the shorter of the
/// two sequences are ignored).
pub open spec fn spec_page_members<T>(values: Seq<T>, pages: Seq<u8>, page: u8, n: int) -> Seq<T>
    decreases n,
{
    if n <= 0 {
        Seq::empty()
    } else {
        let prev = spec_page_members(values, pages, page, n - 1);
        if pages[n - 1] == page {
            prev.push(values[n - 1])
        } else {
            prev
        }
    }
}

/// The number of the first `n` assignments that name `page`.
pub open spec fn spec_page_count(pages: Seq<u8>, page: u8, n: int) -> nat
    decreases n,
{
    if n <= 0 {
        0
    } else {
        spec_page_count(pages, page, n - 1) + (if pages[n - 1] == page { 1nat } else { 0nat })
    }
}

/// Collecting the members of a page collects one value per assignment naming it, and the
/// value of the `k`-th such assignment comes `k`-th.
pub proof fn lemma_page_members<T>(values: Seq<T>, pages: Seq<u8>, page: u8, n: int)
    requires
        0 <= n <= pages.len(),
        n <= values.len(),
    ensures
        spec_page_members(values, pages, page, n).len() == spec_page_count(pages, page, n),
        forall|w: int| 0 <= w < n && pages[w] == page ==>
            spec_page_members(values, pages, page, n)[spec_page_count(pages, page, w) as int] == values[w],
    decreases n,
{
    if n > 0 {
        lemma_page_members(values, pages, page, n - 1);
        lemma_page_count_mono(pages, page, n - 1);
    }
}

/// Counts of assignments to a page grow with the prefix, and an earlier assignment to the
/// page has a smaller count.
pub proof fn lemma_page_count_mono(pages: Seq<u8>, page: u8, n: int)
    requires
        0 <= n <= pages.len(),
    ensures
        forall|w: int| 0 <= w <= n ==> spec_page_count(pages, page, w) <= spec_page_count(pages, page, n),
        forall|w: int| 0 <= w < n && pages[w] == page ==> spec_page_count(pages, page, w) < spec_page_count(pages, page, n),
        spec_page_count(pages, page, n) <= n,
    decreases n,
{
    if n > 0 {
        lemma_page_count_mono(pages, page, n - 1);
    }
}

/// The values assigned to `page`, in order.
pub fn page_members<T: Copy>(values: &[T], pages: &[u8], page: u8) -> (out: Vec<T>)
    ensures
        ({
            let n = if values@.len() <= pages@.len() { values@.len() } else { pages@.len() };
            out@ == spec_page_members(values@, pages@, page, n as int)
        }),
{
    let n = if values.len() <= pages.len() { values.len() } else { pages.len() };
    let mut out: Vec<T> = Vec::new();
    let mut i: usize = 0;
    while i < n
        invariant
            n <= values@.len(),
            n <= pages@.len(),
            i <= n,
            out@ == spec_page_members(values@, pages@, page, i as int),
        decreases n - i,
    {
        if pages[i] == page {
            out.push(values[i]);
        }
        i = i + 1;
    }
    out
}

/// The 16-bit index of assignment `w`: its page, and the sub-centroid the page's own
/// quantization gave to the page's `k`-th member, `k` being the number of earlier
/// assignments to the same page (0 when that list is too short).
pub open spec fn spec_q16_assignment(pages: Seq<u8>, subs: Seq<Seq<u8>>, w: int) -> u16 {
    let p = pages[w];
    let k = spec_page_count(pages, p, w);
    let sub = if k < subs[p as int].len() { subs[p as int][k as int] } else { 0u8 };
    spec_q16_index(p, sub)
}

/// Build the 16-bit indices of the weights from their page assignments `pages` and the
/// sub-centroid assignments `subs[p]` of each page's members (in weight order).
pub fn encode_q16_indices(pages: &[u8], subs: &[Vec<u8>]) -> (indices: Vec<u16>)
    requires
        subs@.len() == 256,
    ensures
        indices@.len() == pages@.len(),
        forall|w: int| 0 <= w < pages@.len() ==> #[trigger] indices@[w] == spec_q16_assignment(pages@, subs@.map_values(|s: Vec<u8>| s@), w),
{
    let ghost sv = subs@.map_values(|s: Vec<u8>| s@);
    let n = pages.len();
    let mut cursors: Vec<usize> = Vec::with_capacity(256);
    let mut c: usize = 0;
    while c < 256
        invariant
            c <= 256,
            cursors@.len() == c,
            forall|p: int| 0 <= p < c ==> #[trigger] cursors@[p] == 0,
        decreases 256 - c,
    {
        cursors.push(0);
        c = c + 1;
    }
    let mut indices: Vec<u16> = Vec::with_capacity(n);
    let mut w: usize = 0;
    while w < n
        invariant
            n == pages@.len(),
            subs@.len() == 256,
            sv == subs@.map_values(|s: Vec<u8>| s@),
            w <= n,
            cursors@.len() == 256,
            forall|p: int| 0 <= p < 256 ==> #[trigger] cursors@[p] == spec_page_count(pages@, p as u8, w as int),
            indices@.len() == w,
            forall|t: int| 0 <= t < w ==> #[trigger] indices@[t] == spec_q16_assignment(pages@, sv, t),
        decreases n - w,
    {
        let p = pages[w];
        let pu = p as usize;
        let cursor = cursors[pu];
        proof {
            lemma_page_count_mono(pages@, p, w as int);
            assert(cursor <= w);
        }
        let sub_list = &subs[pu];
        let sub: u8 = if cursor < sub_list.len() { sub_list[cursor] } else { 0u8 };
        let idx = q16_index(p, sub);
        indices.push(idx);
        cursors.set(pu, cursor + 1);
        proof {
            assert forall|q: int| 0 <= q < 256 implies #[trigger] cursors@[q] == spec_page_count(pages@, q as u8, w + 1) by {
                if q == pu as int {
                } else {
                    assert(pages@[w as int] != q as u8);
                }
            }
        }
        w = w + 1;
    }
    indices
}

} // verus!
