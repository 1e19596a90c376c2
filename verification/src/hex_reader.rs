//! Intel HEX reader that builds a flat memory image from HEX records.
//!
//! Supports I32HEX images (Extended Linear Address records for 32-bit
//! addressing), the usual format of automotive ECU flash images.
//!
//! The memory image is a list of segments `(start, bytes)` kept sorted by
//! start address. A read looks at the segment with the greatest start address
//! not above the requested address, exactly as an ordered map keyed by start
//! address would.
use vstd::prelude::*;
use crate::text::{decimal, hex_upper, push_decimal, push_hex_upper, push_str};

verus! {

// ========================================================================
// Mathematical model of a memory image
// ========================================================================

/// The model of one segment: its start address and its bytes.
pub type SegmentView = (u32, Seq<u8>);

/// First address after the segment.
pub open spec fn seg_end(s: SegmentView) -> int {
    s.0 + s.1.len()
}

/// Well-formed segment lists: no empty segment, every segment ends within
/// the 32-bit address space, and the segments are sorted and separated by
/// gaps (disjoint and never adjacent), so each segment is a maximal run of
/// stored bytes.
pub open spec fn segs_wf(s: Seq<SegmentView>) -> bool {
    &&& forall|i: int, j: int| 0 <= i < j < s.len() ==> #[trigger] s[i].0 < #[trigger] s[j].0
    &&& forall|i: int, j: int| #![trigger s[i], s[j]] 0 <= i < j < s.len() ==> seg_end(s[i]) < s[j].0
    &&& forall|i: int| 0 <= i < s.len() ==> #[trigger] s[i].1.len() > 0 && seg_end(s[i]) <= u32::MAX
}

/// Index of the last segment whose start is not above `a`, or -1.
pub open spec fn covering_index(s: Seq<SegmentView>, a: int) -> int
    decreases s.len(),
{
    if s.len() == 0 {
        -1
    } else if s.last().0 <= a {
        s.len() - 1
    } else {
        covering_index(s.drop_last(), a)
    }
}

/// Index of the first segment whose start is at or above `a` (the length of
/// the list if there is none).
pub open spec fn first_at_or_after(s: Seq<SegmentView>, a: int) -> int
    decreases s.len(),
{
    if s.len() == 0 {
        0
    } else if s[0].0 >= a {
        0
    } else {
        1 + first_at_or_after(s.drop_first(), a)
    }
}

/// What a read of `len` bytes at `a` gives: the bytes, or `None` if the range
/// is not covered by the segment that holds `a`.
pub open spec fn spec_read(s: Seq<SegmentView>, a: u32, len: nat) -> Option<Seq<u8>> {
    let i = covering_index(s, a as int);
    if len == 0 {
        Some(Seq::<u8>::empty())
    } else if i >= 0 && (a - s[i].0) + len <= s[i].1.len() {
        Some(s[i].1.subrange(a - s[i].0, a - s[i].0 + len))
    } else {
        None
    }
}

/// The byte stored at address `x`, if any.
pub open spec fn byte_at(s: Seq<SegmentView>, x: int) -> Option<u8> {
    let i = covering_index(s, x);
    if i >= 0 && x < seg_end(s[i]) {
        Some(s[i].1[x - s[i].0])
    } else {
        None
    }
}

/// Whether the segment at `i` joins a write at `a`: it holds or ends at `a`.
pub open spec fn joins_write(s: Seq<SegmentView>, i: int, a: int) -> bool {
    i >= 0 && seg_end(s[i]) >= a
}

/// Index of the first segment that a write at `a` replaces.
pub open spec fn merge_lo(s: Seq<SegmentView>, a: int) -> int {
    let i = covering_index(s, a);
    if joins_write(s, i, a) {
        i
    } else {
        i + 1
    }
}

/// Index of the first segment after those that a write ending at `end`
/// replaces (the first starting beyond `end`).
pub open spec fn merge_hi(s: Seq<SegmentView>, end: int) -> int {
    first_at_or_after(s, end + 1)
}

/// The segment that writing `d` at `a` makes of the segments it overlaps or
/// touches: the bytes of the first before `a`, the written bytes, and the
/// bytes of the last beyond the write.
pub open spec fn merged_segment(s: Seq<SegmentView>, a: u32, d: Seq<u8>) -> SegmentView {
    let end = a + d.len();
    let i = covering_index(s, a as int);
    let joins = joins_write(s, i, a as int);
    let lo = merge_lo(s, a as int);
    let hi = merge_hi(s, end);
    let start = if joins { s[i].0 } else { a };
    let prefix = if joins { s[i].1.take(a - s[i].0) } else { Seq::<u8>::empty() };
    let tail = if hi - 1 >= lo && seg_end(s[hi - 1]) > end {
        s[hi - 1].1.skip(end - s[hi - 1].0)
    } else {
        Seq::<u8>::empty()
    };
    (start, prefix + d + tail)
}

/// The segment list after writing `d` at address `a`: the written bytes
/// replace the stored ones, and the segments that the write overlaps or
/// touches become one segment.
pub open spec fn spec_merge(s: Seq<SegmentView>, a: u32, d: Seq<u8>) -> Seq<SegmentView> {
    if d.len() == 0 {
        s
    } else {
        s.take(merge_lo(s, a as int)) + seq![merged_segment(s, a, d)] + s.skip(merge_hi(s, a + d.len()))
    }
}

/// Sum of the segment lengths.
pub open spec fn spec_total(s: Seq<SegmentView>) -> nat
    decreases s.len(),
{
    if s.len() == 0 {
        0
    } else {
        spec_total(s.drop_last()) + s.last().1.len()
    }
}

// ========================================================================
// Lemmas about the model
// ========================================================================

/// In a sorted list, the covering index is the last segment starting at or
/// below `a`.
pub proof fn lemma_covering_index(s: Seq<SegmentView>, a: int)
    requires
        forall|i: int, j: int| 0 <= i < j < s.len() ==> #[trigger] s[i].0 < #[trigger] s[j].0,
    ensures
        -1 <= covering_index(s, a) < s.len(),
        covering_index(s, a) >= 0 ==> s[covering_index(s, a)].0 <= a,
        forall|k: int| covering_index(s, a) < k < s.len() ==> #[trigger] s[k].0 > a,
    decreases s.len(),
{
    if s.len() > 0 && s.last().0 > a {
        let t = s.drop_last();
        lemma_covering_index(t, a);
        assert forall|k: int| covering_index(s, a) < k < s.len() implies #[trigger] s[k].0 > a by {
            if k < s.len() - 1 {
                assert(t[k] == s[k]);
            }
        }
    }
}

/// Any index `i` with `s[i].0 <= a` and only larger starts after it is the
/// covering index of a sorted list.
pub proof fn lemma_covering_index_is(s: Seq<SegmentView>, a: int, i: int)
    requires
        forall|p: int, q: int| 0 <= p < q < s.len() ==> #[trigger] s[p].0 < #[trigger] s[q].0,
        0 <= i < s.len(),
        s[i].0 <= a,
        forall|k: int| i < k < s.len() ==> #[trigger] s[k].0 > a,
    ensures
        covering_index(s, a) == i,
{
    lemma_covering_index(s, a);
    let c = covering_index(s, a);
    if c < i {
        assert(s[i].0 > a);
    } else if c > i {
        assert(s[c].0 > a);
    }
}

/// In a sorted list, every segment before `first_at_or_after` starts below
/// `a`, and the one at that index (if any) starts at or above `a`.
pub proof fn lemma_first_at_or_after(s: Seq<SegmentView>, a: int)
    requires
        forall|i: int, j: int| 0 <= i < j < s.len() ==> #[trigger] s[i].0 < #[trigger] s[j].0,
    ensures
        0 <= first_at_or_after(s, a) <= s.len(),
        forall|k: int| 0 <= k < first_at_or_after(s, a) ==> #[trigger] s[k].0 < a,
        forall|k: int| first_at_or_after(s, a) <= k < s.len() ==> #[trigger] s[k].0 >= a,
    decreases s.len(),
{
    if s.len() > 0 && s[0].0 < a {
        let t = s.drop_first();
        lemma_first_at_or_after(t, a);
        assert forall|k: int| 0 <= k < first_at_or_after(s, a) implies #[trigger] s[k].0 < a by {
            if k > 0 {
                assert(t[k - 1] == s[k]);
            }
        }
        assert forall|k: int| first_at_or_after(s, a) <= k < s.len() implies #[trigger] s[k].0 >= a by {
            assert(t[k - 1] == s[k]);
        }
    } else if s.len() > 0 {
        assert forall|k: int| 0 <= k < s.len() implies #[trigger] s[k].0 >= a by {
            if k > 0 {
                assert(s[0].0 < s[k].0);
            }
        }
    }
}

/// A byte of a segment is the byte stored at its address.
pub proof fn lemma_byte_at_in(s: Seq<SegmentView>, k: int, x: int)
    requires
        segs_wf(s),
        0 <= k < s.len(),
        s[k].0 <= x < seg_end(s[k]),
    ensures
        byte_at(s, x) == Some(s[k].1[x - s[k].0]),
{
    assert forall|j: int| k < j < s.len() implies #[trigger] s[j].0 > x by {
        assert(seg_end(s[k]) < s[j].0);
    }
    lemma_covering_index_is(s, x, k);
}

/// A stored byte lies in the covering segment of its address.
pub proof fn lemma_byte_at_some(s: Seq<SegmentView>, x: int)
    requires
        segs_wf(s),
    ensures
        byte_at(s, x) is Some ==> {
            let c = covering_index(s, x);
            &&& 0 <= c < s.len()
            &&& s[c].0 <= x < seg_end(s[c])
        },
        byte_at(s, x) is None ==> forall|k: int| 0 <= k < s.len() ==> !(s[k].0 <= x < seg_end(#[trigger] s[k])),
{
    lemma_covering_index(s, x);
    if byte_at(s, x) is None {
        assert forall|k: int| 0 <= k < s.len() implies !(s[k].0 <= x < seg_end(#[trigger] s[k])) by {
            if s[k].0 <= x < seg_end(s[k]) {
                lemma_byte_at_in(s, k, x);
            }
        }
    }
}

/// The bytes stored at the `len` addresses from `a` on (meaningful where
/// each of them is stored).
pub open spec fn stored_bytes(s: Seq<SegmentView>, a: int, len: nat) -> Seq<u8> {
    Seq::new(len, |k: int| byte_at(s, a + k)->0)
}

/// A read succeeds exactly when every byte of its range is stored, and gives
/// the stored bytes.
pub proof fn lemma_read_is_bytes(s: Seq<SegmentView>, a: u32, len: nat)
    requires
        segs_wf(s),
    ensures
        (spec_read(s, a, len) is Some) <==> (forall|k: int| 0 <= k < len ==> (#[trigger] byte_at(s, a + k)) is Some),
        spec_read(s, a, len) matches Some(b) ==> b.len() == len && forall|k: int|
            0 <= k < len ==> byte_at(s, a + k) == Some(#[trigger] b[k]),
{
    lemma_covering_index(s, a as int);
    let c = covering_index(s, a as int);
    if len > 0 {
        if spec_read(s, a, len) is Some {
            let b = spec_read(s, a, len)->0;
            assert forall|k: int| 0 <= k < len implies byte_at(s, a + k) == Some(#[trigger] b[k]) by {
                lemma_byte_at_in(s, c, a + k);
            }
            assert forall|k: int| 0 <= k < len implies (#[trigger] byte_at(s, a + k)) is Some by {
                lemma_byte_at_in(s, c, a + k);
            }
        } else if forall|k: int| 0 <= k < len ==> (#[trigger] byte_at(s, a + k)) is Some {
            assert(byte_at(s, a + 0) is Some);
            lemma_byte_at_some(s, a as int);
            let x = seg_end(s[c]);
            assert(byte_at(s, a + (x - a)) is Some);
            lemma_byte_at_some(s, x);
            let c2 = covering_index(s, x);
            if c2 > c {
                assert(seg_end(s[c]) < s[c2].0);
            } else if c2 < c {
                assert(seg_end(s[c2]) < s[c].0);
            }
        }
    } else {
        assert(spec_read(s, a, len) == Some(Seq::<u8>::empty()));
    }
}

/// The addresses that hold a stored byte.
pub open spec fn covered(s: Seq<SegmentView>) -> Set<int> {
    Set::new(|x: int| byte_at(s, x) is Some)
}

/// Each stored byte sits at exactly one address: the number of covered
/// addresses is the sum of the segment lengths.
pub proof fn lemma_total_is_covered_count(s: Seq<SegmentView>)
    requires
        segs_wf(s),
    ensures
        covered(s).finite(),
        covered(s).len() == spec_total(s),
    decreases s.len(),
{
    if s.len() == 0 {
        assert(covered(s) =~= Set::<int>::empty());
    } else {
        let n = s.len() - 1;
        let t = s.drop_last();
        assert(segs_wf(t)) by {
            assert forall|i: int, j: int| #![trigger t[i], t[j]] 0 <= i < j < t.len() implies seg_end(t[i]) < t[j].0 by {
                assert(seg_end(s[i]) < s[j].0);
            }
            assert forall|i: int, j: int| 0 <= i < j < t.len() implies #[trigger] t[i].0 < #[trigger] t[j].0 by {
                assert(s[i].0 < s[j].0);
            }
            assert forall|i: int| 0 <= i < t.len() implies #[trigger] t[i].1.len() > 0 && seg_end(t[i]) <= u32::MAX by {
                assert(t[i] == s[i]);
            }
        }
        lemma_total_is_covered_count(t);
        let range = vstd::set_lib::set_int_range(s[n].0 as int, seg_end(s[n]));
        vstd::set_lib::lemma_int_range(s[n].0 as int, seg_end(s[n]));
        assert forall|x: int| #[trigger] covered(s).contains(x) <==> (covered(t) + range).contains(x) by {
            lemma_byte_at_some(s, x);
            lemma_byte_at_some(t, x);
            if byte_at(s, x) is Some {
                let c = covering_index(s, x);
                if c < n {
                    assert(t[c] == s[c]);
                    lemma_byte_at_in(t, c, x);
                }
            }
            if byte_at(t, x) is Some {
                let c = covering_index(t, x);
                assert(t[c] == s[c]);
                lemma_byte_at_in(s, c, x);
            }
            if range.contains(x) {
                lemma_byte_at_in(s, n, x);
            }
        }
        assert(covered(s) =~= covered(t) + range);
        assert(covered(t).disjoint(range)) by {
            assert forall|x: int| covered(t).contains(x) implies !range.contains(x) by {
                lemma_byte_at_some(t, x);
                let c = covering_index(t, x);
                assert(t[c] == s[c]);
                assert(seg_end(s[c]) < s[n].0);
            }
        }
        vstd::set_lib::lemma_set_disjoint_lens(covered(t), range);
        assert(spec_total(s) == spec_total(t) + s.last().1.len());
    }
}

/// Where the parts of a write lie: the segments before `merge_lo` end before
/// the merged segment, those from `merge_lo` up to `merge_hi` lie within it,
/// those from `merge_hi` on start after it.
proof fn lemma_merge_bounds(s: Seq<SegmentView>, a: u32, d: Seq<u8>)
    requires
        segs_wf(s),
        a + d.len() <= u32::MAX,
        d.len() > 0,
    ensures
        ({
            let end = a + d.len();
            let i = covering_index(s, a as int);
            let lo = merge_lo(s, a as int);
            let hi = merge_hi(s, end);
            let m = merged_segment(s, a, d);
            &&& 0 <= lo <= hi <= s.len()
            &&& joins_write(s, i, a as int) ==> lo == i && lo < hi && s[i].0 <= a <= seg_end(s[i]) && m.0 == s[i].0
            &&& !joins_write(s, i, a as int) ==> m.0 == a
            &&& m.0 <= a
            &&& a + d.len() <= seg_end(m) <= u32::MAX
            &&& m.1.len() > 0
            &&& forall|k: int| 0 <= k < lo ==> seg_end(#[trigger] s[k]) < m.0
            &&& forall|k: int| lo <= k < hi ==> m.0 <= (#[trigger] s[k]).0 && seg_end(s[k]) <= seg_end(m)
            &&& forall|k: int| lo <= k < hi && k != i ==> a < (#[trigger] s[k]).0 <= end
            &&& forall|k: int| hi <= k < s.len() ==> seg_end(m) < (#[trigger] s[k]).0
        }),
{
    let end = a + d.len();
    let i = covering_index(s, a as int);
    let joins = joins_write(s, i, a as int);
    let lo = merge_lo(s, a as int);
    let hi = merge_hi(s, end);
    let m = merged_segment(s, a, d);
    lemma_covering_index(s, a as int);
    lemma_first_at_or_after(s, end + 1);
    if i >= 0 && i >= hi {
        assert(s[i].0 >= end + 1);
    }
    let prefix = if joins { s[i].1.take(a - s[i].0) } else { Seq::<u8>::empty() };
    let has_tail = hi - 1 >= lo && seg_end(s[hi - 1]) > end;
    assert(m.1.len() == prefix.len() + d.len() + (if has_tail { seg_end(s[hi - 1]) - end } else { 0 }));
    assert(m.0 + prefix.len() == a);
    assert(seg_end(m) == if has_tail { seg_end(s[hi - 1]) } else { end as int });
    assert forall|k: int| 0 <= k < lo implies seg_end(#[trigger] s[k]) < m.0 by {
        if joins {
            assert(seg_end(s[k]) < s[i].0);
        } else if k < i {
            assert(seg_end(s[k]) < s[i].0);
        }
    }
    assert forall|k: int| lo <= k < hi implies m.0 <= (#[trigger] s[k]).0 && seg_end(s[k]) <= seg_end(m) by {
        if k < hi - 1 {
            assert(seg_end(s[k]) < s[k + 1].0);
            assert(s[k + 1].0 < end + 1);
            if has_tail {
                assert(seg_end(s[k]) < s[hi - 1].0);
            }
        }
    }
    assert forall|k: int| hi <= k < s.len() implies seg_end(m) < (#[trigger] s[k]).0 by {
        if has_tail {
            assert(seg_end(s[hi - 1]) < s[k].0);
        }
    }
}

/// Writing keeps a segment list well formed: sorted, separated, no empty
/// segment.
pub proof fn lemma_merge_wf(s: Seq<SegmentView>, a: u32, d: Seq<u8>)
    requires
        segs_wf(s),
        a + d.len() <= u32::MAX,
    ensures
        segs_wf(spec_merge(s, a, d)),
{
    if d.len() > 0 {
        let lo = merge_lo(s, a as int);
        let hi = merge_hi(s, a + d.len());
        let m = merged_segment(s, a, d);
        let r = spec_merge(s, a, d);
        lemma_merge_bounds(s, a, d);
        assert(r.len() == lo + 1 + s.len() - hi);
        assert forall|p: int| 0 <= p < r.len() implies #[trigger] r[p] == (if p < lo {
            s[p]
        } else if p == lo {
            m
        } else {
            s[p - lo - 1 + hi]
        }) by {}
        assert forall|p: int, q: int| #![trigger r[p], r[q]] 0 <= p < q < r.len() implies seg_end(r[p]) < r[q].0 by {
            if q < lo {
                assert(seg_end(s[p]) < s[q].0);
            } else if q > lo && p > lo {
                assert(seg_end(s[p - lo - 1 + hi]) < s[q - lo - 1 + hi].0);
            } else if q > lo && p < lo {
                assert(seg_end(s[p]) < s[q - lo - 1 + hi].0);
            }
        }
        assert forall|p: int, q: int| 0 <= p < q < r.len() implies #[trigger] r[p].0 < #[trigger] r[q].0 by {
            assert(seg_end(r[p]) < r[q].0);
            assert(r[p].1.len() > 0) by {
                if p != lo {
                    assert(p < lo ==> r[p] == s[p]);
                }
            }
        }
        assert forall|p: int| 0 <= p < r.len() implies #[trigger] r[p].1.len() > 0 && seg_end(r[p]) <= u32::MAX by {}
    }
}

/// After a write, each written address holds the written byte and every
/// other address holds what it held before (or nothing, as before).
pub proof fn lemma_merge_image(s: Seq<SegmentView>, a: u32, d: Seq<u8>, x: int)
    requires
        segs_wf(s),
        a + d.len() <= u32::MAX,
    ensures
        byte_at(spec_merge(s, a, d), x) == if a <= x < a + d.len() {
            Some(d[x - a])
        } else {
            byte_at(s, x)
        },
{
    if d.len() > 0 {
        let end = a + d.len();
        let i = covering_index(s, a as int);
        let lo = merge_lo(s, a as int);
        let hi = merge_hi(s, end);
        let m = merged_segment(s, a, d);
        let r = spec_merge(s, a, d);
        lemma_merge_bounds(s, a, d);
        lemma_merge_wf(s, a, d);
        lemma_first_at_or_after(s, end + 1);
        assert(r[lo] == m);
        let joins = joins_write(s, i, a as int);
        let prefix = if joins { s[i].1.take(a - s[i].0) } else { Seq::<u8>::empty() };
        let has_tail = hi - 1 >= lo && seg_end(s[hi - 1]) > end;
        let tail = if has_tail { s[hi - 1].1.skip(end - s[hi - 1].0) } else { Seq::<u8>::empty() };
        assert(m.1 == prefix + d + tail);
        assert(m.0 + prefix.len() == a);
        if a <= x < end {
            lemma_byte_at_in(r, lo, x);
            assert(m.1[x - m.0] == d[x - a]);
        } else {
            lemma_byte_at_some(s, x);
            if byte_at(s, x) is Some {
                let k = covering_index(s, x);
                if k < lo {
                    assert(r[k] == s[k]);
                    lemma_byte_at_in(s, k, x);
                    lemma_byte_at_in(r, k, x);
                } else if k >= hi {
                    let q = k - hi + lo + 1;
                    assert(r[q] == s[k]);
                    lemma_byte_at_in(s, k, x);
                    lemma_byte_at_in(r, q, x);
                } else if x < a {
                    // x is before the write, in the first merged segment.
                    assert(joins && k == i) by {
                        if k != i {
                            assert(a < s[k].0);
                        }
                    }
                    lemma_byte_at_in(s, k, x);
                    lemma_byte_at_in(r, lo, x);
                    assert(m.1[x - m.0] == prefix[x - m.0]);
                } else {
                    // x is after the write, in the last merged segment.
                    assert(k == hi - 1) by {
                        if k < hi - 1 {
                            assert(seg_end(s[k]) < s[k + 1].0);
                            assert(s[k + 1].0 < end + 1);
                        }
                    }
                    assert(has_tail);
                    lemma_byte_at_in(s, k, x);
                    lemma_byte_at_in(r, lo, x);
                    assert(m.1[x - m.0] == tail[x - end]);
                }
            } else {
                assert forall|q: int| 0 <= q < r.len() implies !(r[q].0 <= x < seg_end(#[trigger] r[q])) by {
                    if q < lo {
                        assert(r[q] == s[q]);
                    } else if q > lo {
                        assert(r[q] == s[q - lo - 1 + hi]);
                    } else if m.0 <= x < seg_end(m) {
                        if x < a {
                            assert(joins);
                            assert(s[i].0 <= x < seg_end(s[i]));
                        } else {
                            assert(has_tail);
                            assert(s[hi - 1].0 <= end);
                            assert(s[hi - 1].0 <= x < seg_end(s[hi - 1]));
                        }
                    }
                }
                lemma_byte_at_some(r, x);
            }
        }
    }
}

/// Reading back after a write: the written range reads as the written bytes,
/// each written address reads as its byte, and every single-byte read outside
/// the write gives what it gave before.
pub proof fn lemma_merge_then_read(s: Seq<SegmentView>, a: u32, d: Seq<u8>)
    requires
        segs_wf(s),
        a + d.len() <= u32::MAX,
    ensures
        spec_read(spec_merge(s, a, d), a, d.len()) == Some(d),
        forall|k: int| 0 <= k < d.len() ==> spec_read(spec_merge(s, a, d), (a + k) as u32, 1) == Some(seq![d[k]]),
        forall|x: u32| !(a <= x < a + d.len()) ==> #[trigger] spec_read(spec_merge(s, a, d), x, 1) == spec_read(s, x, 1),
{
    let r = spec_merge(s, a, d);
    lemma_merge_wf(s, a, d);
    assert forall|k: int| 0 <= k < d.len() implies (#[trigger] byte_at(r, a + k)) == Some(d[k]) by {
        lemma_merge_image(s, a, d, a + k);
    }
    lemma_read_is_bytes(r, a, d.len());
    if spec_read(r, a, d.len()) is Some {
        assert(spec_read(r, a, d.len())->0 =~= d);
    }
    assert forall|k: int| 0 <= k < d.len() implies spec_read(r, (a + k) as u32, 1) == Some(seq![d[k]]) by {
        let y = (a + k) as u32;
        lemma_merge_image(s, a, d, y as int);
        lemma_read_is_bytes(r, y, 1);
        assert(byte_at(r, y + 0) == Some(d[k]));
        assert(spec_read(r, y, 1)->0 =~= seq![d[k]]);
    }
    assert forall|x: u32| !(a <= x < a + d.len()) implies #[trigger] spec_read(r, x, 1) == spec_read(s, x, 1) by {
        lemma_merge_image(s, a, d, x as int);
        lemma_read_is_bytes(r, x, 1);
        lemma_read_is_bytes(s, x, 1);
        assert(byte_at(r, x + 0) == byte_at(s, x + 0));
        if spec_read(s, x, 1) is Some {
            assert(spec_read(r, x, 1)->0 =~= spec_read(s, x, 1)->0);
        }
    }
}

// ========================================================================
// HEX records
// ========================================================================

/// One record of an Intel HEX file.
#[derive(Debug, Clone, PartialEq, Eq)]
pub enum HexRecord {
    /// Up to 255 bytes of data at a 16-bit offset.
    Data { offset: u16, value: Vec<u8> },
    /// End of the file.
    EndOfFile,
    /// Bits 4-19 of the segment base address.
    ExtendedSegmentAddress(u16),
    /// CS:IP start address.
    StartSegmentAddress { cs: u16, ip: u16 },
    /// Upper 16 bits of the 32-bit linear address.
    ExtendedLinearAddress(u16),
    /// 32-bit execution start address.
    StartLinearAddress(u32),
}

/// The model of a [`HexRecord`].
pub enum HexRecordView {
    Data { offset: u16, value: Seq<u8> },
    EndOfFile,
    ExtendedSegmentAddress(u16),
    StartSegmentAddress { cs: u16, ip: u16 },
    ExtendedLinearAddress(u16),
    StartLinearAddress(u32),
}

impl View for HexRecord {
    type V = HexRecordView;

    open spec fn view(&self) -> HexRecordView {
        match self {
            HexRecord::Data { offset, value } => HexRecordView::Data { offset: *offset, value: value@ },
            HexRecord::EndOfFile => HexRecordView::EndOfFile,
            HexRecord::ExtendedSegmentAddress(a) => HexRecordView::ExtendedSegmentAddress(*a),
            HexRecord::StartSegmentAddress { cs, ip } => HexRecordView::StartSegmentAddress { cs: *cs, ip: *ip },
            HexRecord::ExtendedLinearAddress(a) => HexRecordView::ExtendedLinearAddress(*a),
            HexRecord::StartLinearAddress(a) => HexRecordView::StartLinearAddress(*a),
        }
    }
}

/// One item produced by reading a HEX text: a record, or the message of the
/// error that stopped the reading.
pub type HexItem = Result<HexRecord, String>;

/// The model of a [`HexItem`].
pub type HexItemView = Result<HexRecordView, Seq<char>>;

pub open spec fn item_view(it: HexItem) -> HexItemView {
    match it {
        Ok(r) => Ok(r@),
        Err(m) => Err(m@),
    }
}

pub open spec fn items_view(items: Seq<HexItem>) -> Seq<HexItemView> {
    items.map_values(|it: HexItem| item_view(it))
}

/// The items that the `ihex` crate's reader yields for a HEX text, with each
/// error given by its message.
pub uninterp spec fn ihex_reader_items(content: Seq<char>) -> Seq<HexItemView>;

/// Reads all records of a HEX text with `ihex::Reader::new(content)`.
///
/// Trusted: the items are those the reader yields, in order, each error
/// turned into its `Display` text; as the reader's source shows, a data
/// record carries at most 255 bytes (its length field is one byte).
#[verifier::external_body]
fn read_ihex_items(content: &str) -> (items: Vec<HexItem>)
    ensures
        items_view(items@) == ihex_reader_items(content@),
        forall|i: int| 0 <= i < items@.len() ==> (#[trigger] items@[i] matches Ok(HexRecord::Data { value, .. }) ==> value@.len() <= 255),
{
    let mut items = Vec::new();
    for r in ihex::Reader::new(content) {
        items.push(match r {
            Ok(ihex::Record::Data { offset, value }) => Ok(HexRecord::Data { offset, value }),
            Ok(ihex::Record::EndOfFile) => Ok(HexRecord::EndOfFile),
            Ok(ihex::Record::ExtendedSegmentAddress(a)) => Ok(HexRecord::ExtendedSegmentAddress(a)),
            Ok(ihex::Record::StartSegmentAddress { cs, ip }) => Ok(HexRecord::StartSegmentAddress { cs, ip }),
            Ok(ihex::Record::ExtendedLinearAddress(a)) => Ok(HexRecord::ExtendedLinearAddress(a)),
            Ok(ihex::Record::StartLinearAddress(a)) => Ok(HexRecord::StartLinearAddress(a)),
            Err(e) => Err(e.to_string()),
        });
    }
    items
}

/// The memory image that loading the items from index `k` on produces,
/// starting from `segs` and the extended address `ext`; or the 1-based item
/// number and message of the first error.
pub open spec fn load_from(items: Seq<HexItemView>, k: nat, segs: Seq<SegmentView>, ext: u32) -> Result<Seq<SegmentView>, (nat, Seq<char>)>
    decreases items.len() - k,
{
    if k >= items.len() {
        Ok(segs)
    } else {
        match items[k as int] {
            Err(m) => Err((k + 1, m)),
            Ok(HexRecordView::ExtendedLinearAddress(ela)) => load_from(items, k + 1, segs, (ela * 0x10000) as u32),
            Ok(HexRecordView::ExtendedSegmentAddress(esa)) => load_from(items, k + 1, segs, (esa * 0x10) as u32),
            Ok(HexRecordView::Data { offset, value }) => load_from(items, k + 1, spec_merge(segs, (ext + offset) as u32, value), ext),
            Ok(HexRecordView::EndOfFile) => Ok(segs),
            Ok(_) => load_from(items, k + 1, segs, ext),
        }
    }
}

/// The result of loading a whole item sequence.
pub open spec fn spec_load(items: Seq<HexItemView>) -> Result<Seq<SegmentView>, (nat, Seq<char>)> {
    load_from(items, 0, Seq::empty(), 0)
}

/// Every non-empty data record that loading reaches ends within the 32-bit
/// address space (otherwise the end address of the write overflows).
pub open spec fn fits_from(items: Seq<HexItemView>, k: nat, ext: u32) -> bool
    decreases items.len() - k,
{
    if k >= items.len() {
        true
    } else {
        match items[k as int] {
            Err(_) => true,
            Ok(HexRecordView::ExtendedLinearAddress(ela)) => fits_from(items, k + 1, (ela * 0x10000) as u32),
            Ok(HexRecordView::ExtendedSegmentAddress(esa)) => fits_from(items, k + 1, (esa * 0x10) as u32),
            Ok(HexRecordView::Data { offset, value }) => (value.len() == 0 || ext + offset + value.len() <= u32::MAX) && fits_from(items, k + 1, ext),
            Ok(HexRecordView::EndOfFile) => true,
            Ok(_) => fits_from(items, k + 1, ext),
        }
    }
}

pub open spec fn records_fit(items: Seq<HexItemView>) -> bool {
    fits_from(items, 0, 0)
}

/// An extended linear address record sets the base to its value times
/// 0x10000, and an extended segment address record to its value times 0x10,
/// whatever base came before: loading from such a record does not depend on
/// the earlier base.
pub proof fn lemma_address_record_sets_base(items: Seq<HexItemView>, k: nat, segs: Seq<SegmentView>, ext1: u32, ext2: u32)
    requires
        k < items.len(),
        items[k as int] matches Ok(HexRecordView::ExtendedLinearAddress(_)) || items[k as int] matches Ok(
            HexRecordView::ExtendedSegmentAddress(_),
        ),
    ensures
        load_from(items, k, segs, ext1) == load_from(items, k, segs, ext2),
        fits_from(items, k, ext1) == fits_from(items, k, ext2),
{
}

/// A data record that follows an extended linear address record `ela` is
/// written at ela * 0x10000 plus its offset, and one that follows an
/// extended segment address record `esa` at esa * 0x10 plus its offset;
/// loading then goes on from that base.
pub proof fn lemma_data_after_address_record(items: Seq<HexItemView>, k: nat, segs: Seq<SegmentView>, ext: u32)
    requires
        k + 1 < items.len(),
        items[(k + 1) as int] is Ok && items[(k + 1) as int]->Ok_0 is Data,
    ensures
        items[k as int] matches Ok(HexRecordView::ExtendedLinearAddress(ela)) ==> load_from(items, k, segs, ext) == load_from(
            items,
            (k + 2) as nat,
            spec_merge(segs, (ela * 0x10000 + items[(k + 1) as int]->Ok_0->Data_offset) as u32, items[(k + 1) as int]->Ok_0->Data_value),
            (ela * 0x10000) as u32,
        ),
        items[k as int] matches Ok(HexRecordView::ExtendedSegmentAddress(esa)) ==> load_from(items, k, segs, ext) == load_from(
            items,
            (k + 2) as nat,
            spec_merge(segs, (esa * 0x10 + items[(k + 1) as int]->Ok_0->Data_offset) as u32, items[(k + 1) as int]->Ok_0->Data_value),
            (esa * 0x10) as u32,
        ),
{
    let k1 = (k + 1) as nat;
    let off = items[k1 as int]->Ok_0->Data_offset;
    let val = items[k1 as int]->Ok_0->Data_value;
    match items[k as int] {
        Ok(HexRecordView::ExtendedLinearAddress(ela)) => {
            let b = (ela * 0x10000) as u32;
            assert(b == ela * 0x10000);
            assert(load_from(items, k, segs, ext) == load_from(items, k1, segs, b));
            assert(load_from(items, k1, segs, b) == load_from(items, (k + 2) as nat, spec_merge(segs, (b + off) as u32, val), b));
        },
        Ok(HexRecordView::ExtendedSegmentAddress(esa)) => {
            let b = (esa * 0x10) as u32;
            assert(b == esa * 0x10);
            assert(load_from(items, k, segs, ext) == load_from(items, k1, segs, b));
            assert(load_from(items, k1, segs, b) == load_from(items, (k + 2) as nat, spec_merge(segs, (b + off) as u32, val), b));
        },
        _ => {},
    }
}

// ========================================================================
// Errors
// ========================================================================

/// Errors from HEX loading and reading.
#[derive(Debug, Clone, PartialEq)]
pub enum HexError {
    /// I/O error reading the file.
    Io(String),
    /// Parse error in a HEX record.
    Parse { line: usize, detail: String },
    /// Requested address range is not covered by HEX data.
    AddressNotFound { address: u32, length: usize },
}

impl HexError {
    /// The message of the error.
    pub open spec fn message(&self) -> Seq<char> {
        match self {
            HexError::Io(msg) => "HEX I/O error: "@ + msg@,
            HexError::Parse { line, detail } => "HEX parse error at line "@ + decimal(*line as nat) + ": "@ + detail@,
            HexError::AddressNotFound { address, length } => "address 0x"@ + hex_upper(*address as nat, 8) + "..+"@
                + decimal(*length as nat) + " not found in HEX data"@,
        }
    }

    /// Renders the error as text.
    pub fn to_display_string(&self) -> (r: String)
        ensures
            r@ == self.message(),
    {
        let mut s = String::new();
        match self {
            HexError::Io(msg) => {
                push_str(&mut s, "HEX I/O error: ");
                push_str(&mut s, msg.as_str());
            },
            HexError::Parse { line, detail } => {
                push_str(&mut s, "HEX parse error at line ");
                push_decimal(&mut s, *line as u64);
                push_str(&mut s, ": ");
                push_str(&mut s, detail.as_str());
            },
            HexError::AddressNotFound { address, length } => {
                push_str(&mut s, "address 0x");
                push_hex_upper(&mut s, *address as u64, 8);
                push_str(&mut s, "..+");
                push_decimal(&mut s, *length as u64);
                push_str(&mut s, " not found in HEX data");
            },
        }
        s
    }
}

/// `e` is the parse error with the given 1-based item number and message.
pub open spec fn parse_error_is(e: HexError, err: (nat, Seq<char>)) -> bool {
    &&& e matches HexError::Parse { line, detail }
    &&& line == err.0
    &&& detail@ == err.1
}

// ========================================================================
// The memory image
// ========================================================================

/// The model of the executable segment list.
pub open spec fn segs_view(v: Seq<(u32, Vec<u8>)>) -> Seq<SegmentView> {
    v.map_values(|p: (u32, Vec<u8>)| (p.0, p.1@))
}

/// Memory image built from an Intel HEX file.
///
/// Stores data segments sorted by start address and provides address-based
/// byte access. Addresses are absolute 32-bit values.
#[derive(Debug)]
pub struct HexMemory {
    segments: Vec<(u32, Vec<u8>)>,
}

impl View for HexMemory {
    type V = Seq<SegmentView>;

    closed spec fn view(&self) -> Seq<SegmentView> {
        segs_view(self.segments@)
    }
}

/// Index of the covering segment.
fn find_covering(segs: &Vec<(u32, Vec<u8>)>, a: u32) -> (r: Option<usize>)
    ensures
        match r {
            Some(i) => i == covering_index(segs_view(segs@), a as int),
            None => covering_index(segs_view(segs@), a as int) == -1,
        },
{
    let ghost s = segs_view(segs@);
    let mut k = segs.len();
    assert(s.take(k as int) =~= s);
    while k > 0
        invariant
            k <= segs@.len(),
            s == segs_view(segs@),
            covering_index(s, a as int) == covering_index(s.take(k as int), a as int),
        decreases k,
    {
        assert(s.take(k as int).last() == s[k - 1]);
        if segs[k - 1].0 <= a {
            return Some(k - 1);
        }
        assert(s.take(k as int).drop_last() =~= s.take(k - 1));
        k = k - 1;
    }
    None
}

/// Index of the first segment starting at or above `a`.
fn find_first_at_or_after(segs: &Vec<(u32, Vec<u8>)>, a: u32) -> (r: usize)
    requires
        segs_wf(segs_view(segs@)),
    ensures
        r == first_at_or_after(segs_view(segs@), a as int),
{
    let ghost s = segs_view(segs@);
    let mut j: usize = 0;
    while j < segs.len() && segs[j].0 < a
        invariant
            j <= segs@.len(),
            s == segs_view(segs@),
            forall|k: int| 0 <= k < j ==> #[trigger] s[k].0 < a,
        decreases segs@.len() - j,
    {
        j = j + 1;
    }
    proof {
        lemma_first_at_or_after(s, a as int);
        let f = first_at_or_after(s, a as int);
        if f < j {
            assert(s[f].0 < a);
        } else if f > j {
            assert(s[j as int].0 < a);
        }
    }
    j
}

/// Appends `data` to `v`.
fn append_bytes(v: &mut Vec<u8>, data: &[u8])
    ensures
        final(v)@ == old(v)@ + data@,
{
    let mut k: usize = 0;
    while k < data.len()
        invariant
            k <= data@.len(),
            v@ == old(v)@ + data@.take(k as int),
        decreases data@.len() - k,
    {
        v.push(data[k]);
        assert(data@.take(k + 1) =~= data@.take(k as int).push(data@[k as int]));
        k = k + 1;
    }
    assert(data@.take(data@.len() as int) =~= data@);
}

/// Overwrites `v[off..off + data.len()]` with `data`.
fn overwrite_bytes(v: &mut Vec<u8>, off: usize, data: &[u8])
    requires
        off + data@.len() <= old(v)@.len(),
    ensures
        final(v)@ == old(v)@.take(off as int) + data@ + old(v)@.skip(off + data@.len()),
{
    let vlen = v.len();
    let mut k: usize = 0;
    while k < data.len()
        invariant
            k <= data@.len(),
            off + data@.len() <= old(v)@.len(),
            v@.len() == old(v)@.len(),
            vlen == old(v)@.len(),
            v@ == old(v)@.take(off as int) + data@.take(k as int) + old(v)@.skip(off + k),
        decreases data@.len() - k,
    {
        v.set(off + k, data[k]);
        assert(v@ =~= old(v)@.take(off as int) + data@.take(k + 1) + old(v)@.skip(off + k + 1));
        k = k + 1;
    }
    assert(data@.take(data@.len() as int) =~= data@);
}

/// A copy of `data` as a vector.
fn bytes_to_vec(data: &[u8]) -> (v: Vec<u8>)
    ensures
        v@ == data@,
{
    let mut v = Vec::new();
    append_bytes(&mut v, data);
    v
}

impl HexMemory {
    /// Merges `data` written at `address` into the segment list: the written
    /// bytes replace stored ones, and the segments that the write overlaps or
    /// touches are joined into one. Every written address then holds its byte
    /// and every other address holds what it held before, or nothing, as before.
    pub fn merge_data(segments: &mut Vec<(u32, Vec<u8>)>, address: u32, data: &[u8])
        requires
            segs_wf(segs_view(old(segments)@)),
            data@.len() == 0 || address + data@.len() <= u32::MAX,
        ensures
            segs_view(final(segments)@) == spec_merge(segs_view(old(segments)@), address, data@),
            segs_wf(segs_view(final(segments)@)),
            forall|x: int|
                #[trigger] byte_at(segs_view(final(segments)@), x) == if address <= x < address + data@.len() {
                    Some(data@[x - address])
                } else {
                    byte_at(segs_view(old(segments)@), x)
                },
    {
        let ghost s = segs_view(segments@);
        let ghost pre = segments@;
        proof {
            assert forall|x: int|
                #[trigger] byte_at(spec_merge(s, address, data@), x) == if address <= x < address + data@.len() {
                    Some(data@[x - address])
                } else {
                    byte_at(s, x)
                } by {
                lemma_merge_image(s, address, data@, x);
            }
            lemma_merge_wf(s, address, data@);
        }
        if data.len() == 0 {
            return;
        }
        let end = address + data.len() as u32;
        proof {
            lemma_covering_index(s, address as int);
            lemma_first_at_or_after(s, end + 1);
            lemma_merge_wf(s, address, data@);
            lemma_merge_bounds(s, address, data@);
        }
        let ghost i = covering_index(s, address as int);
        let ghost m = merged_segment(s, address, data@);
        let mut joins = false;
        let mut lo: usize = 0;
        let count = segments.len();
        if let Some(c) = find_covering(segments, address) {
            assert(c < count);
            let seg_end = segments[c].0 + segments[c].1.len() as u32;
            if seg_end >= address {
                joins = true;
                lo = c;
            } else {
                lo = c + 1;
            }
        }
        assert(joins == joins_write(s, i, address as int));
        assert(lo == merge_lo(s, address as int));
        let hi = if end == u32::MAX {
            proof {
                if first_at_or_after(s, end + 1) < s.len() {
                    assert(s[first_at_or_after(s, end + 1)].1.len() > 0);
                }
            }
            segments.len()
        } else {
            find_first_at_or_after(segments, end + 1)
        };
        assert(hi == merge_hi(s, end as int));
        let mut rest = segments.split_off(hi);
        let mut mid = segments.split_off(lo);
        assert(mid@ == pre.subrange(lo as int, hi as int));
        let mut tail: Vec<u8> = Vec::new();
        let n = mid.len();
        if n > 0 {
            let last_start = mid[n - 1].0;
            let last_len = mid[n - 1].1.len();
            assert(s[hi - 1] == (last_start, mid@[n - 1].1@));
            if last_start as u64 + last_len as u64 > end as u64 {
                let off = (end - last_start) as usize;
                let last = mid[n - 1].1.as_slice();
                tail = bytes_to_vec(&last[off..last_len]);
                assert(tail@ =~= s[hi - 1].1.skip(end - s[hi - 1].0));
            }
        }
        let mut content: Vec<u8>;
        let start: u32;
        if joins {
            let (st, mut v) = mid.remove(0);
            assert(s[i] == (st, v@));
            v.truncate((address - st) as usize);
            content = v;
            start = st;
        } else {
            content = Vec::new();
            start = address;
        }
        append_bytes(&mut content, data);
        content.append(&mut tail);
        assert(start == m.0);
        assert(content@ =~= m.1);
        let ghost head = segments@;
        segments.push((start, content));
        segments.append(&mut rest);
        proof {
            assert(head == pre.subrange(0, lo as int));
            assert(segs_view(segments@) =~= s.take(lo as int) + seq![m] + s.skip(hi as int));
        }
    }
}

impl Clone for HexMemory {
    /// A deep copy of the memory image.
    fn clone(&self) -> (res: Self)
        ensures
            res@ == self@,
    {
        proof {
            use_type_invariant(self);
        }
        let mut segments: Vec<(u32, Vec<u8>)> = Vec::new();
        let mut k: usize = 0;
        while k < self.segments.len()
            invariant
                k <= self.segments@.len(),
                segs_view(segments@) == segs_view(self.segments@).take(k as int),
            decreases self.segments@.len() - k,
        {
            let start = self.segments[k].0;
            let data = bytes_to_vec(self.segments[k].1.as_slice());
            assert(data@ == self.segments@[k as int].1@);
            let ghost pre = segments@;
            segments.push((start, data));
            assert(segments@ == pre.push((start, data)));
            assert(segs_view(segments@) =~= segs_view(pre).push((start, data@)));
            assert(segs_view(segments@) =~= segs_view(self.segments@).take(k + 1));
            k = k + 1;
        }
        assert(segs_view(self.segments@).take(k as int) =~= segs_view(self.segments@));
        HexMemory { segments }
    }
}

impl HexMemory {
    #[verifier::type_invariant]
    spec fn wf(self) -> bool {
        segs_wf(segs_view(self.segments@))
    }

    /// Builds a memory image from HEX items: extended linear and extended
    /// segment address records set the base address, data records are merged
    /// in at base plus offset, an end-of-file record stops the loading, and
    /// the first error is reported with its 1-based item number.
    pub fn from_records(items: &Vec<HexItem>) -> (r: Result<HexMemory, HexError>)
        requires
            records_fit(items_view(items@)),
        ensures
            (r is Ok) <==> (spec_load(items_view(items@)) is Ok),
            r matches Ok(m) ==> m@ == spec_load(items_view(items@))->Ok_0 && segs_wf(m@),
            r matches Err(e) ==> parse_error_is(e, spec_load(items_view(items@))->Err_0),
    {
        let ghost iv = items_view(items@);
        let mut segments: Vec<(u32, Vec<u8>)> = Vec::new();
        let mut extended_address: u32 = 0;
        let mut k: usize = 0;
        assert(segs_view(segments@) =~= Seq::<SegmentView>::empty());
        while k < items.len()
            invariant
                k <= items@.len(),
                iv == items_view(items@),
                segs_wf(segs_view(segments@)),
                spec_load(iv) == load_from(iv, k as nat, segs_view(segments@), extended_address),
                fits_from(iv, k as nat, extended_address),
                extended_address <= 0xFFFF0000u32,
            decreases items@.len() - k,
        {
            assert(iv[k as int] == item_view(items@[k as int]));
            match &items[k] {
                Err(msg) => {
                    return Err(HexError::Parse { line: k + 1, detail: msg.clone() });
                },
                Ok(HexRecord::ExtendedLinearAddress(ela)) => {
                    extended_address = (*ela as u32) << 16;
                    assert(extended_address == *ela * 0x10000 && extended_address <= 0xFFFF0000u32) by (bit_vector)
                        requires extended_address == (*ela as u32) << 16;
                },
                Ok(HexRecord::ExtendedSegmentAddress(esa)) => {
                    extended_address = (*esa as u32) << 4;
                    assert(extended_address == *esa * 0x10 && extended_address <= 0xFFFF0000u32) by (bit_vector)
                        requires extended_address == (*esa as u32) << 4;
                },
                Ok(HexRecord::Data { offset, value }) => {
                    let abs_address = extended_address + *offset as u32;
                    Self::merge_data(&mut segments, abs_address, value.as_slice());
                },
                Ok(HexRecord::EndOfFile) => {
                    return Ok(HexMemory { segments });
                },
                Ok(_) => {},
            }
            k = k + 1;
        }
        Ok(HexMemory { segments })
    }
}

impl HexMemory {
    /// Parses an Intel HEX text into a memory image.
    pub fn from_string(content: &str) -> (r: Result<HexMemory, HexError>)
        requires
            records_fit(ihex_reader_items(content@)),
        ensures
            (r is Ok) <==> (spec_load(ihex_reader_items(content@)) is Ok),
            r matches Ok(m) ==> m@ == spec_load(ihex_reader_items(content@))->Ok_0 && segs_wf(m@),
            r matches Err(e) ==> parse_error_is(e, spec_load(ihex_reader_items(content@))->Err_0),
    {
        let items = read_ihex_items(content);
        Self::from_records(&items)
    }

    /// Parses an Intel HEX text into a memory image, or gives `None` when a
    /// data record would end beyond the 32-bit address space (an address
    /// overflow, on which [`HexMemory::from_string`] is not defined).
    pub fn try_from_string(content: &str) -> (r: Option<Result<HexMemory, HexError>>)
        ensures
            (r is Some) <==> records_fit(ihex_reader_items(content@)),
            r matches Some(Ok(m)) ==> spec_load(ihex_reader_items(content@)) == Ok::<Seq<SegmentView>, (nat, Seq<char>)>(m@)
                && segs_wf(m@),
            r matches Some(Err(e)) ==> parse_error_is(e, spec_load(ihex_reader_items(content@))->Err_0),
            r matches Some(x) ==> ((x is Ok) <==> (spec_load(ihex_reader_items(content@)) is Ok)),
    {
        let items = read_ihex_items(content);
        if records_fit_exec(&items) {
            Some(Self::from_string(content))
        } else {
            None
        }
    }

    /// Reads `length` bytes starting at the given absolute address.
    /// Fails if the range is not fully covered by the segment that holds
    /// `address`; a zero-length read always succeeds.
    pub fn read_bytes(&self, address: u32, length: usize) -> (r: Result<&[u8], HexError>)
        ensures
            match spec_read(self@, address, length as nat) {
                Some(b) => r matches Ok(x) && x@ == b,
                None => r == Err::<&[u8], HexError>(HexError::AddressNotFound { address, length }),
            },
            r matches Ok(x) ==> x@.len() == length,
            (r is Ok) <==> (forall|k: int| 0 <= k < length ==> (#[trigger] byte_at(self@, address + k)) is Some),
            r matches Ok(x) ==> x@ == stored_bytes(self@, address as int, length as nat),
    {
        proof {
            use_type_invariant(self);
            lemma_read_is_bytes(self@, address, length as nat);
            if spec_read(self@, address, length as nat) is Some {
                assert(spec_read(self@, address, length as nat)->0 =~= stored_bytes(self@, address as int, length as nat));
            }
        }
        if length == 0 {
            let empty: &[u8] = &[];
            assert(empty@ =~= Seq::<u8>::empty());
            return Ok(empty);
        }
        let ghost s = self@;
        proof {
            use_type_invariant(self);
            lemma_covering_index(s, address as int);
        }
        if let Some(i) = find_covering(&self.segments, address) {
            let seg_start = self.segments[i].0;
            let offset = (address - seg_start) as usize;
            let seg_len = self.segments[i].1.len();
            if length <= seg_len && offset <= seg_len - length {
                let seg = self.segments[i].1.as_slice();
                return Ok(&seg[offset..offset + length]);
            }
        }
        Err(HexError::AddressNotFound { address, length })
    }

    /// Reads a single byte at the given address.
    pub fn read_u8(&self, address: u32) -> (r: Result<u8, HexError>)
        ensures
            match spec_read(self@, address, 1) {
                Some(b) => r == Ok::<u8, HexError>(b[0]),
                None => r == Err::<u8, HexError>(HexError::AddressNotFound { address, length: 1 }),
            },
    {
        proof {
            use_type_invariant(self);
            lemma_covering_index(self@, address as int);
        }
        match self.read_bytes(address, 1) {
            Ok(b) => Ok(b[0]),
            Err(e) => Err(e),
        }
    }

    /// Reads a little-endian u16 at the given address.
    pub fn read_u16_le(&self, address: u32) -> (r: Result<u16, HexError>)
        ensures
            match spec_read(self@, address, 2) {
                Some(b) => r == Ok::<u16, HexError>((b[0] + 0x100 * b[1]) as u16),
                None => r == Err::<u16, HexError>(HexError::AddressNotFound { address, length: 2 }),
            },
    {
        proof {
            use_type_invariant(self);
            lemma_covering_index(self@, address as int);
        }
        match self.read_bytes(address, 2) {
            Ok(b) => {
                let (b0, b1) = (b[0], b[1]);
                let v = (b0 as u16) | ((b1 as u16) << 8);
                assert(v == b0 + 0x100 * b1) by (bit_vector)
                    requires v == (b0 as u16) | ((b1 as u16) << 8);
                Ok(v)
            },
            Err(e) => Err(e),
        }
    }

    /// Reads a little-endian u32 at the given address.
    pub fn read_u32_le(&self, address: u32) -> (r: Result<u32, HexError>)
        ensures
            match spec_read(self@, address, 4) {
                Some(b) => r == Ok::<u32, HexError>((b[0] + 0x100 * b[1] + 0x10000 * b[2] + 0x1000000 * b[3]) as u32),
                None => r == Err::<u32, HexError>(HexError::AddressNotFound { address, length: 4 }),
            },
    {
        proof {
            use_type_invariant(self);
            lemma_covering_index(self@, address as int);
        }
        match self.read_bytes(address, 4) {
            Ok(b) => {
                let (b0, b1, b2, b3) = (b[0], b[1], b[2], b[3]);
                let v = (b0 as u32) | ((b1 as u32) << 8) | ((b2 as u32) << 16) | ((b3 as u32) << 24);
                assert(v == b0 + 0x100 * b1 + 0x10000 * b2 + 0x1000000 * b3) by (bit_vector)
                    requires v == (b0 as u32) | ((b1 as u32) << 8) | ((b2 as u32) << 16) | ((b3 as u32) << 24);
                Ok(v)
            },
            Err(e) => Err(e),
        }
    }

    /// Total number of bytes stored across all segments.
    pub fn total_bytes(&self) -> (r: usize)
        requires
            spec_total(self@) <= usize::MAX,
        ensures
            r == spec_total(self@),
            r == covered(self@).len(),
    {
        proof {
            use_type_invariant(self);
            lemma_total_is_covered_count(self@);
        }
        let ghost s = self@;
        let mut total: usize = 0;
        let mut k: usize = 0;
        while k < self.segments.len()
            invariant
                k <= self.segments@.len(),
                s == segs_view(self.segments@),
                total == spec_total(s.take(k as int)),
                spec_total(s) <= usize::MAX,
            decreases self.segments@.len() - k,
        {
            assert(s.take(k + 1).drop_last() =~= s.take(k as int));
            proof {
                lemma_total_prefix(s, k + 1);
            }
            total = total + self.segments[k].1.len();
            k = k + 1;
        }
        assert(s.take(k as int) =~= s);
        total
    }

    /// Number of separate memory segments.
    pub fn segment_count(&self) -> (r: usize)
        ensures
            r == self@.len(),
    {
        self.segments.len()
    }

    /// The `(start_address, data)` pair of each segment, in address order.
    pub fn segments(&self) -> (r: Vec<(u32, &[u8])>)
        ensures
            r@.len() == self@.len(),
            forall|i: int| 0 <= i < r@.len() ==> (#[trigger] r@[i]).0 == self@[i].0 && r@[i].1@ == self@[i].1,
            segs_wf(self@),
    {
        proof {
            use_type_invariant(self);
        }
        let mut r: Vec<(u32, &[u8])> = Vec::new();
        let mut k: usize = 0;
        while k < self.segments.len()
            invariant
                k <= self.segments@.len(),
                r@.len() == k,
                forall|i: int| 0 <= i < k ==> (#[trigger] r@[i]).0 == self@[i].0 && r@[i].1@ == self@[i].1,
            decreases self.segments@.len() - k,
        {
            r.push((self.segments[k].0, self.segments[k].1.as_slice()));
            k = k + 1;
        }
        r
    }

    /// The lowest address in the memory image, or None if empty.
    pub fn min_address(&self) -> (r: Option<u32>)
        ensures
            r == (if self@.len() == 0 { None::<u32> } else { Some(self@[0].0) }),
    {
        if self.segments.len() == 0 {
            None
        } else {
            Some(self.segments[0].0)
        }
    }

    /// The highest address (exclusive) in the memory image, or None if empty.
    pub fn max_address(&self) -> (r: Option<u32>)
        ensures
            r == (if self@.len() == 0 { None::<u32> } else { Some(seg_end(self@.last()) as u32) }),
    {
        proof {
            use_type_invariant(self);
        }
        let n = self.segments.len();
        if n == 0 {
            None
        } else {
            let (start, len) = (self.segments[n - 1].0, self.segments[n - 1].1.len());
            assert(self@[n - 1] == self@.last());
            assert(self@[n - 1].0 == start && self@[n - 1].1.len() == len);
            Some(start + len as u32)
        }
    }

    /// Checks whether the address range is fully covered by the memory image.
    pub fn contains(&self, address: u32, length: usize) -> (r: bool)
        ensures
            r == (spec_read(self@, address, length as nat) is Some),
            r == (forall|k: int| 0 <= k < length ==> (#[trigger] byte_at(self@, address + k)) is Some),
    {
        proof {
            use_type_invariant(self);
            lemma_read_is_bytes(self@, address, length as nat);
        }
        self.read_bytes(address, length).is_ok()
    }
}

/// Total of a prefix extends by the next segment's length.
proof fn lemma_total_prefix(s: Seq<SegmentView>, k: int)
    requires
        0 < k <= s.len(),
    ensures
        spec_total(s.take(k)) == spec_total(s.take(k - 1)) + s[k - 1].1.len(),
        spec_total(s.take(k)) <= spec_total(s),
    decreases s.len() - k,
{
    assert(s.take(k).drop_last() =~= s.take(k - 1));
    if k < s.len() {
        lemma_total_prefix(s, k + 1);
    } else {
        assert(s.take(k) =~= s);
    }
}

/// Executable check of [`records_fit`].
fn records_fit_exec(items: &Vec<HexItem>) -> (r: bool)
    ensures
        r == records_fit(items_view(items@)),
{
    let ghost iv = items_view(items@);
    let mut ext: u32 = 0;
    let mut k: usize = 0;
    while k < items.len()
        invariant
            k <= items@.len(),
            iv == items_view(items@),
            records_fit(iv) == fits_from(iv, k as nat, ext),
            ext <= 0xFFFF0000u32,
        decreases items@.len() - k,
    {
        assert(iv[k as int] == item_view(items@[k as int]));
        match &items[k] {
            Err(_) => {
                return true;
            },
            Ok(HexRecord::ExtendedLinearAddress(ela)) => {
                ext = (*ela as u32) << 16;
                assert(ext == *ela * 0x10000 && ext <= 0xFFFF0000u32) by (bit_vector)
                    requires ext == (*ela as u32) << 16;
            },
            Ok(HexRecord::ExtendedSegmentAddress(esa)) => {
                ext = (*esa as u32) << 4;
                assert(ext == *esa * 0x10 && ext <= 0xFFFF0000u32) by (bit_vector)
                    requires ext == (*esa as u32) << 4;
            },
            Ok(HexRecord::Data { offset, value }) => {
                let start = ext as u64 + *offset as u64;
                if value.len() != 0 && value.len() as u64 > 0xFFFF_FFFFu64 - start {
                    return false;
                }
            },
            Ok(HexRecord::EndOfFile) => {
                return true;
            },
            Ok(_) => {},
        }
        k = k + 1;
    }
    true
}

} // verus!
