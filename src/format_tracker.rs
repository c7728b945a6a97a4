use vstd::prelude::*;

use crate::snapshot::{
    keys_distinct, lemma_map_keys_distinct,
    entry, field, get_field, is_map_with, lemma_distinct_keys, lemma_field_at, SnapshotItem,
};
use crate::terminal::{
    color_name, color_named, lemma_color_name_round_trip, CursorState, TerminalColor,
};
use std::ops::Range;

verus! {

/// Linear position that stands for "extends forever".
pub const UNBOUNDED: usize = usize::MAX;

/// A half-open run `start..end` of the linear view with one colour and weight.
/// An `end` of `UNBOUNDED` means that the run never ends.
#[derive(Clone, Copy, Debug, PartialEq, Eq, Structural)]
pub struct FormatTagSerialized {
    pub start: usize,
    pub end: usize,
    pub color: TerminalColor,
    pub bold: bool,
}

/// Ordered, gap-free list of format runs covering the whole linear view.
pub struct FormatTracker {
    color_info: Vec<FormatTagSerialized>,
}

pub open spec fn tag_with_end(t: FormatTagSerialized, end: usize) -> FormatTagSerialized {
    FormatTagSerialized { start: t.start, end: end, color: t.color, bold: t.bold }
}

pub open spec fn tag_with_start(t: FormatTagSerialized, start: usize) -> FormatTagSerialized {
    FormatTagSerialized { start: start, end: t.end, color: t.color, bold: t.bold }
}

/// The tracker's invariant: the first run starts at 0, each run is non-empty and
/// ends where the next one starts, and the last run is unbounded.
pub open spec fn tags_wf(tags: Seq<FormatTagSerialized>) -> bool {
    &&& tags.len() >= 1
    &&& tags[0].start == 0
    &&& tags.last().end == UNBOUNDED
    &&& tags_chain(tags)
}

/// Each run is non-empty and starts where the one before it ends.
pub open spec fn tags_chain(tags: Seq<FormatTagSerialized>) -> bool {
    &&& forall|i: int| 0 <= i < tags.len() ==> #[trigger] tags[i].start < tags[i].end
    &&& forall|i: int| 0 < i < tags.len() ==> #[trigger] tags[i].start == tags[i - 1].end
}

pub open spec fn tag_contains(t: FormatTagSerialized, p: int) -> bool {
    t.start <= p < t.end
}

/// Index of the run that holds linear position `p`.
pub open spec fn tag_index_at(tags: Seq<FormatTagSerialized>, p: int) -> int {
    choose|i: int| 0 <= i < tags.len() && tag_contains(tags[i], p)
}

/// Result of painting `p..q` (non-empty) with the given rendition: runs wholly inside
/// are dropped, the runs holding either edge are clipped, and the new run goes between.
pub open spec fn push_range_spec(
    tags: Seq<FormatTagSerialized>,
    p: usize,
    q: usize,
    color: TerminalColor,
    bold: bool,
) -> Seq<FormatTagSerialized> {
    let k1 = tag_index_at(tags, p as int);
    let k2 = tag_index_at(tags, q - 1);
    let left = if tags[k1].start < p {
        seq![tag_with_end(tags[k1], p)]
    } else {
        Seq::empty()
    };
    let right = if q < tags[k2].end {
        seq![tag_with_start(tags[k2], q)]
    } else {
        Seq::empty()
    };
    tags.subrange(0, k1) + left + seq![FormatTagSerialized { start: p, end: q, color, bold }]
        + right + tags.subrange(k2 + 1, tags.len() as int)
}

/// Where linear position `x` lands once `p..q` is cut out.
pub open spec fn delete_map(x: usize, p: usize, q: usize) -> usize {
    if x == UNBOUNDED {
        UNBOUNDED
    } else if x <= p {
        x
    } else if x <= q {
        p
    } else {
        (x - (q - p)) as usize
    }
}

/// Where linear position `x` lands once `len` positions are inserted at `p`.
pub open spec fn insert_map(x: usize, p: usize, len: usize) -> usize {
    if x == UNBOUNDED {
        UNBOUNDED
    } else if x <= p {
        x
    } else {
        (x + len) as usize
    }
}

pub open spec fn map_tag(t: FormatTagSerialized, s: usize, e: usize) -> FormatTagSerialized {
    FormatTagSerialized { start: s, end: e, color: t.color, bold: t.bold }
}

/// The runs after cutting out `p..q`: each run's edges move by `delete_map`, and runs
/// that become empty are dropped.
pub open spec fn delete_range_spec(tags: Seq<FormatTagSerialized>, p: usize, q: usize) -> Seq<
    FormatTagSerialized,
>
    decreases tags.len(),
{
    if tags.len() == 0 {
        Seq::empty()
    } else {
        let rest = delete_range_spec(tags.drop_last(), p, q);
        let t = tags.last();
        let s = delete_map(t.start, p, q);
        let e = delete_map(t.end, p, q);
        if s < e {
            rest.push(map_tag(t, s, e))
        } else {
            rest
        }
    }
}

/// The runs after inserting `len` positions at `p`: the run holding `p` grows and
/// later runs move forward.
pub open spec fn adjust_spec(tags: Seq<FormatTagSerialized>, p: usize, len: usize) -> Seq<
    FormatTagSerialized,
> {
    Seq::new(
        tags.len(),
        |i: int|
            map_tag(tags[i], insert_map(tags[i].start, p, len), insert_map(tags[i].end, p, len)),
    )
}

/// Whether two half-open ranges share a position.
pub fn ranges_overlap(a: Range<usize>, b: Range<usize>) -> (r: bool)
    ensures
        r == (a.start < b.end && b.start < a.end),
{
    if a.end <= b.start {
        return false;
    }
    if a.start >= b.end {
        return false;
    }
    true
}

/// Whether `a` holds all of `b`.
pub fn range_fully_conatins(a: &Range<usize>, b: &Range<usize>) -> (r: bool)
    ensures
        r == (a.start <= b.start && a.end >= b.end),
{
    a.start <= b.start && a.end >= b.end
}

/// Whether `a` starts and ends after `b` does.
pub fn range_starts_overlapping(a: &Range<usize>, b: &Range<usize>) -> (r: bool)
    ensures
        r == (a.start > b.start && a.end > b.end),
{
    a.start > b.start && a.end > b.end
}

/// Whether `a` starts and ends before `b` does.
pub fn range_ends_overlapping(a: &Range<usize>, b: &Range<usize>) -> (r: bool)
    ensures
        r == (b.start > a.start && b.end > a.end),
{
    range_starts_overlapping(b, a)
}

proof fn lemma_tags_ordered(tags: Seq<FormatTagSerialized>, i: int, j: int)
    requires
        tags_wf(tags),
        0 <= i < j < tags.len(),
    ensures
        tags[i].end <= tags[j].start,
    decreases j - i,
{
    if j > i + 1 {
        lemma_tags_ordered(tags, i, j - 1);
        assert(tags[j - 1].end == tags[j].start);
    } else {
        assert(tags[i].end == tags[i + 1].start);
    }
}

proof fn lemma_tag_index_unique(tags: Seq<FormatTagSerialized>, i: int, p: int)
    requires
        tags_wf(tags),
        0 <= i < tags.len(),
        tag_contains(tags[i], p),
    ensures
        tag_index_at(tags, p) == i,
{
    let k = tag_index_at(tags, p);
    assert(0 <= k < tags.len() && tag_contains(tags[k], p));
    if k < i {
        lemma_tags_ordered(tags, k, i);
    } else if i < k {
        lemma_tags_ordered(tags, i, k);
    }
}

impl FormatTracker {
    pub closed spec fn view(&self) -> Seq<FormatTagSerialized> {
        self.color_info@
    }

    pub open spec fn wf(&self) -> bool {
        tags_wf(self@)
    }

    /// Index of the run holding `p`.
    fn find_tag(&self, p: usize) -> (r: usize)
        requires
            self.wf(),
            p < UNBOUNDED,
        ensures
            r < self@.len(),
            tag_contains(self@[r as int], p as int),
            r == tag_index_at(self@, p as int),
    {
        let tags = &self.color_info;
        let n = tags.len();
        let mut i: usize = 0;
        while tags[i].end <= p
            invariant
                n == tags@.len(),
                tags_wf(tags@),
                p < UNBOUNDED,
                i < tags@.len(),
                i > 0 ==> tags@[i - 1].end <= p,
            decreases tags@.len() - i,
        {
            assert(tags@[i as int].end == tags@[i + 1].start) by {
                if i + 1 >= tags@.len() {
                    assert(tags@[i as int].end == UNBOUNDED);
                }
            }
            assert(i + 1 < tags@.len());
            i = i + 1;
        }
        proof {
            if i > 0 {
                assert(tags@[i - 1].end == tags@[i as int].start);
            }
            lemma_tag_index_unique(tags@, i as int, p as int);
        }
        i
    }

    pub fn new() -> (r: FormatTracker)
        ensures
            r.wf(),
            r@ == seq![
                FormatTagSerialized {
                    start: 0,
                    end: UNBOUNDED,
                    color: TerminalColor::Default,
                    bold: false,
                },
            ],
    {
        FormatTracker {
            color_info: vec![
                FormatTagSerialized {
                    start: 0,
                    end: UNBOUNDED,
                    color: TerminalColor::Default,
                    bold: false,
                },
            ],
        }
    }

    /// Paints `range` with the cursor's colour and weight. An empty range changes nothing.
    pub fn push_range(&mut self, cursor: &CursorState, range: Range<usize>)
        requires
            old(self).wf(),
        ensures
            final(self).wf(),
            range.start < range.end ==> final(self)@ == push_range_spec(
                old(self)@,
                range.start,
                range.end,
                cursor.color,
                cursor.bold,
            ),
            range.start >= range.end ==> final(self)@ == old(self)@,
    {
        let p = range.start;
        let q = range.end;
        if p >= q {
            return ;
        }
        let k1 = self.find_tag(p);
        let k2 = self.find_tag(q - 1);
        let ghost old_tags = self.color_info@;
        proof {
            if k2 < k1 {
                lemma_tags_ordered(old_tags, k2 as int, k1 as int);
            }
        }
        let tags = &self.color_info;
        let mut out: Vec<FormatTagSerialized> = Vec::new();
        let mut i: usize = 0;
        while i < k1
            invariant
                i <= k1 < tags@.len(),
                out@ == tags@.subrange(0, i as int),
            decreases k1 - i,
        {
            out.push(tags[i]);
            i = i + 1;
        }
        let ghost n_left = out@.len();
        let first = tags[k1];
        if first.start < p {
            out.push(FormatTagSerialized { start: first.start, end: p, color: first.color, bold: first.bold });
        }
        out.push(FormatTagSerialized { start: p, end: q, color: cursor.color, bold: cursor.bold });
        let last = tags[k2];
        if q < last.end {
            out.push(FormatTagSerialized { start: q, end: last.end, color: last.color, bold: last.bold });
        }
        let ghost mid = out@;
        let n = tags.len();
        let mut j: usize = k2 + 1;
        while j < n
            invariant
                k2 < tags@.len(),
                n == tags@.len(),
                k2 + 1 <= j <= tags@.len(),
                out@ == mid + tags@.subrange(k2 + 1, j as int),
            decreases tags@.len() - j,
        {
            out.push(tags[j]);
            j = j + 1;
        }
        let ghost spec_r = push_range_spec(old_tags, p, q, cursor.color, cursor.bold);
        assert(out@ =~= spec_r);
        proof {
            lemma_push_range_wf(old_tags, p, q, cursor.color, cursor.bold, k1 as int, k2 as int);
        }
        self.color_info = out;
    }
    /// Cuts `range` out of the linear view: runs inside it vanish, runs across its
    /// edges are clipped, and everything after it moves back by its length.
    pub fn delete_range(&mut self, range: Range<usize>)
        requires
            old(self).wf(),
            range.start <= range.end,
        ensures
            final(self).wf(),
            final(self)@ == delete_range_spec(old(self)@, range.start, range.end),
            final(self)@.last().start == delete_map(old(self)@.last().start, range.start, range.end),
    {
        let p = range.start;
        let q = range.end;
        let tags = &self.color_info;
        let n = tags.len();
        let mut out: Vec<FormatTagSerialized> = Vec::new();
        let mut i: usize = 0;
        while i < n
            invariant
                n == tags@.len(),
                tags_wf(tags@),
                p <= q,
                i <= n,
                out@ == delete_range_spec(tags@.subrange(0, i as int), p, q),
                tags_chain(out@),
                out@.len() > 0 ==> out@[0].start == 0,
                i < n && out@.len() == 0 ==> delete_map(tags@[i as int].start, p, q) == 0,
                i < n && out@.len() > 0 ==> out@.last().end == delete_map(
                    tags@[i as int].start,
                    p,
                    q,
                ),
                i == n ==> out@.len() > 0 && out@.last().end == UNBOUNDED,
                i == n ==> out@.last().start == delete_map(tags@[n - 1].start, p, q),
            decreases n - i,
        {
            let t = tags[i];
            let s = if t.start <= p {
                t.start
            } else if t.start <= q {
                p
            } else {
                t.start - (q - p)
            };
            let e = if t.end == UNBOUNDED {
                UNBOUNDED
            } else if t.end <= p {
                t.end
            } else if t.end <= q {
                p
            } else {
                t.end - (q - p)
            };
            proof {
                assert(t.start < t.end);
                assert(t.start != UNBOUNDED);
                assert(s == delete_map(t.start, p, q));
                assert(e == delete_map(t.end, p, q));
                assert(tags@.subrange(0, i + 1).drop_last() =~= tags@.subrange(0, i as int));
                if i + 1 < n {
                    assert(tags@[i + 1].start == tags@[i as int].end);
                } else {
                    assert(t.end == UNBOUNDED);
                }
            }
            if s < e {
                out.push(FormatTagSerialized { start: s, end: e, color: t.color, bold: t.bold });
            }
            i = i + 1;
        }
        assert(tags@.subrange(0, n as int) =~= tags@);
        self.color_info = out;
    }

    /// Opens `range.len()` positions at `range.start`: the run holding that position
    /// grows and every run after it moves forward.
    pub fn push_range_adjustment(&mut self, range: Range<usize>)
        requires
            old(self).wf(),
            range.start <= range.end,
            old(self)@.last().start + (range.end - range.start) < UNBOUNDED,
        ensures
            final(self).wf(),
            final(self)@ == adjust_spec(old(self)@, range.start, (range.end - range.start) as usize),
    {
        let p = range.start;
        let len = range.end - range.start;
        let tags = &self.color_info;
        let n = tags.len();
        let ghost last_start = tags@.last().start;
        let mut out: Vec<FormatTagSerialized> = Vec::new();
        let mut i: usize = 0;
        while i < n
            invariant
                n == tags@.len(),
                tags_wf(tags@),
                last_start == tags@.last().start,
                last_start + len < UNBOUNDED,
                i <= n,
                out@.len() == i,
                forall|k: int|
                    0 <= k < i ==> #[trigger] out@[k] == map_tag(
                        tags@[k],
                        insert_map(tags@[k].start, p, len),
                        insert_map(tags@[k].end, p, len),
                    ),
            decreases n - i,
        {
            let t = tags[i];
            proof {
                if i + 1 < n {
                    lemma_tags_ordered(tags@, i as int, n - 1);
                } else {
                    assert(t.end == UNBOUNDED);
                }
            }
            let s = if t.start <= p {
                t.start
            } else {
                t.start + len
            };
            let e = if t.end == UNBOUNDED {
                UNBOUNDED
            } else if t.end <= p {
                t.end
            } else {
                t.end + len
            };
            out.push(FormatTagSerialized { start: s, end: e, color: t.color, bold: t.bold });
            i = i + 1;
        }
        let ghost r = adjust_spec(tags@, p, len);
        assert(out@ =~= r);
        proof {
            assert forall|k: int| 0 <= k < r.len() implies #[trigger] r[k].start < r[k].end by {
                if k + 1 < n {
                    lemma_tags_ordered(tags@, k, n - 1);
                }
            }
            assert forall|k: int| 0 < k < r.len() implies #[trigger] r[k].start == r[k - 1].end by {
                assert(tags@[k].start == tags@[k - 1].end);
            }
        }
        self.color_info = out;
    }

    /// Where the unbounded run starts.
    pub fn last_start(&self) -> (r: usize)
        requires
            self.wf(),
        ensures
            r == self@.last().start,
    {
        self.color_info[self.color_info.len() - 1].start
    }

    /// A copy of the runs, in order.
    pub fn tags(&self) -> (r: Vec<FormatTagSerialized>)
        requires
            self.wf(),
        ensures
            r@ == self@,
            tags_wf(r@),
    {
        let n = self.color_info.len();
        let mut out: Vec<FormatTagSerialized> = Vec::new();
        let mut i: usize = 0;
        while i < n
            invariant
                n == self.color_info@.len(),
                i <= n,
                out@ == self.color_info@.subrange(0, i as int),
            decreases n - i,
        {
            out.push(self.color_info[i]);
            i = i + 1;
        }
        assert(out@ =~= self.color_info@);
        out
    }
}

proof fn lemma_push_range_wf(
    tags: Seq<FormatTagSerialized>,
    p: usize,
    q: usize,
    color: TerminalColor,
    bold: bool,
    k1: int,
    k2: int,
)
    requires
        tags_wf(tags),
        p < q,
        0 <= k1 <= k2 < tags.len(),
        tag_contains(tags[k1], p as int),
        tag_contains(tags[k2], q - 1),
        k1 == tag_index_at(tags, p as int),
        k2 == tag_index_at(tags, q - 1),
    ensures
        tags_wf(push_range_spec(tags, p, q, color, bold)),
{
    let r = push_range_spec(tags, p, q, color, bold);
    let a = tags.subrange(0, k1);
    let left = if tags[k1].start < p {
        seq![tag_with_end(tags[k1], p)]
    } else {
        Seq::<FormatTagSerialized>::empty()
    };
    let right = if q < tags[k2].end {
        seq![tag_with_start(tags[k2], q)]
    } else {
        Seq::<FormatTagSerialized>::empty()
    };
    let nt = FormatTagSerialized { start: p, end: q, color, bold };
    let b = tags.subrange(k2 + 1, tags.len() as int);
    let m: int = a.len() + left.len() as int;
    assert(r == a + left + seq![nt] + right + b);
    assert(r[m] == nt);
    assert forall|i: int| 0 <= i < r.len() implies #[trigger] r[i].start < r[i].end by {
        if i < a.len() {
            assert(r[i] == tags[i]);
        } else if i < m {
        } else if i == m {
        } else if i < m + 1 + right.len() {
        } else {
            assert(r[i] == tags[k2 + 1 + (i - m - 1 - right.len())]);
        }
    }
    assert forall|i: int| 0 <= i < r.len() - 1 implies r[i].end == #[trigger] r[i + 1].start by {
        if i + 1 < a.len() {
            assert(r[i] == tags[i]);
            assert(r[i + 1] == tags[i + 1]);
        } else if i + 1 == a.len() {
            assert(r[i] == tags[i]);
            assert(tags[i].end == tags[k1].start);
        } else if i < m {
        } else if i == m {
            if right.len() == 0 {
                if i + 1 < r.len() {
                    assert(r[i + 1] == tags[k2 + 1]);
                    assert(tags[k2].end == tags[k2 + 1].start);
                }
            }
        } else if i < m + 1 + right.len() {
            assert(r[i + 1] == tags[k2 + 1]);
            assert(tags[k2].end == tags[k2 + 1].start);
        } else {
            let j = k2 + 1 + (i - m - 1 - right.len());
            assert(r[i] == tags[j]);
            assert(r[i + 1] == tags[j + 1]);
        }
    }
    if k1 == 0 {
        assert(tags[0].start == 0);
    } else {
        assert(r[0] == tags[0]);
    }
    if b.len() == 0 {
        assert(k2 == tags.len() - 1);
        if right.len() == 0 {
            assert(q == tags[k2].end);
        }
    } else {
        assert(r.last() == tags.last());
    }
}

/// Why a format tag could not be loaded.
#[derive(Debug, Clone, Copy, PartialEq, Eq, Structural)]
pub enum LoadFormatTagSnapshotError {
    RootNotMap,
    StartMissing,
    StartNotUsize,
    EndMissing,
    EndNotInt,
    EndNotUsize,
    BoldMissing,
    BoldNotBool,
    ColorMissing,
    ColorNotString,
    ParseColor,
}

/// Why a format tag could not be saved: a position does not fit in an `i64`.
#[derive(Debug, Clone, Copy, PartialEq, Eq, Structural)]
pub enum SnapshotFormatTagError {
    StartNotI64,
    EndNotI64,
}

/// Why a format tracker could not be loaded.
#[derive(Debug, Clone, Copy, PartialEq, Eq, Structural)]
pub enum LoadFormatTrackerSnapshotError {
    NotArray,
    LoadTag(LoadFormatTagSnapshotError),
    /// The tags do not cover the linear view in order without gaps.
    NotContiguous,
}

/// An unbounded end is saved as -1.
pub open spec fn end_item(end: usize) -> SnapshotItem {
    if end == UNBOUNDED {
        SnapshotItem::Int(-1i64)
    } else {
        SnapshotItem::Int(end as i64)
    }
}

pub open spec fn fits_i64(v: usize) -> bool {
    v <= i64::MAX
}

/// How a tag is saved: "start", "end", "color" (its name), "bold".
pub open spec fn is_tag_snapshot(item: SnapshotItem, t: FormatTagSerialized) -> bool {
    &&& is_map_with(item, seq!["start"@, "end"@, "color"@, "bold"@])
    &&& item->Object_0@[0].1 == SnapshotItem::Int(t.start as i64)
    &&& item->Object_0@[1].1 == end_item(t.end)
    &&& item->Object_0@[2].1 matches SnapshotItem::String(s) && s@ == color_name(t.color)
    &&& item->Object_0@[3].1 == SnapshotItem::Bool(t.bold)
}

/// What loading a tag from `item` gives.
pub open spec fn load_tag_spec(item: SnapshotItem) -> Result<FormatTagSerialized, LoadFormatTagSnapshotError> {
    if !(item is Object) {
        Err(LoadFormatTagSnapshotError::RootNotMap)
    } else {
        match field(item, "start"@) {
            None => Err(LoadFormatTagSnapshotError::StartMissing),
            Some(s) => if !(s matches SnapshotItem::Int(v) && 0 <= v && v <= usize::MAX) {
                Err(LoadFormatTagSnapshotError::StartNotUsize)
            } else {
                match field(item, "end"@) {
                    None => Err(LoadFormatTagSnapshotError::EndMissing),
                    Some(e) => if !(e is Int) {
                        Err(LoadFormatTagSnapshotError::EndNotInt)
                    } else if !(e->Int_0 == -1 || (0 <= e->Int_0 && e->Int_0 <= usize::MAX)) {
                        Err(LoadFormatTagSnapshotError::EndNotUsize)
                    } else {
                        match field(item, "bold"@) {
                            None => Err(LoadFormatTagSnapshotError::BoldMissing),
                            Some(b) => if !(b is Bool) {
                                Err(LoadFormatTagSnapshotError::BoldNotBool)
                            } else {
                                match field(item, "color"@) {
                                    None => Err(LoadFormatTagSnapshotError::ColorMissing),
                                    Some(SnapshotItem::String(c)) => match color_named(c@) {
                                        None => Err(LoadFormatTagSnapshotError::ParseColor),
                                        Some(color) => Ok(FormatTagSerialized {
                                            start: s->Int_0 as usize,
                                            end: if e->Int_0 == -1 {
                                                UNBOUNDED
                                            } else {
                                                e->Int_0 as usize
                                            },
                                            color,
                                            bold: b->Bool_0,
                                        }),
                                    },
                                    Some(_) => Err(LoadFormatTagSnapshotError::ColorNotString),
                                }
                            },
                        }
                    },
                }
            },
        }
    }
}

/// How a tracker is saved: an array of its tags.
pub open spec fn is_tracker_snapshot(item: SnapshotItem, tags: Seq<FormatTagSerialized>) -> bool {
    &&& item is Array
    &&& item->Array_0@.len() == tags.len()
    &&& forall|k: int| 0 <= k < tags.len() ==> is_tag_snapshot(#[trigger] item->Array_0@[k], tags[k])
}

/// What loading a tracker from `item` gives: every tag must load, and together they
/// must satisfy the tracker's invariant.
pub open spec fn load_tracker_spec(item: SnapshotItem) -> Result<Seq<FormatTagSerialized>, LoadFormatTrackerSnapshotError> {
    match item {
        SnapshotItem::Array(a) => if exists|k: int| 0 <= k < a@.len() && (#[trigger] load_tag_spec(a@[k])) is Err {
            let k = choose|k: int| 0 <= k < a@.len() && (#[trigger] load_tag_spec(a@[k])) is Err
                && forall|j: int| 0 <= j < k ==> (#[trigger] load_tag_spec(a@[j])) is Ok;
            Err(LoadFormatTrackerSnapshotError::LoadTag(load_tag_spec(a@[k])->Err_0))
        } else {
            let tags = Seq::new(a@.len(), |k: int| load_tag_spec(a@[k])->Ok_0);
            if tags_wf(tags) {
                Ok(tags)
            } else {
                Err(LoadFormatTrackerSnapshotError::NotContiguous)
            }
        },
        _ => Err(LoadFormatTrackerSnapshotError::NotArray),
    }
}

fn position_item(v: usize) -> (r: Option<SnapshotItem>)
    ensures
        v == UNBOUNDED ==> r == Some(end_item(v)),
        v != UNBOUNDED ==> (fits_i64(v) <==> r is Some),
        v != UNBOUNDED && fits_i64(v) ==> r == Some(end_item(v)),
{
    if v == UNBOUNDED {
        Some(SnapshotItem::Int(-1))
    } else if v as u64 <= i64::MAX as u64 {
        Some(SnapshotItem::Int(v as i64))
    } else {
        None
    }
}

impl FormatTagSerialized {
    /// Saves the tag. Positions must fit in an `i64`; an unbounded end is saved as -1.
    pub fn snapshot(&self) -> (r: Result<SnapshotItem, SnapshotFormatTagError>)
        ensures
            !fits_i64(self.start) ==> r == Err::<SnapshotItem, SnapshotFormatTagError>(SnapshotFormatTagError::StartNotI64),
            fits_i64(self.start) && self.end != UNBOUNDED && !fits_i64(self.end) ==> r == Err::<SnapshotItem, SnapshotFormatTagError>(SnapshotFormatTagError::EndNotI64),
            fits_i64(self.start) && (self.end == UNBOUNDED || fits_i64(self.end)) ==> (r matches Ok(item) && is_tag_snapshot(item, *self)),
            r matches Ok(item) ==> keys_distinct(item),
            r matches Ok(item) ==> load_tag_spec(item) == Ok::<FormatTagSerialized, LoadFormatTagSnapshotError>(*self),
    {
        if self.start as u64 > i64::MAX as u64 {
            return Err(SnapshotFormatTagError::StartNotI64);
        }
        let end = match position_item(self.end) {
            Some(e) => e,
            None => {
                return Err(SnapshotFormatTagError::EndNotI64);
            },
        };
        let mut m: Vec<(String, SnapshotItem)> = Vec::new();
        m.push(entry("start", SnapshotItem::Int(self.start as i64)));
        m.push(entry("end", end));
        m.push(entry("color", SnapshotItem::String(self.color.to_string())));
        m.push(entry("bold", SnapshotItem::Bool(self.bold)));
        let r = SnapshotItem::Object(m);
        assert(is_map_with(r, seq!["start"@, "end"@, "color"@, "bold"@]));
        proof {
            reveal_strlit("start");
            reveal_strlit("end");
            reveal_strlit("color");
            reveal_strlit("bold");
            assert("start"@.len() == 5 && "start"@[0] == 's');
            assert("end"@.len() == 3 && "end"@[0] == 'e');
            assert("color"@.len() == 5 && "color"@[0] == 'c');
            assert("bold"@.len() == 4 && "bold"@[0] == 'b');
            let keys = seq!["start"@, "end"@, "color"@, "bold"@];
            lemma_distinct_keys(keys);
            lemma_map_keys_distinct(r, keys);
            lemma_tag_snapshot_round_trip(r, *self);
        }
        Ok(r)
    }

    pub fn from_snapshot(snapshot: SnapshotItem) -> (r: Result<FormatTagSerialized, LoadFormatTagSnapshotError>)
        ensures
            r == load_tag_spec(snapshot),
    {
        Self::load(&snapshot)
    }

    fn load(item: &SnapshotItem) -> (r: Result<FormatTagSerialized, LoadFormatTagSnapshotError>)
        ensures
            r == load_tag_spec(*item),
    {
        if !matches!(item, SnapshotItem::Object(_)) {
            return Err(LoadFormatTagSnapshotError::RootNotMap);
        }
        let start = match get_field(item, "start") {
            None => {
                return Err(LoadFormatTagSnapshotError::StartMissing);
            },
            Some(SnapshotItem::Int(v)) => {
                if *v < 0 || *v as u64 > usize::MAX as u64 {
                    return Err(LoadFormatTagSnapshotError::StartNotUsize);
                }
                *v as usize
            },
            Some(_) => {
                return Err(LoadFormatTagSnapshotError::StartNotUsize);
            },
        };
        let end = match get_field(item, "end") {
            None => {
                return Err(LoadFormatTagSnapshotError::EndMissing);
            },
            Some(SnapshotItem::Int(v)) => {
                if *v == -1 {
                    UNBOUNDED
                } else if *v < 0 || *v as u64 > usize::MAX as u64 {
                    return Err(LoadFormatTagSnapshotError::EndNotUsize);
                } else {
                    *v as usize
                }
            },
            Some(_) => {
                return Err(LoadFormatTagSnapshotError::EndNotInt);
            },
        };
        let bold = match get_field(item, "bold") {
            None => {
                return Err(LoadFormatTagSnapshotError::BoldMissing);
            },
            Some(SnapshotItem::Bool(b)) => *b,
            Some(_) => {
                return Err(LoadFormatTagSnapshotError::BoldNotBool);
            },
        };
        let color = match get_field(item, "color") {
            None => {
                return Err(LoadFormatTagSnapshotError::ColorMissing);
            },
            Some(SnapshotItem::String(c)) => match TerminalColor::from_str(c.as_str()) {
                Ok(color) => color,
                Err(_) => {
                    return Err(LoadFormatTagSnapshotError::ParseColor);
                },
            },
            Some(_) => {
                return Err(LoadFormatTagSnapshotError::ColorNotString);
            },
        };
        Ok(FormatTagSerialized { start, end, color, bold })
    }
}

/// Loading a saved tag gives it back.
pub proof fn lemma_tag_snapshot_round_trip(item: SnapshotItem, t: FormatTagSerialized)
    requires
        is_tag_snapshot(item, t),
        fits_i64(t.start),
        t.end == UNBOUNDED || fits_i64(t.end),
    ensures
        load_tag_spec(item) == Ok::<FormatTagSerialized, LoadFormatTagSnapshotError>(t),
{
    reveal_strlit("start");
    reveal_strlit("end");
    reveal_strlit("color");
    reveal_strlit("bold");
    let keys = seq!["start"@, "end"@, "color"@, "bold"@];
    assert("start"@.len() == 5);
    assert("end"@.len() == 3);
    assert("color"@.len() == 5);
    assert("bold"@.len() == 4);
    assert("start"@[0] != "color"@[0]);
    lemma_distinct_keys(keys);
    lemma_field_at(item, keys, 0);
    lemma_field_at(item, keys, 1);
    lemma_field_at(item, keys, 2);
    lemma_field_at(item, keys, 3);
    assert(keys[0] == "start"@);
    assert(keys[1] == "end"@);
    assert(keys[2] == "color"@);
    assert(keys[3] == "bold"@);
    lemma_color_name_round_trip(t.color);
}

impl FormatTracker {
    /// Saves the tracker as an array of its tags.
    pub fn snapshot(&self) -> (r: Result<SnapshotItem, SnapshotFormatTagError>)
        requires
            self.wf(),
        ensures
            r matches Ok(item) ==> is_tracker_snapshot(item, self@),
            r matches Ok(item) ==> load_tracker_spec(item) == Ok::<Seq<FormatTagSerialized>, LoadFormatTrackerSnapshotError>(self@),
            r is Ok <==> (forall|k: int| 0 <= k < self@.len() ==> fits_i64(#[trigger] self@[k].start) && (self@[k].end == UNBOUNDED || fits_i64(self@[k].end))),
    {
        let mut out: Vec<SnapshotItem> = Vec::new();
        let n = self.color_info.len();
        let mut i: usize = 0;
        while i < n
            invariant
                n == self@.len(),
                self.color_info@ == self@,
                i <= n,
                out@.len() == i,
                forall|k: int| 0 <= k < i ==> is_tag_snapshot(#[trigger] out@[k], self@[k]),
                forall|k: int| 0 <= k < i ==> fits_i64(#[trigger] self@[k].start) && (self@[k].end == UNBOUNDED || fits_i64(self@[k].end)),
            decreases n - i,
        {
            let item = match self.color_info[i].snapshot() {
                Ok(item) => item,
                Err(e) => {
                    assert(!(fits_i64(self@[i as int].start) && (self@[i as int].end == UNBOUNDED
                        || fits_i64(self@[i as int].end))));
                    return Err(e);
                },
            };
            out.push(item);
            i = i + 1;
        }
        let r = SnapshotItem::Array(out);
        proof {
            lemma_tracker_snapshot_round_trip(r, self@);
        }
        Ok(r)
    }

    pub fn from_snapshot(snapshot: SnapshotItem) -> (r: Result<FormatTracker, LoadFormatTrackerSnapshotError>)
        ensures
            match load_tracker_spec(snapshot) {
                Ok(tags) => r matches Ok(t) && t@ == tags && t.wf(),
                Err(e) => r matches Err(x) && x == e,
            },
    {
        Self::load(&snapshot)
    }

    pub fn load(item: &SnapshotItem) -> (r: Result<FormatTracker, LoadFormatTrackerSnapshotError>)
        ensures
            match load_tracker_spec(*item) {
                Ok(tags) => r matches Ok(t) && t@ == tags && t.wf(),
                Err(e) => r matches Err(x) && x == e,
            },
    {
        match item {
            SnapshotItem::Array(a) => {
                let mut tags: Vec<FormatTagSerialized> = Vec::new();
                let n = a.len();
                let mut i: usize = 0;
                while i < n
                    invariant
                        n == a@.len(),
                        *item == SnapshotItem::Array(*a),
                        i <= n,
                        tags@.len() == i,
                        forall|k: int| 0 <= k < i ==> (#[trigger] load_tag_spec(a@[k])) is Ok,
                        forall|k: int| 0 <= k < i ==> #[trigger] tags@[k] == load_tag_spec(a@[k])->Ok_0,
                    decreases n - i,
                {
                    match FormatTagSerialized::load(&a[i]) {
                        Ok(t) => tags.push(t),
                        Err(e) => {
                            proof {
                                let w = choose|k: int| 0 <= k < a@.len() && (#[trigger] load_tag_spec(a@[k])) is Err
                                    && forall|j: int| 0 <= j < k ==> (#[trigger] load_tag_spec(a@[j])) is Ok;
                                assert(0 <= i < a@.len() && load_tag_spec(a@[i as int]) is Err
                                    && forall|j: int| 0 <= j < i ==> (#[trigger] load_tag_spec(a@[j])) is Ok);
                                if w < i {
                                    assert(load_tag_spec(a@[w]) is Ok);
                                } else if w > i {
                                    assert(load_tag_spec(a@[i as int]) is Ok);
                                }
                            }
                            return Err(LoadFormatTrackerSnapshotError::LoadTag(e));
                        },
                    }
                    i = i + 1;
                }
                assert(tags@ =~= Seq::new(a@.len(), |k: int| load_tag_spec(a@[k])->Ok_0));
                if check_tags_wf(&tags) {
                    Ok(FormatTracker { color_info: tags })
                } else {
                    Err(LoadFormatTrackerSnapshotError::NotContiguous)
                }
            },
            _ => Err(LoadFormatTrackerSnapshotError::NotArray),
        }
    }
}

fn check_tags_wf(tags: &Vec<FormatTagSerialized>) -> (r: bool)
    ensures
        r == tags_wf(tags@),
{
    let n = tags.len();
    if n == 0 || tags[0].start != 0 || tags[n - 1].end != UNBOUNDED {
        return false;
    }
    let mut i: usize = 0;
    while i < n
        invariant
            n == tags@.len(),
            i <= n,
            forall|k: int| 0 <= k < i ==> #[trigger] tags@[k].start < tags@[k].end,
            forall|k: int| 0 < k < i ==> #[trigger] tags@[k].start == tags@[k - 1].end,
        decreases n - i,
    {
        if tags[i].start >= tags[i].end {
            return false;
        }
        if i > 0 && tags[i].start != tags[i - 1].end {
            return false;
        }
        i = i + 1;
    }
    true
}

/// Loading a saved tracker gives it back.
pub proof fn lemma_tracker_snapshot_round_trip(item: SnapshotItem, tags: Seq<FormatTagSerialized>)
    requires
        is_tracker_snapshot(item, tags),
        tags_wf(tags),
        forall|k: int| 0 <= k < tags.len() ==> fits_i64(#[trigger] tags[k].start) && (tags[k].end == UNBOUNDED || fits_i64(tags[k].end)),
    ensures
        load_tracker_spec(item) == Ok::<Seq<FormatTagSerialized>, LoadFormatTrackerSnapshotError>(tags),
{
    let a = item->Array_0@;
    assert forall|k: int| 0 <= k < a.len() implies (#[trigger] load_tag_spec(a[k])) == Ok::<FormatTagSerialized, LoadFormatTagSnapshotError>(tags[k]) by {
        lemma_tag_snapshot_round_trip(a[k], tags[k]);
    }
    assert(Seq::new(a.len(), |k: int| load_tag_spec(a[k])->Ok_0) =~= tags);
}

/// Sum of the lengths of the runs `tags`.
pub open spec fn sum_lengths(tags: Seq<FormatTagSerialized>) -> int
    decreases tags.len(),
{
    if tags.len() == 0 {
        0
    } else {
        sum_lengths(tags.drop_last()) + (tags.last().end - tags.last().start)
    }
}

proof fn lemma_prefix_lengths(tags: Seq<FormatTagSerialized>, k: int)
    requires
        tags_wf(tags),
        0 <= k < tags.len(),
    ensures
        sum_lengths(tags.subrange(0, k)) == tags[k].start,
    decreases k,
{
    if k > 0 {
        lemma_prefix_lengths(tags, k - 1);
        let pre = tags.subrange(0, k);
        assert(pre.drop_last() =~= tags.subrange(0, k - 1));
        assert(tags[k].start == tags[k - 1].end);
    } else {
        assert(tags.subrange(0, 0) =~= Seq::<FormatTagSerialized>::empty());
    }
}

/// The bounded runs together are exactly as long as the text before the unbounded
/// run; with that run cut at `total` (no earlier than its start), all runs together
/// are `total` long.
pub proof fn lemma_run_lengths_cover(tags: Seq<FormatTagSerialized>, total: int)
    requires
        tags_wf(tags),
        tags.last().start <= total,
    ensures
        sum_lengths(tags.drop_last()) == tags.last().start,
        sum_lengths(tags.drop_last()) + (total - tags.last().start) == total,
{
    lemma_prefix_lengths(tags, tags.len() - 1);
    assert(tags.subrange(0, tags.len() - 1) =~= tags.drop_last());
}

} // verus!
