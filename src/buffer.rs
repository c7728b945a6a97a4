use vstd::prelude::*;

use crate::bytes::{append_bytes, copy_bytes, slice_bytes};
use crate::snapshot::{
    keys_distinct, lemma_map_keys_distinct,
    bytes_item, bytes_of, entry, field, get_field, is_byte_array, is_map_with, item_bytes,
    lemma_bytes_round_trip, lemma_distinct_keys, lemma_field_at, SnapshotItem,
};
use crate::terminal::{usize_of, CursorPos, TerminalData};
use std::ops::Range;

verus! {

/// Result of a write that may scroll rows into the scrollback. Text positions count
/// the scrollback's bytes, then the visible text's.
pub struct TerminalBufferModification {
    /// Grid cells (`rows * width`) that left the visible area, and the scrollback
    /// range they became.
    pub visible_to_scrollback: (Range<usize>, Range<usize>),
    /// Text range from where the write began to where it ended, in the text after
    /// the write.
    pub written_range: Range<usize>,
    /// Text range of the spaces added to reach the cursor's column, in the text
    /// before the write.
    pub insertion_range: Range<usize>,
    /// Cursor position after the write.
    pub new_cursor_pos: CursorPos,
}

/// Result of inserting spaces, in text positions of the text before the insertion.
pub struct TerminalBufferInsertResponse {
    /// Where the spaces were written.
    pub written_range: Range<usize>,
    /// The part that lengthened the row; later text moves forward by its length.
    pub insertion_range: Range<usize>,
    pub new_cursor_pos: CursorPos,
}

/// Result of inserting lines, in text positions of the text before the insertion.
#[derive(Debug)]
pub struct TerminalBufferInsertLineResponse {
    /// The rows pushed off the bottom.
    pub deleted_range: Range<usize>,
    /// The line breaks of the new empty rows.
    pub inserted_range: Range<usize>,
}

/// Result of a window resize.
pub struct TerminalBufferSetWinSizeResponse {
    pub changed: bool,
    pub insertion_range: Range<usize>,
    pub new_cursor_pos: CursorPos,
}

/// The screen: a `width` x `height` grid of rows, each holding at most `width`
/// bytes and a flag for an explicit line end, above which lies the scrollback.
#[derive(Debug, PartialEq, Eq)]
pub struct TerminalBuffer2 {
    width: usize,
    height: usize,
    lines: Vec<Vec<u8>>,
    newlines: Vec<bool>,
    scrollback: Vec<u8>,
}

/// Mathematical form of the screen.
pub struct BufferModel {
    pub width: usize,
    pub height: usize,
    pub rows: Seq<Seq<u8>>,
    pub newlines: Seq<bool>,
    pub scrollback: Seq<u8>,
}

/// Grid dimensions that the buffer accepts: both positive, and one row more than the
/// grid still addressable by `usize`.
pub open spec fn valid_size(width: usize, height: usize) -> bool {
    &&& width >= 1
    &&& height >= 1
    &&& (height + 1) * width <= usize::MAX
}

pub open spec fn model_wf(m: BufferModel) -> bool {
    &&& valid_size(m.width, m.height)
    &&& m.rows.len() == m.height
    &&& m.newlines.len() == m.height
    &&& forall|i: int| 0 <= i < m.rows.len() ==> (#[trigger] m.rows[i]).len() <= m.width
}

pub open spec fn spaces(n: nat) -> Seq<u8> {
    Seq::new(n, |i: int| 0x20u8)
}

/// Index of the first `\n` among the first `limit` bytes of `d`.
pub open spec fn first_newline(d: Seq<u8>, limit: nat) -> Option<nat>
    decreases limit,
{
    if limit == 0 {
        None
    } else {
        match first_newline(d, (limit - 1) as nat) {
            Some(i) => Some(i),
            None => if d[limit - 1] == 0x0a {
                Some((limit - 1) as nat)
            } else {
                None
            },
        }
    }
}

/// Writing `data` into one row at column `pos` (< width): the row, its line-end flag,
/// how many bytes were used, and the column after. A `\n` within reach (at most one
/// byte past the room left) ends the row there and is used up.
pub open spec fn line_insert_spec(row: Seq<u8>, nl: bool, data: Seq<u8>, pos: nat, width: nat) -> (
    Seq<u8>,
    bool,
    nat,
    nat,
) {
    let room = (width - pos) as nat;
    let copy0 = if room < data.len() {
        room
    } else {
        data.len()
    };
    let search = if copy0 + 1 < data.len() {
        copy0 + 1
    } else {
        data.len()
    };
    let k = first_newline(data, search);
    let copy = match k {
        Some(k) => if k < copy0 {
            k
        } else {
            copy0
        },
        None => copy0,
    };
    let new_row = overwrite_spec(row, data, pos, copy);
    match k {
        Some(k) => (new_row, true, k + 1, width),
        None => (new_row, nl, copy, pos + copy),
    }
}

/// The top row moves to the scrollback (with a `\n` if it ended explicitly) and an
/// empty row appears at the bottom.
pub open spec fn evict_spec(m: BufferModel) -> BufferModel {
    BufferModel {
        width: m.width,
        height: m.height,
        rows: m.rows.drop_first().push(Seq::empty()),
        newlines: m.newlines.drop_first().push(false),
        scrollback: m.scrollback + m.rows[0] + (if m.newlines[0] {
            seq![0x0au8]
        } else {
            Seq::empty()
        }),
    }
}

pub open spec fn set_row(m: BufferModel, y: int, row: Seq<u8>, nl: bool) -> BufferModel {
    BufferModel {
        width: m.width,
        height: m.height,
        rows: m.rows.update(y, row),
        newlines: m.newlines.update(y, nl),
        scrollback: m.scrollback,
    }
}

/// Writing `data` from cell (`x`, `y`): the screen after, the cursor after, and the
/// number of rows that scrolled into the scrollback.
pub open spec fn write_spec(m: BufferModel, x: nat, y: nat, data: Seq<u8>) -> (
    BufferModel,
    nat,
    nat,
    nat,
)
    decreases data.len(),
{
    if data.len() == 0 || x >= m.width || y >= m.height || m.rows.len() != m.height
        || m.newlines.len() != m.height {
        (m, x, y, 0)
    } else {
        let li = line_insert_spec(m.rows[y as int], m.newlines[y as int], data, x, m.width as nat);
        let consumed = li.2;
        if consumed == 0 || consumed > data.len() {
            (m, x, y, 0)
        } else {
            let m1 = set_row(m, y as int, li.0, li.1);
            let wrapped = li.3 >= m.width;
            let x2: nat = if wrapped {
                0
            } else {
                li.3
            };
            let y2: nat = if wrapped {
                y + 1
            } else {
                y
            };
            let evict = y2 >= m.height;
            let m2 = if evict {
                evict_spec(m1)
            } else {
                m1
            };
            let y3: nat = if evict {
                (m.height - 1) as nat
            } else {
                y2
            };
            let r = write_spec(m2, x2, y3, data.subrange(consumed as int, data.len() as int));
            (r.0, r.1, r.2, r.3 + if evict {
                1nat
            } else {
                0nat
            })
        }
    }
}

proof fn lemma_write_spec_bounds(m: BufferModel, x: nat, y: nat, data: Seq<u8>)
    requires
        x < m.width,
        y < m.height,
    ensures
        write_spec(m, x, y, data).1 < m.width,
        write_spec(m, x, y, data).2 < m.height,
        write_spec(m, x, y, data).0.width == m.width,
        write_spec(m, x, y, data).0.height == m.height,
    decreases data.len(),
{
    if !(data.len() == 0 || x >= m.width || y >= m.height || m.rows.len() != m.height
        || m.newlines.len() != m.height) {
        let li = line_insert_spec(m.rows[y as int], m.newlines[y as int], data, x, m.width as nat);
        let consumed = li.2;
        if !(consumed == 0 || consumed > data.len()) {
            let m1 = set_row(m, y as int, li.0, li.1);
            let wrapped = li.3 >= m.width;
            let x2: nat = if wrapped {
                0
            } else {
                li.3
            };
            let y2: nat = if wrapped {
                y + 1
            } else {
                y
            };
            let evict = y2 >= m.height;
            let m2 = if evict {
                evict_spec(m1)
            } else {
                m1
            };
            let y3: nat = if evict {
                (m.height - 1) as nat
            } else {
                y2
            };
            lemma_write_spec_bounds(m2, x2, y3, data.subrange(consumed as int, data.len() as int));
        }
    }
}

proof fn lemma_first_newline_bound(d: Seq<u8>, limit: nat)
    requires
        limit <= d.len(),
    ensures
        first_newline(d, limit) matches Some(i) ==> i < limit && d[i as int] == 0x0a,
    decreases limit,
{
    if limit > 0 {
        lemma_first_newline_bound(d, (limit - 1) as nat);
    }
}

proof fn lemma_first_newline_stays(d: Seq<u8>, i: nat, limit: nat)
    requires
        i < limit <= d.len(),
        first_newline(d, i + 1) == Some(i),
    ensures
        first_newline(d, limit) == Some(i),
    decreases limit,
{
    if limit > i + 1 {
        lemma_first_newline_stays(d, i, (limit - 1) as nat);
    }
}

/// Index of the first `\n` among `data[start..start + limit]`.
fn find_newline(data: &[u8], start: usize, limit: usize) -> (r: Option<usize>)
    requires
        start + limit <= data@.len(),
    ensures
        match first_newline(data@.subrange(start as int, data@.len() as int), limit as nat) {
            Some(k) => r == Some(k as usize),
            None => r is None,
        },
{
    let ghost d = data@.subrange(start as int, data@.len() as int);
    let n = data.len();
    let mut j: usize = 0;
    while j < limit
        invariant
            n == data@.len(),
            start + limit <= data@.len(),
            d == data@.subrange(start as int, data@.len() as int),
            j <= limit,
            first_newline(d, j as nat) is None,
        decreases limit - j,
    {
        if data[start + j] == 0x0a {
            proof {
                lemma_first_newline_stays(d, j as nat, limit as nat);
            }
            return Some(j);
        }
        j = j + 1;
    }
    None
}

/// `row` padded with spaces to column `pos`, then `data[start..start + copy]` written
/// over it from `pos`.
pub open spec fn overwrite_spec(row: Seq<u8>, data: Seq<u8>, pos: nat, copy: nat) -> Seq<u8> {
    let padded = if row.len() < pos {
        row + spaces((pos - row.len()) as nat)
    } else {
        row
    };
    let tail = if pos + copy < padded.len() {
        padded.subrange((pos + copy) as int, padded.len() as int)
    } else {
        Seq::empty()
    };
    padded.subrange(0, pos as int) + data.subrange(0, copy as int) + tail
}

fn overwrite(row: &Vec<u8>, data: &[u8], start: usize, pos: usize, copy: usize) -> (r: Vec<u8>)
    requires
        start + copy <= data@.len(),
    ensures
        r@ == overwrite_spec(row@, data@.subrange(start as int, data@.len() as int), pos as nat, copy as nat),
{
    let ghost d = data@.subrange(start as int, data@.len() as int);
    let ghost padded = if row@.len() < pos {
        row@ + spaces((pos - row@.len()) as nat)
    } else {
        row@
    };
    let mut out: Vec<u8> = Vec::new();
    let mut i: usize = 0;
    while i < pos
        invariant
            i <= pos,
            padded == (if row@.len() < pos {
                row@ + spaces((pos - row@.len()) as nat)
            } else {
                row@
            }),
            out@ == padded.subrange(0, i as int),
        decreases pos - i,
    {
        if i < row.len() {
            out.push(row[i]);
        } else {
            out.push(0x20);
        }
        i = i + 1;
        assert(out@ =~= padded.subrange(0, i as int));
    }
    let n = data.len();
    let mut k: usize = 0;
    while k < copy
        invariant
            n == data@.len(),
            start + copy <= data@.len(),
            d == data@.subrange(start as int, data@.len() as int),
            padded == (if row@.len() < pos {
                row@ + spaces((pos - row@.len()) as nat)
            } else {
                row@
            }),
            k <= copy,
            out@ == padded.subrange(0, pos as int) + d.subrange(0, k as int),
        decreases copy - k,
    {
        out.push(data[start + k]);
        k = k + 1;
        assert(out@ =~= padded.subrange(0, pos as int) + d.subrange(0, k as int));
    }
    let ghost head = out@;
    let plen = if row.len() < pos {
        pos
    } else {
        row.len()
    };
    if pos < plen && copy < plen - pos {
        let mut t: usize = pos + copy;
        while t < plen
            invariant
                plen == padded.len(),
                pos + copy <= t <= plen,
                padded == (if row@.len() < pos {
                    row@ + spaces((pos - row@.len()) as nat)
                } else {
                    row@
                }),
                out@ == head + padded.subrange((pos + copy) as int, t as int),
            decreases plen - t,
        {
            if t < row.len() {
                out.push(row[t]);
            } else {
                out.push(0x20);
            }
            t = t + 1;
            assert(out@ =~= head + padded.subrange((pos + copy) as int, t as int));
        }
    } else {
        assert(out@ =~= head + Seq::<u8>::empty());
    }
    out
}

/// Writes `data[start..]` into `row` at column `pos`, as `line_insert_spec` says.
fn line_insert(row: &Vec<u8>, nl: bool, data: &[u8], start: usize, pos: usize, width: usize) -> (r: (
    Vec<u8>,
    bool,
    usize,
    usize,
))
    requires
        start <= data@.len(),
        pos < width,
        row@.len() <= width,
    ensures
        ({
            let s = line_insert_spec(
                row@,
                nl,
                data@.subrange(start as int, data@.len() as int),
                pos as nat,
                width as nat,
            );
            &&& r.0@ == s.0
            &&& r.1 == s.1
            &&& r.2 == s.2
            &&& r.3 == s.3
        }),
        r.0@.len() <= width,
        start < data@.len() ==> 1 <= r.2 <= data@.len() - start,
{
    let ghost d = data@.subrange(start as int, data@.len() as int);
    let n = data.len();
    let avail = n - start;
    let room = width - pos;
    let copy0 = if room < avail {
        room
    } else {
        avail
    };
    let search = if copy0 < avail {
        copy0 + 1
    } else {
        avail
    };
    let found = find_newline(data, start, search);
    proof {
        lemma_first_newline_bound(d, search as nat);
    }
    let copy = match found {
        Some(j) => if j < copy0 {
            j
        } else {
            copy0
        },
        None => copy0,
    };
    let out = overwrite(row, data, start, pos, copy);
    match found {
        Some(j) => (out, true, j + 1, width),
        None => (out, nl, copy, pos + copy),
    }
}

/// `n`, or `usize::MAX` where `n` is larger.
pub open spec fn cap(n: int) -> usize {
    if n > usize::MAX {
        usize::MAX
    } else {
        n as usize
    }
}

pub open spec fn empty_model(width: usize, height: usize, scrollback: Seq<u8>) -> BufferModel {
    BufferModel {
        width,
        height,
        rows: Seq::new(height as nat, |i: int| Seq::<u8>::empty()),
        newlines: Seq::new(height as nat, |i: int| false),
        scrollback,
    }
}

impl TerminalBuffer2 {
    pub closed spec fn view(&self) -> BufferModel {
        BufferModel {
            width: self.width,
            height: self.height,
            rows: Seq::new(self.lines@.len(), |i: int| self.lines@[i]@),
            newlines: self.newlines@,
            scrollback: self.scrollback@,
        }
    }

    pub open spec fn wf(&self) -> bool {
        model_wf(self@)
    }

    /// An empty screen of the given size.
    pub fn new(width: usize, height: usize) -> (r: TerminalBuffer2)
        requires
            valid_size(width, height),
        ensures
            r.wf(),
            r@ == empty_model(width, height, Seq::empty()),
    {
        let mut lines: Vec<Vec<u8>> = Vec::new();
        let mut newlines: Vec<bool> = Vec::new();
        let mut i: usize = 0;
        while i < height
            invariant
                i <= height,
                lines@.len() == i,
                newlines@.len() == i,
                forall|k: int| 0 <= k < i ==> (#[trigger] lines@[k])@ == Seq::<u8>::empty(),
                forall|k: int| 0 <= k < i ==> !(#[trigger] newlines@[k]),
            decreases height - i,
        {
            lines.push(Vec::new());
            newlines.push(false);
            i = i + 1;
        }
        let r = TerminalBuffer2 { width, height, lines, newlines, scrollback: Vec::new() };
        assert(r@.rows =~= empty_model(width, height, Seq::empty()).rows);
        assert(r@.newlines =~= empty_model(width, height, Seq::empty()).newlines);
        r
    }

    pub fn get_win_size(&self) -> (r: (usize, usize))
        ensures
            r == (self@.width, self@.height),
    {
        (self.width, self.height)
    }

    /// Moves the top row into the scrollback and opens an empty row at the bottom.
    pub fn push_line_to_scrollback(&mut self)
        requires
            old(self).wf(),
        ensures
            final(self).wf(),
            final(self)@ == evict_spec(old(self)@),
    {
        let ghost m = self@;
        let ghost old_lines = self.lines@;
        let ghost old_nls = self.newlines@;
        let top = self.lines.remove(0);
        let nl = self.newlines.remove(0);
        let tl = top.len();
        append_bytes(&mut self.scrollback, top.as_slice(), 0, tl);
        assert(top@.subrange(0, tl as int) =~= top@);
        if nl {
            self.scrollback.push(0x0a);
        }
        self.lines.push(Vec::new());
        self.newlines.push(false);
        proof {
            let e = evict_spec(m);
            assert(m.rows[0] == top@);
            assert forall|i: int| 0 <= i < self@.rows.len() implies self@.rows[i] == e.rows[i] by {
                if i < self@.rows.len() - 1 {
                    assert(self.lines@[i] == old_lines[i + 1]);
                }
            }
            assert(self@.rows =~= e.rows);
            assert forall|i: int| 0 <= i < self@.newlines.len() implies self@.newlines[i] == e.newlines[i] by {
                if i < self@.newlines.len() - 1 {
                    assert(self.newlines@[i] == old_nls[i + 1]);
                }
            }
            assert(self@.newlines =~= e.newlines);
            assert(self@.scrollback =~= e.scrollback);
        }
    }

    /// Writes `data` from `cursor_pos`, wrapping at the row end and at `\n`, and
    /// scrolling rows into the scrollback when the write runs past the last row.
    pub fn insert_data(&mut self, cursor_pos: &CursorPos, data: &[u8]) -> (r:
        TerminalBufferModification)
        requires
            old(self).wf(),
            cursor_pos.x < old(self)@.width,
            cursor_pos.y < old(self)@.height,
        ensures
            final(self).wf(),
            ({
                let w = write_spec(old(self)@, cursor_pos.x as nat, cursor_pos.y as nat, data@);
                let evicted = cap(w.3 * old(self)@.width);
                &&& final(self)@ == w.0
                &&& r.new_cursor_pos == CursorPos { x: w.1 as usize, y: w.2 as usize }
                &&& r.visible_to_scrollback.0 == (Range { start: 0usize, end: evicted })
                &&& r.visible_to_scrollback.1 == (Range {
                    start: old(self)@.scrollback.len() as usize,
                    end: final(self)@.scrollback.len() as usize,
                })
                &&& r.written_range == written_range_spec(old(self)@, w.0, cursor_pos.x, cursor_pos.y, w.1, w.2, w.3)
                &&& r.insertion_range == padding_range_spec(old(self)@, cursor_pos.x, cursor_pos.y)
            }),
            final(self)@.width == old(self)@.width,
            final(self)@.height == old(self)@.height,
            r.new_cursor_pos.x < old(self)@.width,
            r.new_cursor_pos.y < old(self)@.height,
    {
        let ghost m0 = self@;
        let ghost total = write_spec(m0, cursor_pos.x as nat, cursor_pos.y as nat, data@);
        assert(self@.rows[cursor_pos.y as int] == self.lines@[cursor_pos.y as int]@);
        let len0 = self.lines[cursor_pos.y].len();
        let pad_end = self.text_pos(cursor_pos.x, cursor_pos.y);
        let pad_start = if len0 < cursor_pos.x {
            self.text_pos(len0, cursor_pos.y)
        } else {
            pad_end
        };
        let width = self.width;
        let height = self.height;
        let sb_start = self.scrollback.len();
        let mut x = cursor_pos.x;
        let mut y = cursor_pos.y;
        proof {
            assert((y + 1) * width + x <= (height + 1) * width) by (nonlinear_arith)
                requires
                    y < height,
                    x < width,
            ;
            assert(y * width + x <= (height + 1) * width) by (nonlinear_arith)
                requires
                    y < height,
                    x < width,
            ;
        }
        let write_start = if data.len() > 0 && data[0] == 0x0a {
            (y + 1) * width + x
        } else {
            y * width + x
        };
        let n = data.len();
        let mut start: usize = 0;
        let mut evicted_lines: usize = 0;
        let mut evicted_bytes: usize = 0;
        assert(data@.subrange(0, n as int) =~= data@);
        while start < n
            invariant
                n == data@.len(),
                self.wf(),
                self.width == width,
                self.height == height,
                self@.width == width,
                self@.height == height,
                x < width,
                y < height,
                start <= n,
                evicted_lines <= start,
                evicted_bytes == cap(evicted_lines * width),
                sb_start <= self@.scrollback.len(),
                ({
                    let cur = write_spec(self@, x as nat, y as nat, data@.subrange(start as int, n as int));
                    &&& cur.0 == total.0
                    &&& cur.1 == total.1
                    &&& cur.2 == total.2
                    &&& cur.3 + evicted_lines == total.3
                }),
            decreases n - start,
        {
            let ghost m = self@;
            let ghost rest = data@.subrange(start as int, n as int);
            let (row, nl, consumed, nx) = line_insert(&self.lines[y], self.newlines[y], data, start, x, width);
            self.lines.set(y, row);
            self.newlines.set(y, nl);
            proof {
                let m1 = set_row(m, y as int, row@, nl);
                assert(self@.rows =~= m1.rows);
                assert(self@ == m1);
                assert(data@.subrange((start + consumed) as int, n as int) =~= rest.subrange(consumed as int, rest.len() as int));
            }
            if nx >= width {
                x = 0;
                y = y + 1;
            } else {
                x = nx;
            }
            if y > height - 1 {
                self.push_line_to_scrollback();
                evicted_lines = evicted_lines + 1;
                evicted_bytes = evicted_bytes.saturating_add(width);
                y = height - 1;
                proof {
                    assert(evicted_lines * width == (evicted_lines - 1) * width + width)
                        by (nonlinear_arith);
                }
            }
            start = start + consumed;
        }
        proof {
            assert(data@.subrange(n as int, n as int) =~= Seq::<u8>::empty());
            assert(y * width + x <= height * width) by (nonlinear_arith)
                requires
                    y < height,
                    x < width,
            ;
            assert(height * width <= (height + 1) * width) by (nonlinear_arith);
        }
        let write_start = if evicted_lines <= cursor_pos.y {
            self.text_pos(cursor_pos.x, cursor_pos.y - evicted_lines)
        } else {
            sb_start
        };
        let write_end = if x == 0 && y > 0 {
            assert(self@.rows[y - 1] == self.lines@[y - 1]@);
            self.text_pos(self.lines[y - 1].len(), y - 1)
        } else {
            self.text_pos(x, y)
        };
        TerminalBufferModification {
            visible_to_scrollback: (0..evicted_bytes, sb_start..self.scrollback.len()),
            written_range: write_start..write_end,
            insertion_range: pad_start..pad_end,
            new_cursor_pos: CursorPos { x, y },
        }
    }
}

/// Where a write from (`x0`, `y0`) began and ended, in the text after it (`m1`, with
/// the cursor at (`x1`, `y1`) and `evicted` rows scrolled away). When the row it
/// began on scrolled away, it began where the new scrollback text begins; when it
/// ended by wrapping to a new row, it ended with the content of the row before.
pub open spec fn written_range_spec(
    m0: BufferModel,
    m1: BufferModel,
    x0: usize,
    y0: usize,
    x1: nat,
    y1: nat,
    evicted: nat,
) -> Range<usize> {
    let start = if evicted <= y0 {
        cap(text_pos(m1, x0 as int, y0 - evicted))
    } else {
        m0.scrollback.len() as usize
    };
    let end = if x1 == 0 && y1 > 0 {
        text_pos(m1, m1.rows[y1 - 1].len() as int, y1 - 1)
    } else {
        text_pos(m1, x1 as int, y1 as int)
    };
    Range { start, end: cap(end) }
}

/// The spaces a write at (`x`, `y`) adds before column `x`, in the text before it.
pub open spec fn padding_range_spec(m: BufferModel, x: usize, y: usize) -> Range<usize> {
    let len = m.rows[y as int].len() as int;
    if len < x {
        cap_range(text_pos(m, len, y as int), text_pos(m, x as int, y as int))
    } else {
        cap_range(text_pos(m, x as int, y as int), text_pos(m, x as int, y as int))
    }
}

/// Whether row `i` shows in the visible text on its own: it has content or it
/// ended explicitly.
pub open spec fn row_present(m: BufferModel, i: int) -> bool {
    m.rows[i].len() > 0 || m.newlines[i]
}

/// Index of the last present row among rows `0..k`, or 0 when there is none.
pub open spec fn last_row_upto(m: BufferModel, k: int) -> int
    decreases k,
{
    if k <= 0 {
        0
    } else if row_present(m, k - 1) {
        k - 1
    } else {
        last_row_upto(m, k - 1)
    }
}

/// Index of the last present row, or 0 when every row is empty.
pub open spec fn last_content_row(m: BufferModel) -> int {
    last_row_upto(m, m.rows.len() as int)
}

/// Whether row `y` is followed by `\n` in the visible text: it ended explicitly, it
/// is shorter than the width, or the row after it is empty.
pub open spec fn row_break(m: BufferModel, y: int) -> bool {
    m.newlines[y] || m.rows[y].len() < m.width || (y + 1 < m.rows.len() && m.rows[y + 1].len()
        == 0)
}

/// The text of rows `0..k`, each followed by its line break.
pub open spec fn rows_text(m: BufferModel, k: int) -> Seq<u8>
    decreases k,
{
    if k <= 0 {
        Seq::empty()
    } else {
        rows_text(m, k - 1) + m.rows[k - 1] + if row_break(m, k - 1) {
            seq![0x0au8]
        } else {
            Seq::empty()
        }
    }
}

/// The visible text: every row up to the last one with content, that one without a
/// break of its own, and one closing `\n` when the text is not empty.
pub open spec fn visible_spec(m: BufferModel) -> Seq<u8> {
    let last = last_content_row(m);
    let body = rows_text(m, last) + m.rows[last];
    if body.len() == 0 {
        body
    } else {
        body.push(0x0a)
    }
}

proof fn lemma_last_row_upto(m: BufferModel, k: int)
    requires
        0 <= k <= m.rows.len(),
        m.newlines.len() == m.rows.len(),
    ensures
        k >= 1 ==> 0 <= last_row_upto(m, k) < k,
        k == 0 ==> last_row_upto(m, k) == 0,
        forall|i: int| last_row_upto(m, k) < i < k ==> !#[trigger] row_present(m, i),
    decreases k,
{
    if k > 0 && !row_present(m, k - 1) {
        lemma_last_row_upto(m, k - 1);
    }
}

/// A present row with no present row after it is the last present row.
proof fn lemma_last_row_is(m: BufferModel, j: int)
    requires
        0 <= j < m.rows.len(),
        m.newlines.len() == m.rows.len(),
        row_present(m, j),
        forall|i: int| j < i < m.rows.len() ==> !#[trigger] row_present(m, i),
    ensures
        last_content_row(m) == j,
{
    lemma_last_row_from(m, j, m.rows.len() as int);
}

proof fn lemma_last_row_from(m: BufferModel, j: int, k: int)
    requires
        0 <= j < k <= m.rows.len(),
        m.newlines.len() == m.rows.len(),
        row_present(m, j),
        forall|i: int| j < i < m.rows.len() ==> !#[trigger] row_present(m, i),
    ensures
        last_row_upto(m, k) == j,
    decreases k,
{
    if k - 1 > j {
        assert(!row_present(m, k - 1));
        lemma_last_row_from(m, j, k - 1);
    }
}

impl TerminalBuffer2 {
    fn last_content_row(&self) -> (r: usize)
        requires
            self.wf(),
        ensures
            r == last_content_row(self@),
    {
        let mut i: usize = self.height;
        while i > 0
            invariant
                i <= self.height,
                self.wf(),
                self.lines@.len() == self.height,
                last_content_row(self@) == last_row_upto(self@, i as int),
            decreases i,
        {
            assert(self@.rows[i - 1] == self.lines@[i - 1]@);
            if self.lines[i - 1].len() > 0 || self.newlines[i - 1] {
                return i - 1;
            }
            i = i - 1;
        }
        0
    }

    /// The scrollback and the visible text.
    pub fn data(&self) -> (r: TerminalData<Vec<u8>>)
        requires
            self.wf(),
        ensures
            r.scrollback@ == self@.scrollback,
            r.visible@ == visible_spec(self@),
    {
        let last = self.last_content_row();
        proof {
            lemma_last_row_upto(self@, self@.rows.len() as int);
        }
        assert(last < self.height);
        let width = self.width;
        let mut out: Vec<u8> = Vec::new();
        let mut y: usize = 0;
        while y < last
            invariant
                self.wf(),
                self.width == width,
                last < self.height,
                self.lines@.len() == self.height,
                y <= last,
                out@ == rows_text(self@, y as int),
            decreases last - y,
        {
            let row = &self.lines[y];
            append_bytes(&mut out, row.as_slice(), 0, row.len());
            assert(row@.subrange(0, row@.len() as int) =~= row@);
            let brk = self.newlines[y] || row.len() < width || (y + 1 < self.height
                && self.lines[y + 1].len() == 0);
            if brk {
                out.push(0x0a);
            }
            y = y + 1;
            assert(out@ =~= rows_text(self@, y as int));
        }
        let row = &self.lines[last];
        append_bytes(&mut out, row.as_slice(), 0, row.len());
        assert(row@.subrange(0, row@.len() as int) =~= row@);
        if out.len() > 0 {
            out.push(0x0a);
        }
        TerminalData { scrollback: copy_bytes(&self.scrollback), visible: out }
    }
}

pub open spec fn min_nat(a: int, b: int) -> int {
    if a < b {
        a
    } else {
        b
    }
}

/// Row `y` cut back to column `x`, with no explicit line end.
pub open spec fn clear_line_spec(m: BufferModel, x: usize, y: usize) -> BufferModel {
    if y < m.height {
        set_row(m, y as int, m.rows[y as int].subrange(0, min_nat(x as int, m.rows[y as int].len() as int)), false)
    } else {
        m
    }
}

/// Row `y` cut back to column `x` and every row below it emptied. Rows up to the
/// last present one stay present, ended explicitly, so the visible text keeps its
/// number of rows.
pub open spec fn clear_forwards_spec(m: BufferModel, x: usize, y: usize) -> BufferModel {
    if y < m.height {
        let last = last_content_row(m);
        let row = m.rows[y as int];
        BufferModel {
            width: m.width,
            height: m.height,
            rows: Seq::new(m.rows.len(), |i: int| if i > y { Seq::empty() } else if i == y {
                row.subrange(0, min_nat(x as int, row.len() as int))
            } else {
                m.rows[i]
            }),
            newlines: Seq::new(m.newlines.len(), |i: int| if i >= y { i <= last } else { m.newlines[i] }),
            scrollback: m.scrollback,
        }
    } else {
        m
    }
}

/// Position of cell (`x`, `y`) in the text: the scrollback, then the visible rows
/// before row `y` with their line breaks, then `x`.
pub open spec fn text_pos(m: BufferModel, x: int, y: int) -> int {
    m.scrollback.len() + rows_text(m, y).len() + x
}

/// Length of the whole text: scrollback and visible text.
pub open spec fn text_len(m: BufferModel) -> int {
    m.scrollback.len() + visible_spec(m).len() as int
}

pub open spec fn cap_range(a: int, b: int) -> Range<usize> {
    Range { start: cap(a), end: cap(b) }
}

proof fn lemma_cap_add(a: int, b: int)
    requires
        a >= 0,
        b >= 0,
        b <= usize::MAX,
    ensures
        cap(a).saturating_add(b as usize) == cap(a + b),
{
}

proof fn lemma_rows_text_mono(m: BufferModel, a: int, b: int)
    requires
        0 <= a <= b,
    ensures
        rows_text(m, a).len() <= rows_text(m, b).len(),
    decreases b - a,
{
    if a < b {
        lemma_rows_text_mono(m, a, b - 1);
    }
}

/// Up to `n` bytes right of column `x` on row `y` removed; nothing when `x` is past
/// the row's end.
pub open spec fn delete_forwards_spec(m: BufferModel, x: usize, y: usize, n: usize) -> BufferModel {
    if y < m.height && x <= m.rows[y as int].len() {
        let row = m.rows[y as int];
        let k = min_nat(n as int, row.len() - x);
        set_row(m, y as int, row.subrange(0, x as int) + row.subrange(x + k, row.len() as int), m.newlines[y as int])
    } else {
        m
    }
}

/// Up to `n` spaces opened at column `x` of row `y`, the rest of the row shifted right
/// and cut at the width; nothing when `x` is past the row's end.
pub open spec fn insert_spaces_spec(m: BufferModel, x: usize, y: usize, n: usize) -> BufferModel {
    if y < m.height && x <= m.rows[y as int].len() {
        let row = m.rows[y as int];
        let k = min_nat(n as int, m.width - x);
        let grown = row.subrange(0, x as int) + spaces(k as nat) + row.subrange(x as int, row.len() as int);
        set_row(m, y as int, grown.subrange(0, min_nat(row.len() + k, m.width as int)), m.newlines[y as int])
    } else {
        m
    }
}

/// `n` empty rows opened at row `y`; rows pushed past the bottom are lost.
pub open spec fn insert_lines_spec(m: BufferModel, y: usize, n: usize) -> BufferModel {
    if y < m.height && n > 0 {
        BufferModel {
            width: m.width,
            height: m.height,
            rows: Seq::new(m.rows.len(), |i: int| if i < y { m.rows[i] } else if i < y + n { Seq::empty() } else { m.rows[i - n] }),
            newlines: Seq::new(m.newlines.len(), |i: int| if i < y { m.newlines[i] } else if i < y + n { false } else { m.newlines[i - n] }),
            scrollback: m.scrollback,
        }
    } else {
        m
    }
}

impl TerminalBuffer2 {
    fn set_line(&mut self, y: usize, row: Vec<u8>, nl: bool)
        requires
            old(self).wf(),
            y < old(self)@.height,
            row@.len() <= old(self)@.width,
        ensures
            final(self).wf(),
            final(self)@ == set_row(old(self)@, y as int, row@, nl),
    {
        let ghost r = row@;
        self.lines.set(y, row);
        self.newlines.set(y, nl);
        assert(self@.rows =~= set_row(old(self)@, y as int, r, nl).rows);
    }

    /// Position of cell (`x`, `y`) in the text, capped at `usize::MAX`.
    pub fn text_pos(&self, x: usize, y: usize) -> (r: usize)
        requires
            self.wf(),
            y <= self@.height,
        ensures
            r == cap(text_pos(self@, x as int, y as int)),
    {
        let mut acc: usize = self.scrollback.len();
        let mut k: usize = 0;
        while k < y
            invariant
                self.wf(),
                y <= self@.height,
                self.lines@.len() == self@.height,
                k <= y,
                acc == cap(text_pos(self@, 0, k as int)),
            decreases y - k,
        {
            assert(self@.rows[k as int] == self.lines@[k as int]@);
            let len = self.lines[k].len();
            proof {
                lemma_cap_add(text_pos(self@, 0, k as int), len as int);
            }
            acc = acc.saturating_add(len);
            let brk = self.newlines[k] || len < self.width || (k + 1 < self.height
                && self.lines[k + 1].len() == 0);
            if brk {
                proof {
                    lemma_cap_add(text_pos(self@, 0, k as int) + len, 1);
                }
                acc = acc.saturating_add(1);
            }
            k = k + 1;
        }
        proof {
            lemma_cap_add(text_pos(self@, 0, y as int), x as int);
        }
        acc.saturating_add(x)
    }

    /// Length of the whole text, capped at `usize::MAX`.
    pub fn text_len(&self) -> (r: usize)
        requires
            self.wf(),
        ensures
            r == cap(text_len(self@)),
    {
        let d = self.data();
        d.scrollback.len().saturating_add(d.visible.len())
    }

    /// Erases from the cursor to the end of its row. Reports no removed range.
    pub fn clear_line_forwards(&mut self, cursor_pos: &CursorPos) -> (r: Option<Range<usize>>)
        requires
            old(self).wf(),
        ensures
            final(self).wf(),
            final(self)@ == clear_line_spec(old(self)@, cursor_pos.x, cursor_pos.y),
            ({
                let y = cursor_pos.y as int;
                if cursor_pos.y < old(self)@.height && cursor_pos.x < old(self)@.rows[y].len() {
                    r == Some(cap_range(
                        text_pos(old(self)@, cursor_pos.x as int, y),
                        text_pos(old(self)@, old(self)@.rows[y].len() as int, y),
                    ))
                } else {
                    r is None
                }
            }),
    {
        let y = cursor_pos.y;
        if y < self.height {
            assert(self@.rows[y as int] == self.lines@[y as int]@);
            let len = self.lines[y].len();
            let base = self.text_pos(0, y);
            proof {
                lemma_cap_add(text_pos(self@, 0, y as int), cursor_pos.x as int);
                lemma_cap_add(text_pos(self@, 0, y as int), len as int);
            }
            let removed = base.saturating_add(cursor_pos.x)..base.saturating_add(len);
            let keep = if cursor_pos.x < len {
                cursor_pos.x
            } else {
                len
            };
            let row = slice_bytes(self.lines[y].as_slice(), 0, keep);
            self.set_line(y, row, false);
            if cursor_pos.x < len {
                return Some(removed);
            }
        }
        None
    }

    /// Erases from the cursor to the end of the screen, keeping the number of visible
    /// rows. Returns the text position of the cursor, where the erased part began.
    pub fn clear_forwards(&mut self, cursor_pos: &CursorPos) -> (r: Option<usize>)
        requires
            old(self).wf(),
        ensures
            final(self).wf(),
            final(self)@ == clear_forwards_spec(old(self)@, cursor_pos.x, cursor_pos.y),
            cursor_pos.y < old(self)@.height ==> r == Some(
                cap(text_pos(old(self)@, cursor_pos.x as int, cursor_pos.y as int)),
            ),
            cursor_pos.y >= old(self)@.height ==> r is None,
            cursor_pos.y < old(self)@.height && cursor_pos.y <= last_content_row(old(self)@)
                ==> last_content_row(final(self)@) == last_content_row(old(self)@),
    {
        let y0 = cursor_pos.y;
        if y0 >= self.height {
            return None;
        }
        let pos = self.text_pos(cursor_pos.x, y0);
        let last = self.last_content_row();
        let ghost m = self@;
        let ghost spec_r = clear_forwards_spec(m, cursor_pos.x, y0);
        assert(self@.rows[y0 as int] == self.lines@[y0 as int]@);
        let len = self.lines[y0].len();
        let keep = if cursor_pos.x < len {
            cursor_pos.x
        } else {
            len
        };
        let row = slice_bytes(self.lines[y0].as_slice(), 0, keep);
        self.set_line(y0, row, y0 <= last);
        let mut y: usize = y0 + 1;
        while y < self.height
            invariant
                self.wf(),
                self@.width == m.width,
                self@.height == m.height,
                self@.scrollback == m.scrollback,
                y0 < y <= self@.height,
                self.height == self@.height,
                last == last_content_row(m),
                model_wf(m),
                spec_r == clear_forwards_spec(m, cursor_pos.x, y0),
                forall|i: int| 0 <= i < y ==> #[trigger] self@.rows[i] == spec_r.rows[i],
                forall|i: int| 0 <= i < y ==> #[trigger] self@.newlines[i] == spec_r.newlines[i],
            decreases self.height - y,
        {
            self.set_line(y, Vec::new(), y <= last);
            y = y + 1;
        }
        assert(self@.rows =~= spec_r.rows);
        assert(self@.newlines =~= spec_r.newlines);
        proof {
            lemma_last_row_upto(m, m.rows.len() as int);
            if y0 <= last {
                let f = self@;
                assert(row_present(f, last as int)) by {
                    assert(f.newlines[last as int]);
                }
                assert forall|i: int| last < i < f.rows.len() implies !#[trigger] row_present(f, i) by {
                    if i > y0 {
                        assert(f.rows[i] == Seq::<u8>::empty());
                    }
                }
                lemma_last_row_is(f, last as int);
            }
        }
        Some(pos)
    }

    /// Empties the scrollback and every row; the size stays.
    pub fn clear_all(&mut self)
        requires
            old(self).wf(),
        ensures
            final(self).wf(),
            final(self)@ == empty_model(old(self)@.width, old(self)@.height, Seq::empty()),
    {
        let mut y: usize = 0;
        while y < self.height
            invariant
                self.wf(),
                self@.width == old(self)@.width,
                self@.height == old(self)@.height,
                self.height == self@.height,
                self@.scrollback == old(self)@.scrollback,
                y <= self@.height,
                forall|i: int| 0 <= i < y ==> #[trigger] self@.rows[i] == Seq::<u8>::empty(),
                forall|i: int| 0 <= i < y ==> !(#[trigger] self@.newlines[i]),
            decreases self.height - y,
        {
            self.set_line(y, Vec::new(), false);
            y = y + 1;
        }
        self.scrollback.clear();
        let ghost e = empty_model(old(self)@.width, old(self)@.height, Seq::empty());
        assert(self@.rows =~= e.rows);
        assert(self@.newlines =~= e.newlines);
        assert(self@.scrollback =~= e.scrollback);
    }

    /// Deletes up to `num_chars` bytes right of the cursor on its row, stopping at the
    /// row's end. Reports no removed range.
    pub fn delete_forwards(&mut self, cursor_pos: &CursorPos, num_chars: usize) -> (r: Option<
        Range<usize>,
    >)
        requires
            old(self).wf(),
        ensures
            final(self).wf(),
            final(self)@ == delete_forwards_spec(old(self)@, cursor_pos.x, cursor_pos.y, num_chars),
            ({
                let y = cursor_pos.y as int;
                let x = cursor_pos.x as int;
                if cursor_pos.y < old(self)@.height && x <= old(self)@.rows[y].len() {
                    r == Some(cap_range(
                        text_pos(old(self)@, x, y),
                        text_pos(old(self)@, x + min_nat(num_chars as int, old(self)@.rows[y].len() - x), y),
                    ))
                } else {
                    r is None
                }
            }),
    {
        let x = cursor_pos.x;
        let y = cursor_pos.y;
        if y >= self.height {
            return None;
        }
        assert(self@.rows[y as int] == self.lines@[y as int]@);
        let len = self.lines[y].len();
        if x > len {
            return None;
        }
        let k = if num_chars < len - x {
            num_chars
        } else {
            len - x
        };
        let base = self.text_pos(0, y);
        proof {
            lemma_cap_add(text_pos(self@, 0, y as int), x as int);
            lemma_cap_add(text_pos(self@, 0, y as int), (x + k) as int);
        }
        let removed = base.saturating_add(x)..base.saturating_add(x + k);
        let mut row = slice_bytes(self.lines[y].as_slice(), 0, x);
        append_bytes(&mut row, self.lines[y].as_slice(), x + k, len);
        let nl = self.newlines[y];
        self.set_line(y, row, nl);
        Some(removed)
    }

    /// Opens up to `num_spaces` spaces at the cursor, shifting the rest of its row right
    /// and never past the row's end. The cursor stays; no ranges are reported.
    pub fn insert_spaces(&mut self, cursor_pos: &CursorPos, num_spaces: usize) -> (r:
        TerminalBufferInsertResponse)
        requires
            old(self).wf(),
        ensures
            final(self).wf(),
            final(self)@ == insert_spaces_spec(old(self)@, cursor_pos.x, cursor_pos.y, num_spaces),
            ({
                let m = old(self)@;
                let y = cursor_pos.y as int;
                let x = cursor_pos.x as int;
                if cursor_pos.y < m.height && x <= m.rows[y].len() {
                    let k = min_nat(num_spaces as int, m.width - x);
                    let added = min_nat(m.rows[y].len() + k, m.width as int) - m.rows[y].len();
                    &&& r.written_range == cap_range(text_pos(m, x, y), text_pos(m, x, y) + k)
                    &&& r.insertion_range == cap_range(text_pos(m, x, y), text_pos(m, x, y) + added)
                } else {
                    &&& r.written_range == (Range { start: 0usize, end: 0usize })
                    &&& r.insertion_range == (Range { start: 0usize, end: 0usize })
                }
            }),
            r.new_cursor_pos == *cursor_pos,
    {
        let x = cursor_pos.x;
        let y = cursor_pos.y;
        if y < self.height && x <= self.lines[y].len() {
            assert(self@.rows[y as int] == self.lines@[y as int]@);
            let len = self.lines[y].len();
            let k = if num_spaces < self.width - x {
                num_spaces
            } else {
                self.width - x
            };
            let new_len = if k < self.width - len {
                len + k
            } else {
                self.width
            };
            let ghost row0 = self@.rows[y as int];
            let ghost grown = row0.subrange(0, x as int) + spaces(k as nat) + row0.subrange(x as int, row0.len() as int);
            let mut row = slice_bytes(self.lines[y].as_slice(), 0, x);
            let mut i: usize = 0;
            while i < k
                invariant
                    i <= k,
                    x <= row0.len(),
                    row@ == row0.subrange(0, x as int) + spaces(i as nat),
                decreases k - i,
            {
                row.push(0x20);
                i = i + 1;
                assert(row@ =~= row0.subrange(0, x as int) + spaces(i as nat));
            }
            let tail_end = new_len - k;
            assert(x <= tail_end <= len);
            append_bytes(&mut row, self.lines[y].as_slice(), x, tail_end);
            assert(row@ =~= grown.subrange(0, new_len as int));
            let base = self.text_pos(x, y);
            proof {
                lemma_cap_add(text_pos(self@, x as int, y as int), k as int);
                lemma_cap_add(text_pos(self@, x as int, y as int), (new_len - len) as int);
            }
            let written = base..base.saturating_add(k);
            let inserted = base..base.saturating_add(new_len - len);
            let nl = self.newlines[y];
            self.set_line(y, row, nl);
            return TerminalBufferInsertResponse {
                written_range: written,
                insertion_range: inserted,
                new_cursor_pos: *cursor_pos,
            };
        }
        TerminalBufferInsertResponse {
            written_range: 0..0,
            insertion_range: 0..0,
            new_cursor_pos: *cursor_pos,
        }
    }

    /// Opens `num_lines` empty rows at the cursor's row, pushing the rows below down;
    /// rows pushed past the bottom are lost. No ranges are reported.
    pub fn insert_lines(&mut self, cursor_pos: &CursorPos, num_lines: usize) -> (r:
        TerminalBufferInsertLineResponse)
        requires
            old(self).wf(),
        ensures
            final(self).wf(),
            final(self)@ == insert_lines_spec(old(self)@, cursor_pos.y, num_lines),
            ({
                let m = old(self)@;
                if cursor_pos.y < m.height && num_lines > 0 {
                    let n = min_nat(num_lines as int, m.height - cursor_pos.y);
                    &&& r.deleted_range == cap_range(text_pos(m, 0, m.height - n), text_pos(m, 0, m.height as int))
                    &&& r.inserted_range == cap_range(text_pos(m, 0, cursor_pos.y as int), text_pos(m, 0, cursor_pos.y as int) + n)
                } else {
                    &&& r.deleted_range == (Range { start: 0usize, end: 0usize })
                    &&& r.inserted_range == (Range { start: 0usize, end: 0usize })
                }
            }),
            r.deleted_range.start <= r.deleted_range.end,
            r.inserted_range.start <= r.inserted_range.end,
    {
        let y0 = cursor_pos.y;
        let n = num_lines;
        if y0 < self.height && n > 0 {
            let shift = if n < self.height - y0 {
                n
            } else {
                self.height - y0
            };
            let del_start = self.text_pos(0, self.height - shift);
            let del_end = self.text_pos(0, self.height);
            let ins_start = self.text_pos(0, y0);
            proof {
                lemma_cap_add(text_pos(self@, 0, y0 as int), shift as int);
                lemma_rows_text_mono(self@, (self.height - shift) as int, self.height as int);
            }
            let response = TerminalBufferInsertLineResponse {
                deleted_range: del_start..del_end,
                inserted_range: ins_start..ins_start.saturating_add(shift),
            };
            let ghost m = self@;
            let mut new_lines: Vec<Vec<u8>> = Vec::new();
            let mut new_nls: Vec<bool> = Vec::new();
            let mut i: usize = 0;
            let h = self.height;
            while i < h
                invariant
                    self@ == m,
                    self.wf(),
                    h == m.height,
                    self.lines@.len() == h,
                    self.newlines@.len() == h,
                    i <= h,
                    new_lines@.len() == i,
                    new_nls@.len() == i,
                    forall|j: int| 0 <= j < i ==> (#[trigger] new_lines@[j])@ == insert_lines_spec(m, y0, n).rows[j],
                    forall|j: int| 0 <= j < i ==> #[trigger] new_nls@[j] == insert_lines_spec(m, y0, n).newlines[j],
                decreases h - i,
            {
                if i < y0 {
                    new_lines.push(copy_bytes(&self.lines[i]));
                    new_nls.push(self.newlines[i]);
                } else if i - y0 < n {
                    new_lines.push(Vec::new());
                    new_nls.push(false);
                } else {
                    new_lines.push(copy_bytes(&self.lines[i - n]));
                    new_nls.push(self.newlines[i - n]);
                }
                i = i + 1;
            }
            self.lines = new_lines;
            self.newlines = new_nls;
            assert(self@.rows =~= insert_lines_spec(m, y0, n).rows);
            assert(self@.newlines =~= insert_lines_spec(m, y0, n).newlines);
            return response;
        }
        TerminalBufferInsertLineResponse { deleted_range: 0..0, inserted_range: 0..0 }
    }
}

/// State while the rows of a resized screen are written again: the new screen, the
/// write position, and where the cursor landed.
pub type ResizeState = (BufferModel, nat, nat, CursorPos);

/// One old row written again. On the cursor's row the text is written in two parts,
/// and the cursor goes where the first part ends.
pub open spec fn resize_row(
    st: ResizeState,
    row: Seq<u8>,
    nl: bool,
    is_cursor_row: bool,
    cx: usize,
) -> ResizeState {
    let m = st.0;
    let after: ResizeState = if is_cursor_row {
        let split = min_nat(cx as int, row.len() as int);
        let a = write_spec(m, st.1, st.2, row.subrange(0, split));
        let b = write_spec(a.0, a.1, a.2, row.subrange(split, row.len() as int));
        (b.0, b.1, b.2, CursorPos { x: a.1 as usize, y: a.2 as usize })
    } else {
        let a = write_spec(m, st.1, st.2, row);
        (a.0, a.1, a.2, st.3)
    };
    if nl {
        let n = write_spec(after.0, after.1, after.2, seq![0x0au8]);
        (n.0, n.1, n.2, after.3)
    } else {
        after
    }
}

/// The first `k` old rows written again into an empty `width` x `height` screen that
/// keeps the old scrollback.
pub open spec fn resize_fold(old: BufferModel, width: usize, height: usize, pos: CursorPos, k: int) -> ResizeState
    decreases k,
{
    if k <= 0 {
        (empty_model(width, height, old.scrollback), 0, 0, CursorPos { x: 0, y: 0 })
    } else {
        resize_row(
            resize_fold(old, width, height, pos, k - 1),
            old.rows[k - 1],
            old.newlines[k - 1],
            k - 1 == pos.y,
            pos.x,
        )
    }
}

impl TerminalBuffer2 {
    /// Changes the size. When it differs, the old rows are written again, in order,
    /// into the new grid, and the cursor follows its text.
    pub fn set_win_size(&mut self, width: usize, height: usize, cursor_pos: &CursorPos) -> (r:
        TerminalBufferSetWinSizeResponse)
        requires
            old(self).wf(),
            valid_size(width, height),
        ensures
            final(self).wf(),
            r.insertion_range == (Range { start: 0usize, end: 0usize }),
            old(self)@.width == width && old(self)@.height == height ==> {
                &&& final(self)@ == old(self)@
                &&& !r.changed
                &&& r.new_cursor_pos == *cursor_pos
            },
            !(old(self)@.width == width && old(self)@.height == height) ==> {
                let f = resize_fold(old(self)@, width, height, *cursor_pos, old(self)@.height as int);
                &&& final(self)@ == f.0
                &&& r.changed
                &&& r.new_cursor_pos == f.3
            },
            final(self)@.width == width,
            final(self)@.height == height,
            !(old(self)@.width == width && old(self)@.height == height) ==> r.new_cursor_pos.x
                < width && r.new_cursor_pos.y < height,
    {
        if self.width == width && self.height == height {
            return TerminalBufferSetWinSizeResponse {
                changed: false,
                insertion_range: 0..0,
                new_cursor_pos: *cursor_pos,
            };
        }
        let ghost m = self@;
        let mut sb: Vec<u8> = Vec::new();
        std::mem::swap(&mut sb, &mut self.scrollback);
        let mut nb = TerminalBuffer2::new(width, height);
        nb.scrollback = sb;
        assert(nb@ == empty_model(width, height, m.scrollback)) by {
            assert(nb@.rows =~= empty_model(width, height, m.scrollback).rows);
        }
        let mut x: usize = 0;
        let mut y: usize = 0;
        let mut newc = CursorPos { x: 0, y: 0 };
        let old_h = self.height;
        let mut i: usize = 0;
        while i < old_h
            invariant
                old_h == m.height,
                self.lines@.len() == m.height,
                self.newlines@ == m.newlines,
                forall|k: int| 0 <= k < m.height ==> (#[trigger] self.lines@[k])@ == m.rows[k],
                model_wf(m),
                valid_size(width, height),
                nb.wf(),
                nb@.width == width,
                nb@.height == height,
                x < width,
                y < height,
                newc.x < width,
                newc.y < height,
                i <= old_h,
                resize_fold(m, width, height, *cursor_pos, i as int) == (nb@, x as nat, y as nat, newc),
            decreases old_h - i,
        {
            let ghost st: ResizeState = (nb@, x as nat, y as nat, newc);
            proof {
                let row_s = m.rows[i as int];
                let split = min_nat(cursor_pos.x as int, row_s.len() as int);
                lemma_write_spec_bounds(st.0, st.1, st.2, row_s.subrange(0, split));
                lemma_write_spec_bounds(st.0, st.1, st.2, row_s);
                let a = write_spec(st.0, st.1, st.2, row_s.subrange(0, split));
                lemma_write_spec_bounds(a.0, a.1, a.2, row_s.subrange(split, row_s.len() as int));
            }
            let row = &self.lines[i];
            let len = row.len();
            assert(row@ == m.rows[i as int]);
            let ghost mid: ResizeState;
            if i == cursor_pos.y {
                let split = if cursor_pos.x < len {
                    cursor_pos.x
                } else {
                    len
                };
                let first = slice_bytes(row.as_slice(), 0, split);
                let a = nb.insert_data(&CursorPos { x, y }, first.as_slice());
                newc = a.new_cursor_pos;
                let second = slice_bytes(row.as_slice(), split, len);
                let b = nb.insert_data(&a.new_cursor_pos, second.as_slice());
                x = b.new_cursor_pos.x;
                y = b.new_cursor_pos.y;
                proof {
                    mid = (nb@, x as nat, y as nat, newc);
                    let sp = min_nat(cursor_pos.x as int, m.rows[i as int].len() as int);
                    let wa = write_spec(st.0, st.1, st.2, m.rows[i as int].subrange(0, sp));
                    assert(first@ == m.rows[i as int].subrange(0, sp));
                    assert(newc == CursorPos { x: wa.1 as usize, y: wa.2 as usize });
                }
            } else {
                let whole = slice_bytes(row.as_slice(), 0, len);
                assert(whole@ =~= row@);
                let a = nb.insert_data(&CursorPos { x, y }, whole.as_slice());
                x = a.new_cursor_pos.x;
                y = a.new_cursor_pos.y;
                proof {
                    mid = (nb@, x as nat, y as nat, newc);
                }
            }
            assert(mid == (nb@, x as nat, y as nat, newc));
            proof {
                let row_s = m.rows[i as int];
                let after: ResizeState = if i == cursor_pos.y {
                    let split = min_nat(cursor_pos.x as int, row_s.len() as int);
                    let a = write_spec(st.0, st.1, st.2, row_s.subrange(0, split));
                    let b = write_spec(a.0, a.1, a.2, row_s.subrange(split, row_s.len() as int));
                    (b.0, b.1, b.2, CursorPos { x: a.1 as usize, y: a.2 as usize })
                } else {
                    let a = write_spec(st.0, st.1, st.2, row_s);
                    (a.0, a.1, a.2, st.3)
                };
                assert(after == mid);
            }
            if self.newlines[i] {
                let nl_byte: Vec<u8> = vec![0x0a];
                assert(nl_byte@ =~= seq![0x0au8]);
                proof {
                    lemma_write_spec_bounds(nb@, x as nat, y as nat, nl_byte@);
                }
                let c = nb.insert_data(&CursorPos { x, y }, nl_byte.as_slice());
                x = c.new_cursor_pos.x;
                y = c.new_cursor_pos.y;
            }
            proof {
                assert(resize_row(st, m.rows[i as int], m.newlines[i as int], i == cursor_pos.y, cursor_pos.x) == (nb@, x as nat, y as nat, newc));
            }
            i = i + 1;
        }
        *self = nb;
        TerminalBufferSetWinSizeResponse { changed: true, insertion_range: 0..0, new_cursor_pos: newc }
    }
}

/// Why a buffer could not be saved: a dimension does not fit in an `i64`.
#[derive(Debug, Clone, Copy, PartialEq, Eq, Structural)]
pub enum CreateSnapshotError {
    WidthNotI64,
    HeightNotI64,
}

/// Why a buffer could not be loaded.
#[derive(Debug, Clone, Copy, PartialEq, Eq, Structural)]
pub enum LoadSnapshotError {
    RootNotMap,
    WidthNotPresent,
    WidthNotUsize,
    HeightNotPresent,
    HeightNotUsize,
    LinesNotPresent,
    LinesNotArrays,
    NewlinesNotPresent,
    NewlinesNotBools,
    ScrollbackNotPresent,
    ScrollbackNotBytes,
    /// The pieces do not form a valid screen.
    Inconsistent,
}

/// The rows held by an array of byte arrays.
pub open spec fn rows_of(item: SnapshotItem) -> Option<Seq<Seq<u8>>> {
    match item {
        SnapshotItem::Array(a) => if forall|k: int| 0 <= k < a@.len() ==> (#[trigger] bytes_of(a@[k])) is Some {
            Some(Seq::new(a@.len(), |k: int| bytes_of(a@[k])->Some_0))
        } else {
            None
        },
        _ => None,
    }
}

/// The flags held by an array of booleans.
pub open spec fn bools_of(item: SnapshotItem) -> Option<Seq<bool>> {
    match item {
        SnapshotItem::Array(a) => if forall|k: int| 0 <= k < a@.len() ==> (#[trigger] a@[k]) is Bool {
            Some(Seq::new(a@.len(), |k: int| a@[k]->Bool_0))
        } else {
            None
        },
        _ => None,
    }
}

/// How a buffer is saved: "width", "height", "lines" (one byte array per row),
/// "newlines" (one flag per row), "scrollback".
pub open spec fn is_buffer_snapshot(item: SnapshotItem, m: BufferModel) -> bool {
    &&& is_map_with(item, seq!["width"@, "height"@, "lines"@, "newlines"@, "scrollback"@])
    &&& item->Object_0@[0].1 == SnapshotItem::Int(m.width as i64)
    &&& item->Object_0@[1].1 == SnapshotItem::Int(m.height as i64)
    &&& item->Object_0@[2].1 is Array
    &&& item->Object_0@[2].1->Array_0@.len() == m.rows.len()
    &&& forall|k: int| 0 <= k < m.rows.len() ==> is_byte_array(#[trigger] item->Object_0@[2].1->Array_0@[k], m.rows[k])
    &&& item->Object_0@[3].1 is Array
    &&& item->Object_0@[3].1->Array_0@.len() == m.newlines.len()
    &&& forall|k: int| 0 <= k < m.newlines.len() ==> #[trigger] item->Object_0@[3].1->Array_0@[k] == SnapshotItem::Bool(m.newlines[k])
    &&& is_byte_array(item->Object_0@[4].1, m.scrollback)
}

/// What loading a buffer from `item` gives; the result must be a valid screen.
pub open spec fn load_buffer_spec(item: SnapshotItem) -> Result<BufferModel, LoadSnapshotError> {
    if !(item is Object) {
        Err(LoadSnapshotError::RootNotMap)
    } else if field(item, "width"@) is None {
        Err(LoadSnapshotError::WidthNotPresent)
    } else if usize_of(field(item, "width"@)) is None {
        Err(LoadSnapshotError::WidthNotUsize)
    } else if field(item, "height"@) is None {
        Err(LoadSnapshotError::HeightNotPresent)
    } else if usize_of(field(item, "height"@)) is None {
        Err(LoadSnapshotError::HeightNotUsize)
    } else if field(item, "lines"@) is None {
        Err(LoadSnapshotError::LinesNotPresent)
    } else if rows_of(field(item, "lines"@)->Some_0) is None {
        Err(LoadSnapshotError::LinesNotArrays)
    } else if field(item, "newlines"@) is None {
        Err(LoadSnapshotError::NewlinesNotPresent)
    } else if bools_of(field(item, "newlines"@)->Some_0) is None {
        Err(LoadSnapshotError::NewlinesNotBools)
    } else if field(item, "scrollback"@) is None {
        Err(LoadSnapshotError::ScrollbackNotPresent)
    } else if bytes_of(field(item, "scrollback"@)->Some_0) is None {
        Err(LoadSnapshotError::ScrollbackNotBytes)
    } else {
        let m = BufferModel {
            width: usize_of(field(item, "width"@))->Some_0,
            height: usize_of(field(item, "height"@))->Some_0,
            rows: rows_of(field(item, "lines"@)->Some_0)->Some_0,
            newlines: bools_of(field(item, "newlines"@)->Some_0)->Some_0,
            scrollback: bytes_of(field(item, "scrollback"@)->Some_0)->Some_0,
        };
        if model_wf(m) {
            Ok(m)
        } else {
            Err(LoadSnapshotError::Inconsistent)
        }
    }
}

fn load_usize_field(item: &SnapshotItem, key: &str) -> (r: Option<Option<usize>>)
    ensures
        match field(*item, key@) {
            None => r is None,
            Some(v) => r == Some(usize_of(Some(v))),
        },
{
    match get_field(item, key) {
        None => None,
        Some(SnapshotItem::Int(v)) => {
            if *v < 0 || *v as u64 > usize::MAX as u64 {
                Some(None)
            } else {
                Some(Some(*v as usize))
            }
        },
        Some(_) => Some(None),
    }
}

fn load_rows(item: &SnapshotItem) -> (r: Option<Vec<Vec<u8>>>)
    ensures
        match rows_of(*item) {
            None => r is None,
            Some(rows) => r matches Some(v) && v@.len() == rows.len() && forall|k: int| 0 <= k < rows.len() ==> (#[trigger] v@[k])@ == rows[k],
        },
{
    match item {
        SnapshotItem::Array(a) => {
            let mut out: Vec<Vec<u8>> = Vec::new();
            let n = a.len();
            let mut i: usize = 0;
            while i < n
                invariant
                    n == a@.len(),
                    *item == SnapshotItem::Array(*a),
                    i <= n,
                    out@.len() == i,
                    forall|k: int| 0 <= k < i ==> (#[trigger] bytes_of(a@[k])) is Some,
                    forall|k: int| 0 <= k < i ==> (#[trigger] out@[k])@ == bytes_of(a@[k])->Some_0,
                decreases n - i,
            {
                match item_bytes(&a[i]) {
                    Some(b) => out.push(b),
                    None => {
                        return None;
                    },
                }
                i = i + 1;
            }
            Some(out)
        },
        _ => None,
    }
}

fn load_bools(item: &SnapshotItem) -> (r: Option<Vec<bool>>)
    ensures
        match bools_of(*item) {
            None => r is None,
            Some(b) => r matches Some(v) && v@ == b,
        },
{
    match item {
        SnapshotItem::Array(a) => {
            let mut out: Vec<bool> = Vec::new();
            let n = a.len();
            let mut i: usize = 0;
            while i < n
                invariant
                    n == a@.len(),
                    *item == SnapshotItem::Array(*a),
                    i <= n,
                    out@.len() == i,
                    forall|k: int| 0 <= k < i ==> (#[trigger] a@[k]) is Bool,
                    forall|k: int| 0 <= k < i ==> #[trigger] out@[k] == a@[k]->Bool_0,
                decreases n - i,
            {
                match &a[i] {
                    SnapshotItem::Bool(b) => out.push(*b),
                    _ => {
                        return None;
                    },
                }
                i = i + 1;
            }
            assert(out@ =~= Seq::new(a@.len(), |k: int| a@[k]->Bool_0));
            Some(out)
        },
        _ => None,
    }
}

impl TerminalBuffer2 {
    /// Saves the buffer. Fails only where a dimension does not fit in an `i64`.
    pub fn snapshot(&self) -> (r: Result<SnapshotItem, CreateSnapshotError>)
        requires
            self.wf(),
        ensures
            self@.width > i64::MAX ==> r == Err::<SnapshotItem, CreateSnapshotError>(CreateSnapshotError::WidthNotI64),
            self@.width <= i64::MAX && self@.height > i64::MAX ==> r == Err::<SnapshotItem, CreateSnapshotError>(CreateSnapshotError::HeightNotI64),
            self@.width <= i64::MAX && self@.height <= i64::MAX ==> (r matches Ok(item) && is_buffer_snapshot(item, self@)),
            r matches Ok(item) ==> keys_distinct(item),
            r matches Ok(item) ==> load_buffer_spec(item) == Ok::<BufferModel, LoadSnapshotError>(self@),
    {
        if self.width as u64 > i64::MAX as u64 {
            return Err(CreateSnapshotError::WidthNotI64);
        }
        if self.height as u64 > i64::MAX as u64 {
            return Err(CreateSnapshotError::HeightNotI64);
        }
        let mut lines: Vec<SnapshotItem> = Vec::new();
        let mut nls: Vec<SnapshotItem> = Vec::new();
        let n = self.height;
        let mut i: usize = 0;
        while i < n
            invariant
                self.wf(),
                n == self@.rows.len(),
                self.lines@.len() == n,
                i <= n,
                lines@.len() == i,
                nls@.len() == i,
                forall|k: int| 0 <= k < i ==> is_byte_array(#[trigger] lines@[k], self@.rows[k]),
                forall|k: int| 0 <= k < i ==> #[trigger] nls@[k] == SnapshotItem::Bool(self@.newlines[k]),
            decreases n - i,
        {
            lines.push(bytes_item(&self.lines[i]));
            nls.push(SnapshotItem::Bool(self.newlines[i]));
            i = i + 1;
        }
        let mut m: Vec<(String, SnapshotItem)> = Vec::new();
        m.push(entry("width", SnapshotItem::Int(self.width as i64)));
        m.push(entry("height", SnapshotItem::Int(self.height as i64)));
        m.push(entry("lines", SnapshotItem::Array(lines)));
        m.push(entry("newlines", SnapshotItem::Array(nls)));
        m.push(entry("scrollback", bytes_item(&self.scrollback)));
        let r = SnapshotItem::Object(m);
        assert(is_map_with(r, seq!["width"@, "height"@, "lines"@, "newlines"@, "scrollback"@]));
        proof {
            reveal_strlit("width");
            reveal_strlit("height");
            reveal_strlit("lines");
            reveal_strlit("newlines");
            reveal_strlit("scrollback");
            assert("width"@.len() == 5 && "width"@[0] == 'w');
            assert("height"@.len() == 6 && "height"@[0] == 'h');
            assert("lines"@.len() == 5 && "lines"@[0] == 'l');
            assert("newlines"@.len() == 8 && "newlines"@[0] == 'n');
            assert("scrollback"@.len() == 10 && "scrollback"@[0] == 's');
            let keys = seq!["width"@, "height"@, "lines"@, "newlines"@, "scrollback"@];
            lemma_distinct_keys(keys);
            lemma_map_keys_distinct(r, keys);
            lemma_buffer_snapshot_round_trip(r, self@);
        }
        Ok(r)
    }

    pub fn from_snapshot(snapshot: SnapshotItem) -> (r: Result<TerminalBuffer2, LoadSnapshotError>)
        ensures
            match load_buffer_spec(snapshot) {
                Ok(m) => r matches Ok(b) && b@ == m && b.wf(),
                Err(e) => r matches Err(x) && x == e,
            },
    {
        Self::load(&snapshot)
    }

    pub fn load(item: &SnapshotItem) -> (r: Result<TerminalBuffer2, LoadSnapshotError>)
        ensures
            match load_buffer_spec(*item) {
                Ok(m) => r matches Ok(b) && b@ == m && b.wf(),
                Err(e) => r matches Err(x) && x == e,
            },
    {
        if !matches!(item, SnapshotItem::Object(_)) {
            return Err(LoadSnapshotError::RootNotMap);
        }
        let width = match load_usize_field(item, "width") {
            None => {
                return Err(LoadSnapshotError::WidthNotPresent);
            },
            Some(None) => {
                return Err(LoadSnapshotError::WidthNotUsize);
            },
            Some(Some(w)) => w,
        };
        let height = match load_usize_field(item, "height") {
            None => {
                return Err(LoadSnapshotError::HeightNotPresent);
            },
            Some(None) => {
                return Err(LoadSnapshotError::HeightNotUsize);
            },
            Some(Some(h)) => h,
        };
        let lines = match get_field(item, "lines") {
            None => {
                return Err(LoadSnapshotError::LinesNotPresent);
            },
            Some(l) => match load_rows(l) {
                None => {
                    return Err(LoadSnapshotError::LinesNotArrays);
                },
                Some(v) => v,
            },
        };
        let newlines = match get_field(item, "newlines") {
            None => {
                return Err(LoadSnapshotError::NewlinesNotPresent);
            },
            Some(l) => match load_bools(l) {
                None => {
                    return Err(LoadSnapshotError::NewlinesNotBools);
                },
                Some(v) => v,
            },
        };
        let scrollback = match get_field(item, "scrollback") {
            None => {
                return Err(LoadSnapshotError::ScrollbackNotPresent);
            },
            Some(s) => match item_bytes(s) {
                None => {
                    return Err(LoadSnapshotError::ScrollbackNotBytes);
                },
                Some(v) => v,
            },
        };
        let b = TerminalBuffer2 { width, height, lines, newlines, scrollback };
        proof {
            let rows = rows_of(field(*item, "lines"@)->Some_0)->Some_0;
            assert(b@.rows =~= rows);
        }
        if b.check_wf() {
            Ok(b)
        } else {
            Err(LoadSnapshotError::Inconsistent)
        }
    }

    fn check_wf(&self) -> (r: bool)
        ensures
            r == self.wf(),
    {
        if self.width == 0 || self.height == 0 {
            return false;
        }
        match (self.height).checked_add(1) {
            None => {
                assert((self.height + 1) * self.width >= self.height + 1) by (nonlinear_arith)
                    requires
                        self.width >= 1,
                ;
                return false;
            },
            Some(h1) => match h1.checked_mul(self.width) {
                None => {
                    return false;
                },
                Some(_) => {},
            },
        }
        if self.lines.len() != self.height || self.newlines.len() != self.height {
            return false;
        }
        let mut i: usize = 0;
        while i < self.height
            invariant
                self.lines@.len() == self.height,
                i <= self.height,
                forall|k: int| 0 <= k < i ==> (#[trigger] self.lines@[k])@.len() <= self.width,
            decreases self.height - i,
        {
            if self.lines[i].len() > self.width {
                assert(self@.rows[i as int] == self.lines@[i as int]@);
                return false;
            }
            i = i + 1;
        }
        true
    }
}

/// Loading a saved buffer gives it back.
pub proof fn lemma_buffer_snapshot_round_trip(item: SnapshotItem, m: BufferModel)
    requires
        is_buffer_snapshot(item, m),
        model_wf(m),
        m.width <= i64::MAX,
        m.height <= i64::MAX,
    ensures
        load_buffer_spec(item) == Ok::<BufferModel, LoadSnapshotError>(m),
{
    reveal_strlit("width");
    reveal_strlit("height");
    reveal_strlit("lines");
    reveal_strlit("newlines");
    reveal_strlit("scrollback");
    let keys = seq!["width"@, "height"@, "lines"@, "newlines"@, "scrollback"@];
    assert("width"@.len() == 5);
    assert("height"@.len() == 6);
    assert("lines"@.len() == 5);
    assert("newlines"@.len() == 8);
    assert("scrollback"@.len() == 10);
    assert("width"@[0] != "lines"@[0]);
    lemma_distinct_keys(keys);
    lemma_field_at(item, keys, 0);
    lemma_field_at(item, keys, 1);
    lemma_field_at(item, keys, 2);
    lemma_field_at(item, keys, 3);
    lemma_field_at(item, keys, 4);
    assert(keys[0] == "width"@);
    assert(keys[1] == "height"@);
    assert(keys[2] == "lines"@);
    assert(keys[3] == "newlines"@);
    assert(keys[4] == "scrollback"@);
    let o = item->Object_0@;
    let la = o[2].1->Array_0@;
    assert forall|k: int| 0 <= k < la.len() implies (#[trigger] bytes_of(la[k])) == Some(m.rows[k]) by {
        lemma_bytes_round_trip(la[k], m.rows[k]);
    }
    assert(rows_of(o[2].1) == Some(m.rows)) by {
        assert(Seq::new(la.len(), |k: int| bytes_of(la[k])->Some_0) =~= m.rows);
    }
    let na = o[3].1->Array_0@;
    assert(bools_of(o[3].1) == Some(m.newlines)) by {
        assert forall|k: int| 0 <= k < na.len() implies (#[trigger] na[k]) is Bool by {
            assert(na[k] == SnapshotItem::Bool(m.newlines[k]));
        }
        assert(Seq::new(na.len(), |k: int| na[k]->Bool_0) =~= m.newlines);
    }
    lemma_bytes_round_trip(o[4].1, m.scrollback);
}

} // verus!
