use vstd::prelude::*;

use crate::ansi::{
    is_parser_snapshot, lemma_parser_snapshot_round_trip, load_parser_spec, outputs_view,
    push_spec, AnsiParser, Mode, OutputView, ParserModel, SelectGraphicRendition, TerminalOutput,
};
use crate::buffer::{
    cap, clear_forwards_spec, clear_line_spec, delete_forwards_spec, empty_model, evict_spec,
    insert_lines_spec, insert_spaces_spec, is_buffer_snapshot, lemma_buffer_snapshot_round_trip,
    load_buffer_spec, model_wf, resize_fold, valid_size, visible_spec, write_spec,
    BufferModel, CreateSnapshotError, TerminalBuffer2, text_len, text_pos, cap_range,
    padding_range_spec, written_range_spec, min_nat,
};
use std::ops::Range;
use crate::format_tracker::{
    adjust_spec, delete_range_spec, fits_i64, is_tracker_snapshot, lemma_run_lengths_cover,
    sum_lengths, lemma_tracker_snapshot_round_trip, load_tracker_spec,
    push_range_spec, tags_wf, FormatTagSerialized, FormatTracker, LoadFormatTrackerSnapshotError,
    SnapshotFormatTagError, UNBOUNDED,
};
use crate::input::{input_bytes, TerminalInput};
use crate::snapshot::{
    keys_distinct, lemma_map_keys_distinct,
    entry, field, get_field, is_map_with, lemma_distinct_keys, lemma_field_at, SnapshotItem,
};
use crate::terminal::{
    color_of_sgr, is_cursor_state_snapshot, lemma_cursor_state_snapshot_round_trip,
    load_cursor_state_spec, CursorPos, CursorState, LoadCursorStateError, SnapshotCursorPosError,
    TerminalColor, TerminalData,
};

verus! {

/// Width of a new terminal, in cells.
pub const TERMINAL_WIDTH: usize = 50;

/// Height of a new terminal, in cells.
pub const TERMINAL_HEIGHT: usize = 16;

/// The tags that fall before `split`, cut at `split`.
pub open spec fn scrollback_tags_spec(tags: Seq<FormatTagSerialized>, split: usize) -> Seq<
    FormatTagSerialized,
>
    decreases tags.len(),
{
    if tags.len() == 0 {
        Seq::empty()
    } else {
        let r = scrollback_tags_spec(tags.drop_last(), split);
        let t = tags.last();
        if t.start < split {
            r.push(
                FormatTagSerialized {
                    start: t.start,
                    end: if t.end < split {
                        t.end
                    } else {
                        split
                    },
                    color: t.color,
                    bold: t.bold,
                },
            )
        } else {
            r
        }
    }
}

/// The tags that reach past `split`, moved back by `split`; an unbounded end stays.
pub open spec fn visible_tags_spec(tags: Seq<FormatTagSerialized>, split: usize) -> Seq<
    FormatTagSerialized,
>
    decreases tags.len(),
{
    if tags.len() == 0 {
        Seq::empty()
    } else {
        let r = visible_tags_spec(tags.drop_last(), split);
        let t = tags.last();
        if t.end > split {
            r.push(
                FormatTagSerialized {
                    start: t.start.saturating_sub(split),
                    end: if t.end == UNBOUNDED {
                        UNBOUNDED
                    } else {
                        (t.end - split) as usize
                    },
                    color: t.color,
                    bold: t.bold,
                },
            )
        } else {
            r
        }
    }
}

/// Splits tags over the linear view into tags over the scrollback and tags over the
/// visible text, which starts at `scrollback_split`.
pub fn split_format_data_for_scrollback(
    tags: Vec<FormatTagSerialized>,
    scrollback_split: usize,
) -> (r: TerminalData<Vec<FormatTagSerialized>>)
    ensures
        r.scrollback@ == scrollback_tags_spec(tags@, scrollback_split),
        r.visible@ == visible_tags_spec(tags@, scrollback_split),
{
    let mut sb: Vec<FormatTagSerialized> = Vec::new();
    let mut vis: Vec<FormatTagSerialized> = Vec::new();
    let n = tags.len();
    let mut i: usize = 0;
    while i < n
        invariant
            n == tags@.len(),
            i <= n,
            sb@ == scrollback_tags_spec(tags@.subrange(0, i as int), scrollback_split),
            vis@ == visible_tags_spec(tags@.subrange(0, i as int), scrollback_split),
        decreases n - i,
    {
        let ghost pre = tags@.subrange(0, i + 1);
        assert(pre.drop_last() =~= tags@.subrange(0, i as int));
        let t = tags[i];
        if t.start < scrollback_split {
            let end = if t.end < scrollback_split {
                t.end
            } else {
                scrollback_split
            };
            sb.push(FormatTagSerialized { start: t.start, end, color: t.color, bold: t.bold });
        }
        if t.end > scrollback_split {
            let end = if t.end == UNBOUNDED {
                UNBOUNDED
            } else {
                t.end - scrollback_split
            };
            vis.push(
                FormatTagSerialized {
                    start: t.start.saturating_sub(scrollback_split),
                    end,
                    color: t.color,
                    bold: t.bold,
                },
            );
        }
        i = i + 1;
    }
    assert(tags@.subrange(0, n as int) =~= tags@);
    TerminalData { scrollback: sb, visible: vis }
}

/// Mathematical form of the emulator.
pub struct EmulatorModel {
    pub parser: ParserModel,
    pub buffer: BufferModel,
    pub tags: Seq<FormatTagSerialized>,
    pub cursor: CursorState,
    pub decckm: bool,
}

/// The parts are each well formed and the cursor lies on the grid.
pub open spec fn parts_wf(e: EmulatorModel) -> bool {
    &&& model_wf(e.buffer)
    &&& tags_wf(e.tags)
    &&& e.cursor.pos.x < e.buffer.width
    &&& e.cursor.pos.y < e.buffer.height
}

/// The engine's invariant: well-formed parts, the cursor on the grid, and no run
/// starting past the end of the text (scrollback and visible text).
pub open spec fn emulator_wf(e: EmulatorModel) -> bool {
    &&& parts_wf(e)
    &&& e.tags.last().start <= text_len(e.buffer)
}

pub open spec fn with_tags(e: EmulatorModel, t: Seq<FormatTagSerialized>) -> EmulatorModel {
    EmulatorModel { parser: e.parser, buffer: e.buffer, tags: t, cursor: e.cursor, decckm: e.decckm }
}

/// `range` painted with the cursor's rendition; an empty range changes nothing.
pub open spec fn paint(tags: Seq<FormatTagSerialized>, r: Range<usize>, c: CursorState) -> Seq<FormatTagSerialized> {
    if r.start < r.end {
        push_range_spec(tags, r.start, r.end, c.color, c.bold)
    } else {
        tags
    }
}

/// `range` cut out of the runs.
pub open spec fn cut(tags: Seq<FormatTagSerialized>, r: Range<usize>) -> Seq<FormatTagSerialized> {
    if r.start <= r.end {
        delete_range_spec(tags, r.start, r.end)
    } else {
        tags
    }
}

/// `range.len()` positions opened at `range.start`, where positions stay below the
/// unbounded marker.
pub open spec fn open_up(tags: Seq<FormatTagSerialized>, r: Range<usize>) -> Seq<FormatTagSerialized> {
    if r.start <= r.end && tags.last().start + (r.end - r.start) < UNBOUNDED {
        adjust_spec(tags, r.start, (r.end - r.start) as usize)
    } else {
        tags
    }
}

/// The runs cut back to the end of the text: nothing starts past it.
pub open spec fn cut_to_text(e: EmulatorModel) -> EmulatorModel {
    with_tags(e, delete_range_spec(e.tags, cap(text_len(e.buffer)), UNBOUNDED))
}

pub open spec fn with_pos(c: CursorState, x: usize, y: usize) -> CursorState {
    CursorState { pos: CursorPos { x, y }, bold: c.bold, color: c.color }
}

pub open spec fn clamp(v: int, limit: usize) -> usize {
    if v < 0 {
        0
    } else if v >= limit {
        (limit - 1) as usize
    } else {
        v as usize
    }
}

/// The rendition after an SGR code: reset, bold, one of the eight plain colours, or
/// unchanged for any other code.
pub open spec fn sgr_apply(c: CursorState, sgr: SelectGraphicRendition) -> CursorState {
    match color_of_sgr(sgr) {
        Some(col) => CursorState { pos: c.pos, bold: c.bold, color: col },
        None => if sgr == SelectGraphicRendition::Reset {
            CursorState { pos: c.pos, bold: false, color: TerminalColor::Default }
        } else if sgr == SelectGraphicRendition::Bold {
            CursorState { pos: c.pos, bold: true, color: c.color }
        } else {
            c
        },
    }
}

pub open spec fn with_buffer(e: EmulatorModel, b: BufferModel) -> EmulatorModel {
    EmulatorModel { parser: e.parser, buffer: b, tags: e.tags, cursor: e.cursor, decckm: e.decckm }
}

pub open spec fn with_cursor(e: EmulatorModel, c: CursorState) -> EmulatorModel {
    EmulatorModel { parser: e.parser, buffer: e.buffer, tags: e.tags, cursor: c, decckm: e.decckm }
}

/// Writing `d` at the cursor: the buffer takes the bytes, the runs open up for the
/// spaces padded before the cursor, the written range gets the cursor's rendition,
/// and the cursor moves to where the write ended.
pub open spec fn apply_data(e: EmulatorModel, d: Seq<u8>) -> EmulatorModel {
    let c = e.cursor;
    let w = write_spec(e.buffer, c.pos.x as nat, c.pos.y as nat, d);
    let t1 = open_up(e.tags, padding_range_spec(e.buffer, c.pos.x, c.pos.y));
    let written = written_range_spec(e.buffer, w.0, c.pos.x, c.pos.y, w.1, w.2, w.3);
    EmulatorModel {
        parser: e.parser,
        buffer: w.0,
        tags: paint(t1, written, c),
        cursor: with_pos(c, w.1 as usize, w.2 as usize),
        decckm: e.decckm,
    }
}

/// The edits of the screen, with the runs kept in step: clearing forwards paints from
/// the cursor to the end, removed text is cut out of the runs, and inserted text
/// opens them up.
pub open spec fn apply_edit_spec(e: EmulatorModel, op: OutputView) -> EmulatorModel {
    let c = e.cursor;
    let b = e.buffer;
    let x = c.pos.x;
    let y = c.pos.y;
    match op {
        OutputView::ClearForwards => EmulatorModel {
            buffer: clear_forwards_spec(b, x, y),
            tags: paint(e.tags, Range { start: cap(text_pos(b, x as int, y as int)), end: UNBOUNDED }, c),
            ..e
        },
        OutputView::ClearAll => EmulatorModel {
            buffer: empty_model(b.width, b.height, Seq::empty()),
            tags: push_range_spec(e.tags, 0, UNBOUNDED, c.color, c.bold),
            ..e
        },
        OutputView::ClearLineForwards => EmulatorModel {
            buffer: clear_line_spec(b, x, y),
            tags: if x < b.rows[y as int].len() {
                cut(e.tags, cap_range(text_pos(b, x as int, y as int), text_pos(b, b.rows[y as int].len() as int, y as int)))
            } else {
                e.tags
            },
            ..e
        },
        OutputView::InsertLines(n) => {
            let k = min_nat(n as int, b.height - y);
            EmulatorModel {
                buffer: insert_lines_spec(b, y, n),
                tags: if n > 0 {
                    open_up(
                        cut(e.tags, cap_range(text_pos(b, 0, b.height - k), text_pos(b, 0, b.height as int))),
                        cap_range(text_pos(b, 0, y as int), text_pos(b, 0, y as int) + k),
                    )
                } else {
                    e.tags
                },
                ..e
            }
        },
        OutputView::Delete(n) => EmulatorModel {
            buffer: delete_forwards_spec(b, x, y, n),
            tags: if x <= b.rows[y as int].len() {
                cut(e.tags, cap_range(text_pos(b, x as int, y as int), text_pos(b, x + min_nat(n as int, b.rows[y as int].len() - x), y as int)))
            } else {
                e.tags
            },
            ..e
        },
        OutputView::InsertSpaces(n) => EmulatorModel {
            buffer: insert_spaces_spec(b, x, y, n),
            tags: open_up(e.tags, spaces_insertion(b, x, y, n)),
            ..e
        },
        _ => e,
    }
}

/// The text range that inserting `n` spaces at (`x`, `y`) adds.
pub open spec fn spaces_insertion(b: BufferModel, x: usize, y: usize, n: usize) -> Range<usize> {
    if y < b.height && x <= b.rows[y as int].len() {
        let k = min_nat(n as int, b.width - x);
        let added = min_nat(b.rows[y as int].len() + k, b.width as int) - b.rows[y as int].len();
        cap_range(text_pos(b, x as int, y as int), text_pos(b, x as int, y as int) + added)
    } else {
        Range { start: 0usize, end: 0usize }
    }
}

/// One operation before the runs are cut back to the text. The cursor is kept on the
/// grid: absolute and relative moves are clamped, and a line feed on the last row
/// scrolls.
pub open spec fn step_op(e: EmulatorModel, op: OutputView) -> EmulatorModel {
    let c = e.cursor;
    let w = e.buffer.width;
    let h = e.buffer.height;
    match op {
        OutputView::Data(d) => apply_data(e, d),
        OutputView::SetCursorPos { x, y } => {
            let nx = match x {
                Some(v) => clamp(v - 1, w),
                None => c.pos.x,
            };
            let ny = match y {
                Some(v) => clamp(v - 1, h),
                None => c.pos.y,
            };
            with_cursor(e, with_pos(c, nx, ny))
        },
        OutputView::SetCursorPosRel { x, y } => {
            let nx = match x {
                Some(d) => clamp(c.pos.x + d, w),
                None => c.pos.x,
            };
            let ny = match y {
                Some(d) => clamp(c.pos.y + d, h),
                None => c.pos.y,
            };
            with_cursor(e, with_pos(c, nx, ny))
        },
        OutputView::CarriageReturn => with_cursor(e, with_pos(c, 0, c.pos.y)),
        OutputView::Newline => if c.pos.y + 1 < h {
            with_cursor(e, with_pos(c, c.pos.x, (c.pos.y + 1) as usize))
        } else {
            with_buffer(e, evict_spec(e.buffer))
        },
        OutputView::Backspace => if c.pos.x >= 1 {
            with_cursor(e, with_pos(c, (c.pos.x - 1) as usize, c.pos.y))
        } else {
            e
        },
        OutputView::Sgr(sgr) => with_cursor(e, sgr_apply(c, sgr)),
        OutputView::SetMode(m) => if m is Decckm {
            EmulatorModel { parser: e.parser, buffer: e.buffer, tags: e.tags, cursor: c, decckm: true }
        } else {
            e
        },
        OutputView::ResetMode(m) => if m is Decckm {
            EmulatorModel { parser: e.parser, buffer: e.buffer, tags: e.tags, cursor: c, decckm: false }
        } else {
            e
        },
        OutputView::Invalid => e,
        _ => apply_edit_spec(e, op),
    }
}

/// One operation applied to the emulator, after which runs that would start past
/// the end of the text are cut back to it.
pub open spec fn apply_op(e: EmulatorModel, op: OutputView) -> EmulatorModel {
    cut_to_text(step_op(e, op))
}

/// The operations applied in order.
pub open spec fn apply_ops(e: EmulatorModel, ops: Seq<OutputView>) -> EmulatorModel
    decreases ops.len(),
{
    if ops.len() == 0 {
        e
    } else {
        apply_op(apply_ops(e, ops.drop_last()), ops.last())
    }
}

/// The terminal engine: parser, screen, format runs, cursor and modes.
pub struct TerminalEmulator {
    parser: AnsiParser,
    terminal_buffer: TerminalBuffer2,
    format_tracker: FormatTracker,
    cursor_state: CursorState,
    decckm_mode: bool,
}

fn clamp_exec(v: i128, limit: usize) -> (r: usize)
    requires
        limit >= 1,
    ensures
        r == clamp(v as int, limit),
{
    if v < 0 {
        0
    } else if v >= limit as i128 {
        limit - 1
    } else {
        v as usize
    }
}

impl TerminalEmulator {
    pub closed spec fn view(&self) -> EmulatorModel {
        EmulatorModel {
            parser: self.parser@,
            buffer: self.terminal_buffer@,
            tags: self.format_tracker@,
            cursor: self.cursor_state,
            decckm: self.decckm_mode,
        }
    }

    pub closed spec fn wf(&self) -> bool {
        &&& self.terminal_buffer.wf()
        &&& self.format_tracker.wf()
        &&& emulator_wf(self@)
    }

    /// A fresh engine with an empty screen of the default size.
    pub fn new() -> (r: TerminalEmulator)
        ensures
            r.wf(),
            emulator_wf(r@),
            r@.parser == ParserModel::Empty,
            r@.buffer == empty_model(TERMINAL_WIDTH, TERMINAL_HEIGHT, Seq::empty()),
            r@.cursor == (CursorState {
                pos: CursorPos { x: 0, y: 0 },
                bold: false,
                color: TerminalColor::Default,
            }),
            !r@.decckm,
            r@.tags == seq![
                FormatTagSerialized {
                    start: 0,
                    end: UNBOUNDED,
                    color: TerminalColor::Default,
                    bold: false,
                },
            ],
    {
        assert((TERMINAL_HEIGHT + 1) * TERMINAL_WIDTH <= usize::MAX);
        TerminalEmulator {
            parser: AnsiParser::new(),
            terminal_buffer: TerminalBuffer2::new(TERMINAL_WIDTH, TERMINAL_HEIGHT),
            format_tracker: FormatTracker::new(),
            cursor_state: CursorState {
                pos: CursorPos { x: 0, y: 0 },
                bold: false,
                color: TerminalColor::Default,
            },
            decckm_mode: false,
        }
    }

    pub fn get_win_size(&self) -> (r: (usize, usize))
        requires
            self.wf(),
        ensures
            r == (self@.buffer.width, self@.buffer.height),
    {
        self.terminal_buffer.get_win_size()
    }

    pub fn cursor_pos(&self) -> (r: CursorPos)
        ensures
            r == self@.cursor.pos,
    {
        self.cursor_state.pos
    }

    /// The scrollback and the visible text.
    pub fn data(&self) -> (r: TerminalData<Vec<u8>>)
        requires
            self.wf(),
        ensures
            r.scrollback@ == self@.buffer.scrollback,
            r.visible@ == visible_spec(self@.buffer),
    {
        self.terminal_buffer.data()
    }

    /// The format runs, split into those over the scrollback and those over the
    /// visible text.
    pub fn format_data(&self) -> (r: TerminalData<Vec<FormatTagSerialized>>)
        requires
            self.wf(),
        ensures
            r.scrollback@ == scrollback_tags_spec(self@.tags, self@.buffer.scrollback.len() as usize),
            r.visible@ == visible_tags_spec(self@.tags, self@.buffer.scrollback.len() as usize),
    {
        let offset = self.terminal_buffer.data().scrollback.len();
        split_format_data_for_scrollback(self.format_tracker.tags(), offset)
    }

    /// The bytes that a key press sends in the current cursor keys mode.
    pub fn write(&self, to_write: &TerminalInput) -> (r: Vec<u8>)
        ensures
            r@ == input_bytes(*to_write, self@.decckm),
    {
        to_write.to_payload(self.decckm_mode)
    }

    /// The parts are well formed and the cursor is on the grid; runs may still start
    /// past the end of the text.
    pub closed spec fn parts_ok(&self) -> bool {
        &&& self.terminal_buffer.wf()
        &&& self.format_tracker.wf()
        &&& parts_wf(self@)
    }

    fn paint_runs(&mut self, r: Range<usize>)
        requires
            old(self).parts_ok(),
        ensures
            final(self).parts_ok(),
            final(self)@ == with_tags(old(self)@, paint(old(self)@.tags, r, old(self)@.cursor)),
    {
        self.format_tracker.push_range(&self.cursor_state, r);
    }

    fn cut_runs(&mut self, r: Range<usize>)
        requires
            old(self).parts_ok(),
        ensures
            final(self).parts_ok(),
            final(self)@ == with_tags(old(self)@, cut(old(self)@.tags, r)),
    {
        if r.start <= r.end {
            self.format_tracker.delete_range(r);
        }
    }

    fn open_runs(&mut self, r: Range<usize>)
        requires
            old(self).parts_ok(),
        ensures
            final(self).parts_ok(),
            final(self)@ == with_tags(old(self)@, open_up(old(self)@.tags, r)),
    {
        if r.start <= r.end {
            let len = r.end - r.start;
            let last = self.format_tracker.last_start();
            if len < UNBOUNDED - last {
                self.format_tracker.push_range_adjustment(r);
            }
        }
    }

    /// Cuts the runs back so that none starts past the end of the text.
    fn cut_runs_to_text(&mut self)
        requires
            old(self).parts_ok(),
        ensures
            final(self).wf(),
            final(self)@ == cut_to_text(old(self)@),
    {
        let end = self.terminal_buffer.text_len();
        let ghost old_last = self@.tags.last().start;
        self.format_tracker.delete_range(end..UNBOUNDED);
        assert(old_last < UNBOUNDED);
    }

    fn apply_data_op(&mut self, data: &Vec<u8>)
        requires
            old(self).parts_ok(),
        ensures
            final(self).parts_ok(),
            final(self)@ == apply_data(old(self)@, data@),
    {
        let pos = self.cursor_state.pos;
        let response = self.terminal_buffer.insert_data(&pos, data.as_slice());
        self.open_runs(response.insertion_range);
        self.paint_runs(response.written_range);
        self.cursor_state.pos = response.new_cursor_pos;
    }

    fn apply_move(&mut self, op: &TerminalOutput)
        requires
            old(self).parts_ok(),
            op is SetCursorPos || op is SetCursorPosRel,
        ensures
            final(self).parts_ok(),
            final(self)@ == step_op(old(self)@, op@),
    {
        let width = self.terminal_buffer.get_win_size().0;
        let height = self.terminal_buffer.get_win_size().1;
        match op {
            TerminalOutput::SetCursorPos { x, y } => {
                if let Some(x) = x {
                    self.cursor_state.pos.x = clamp_exec(*x as i128 - 1, width);
                }
                if let Some(y) = y {
                    self.cursor_state.pos.y = clamp_exec(*y as i128 - 1, height);
                }
            },
            TerminalOutput::SetCursorPosRel { x, y } => {
                if let Some(x) = x {
                    self.cursor_state.pos.x = clamp_exec(
                        self.cursor_state.pos.x as i128 + *x as i128,
                        width,
                    );
                }
                if let Some(y) = y {
                    self.cursor_state.pos.y = clamp_exec(
                        self.cursor_state.pos.y as i128 + *y as i128,
                        height,
                    );
                }
            },
            _ => {},
        }
    }

    #[verifier::rlimit(50)]
    fn apply_clear_forwards(&mut self)
        requires
            old(self).parts_ok(),
        ensures
            final(self).parts_ok(),
            final(self)@ == step_op(old(self)@, OutputView::ClearForwards),
    {
        let pos = self.cursor_state.pos;
        if let Some(p) = self.terminal_buffer.clear_forwards(&pos) {
            self.paint_runs(p..UNBOUNDED);
        }
    }

    #[verifier::rlimit(50)]
    fn apply_clear_all(&mut self)
        requires
            old(self).parts_ok(),
        ensures
            final(self).parts_ok(),
            final(self)@ == step_op(old(self)@, OutputView::ClearAll),
    {
        self.format_tracker.push_range(&self.cursor_state, 0..UNBOUNDED);
        self.terminal_buffer.clear_all();
    }

    #[verifier::rlimit(50)]
    fn apply_clear_line(&mut self)
        requires
            old(self).parts_ok(),
        ensures
            final(self).parts_ok(),
            final(self)@ == step_op(old(self)@, OutputView::ClearLineForwards),
    {
        let pos = self.cursor_state.pos;
        if let Some(r) = self.terminal_buffer.clear_line_forwards(&pos) {
            self.cut_runs(r);
        }
    }

    #[verifier::rlimit(50)]
    fn apply_lines(&mut self, op: &TerminalOutput)
        requires
            old(self).parts_ok(),
            op is InsertLines,
        ensures
            final(self).parts_ok(),
            final(self)@ == step_op(old(self)@, op@),
    {
        let pos = self.cursor_state.pos;
        if let TerminalOutput::InsertLines(n) = op {
            let response = self.terminal_buffer.insert_lines(&pos, *n);
            if *n > 0 {
                self.cut_runs(response.deleted_range);
                self.open_runs(response.inserted_range);
            }
        }
    }

    #[verifier::rlimit(50)]
    fn apply_chars(&mut self, op: &TerminalOutput)
        requires
            old(self).parts_ok(),
            op is Delete || op is InsertSpaces,
        ensures
            final(self).parts_ok(),
            final(self)@ == step_op(old(self)@, op@),
    {
        let pos = self.cursor_state.pos;
        match op {
            TerminalOutput::Delete(n) => {
                if let Some(r) = self.terminal_buffer.delete_forwards(&pos, *n) {
                    self.cut_runs(r);
                }
            },
            TerminalOutput::InsertSpaces(n) => {
                let response = self.terminal_buffer.insert_spaces(&pos, *n);
                self.open_runs(response.insertion_range);
            },
            _ => {},
        }
    }

    fn apply_cursor_op(&mut self, op: &TerminalOutput)
        requires
            old(self).parts_ok(),
            op is CarriageReturn || op is Newline || op is Backspace,
        ensures
            final(self).parts_ok(),
            final(self)@ == step_op(old(self)@, op@),
    {
        let height = self.terminal_buffer.get_win_size().1;
        match op {
            TerminalOutput::CarriageReturn => {
                self.cursor_state.pos.x = 0;
            },
            TerminalOutput::Newline => {
                if self.cursor_state.pos.y + 1 < height {
                    self.cursor_state.pos.y = self.cursor_state.pos.y + 1;
                } else {
                    self.terminal_buffer.push_line_to_scrollback();
                }
            },
            TerminalOutput::Backspace => {
                if self.cursor_state.pos.x >= 1 {
                    self.cursor_state.pos.x = self.cursor_state.pos.x - 1;
                }
            },
            _ => {},
        }
    }

    fn apply_rendition(&mut self, op: &TerminalOutput)
        requires
            old(self).parts_ok(),
            op is Sgr || op is SetMode || op is ResetMode || op is Invalid,
        ensures
            final(self).parts_ok(),
            final(self)@ == step_op(old(self)@, op@),
    {
        match op {
            TerminalOutput::Sgr(sgr) => {
                let sgr = *sgr;
                if let Some(color) = TerminalColor::from_sgr(sgr) {
                    self.cursor_state.color = color;
                } else if sgr == SelectGraphicRendition::Reset {
                    self.cursor_state.color = TerminalColor::Default;
                    self.cursor_state.bold = false;
                } else if sgr == SelectGraphicRendition::Bold {
                    self.cursor_state.bold = true;
                }
            },
            TerminalOutput::SetMode(mode) => {
                if let Mode::Decckm = mode {
                    self.decckm_mode = true;
                }
            },
            TerminalOutput::ResetMode(mode) => {
                if let Mode::Decckm = mode {
                    self.decckm_mode = false;
                }
            },
            _ => {},
        }
    }

    /// Applies one decoded operation.
    fn apply(&mut self, op: &TerminalOutput)
        requires
            old(self).wf(),
        ensures
            final(self).wf(),
            final(self)@ == apply_op(old(self)@, op@),
    {
        match op {
            TerminalOutput::Data(data) => self.apply_data_op(data),
            TerminalOutput::SetCursorPos { .. } | TerminalOutput::SetCursorPosRel { .. } => self.apply_move(op),
            TerminalOutput::CarriageReturn | TerminalOutput::Newline | TerminalOutput::Backspace => self.apply_cursor_op(op),
            TerminalOutput::Sgr(_) | TerminalOutput::SetMode(_) | TerminalOutput::ResetMode(_) | TerminalOutput::Invalid => self.apply_rendition(op),
            TerminalOutput::ClearForwards => self.apply_clear_forwards(),
            TerminalOutput::ClearAll => self.apply_clear_all(),
            TerminalOutput::ClearLineForwards => self.apply_clear_line(),
            TerminalOutput::InsertLines(_) => self.apply_lines(op),
            _ => self.apply_chars(op),
        }
        self.cut_runs_to_text();
    }

    /// Decodes `incoming` and applies every resulting operation in order.
    pub fn handle_incoming_data(&mut self, incoming: &[u8])
        requires
            old(self).wf(),
        ensures
            final(self).wf(),
            emulator_wf(final(self)@),
            ({
                let p = push_spec(old(self)@.parser, incoming@);
                let e = EmulatorModel {
                    parser: p.0,
                    buffer: old(self)@.buffer,
                    tags: old(self)@.tags,
                    cursor: old(self)@.cursor,
                    decckm: old(self)@.decckm,
                };
                final(self)@ == apply_ops(e, p.1)
            }),
    {
        let parsed = self.parser.push(incoming);
        let ghost ops = outputs_view(parsed@);
        let ghost e0 = self@;
        let n = parsed.len();
        let mut i: usize = 0;
        assert(ops.subrange(0, 0) =~= Seq::<OutputView>::empty());
        while i < n
            invariant
                self.wf(),
                n == parsed@.len(),
                ops == outputs_view(parsed@),
                i <= n,
                self@ == apply_ops(e0, ops.subrange(0, i as int)),
            decreases n - i,
        {
            let ghost pre = ops.subrange(0, i + 1);
            assert(pre.drop_last() =~= ops.subrange(0, i as int));
            self.apply(&parsed[i]);
            i = i + 1;
        }
        assert(ops.subrange(0, n as int) =~= ops);
    }

    /// Resizes the screen; the cursor follows its text. Returns whether the size
    /// changed, in which case the caller tells the transport and records it.
    pub fn set_win_size(&mut self, width_chars: usize, height_chars: usize) -> (r: bool)
        requires
            old(self).wf(),
            valid_size(width_chars, height_chars),
        ensures
            final(self).wf(),
            emulator_wf(final(self)@),
            r == !(old(self)@.buffer.width == width_chars && old(self)@.buffer.height
                == height_chars),
            !r ==> final(self)@ == old(self)@,
            r ==> {
                let f = resize_fold(
                    old(self)@.buffer,
                    width_chars,
                    height_chars,
                    old(self)@.cursor.pos,
                    old(self)@.buffer.height as int,
                );
                &&& final(self)@.buffer == f.0
                &&& final(self)@.cursor == with_pos(old(self)@.cursor, f.3.x, f.3.y)
                &&& final(self)@.tags == delete_range_spec(old(self)@.tags, cap(text_len(f.0)), UNBOUNDED)
                &&& final(self)@.parser == old(self)@.parser
                &&& final(self)@.decckm == old(self)@.decckm
            },
    {
        let pos = self.cursor_state.pos;
        let response = self.terminal_buffer.set_win_size(width_chars, height_chars, &pos);
        self.cursor_state.pos = response.new_cursor_pos;
        if response.changed {
            self.cut_runs_to_text();
        }
        response.changed
    }
}

/// Why the engine's state could not be saved.
#[derive(Debug, Clone, Copy, PartialEq, Eq, Structural)]
pub enum StartRecordingError {
    SnapshotBuffer(CreateSnapshotError),
    SnapshotFormatTracker(SnapshotFormatTagError),
    SnapshotCursor(SnapshotCursorPosError),
}

/// Why the engine's state could not be loaded.
#[derive(Debug, Clone, Copy, PartialEq, Eq, Structural)]
pub enum LoadSnapshotError {
    RootNotMap,
    ParserNotPresent,
    LoadParser(crate::ansi::LoadSnapshotError),
    BufferNotPresent,
    LoadBuffer(crate::buffer::LoadSnapshotError),
    FormatTrackerNotPresent,
    LoadFormatTracker(LoadFormatTrackerSnapshotError),
    DecckmNotPresent,
    DecckmNotBool,
    CursorStateNotPresent,
    LoadCursorState(LoadCursorStateError),
    /// The cursor lies outside the loaded screen.
    CursorOutOfBounds,
    /// A format run starts past the end of the loaded text.
    RunsPastText,
}

/// Whether every number of the state fits in an `i64`, as saving needs.
pub open spec fn snapshot_fits(e: EmulatorModel) -> bool {
    &&& e.buffer.width <= i64::MAX
    &&& e.buffer.height <= i64::MAX
    &&& forall|k: int| 0 <= k < e.tags.len() ==> fits_i64(#[trigger] e.tags[k].start) && (e.tags[k].end == UNBOUNDED || fits_i64(e.tags[k].end))
}

/// How the engine is saved: "parser", "terminal_buffer", "format_tracker",
/// "decckm_mode", "cursor_state".
pub open spec fn is_emulator_snapshot(item: SnapshotItem, e: EmulatorModel) -> bool {
    &&& is_map_with(item, seq!["parser"@, "terminal_buffer"@, "format_tracker"@, "decckm_mode"@, "cursor_state"@])
    &&& is_parser_snapshot(item->Object_0@[0].1, e.parser)
    &&& is_buffer_snapshot(item->Object_0@[1].1, e.buffer)
    &&& is_tracker_snapshot(item->Object_0@[2].1, e.tags)
    &&& item->Object_0@[3].1 == SnapshotItem::Bool(e.decckm)
    &&& is_cursor_state_snapshot(item->Object_0@[4].1, e.cursor)
}

/// What loading the engine from `item` gives.
pub open spec fn load_emulator_spec(item: SnapshotItem) -> Result<EmulatorModel, LoadSnapshotError> {
    if !(item is Object) {
        Err(LoadSnapshotError::RootNotMap)
    } else {
        match field(item, "parser"@) {
            None => Err(LoadSnapshotError::ParserNotPresent),
            Some(pi) => match load_parser_spec(pi) {
                Err(e) => Err(LoadSnapshotError::LoadParser(e)),
                Ok(parser) => match field(item, "terminal_buffer"@) {
                    None => Err(LoadSnapshotError::BufferNotPresent),
                    Some(bi) => match load_buffer_spec(bi) {
                        Err(e) => Err(LoadSnapshotError::LoadBuffer(e)),
                        Ok(buffer) => match field(item, "format_tracker"@) {
                            None => Err(LoadSnapshotError::FormatTrackerNotPresent),
                            Some(ti) => match load_tracker_spec(ti) {
                                Err(e) => Err(LoadSnapshotError::LoadFormatTracker(e)),
                                Ok(tags) => match field(item, "decckm_mode"@) {
                                    None => Err(LoadSnapshotError::DecckmNotPresent),
                                    Some(SnapshotItem::Bool(decckm)) => match field(item, "cursor_state"@) {
                                        None => Err(LoadSnapshotError::CursorStateNotPresent),
                                        Some(ci) => match load_cursor_state_spec(ci) {
                                            Err(e) => Err(LoadSnapshotError::LoadCursorState(e)),
                                            Ok(cursor) => if !(cursor.pos.x < buffer.width && cursor.pos.y < buffer.height) {
                                                Err(LoadSnapshotError::CursorOutOfBounds)
                                            } else if tags.last().start > text_len(buffer) {
                                                Err(LoadSnapshotError::RunsPastText)
                                            } else {
                                                Ok(EmulatorModel { parser, buffer, tags, cursor, decckm })
                                            },
                                        },
                                    },
                                    Some(_) => Err(LoadSnapshotError::DecckmNotBool),
                                },
                            },
                        },
                    },
                },
            },
        }
    }
}

impl TerminalEmulator {
    /// Saves the engine's state. Fails only where a number does not fit in an `i64`.
    pub fn snapshot(&self) -> (r: Result<SnapshotItem, StartRecordingError>)
        requires
            self.wf(),
        ensures
            r matches Ok(item) ==> is_emulator_snapshot(item, self@),
            r matches Ok(item) ==> keys_distinct(item),
            r matches Ok(item) ==> load_emulator_spec(item) == Ok::<EmulatorModel, LoadSnapshotError>(self@),
            r is Ok <==> snapshot_fits(self@),
    {
        let parser = self.parser.snapshot();
        let buffer = match self.terminal_buffer.snapshot() {
            Ok(b) => b,
            Err(e) => {
                return Err(StartRecordingError::SnapshotBuffer(e));
            },
        };
        let tracker = match self.format_tracker.snapshot() {
            Ok(t) => t,
            Err(e) => {
                return Err(StartRecordingError::SnapshotFormatTracker(e));
            },
        };
        let cursor = match self.cursor_state.snapshot() {
            Ok(c) => c,
            Err(e) => {
                return Err(StartRecordingError::SnapshotCursor(e));
            },
        };
        let mut m: Vec<(String, SnapshotItem)> = Vec::new();
        m.push(entry("parser", parser));
        m.push(entry("terminal_buffer", buffer));
        m.push(entry("format_tracker", tracker));
        m.push(entry("decckm_mode", SnapshotItem::Bool(self.decckm_mode)));
        m.push(entry("cursor_state", cursor));
        let r = SnapshotItem::Object(m);
        assert(is_map_with(r, seq!["parser"@, "terminal_buffer"@, "format_tracker"@, "decckm_mode"@, "cursor_state"@]));
        proof {
            reveal_strlit("parser");
            reveal_strlit("terminal_buffer");
            reveal_strlit("format_tracker");
            reveal_strlit("decckm_mode");
            reveal_strlit("cursor_state");
            assert("parser"@.len() == 6 && "parser"@[0] == 'p');
            assert("terminal_buffer"@.len() == 15 && "terminal_buffer"@[0] == 't');
            assert("format_tracker"@.len() == 14 && "format_tracker"@[0] == 'f');
            assert("decckm_mode"@.len() == 11 && "decckm_mode"@[0] == 'd');
            assert("cursor_state"@.len() == 12 && "cursor_state"@[0] == 'c');
            let keys = seq!["parser"@, "terminal_buffer"@, "format_tracker"@, "decckm_mode"@, "cursor_state"@];
            lemma_distinct_keys(keys);
            lemma_map_keys_distinct(r, keys);
            lemma_emulator_snapshot_round_trip(r, self@);
        }
        Ok(r)
    }

    /// Loads an engine from a saved state.
    pub fn from_snapshot(snapshot: SnapshotItem) -> (r: Result<TerminalEmulator, LoadSnapshotError>)
        ensures
            match load_emulator_spec(snapshot) {
                Ok(e) => r matches Ok(t) && t@ == e && t.wf() && emulator_wf(e),
                Err(x) => r matches Err(y) && y == x,
            },
    {
        let item = &snapshot;
        if !matches!(item, SnapshotItem::Object(_)) {
            return Err(LoadSnapshotError::RootNotMap);
        }
        let parser = match get_field(item, "parser") {
            None => {
                return Err(LoadSnapshotError::ParserNotPresent);
            },
            Some(p) => match AnsiParser::load(p) {
                Ok(p) => p,
                Err(e) => {
                    return Err(LoadSnapshotError::LoadParser(e));
                },
            },
        };
        let terminal_buffer = match get_field(item, "terminal_buffer") {
            None => {
                return Err(LoadSnapshotError::BufferNotPresent);
            },
            Some(b) => match TerminalBuffer2::load(b) {
                Ok(b) => b,
                Err(e) => {
                    return Err(LoadSnapshotError::LoadBuffer(e));
                },
            },
        };
        let format_tracker = match get_field(item, "format_tracker") {
            None => {
                return Err(LoadSnapshotError::FormatTrackerNotPresent);
            },
            Some(t) => match FormatTracker::load(t) {
                Ok(t) => t,
                Err(e) => {
                    return Err(LoadSnapshotError::LoadFormatTracker(e));
                },
            },
        };
        let decckm_mode = match get_field(item, "decckm_mode") {
            None => {
                return Err(LoadSnapshotError::DecckmNotPresent);
            },
            Some(SnapshotItem::Bool(b)) => *b,
            Some(_) => {
                return Err(LoadSnapshotError::DecckmNotBool);
            },
        };
        let cursor_state = match get_field(item, "cursor_state") {
            None => {
                return Err(LoadSnapshotError::CursorStateNotPresent);
            },
            Some(c) => match CursorState::load(c) {
                Ok(c) => c,
                Err(e) => {
                    return Err(LoadSnapshotError::LoadCursorState(e));
                },
            },
        };
        let (w, h) = terminal_buffer.get_win_size();
        if cursor_state.pos.x >= w || cursor_state.pos.y >= h {
            return Err(LoadSnapshotError::CursorOutOfBounds);
        }
        if format_tracker.last_start() > terminal_buffer.text_len() {
            return Err(LoadSnapshotError::RunsPastText);
        }
        Ok(TerminalEmulator { parser, terminal_buffer, format_tracker, cursor_state, decckm_mode })
    }
}

/// Whatever the engine has been through, its cursor lies on the grid and every row
/// fits the width.
pub proof fn lemma_cursor_in_bounds(e: &TerminalEmulator)
    requires
        e.wf(),
    ensures
        e@.cursor.pos.x < e@.buffer.width,
        e@.cursor.pos.y < e@.buffer.height,
        e@.buffer.rows.len() == e@.buffer.height,
        forall|i: int| 0 <= i < e@.buffer.rows.len() ==> (#[trigger] e@.buffer.rows[i]).len() <= e@.buffer.width,
{
}

/// The format runs cover the text exactly: no run starts past its end, and the
/// bounded runs together with the unbounded one cut at the end of the text are as
/// long as the text.
pub proof fn lemma_runs_cover_text(e: &TerminalEmulator)
    requires
        e.wf(),
    ensures
        e@.tags.last().start <= text_len(e@.buffer),
        sum_lengths(e@.tags.drop_last()) + (text_len(e@.buffer) - e@.tags.last().start) == text_len(e@.buffer),
{
    lemma_run_lengths_cover(e@.tags, text_len(e@.buffer));
}

/// Saving the engine and loading the result gives back the same engine.
pub proof fn lemma_emulator_snapshot_round_trip(item: SnapshotItem, e: EmulatorModel)
    requires
        is_emulator_snapshot(item, e),
        emulator_wf(e),
        snapshot_fits(e),
    ensures
        load_emulator_spec(item) == Ok::<EmulatorModel, LoadSnapshotError>(e),
{
    reveal_strlit("parser");
    reveal_strlit("terminal_buffer");
    reveal_strlit("format_tracker");
    reveal_strlit("decckm_mode");
    reveal_strlit("cursor_state");
    let keys = seq!["parser"@, "terminal_buffer"@, "format_tracker"@, "decckm_mode"@, "cursor_state"@];
    assert("parser"@.len() == 6);
    assert("terminal_buffer"@.len() == 15);
    assert("format_tracker"@.len() == 14);
    assert("decckm_mode"@.len() == 11);
    assert("cursor_state"@.len() == 12);
    lemma_distinct_keys(keys);
    lemma_field_at(item, keys, 0);
    lemma_field_at(item, keys, 1);
    lemma_field_at(item, keys, 2);
    lemma_field_at(item, keys, 3);
    lemma_field_at(item, keys, 4);
    assert(keys[0] == "parser"@);
    assert(keys[1] == "terminal_buffer"@);
    assert(keys[2] == "format_tracker"@);
    assert(keys[3] == "decckm_mode"@);
    assert(keys[4] == "cursor_state"@);
    let o = item->Object_0@;
    lemma_parser_snapshot_round_trip(o[0].1, e.parser);
    lemma_buffer_snapshot_round_trip(o[1].1, e.buffer);
    lemma_tracker_snapshot_round_trip(o[2].1, e.tags);
    assert(e.cursor.pos.x <= i64::MAX);
    assert(e.cursor.pos.y <= i64::MAX);
    lemma_cursor_state_snapshot_round_trip(o[4].1, e.cursor);
}

} // verus!
