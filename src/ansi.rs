use vstd::prelude::*;

use crate::bytes::{copy_bytes, str_eq};
use crate::snapshot::{
    keys_distinct, lemma_map_keys_distinct,
    bytes_item, bytes_of, entry, field, get_field, is_byte_array, is_map_with, item_bytes,
    lemma_bytes_round_trip, lemma_distinct_keys, lemma_field_at, string_item, SnapshotItem,
};

verus! {

/// A Select Graphic Rendition parameter.
#[derive(Clone, Copy, Debug, PartialEq, Eq, Structural)]
pub enum SelectGraphicRendition {
    Reset,
    Bold,
    ForegroundBlack,
    ForegroundRed,
    ForegroundGreen,
    ForegroundYellow,
    ForegroundBlue,
    ForegroundMagenta,
    ForegroundCyan,
    ForegroundWhite,
    ForegroundBrightBlack,
    ForegroundBrightRed,
    ForegroundBrightGreen,
    ForegroundBrightYellow,
    ForegroundBrightBlue,
    ForegroundBrightMagenta,
    ForegroundBrightCyan,
    ForegroundBrightWhite,
    Unknown(usize),
}

/// A terminal mode named by a set/reset mode sequence.
#[derive(Debug, PartialEq, Eq)]
pub enum Mode {
    /// Cursor keys mode.
    Decckm,
    Unknown(Vec<u8>),
}

/// One semantic operation decoded from the byte stream.
#[derive(Debug, PartialEq, Eq)]
#[allow(inconsistent_fields)]
pub enum TerminalOutput {
    SetCursorPos { x: Option<usize>, y: Option<usize> },
    SetCursorPosRel { x: Option<i32>, y: Option<i32> },
    ClearForwards,
    ClearAll,
    CarriageReturn,
    ClearLineForwards,
    Newline,
    Backspace,
    InsertLines(usize),
    Delete(usize),
    Sgr(SelectGraphicRendition),
    Data(Vec<u8>),
    SetMode(Mode),
    ResetMode(Mode),
    InsertSpaces(usize),
    Invalid,
}

/// Mathematical form of a `Mode`.
pub enum ModeView {
    Decckm,
    Unknown(Seq<u8>),
}

/// Mathematical form of a `TerminalOutput`: byte vectors become sequences.
#[allow(inconsistent_fields)]
pub enum OutputView {
    SetCursorPos { x: Option<usize>, y: Option<usize> },
    SetCursorPosRel { x: Option<i32>, y: Option<i32> },
    ClearForwards,
    ClearAll,
    CarriageReturn,
    ClearLineForwards,
    Newline,
    Backspace,
    InsertLines(usize),
    Delete(usize),
    Sgr(SelectGraphicRendition),
    Data(Seq<u8>),
    SetMode(ModeView),
    ResetMode(ModeView),
    InsertSpaces(usize),
    Invalid,
}

impl View for Mode {
    type V = ModeView;

    open spec fn view(&self) -> ModeView {
        match self {
            Mode::Decckm => ModeView::Decckm,
            Mode::Unknown(v) => ModeView::Unknown(v@),
        }
    }
}

impl View for TerminalOutput {
    type V = OutputView;

    open spec fn view(&self) -> OutputView {
        match self {
            TerminalOutput::SetCursorPos { x, y } => OutputView::SetCursorPos { x: *x, y: *y },
            TerminalOutput::SetCursorPosRel { x, y } => OutputView::SetCursorPosRel { x: *x, y: *y },
            TerminalOutput::ClearForwards => OutputView::ClearForwards,
            TerminalOutput::ClearAll => OutputView::ClearAll,
            TerminalOutput::CarriageReturn => OutputView::CarriageReturn,
            TerminalOutput::ClearLineForwards => OutputView::ClearLineForwards,
            TerminalOutput::Newline => OutputView::Newline,
            TerminalOutput::Backspace => OutputView::Backspace,
            TerminalOutput::InsertLines(n) => OutputView::InsertLines(*n),
            TerminalOutput::Delete(n) => OutputView::Delete(*n),
            TerminalOutput::Sgr(s) => OutputView::Sgr(*s),
            TerminalOutput::Data(d) => OutputView::Data(d@),
            TerminalOutput::SetMode(m) => OutputView::SetMode(m@),
            TerminalOutput::ResetMode(m) => OutputView::ResetMode(m@),
            TerminalOutput::InsertSpaces(n) => OutputView::InsertSpaces(*n),
            TerminalOutput::Invalid => OutputView::Invalid,
        }
    }
}

/// The views of a sequence of operations.
pub open spec fn outputs_view(v: Seq<TerminalOutput>) -> Seq<OutputView> {
    Seq::new(v.len(), |i: int| v[i]@)
}

pub open spec fn sgr_of(val: usize) -> SelectGraphicRendition {
    if val == 0 {
        SelectGraphicRendition::Reset
    } else if val == 1 {
        SelectGraphicRendition::Bold
    } else if val == 30 {
        SelectGraphicRendition::ForegroundBlack
    } else if val == 31 {
        SelectGraphicRendition::ForegroundRed
    } else if val == 32 {
        SelectGraphicRendition::ForegroundGreen
    } else if val == 33 {
        SelectGraphicRendition::ForegroundYellow
    } else if val == 34 {
        SelectGraphicRendition::ForegroundBlue
    } else if val == 35 {
        SelectGraphicRendition::ForegroundMagenta
    } else if val == 36 {
        SelectGraphicRendition::ForegroundCyan
    } else if val == 37 {
        SelectGraphicRendition::ForegroundWhite
    } else if val == 90 {
        SelectGraphicRendition::ForegroundBrightBlack
    } else if val == 91 {
        SelectGraphicRendition::ForegroundBrightRed
    } else if val == 92 {
        SelectGraphicRendition::ForegroundBrightGreen
    } else if val == 93 {
        SelectGraphicRendition::ForegroundBrightYellow
    } else if val == 94 {
        SelectGraphicRendition::ForegroundBrightBlue
    } else if val == 95 {
        SelectGraphicRendition::ForegroundBrightMagenta
    } else if val == 96 {
        SelectGraphicRendition::ForegroundBrightCyan
    } else if val == 97 {
        SelectGraphicRendition::ForegroundBrightWhite
    } else {
        SelectGraphicRendition::Unknown(val)
    }
}

impl SelectGraphicRendition {
    pub fn from_usize(val: usize) -> (r: SelectGraphicRendition)
        ensures
            r == sgr_of(val),
    {
        match val {
            0 => SelectGraphicRendition::Reset,
            1 => SelectGraphicRendition::Bold,
            30 => SelectGraphicRendition::ForegroundBlack,
            31 => SelectGraphicRendition::ForegroundRed,
            32 => SelectGraphicRendition::ForegroundGreen,
            33 => SelectGraphicRendition::ForegroundYellow,
            34 => SelectGraphicRendition::ForegroundBlue,
            35 => SelectGraphicRendition::ForegroundMagenta,
            36 => SelectGraphicRendition::ForegroundCyan,
            37 => SelectGraphicRendition::ForegroundWhite,
            90 => SelectGraphicRendition::ForegroundBrightBlack,
            91 => SelectGraphicRendition::ForegroundBrightRed,
            92 => SelectGraphicRendition::ForegroundBrightGreen,
            93 => SelectGraphicRendition::ForegroundBrightYellow,
            94 => SelectGraphicRendition::ForegroundBrightBlue,
            95 => SelectGraphicRendition::ForegroundBrightMagenta,
            96 => SelectGraphicRendition::ForegroundBrightCyan,
            97 => SelectGraphicRendition::ForegroundBrightWhite,
            _ => SelectGraphicRendition::Unknown(val),
        }
    }
}

pub open spec fn csi_terminator(b: u8) -> bool {
    0x40 <= b <= 0x7e
}

pub open spec fn csi_param(b: u8) -> bool {
    0x30 <= b <= 0x3f
}

pub open spec fn csi_intermediate(b: u8) -> bool {
    0x20 <= b <= 0x2f
}

pub fn is_csi_terminator(b: u8) -> (r: bool)
    ensures
        r == csi_terminator(b),
{
    0x40 <= b && b <= 0x7e
}

pub fn is_csi_param(b: u8) -> (r: bool)
    ensures
        r == csi_param(b),
{
    0x30 <= b && b <= 0x3f
}

pub fn is_csi_intermediate(b: u8) -> (r: bool)
    ensures
        r == csi_intermediate(b),
{
    0x20 <= b && b <= 0x2f
}

pub open spec fn is_digit(b: u8) -> bool {
    0x30 <= b <= 0x39
}

pub open spec fn all_digits(s: Seq<u8>) -> bool {
    forall|i: int| 0 <= i < s.len() ==> is_digit(#[trigger] s[i])
}

/// The decimal number written by the digits `s`.
pub open spec fn decimal_value(s: Seq<u8>) -> nat
    decreases s.len(),
{
    if s.len() == 0 {
        0
    } else {
        10 * decimal_value(s.drop_last()) + (s.last() - 0x30) as nat
    }
}

/// A parameter: empty means "use the default"; otherwise decimal digits whose value
/// is at most `max`; anything else is an error.
pub open spec fn parse_param_spec(s: Seq<u8>, max: nat) -> Result<Option<nat>, ()> {
    if s.len() == 0 {
        Ok(None)
    } else if all_digits(s) && decimal_value(s) <= max {
        Ok(Some(decimal_value(s)))
    } else {
        Err(())
    }
}

proof fn lemma_decimal_prefix_grows(s: Seq<u8>, i: int)
    requires
        0 <= i <= s.len(),
        all_digits(s),
    ensures
        decimal_value(s.subrange(0, i)) <= decimal_value(s),
    decreases s.len() - i,
{
    if i < s.len() {
        lemma_decimal_prefix_grows(s, i + 1);
        let t = s.subrange(0, i + 1);
        assert(t.drop_last() =~= s.subrange(0, i));
        assert(is_digit(t.last()));
    } else {
        assert(s.subrange(0, i) =~= s);
    }
}

/// Parses `s[lo..hi]` as a parameter no larger than `max`.
fn parse_param_range(s: &Vec<u8>, lo: usize, hi: usize, max: usize) -> (r: Result<
    Option<usize>,
    (),
>)
    requires
        lo <= hi <= s@.len(),
        max >= 9,
    ensures
        r matches Ok(Some(v)) ==> v <= max,
        match parse_param_spec(s@.subrange(lo as int, hi as int), max as nat) {
            Ok(None) => r == Ok::<Option<usize>, ()>(None),
            Ok(Some(v)) => r == Ok::<Option<usize>, ()>(Some(v as usize)),
            Err(_) => r is Err,
        },
{
    let ghost t = s@.subrange(lo as int, hi as int);
    if lo == hi {
        return Ok(None);
    }
    let mut val: usize = 0;
    let mut i: usize = lo;
    while i < hi
        invariant
            lo <= i <= hi <= s@.len(),
            t == s@.subrange(lo as int, hi as int),
            all_digits(s@.subrange(lo as int, i as int)),
            val == decimal_value(s@.subrange(lo as int, i as int)),
            val <= max,
            max >= 9,
        decreases hi - i,
    {
        let b = s[i];
        let ghost p = s@.subrange(lo as int, i + 1);
        assert(p.drop_last() =~= s@.subrange(lo as int, i as int));
        if b < 0x30 || b > 0x39 {
            assert(!is_digit(t[i - lo]));
            return Err(());
        }
        let d = (b - 0x30) as usize;
        if val > (max - d) / 10 {
            proof {
                assert(10 * val + d > max) by (nonlinear_arith)
                    requires
                        val > (max - d) / 10,
                        d <= 9,
                ;
                if all_digits(t) {
                    assert(s@.subrange(lo as int, i + 1) =~= t.subrange(0, i + 1 - lo));
                    lemma_decimal_prefix_grows(t, i + 1 - lo);
                }
            }
            return Err(());
        }
        assert(10 * val + d <= max) by (nonlinear_arith)
            requires
                val <= (max - d) / 10,
                d <= max,
        ;
        val = 10 * val + d;
        i = i + 1;
        assert(all_digits(s@.subrange(lo as int, i as int))) by {
            assert forall|k: int| 0 <= k < i - lo implies is_digit(
                #[trigger] s@.subrange(lo as int, i as int)[k],
            ) by {
                if k < i - 1 - lo {
                    assert(s@.subrange(lo as int, i as int)[k] == s@.subrange(
                        lo as int,
                        i - 1,
                    )[k]);
                }
            }
        }
    }
    assert(s@.subrange(lo as int, i as int) =~= t);
    Ok(Some(val))
}


/// Largest value a relative cursor move may carry.
pub const I32_MAX: usize = 2147483647;

pub open spec fn or_default(o: Option<nat>, d: nat) -> nat {
    match o {
        Some(v) => v,
        None => d,
    }
}

/// The fields of `s` between semicolons; an empty input has one empty field.
pub open spec fn split_fields(s: Seq<u8>) -> Seq<Seq<u8>>
    decreases s.len(),
{
    if s.len() == 0 {
        seq![Seq::empty()]
    } else {
        let r = split_fields(s.drop_last());
        if s.last() == 0x3b {
            r.push(Seq::empty())
        } else {
            r.update(r.len() - 1, r.last().push(s.last()))
        }
    }
}

/// Each field parsed as a parameter, or an error if any field fails.
pub open spec fn fields_parse(f: Seq<Seq<u8>>) -> Result<Seq<Option<nat>>, ()> {
    if forall|k: int| 0 <= k < f.len() ==> (#[trigger] parse_param_spec(f[k], usize::MAX as nat)) is Ok {
        Ok(Seq::new(f.len(), |k: int| parse_param_spec(f[k], usize::MAX as nat)->Ok_0))
    } else {
        Err(())
    }
}

pub open spec fn split_params_spec(s: Seq<u8>) -> Result<Seq<Option<nat>>, ()> {
    fields_parse(split_fields(s))
}

pub open spec fn param_at(ps: Seq<Option<nat>>, i: int) -> Option<nat> {
    if 0 <= i < ps.len() {
        ps[i]
    } else {
        None
    }
}

/// One rendition per given parameter, in order; empty parameters are skipped.
pub open spec fn sgr_ops(ps: Seq<Option<nat>>) -> Seq<OutputView>
    decreases ps.len(),
{
    if ps.len() == 0 {
        Seq::empty()
    } else {
        let r = sgr_ops(ps.drop_last());
        match ps.last() {
            Some(v) => r.push(OutputView::Sgr(sgr_of(v as usize))),
            None => r,
        }
    }
}

/// An empty parameter list, or a single empty parameter, means reset.
pub open spec fn sgr_params(ps: Seq<Option<nat>>) -> Seq<Option<nat>> {
    if ps.len() == 0 || (ps.len() == 1 && ps[0] is None) {
        seq![Some(0nat)]
    } else {
        ps
    }
}

pub open spec fn mode_of(params: Seq<u8>) -> ModeView {
    if params == seq![0x3fu8, 0x31u8] {
        ModeView::Decckm
    } else {
        ModeView::Unknown(params)
    }
}

pub open spec fn rel_move(params: Seq<u8>, neg: bool, horiz: bool) -> Seq<OutputView> {
    match parse_param_spec(params, I32_MAX as nat) {
        Err(_) => seq![OutputView::Invalid],
        Ok(p) => {
            let v = or_default(p, 1) as int;
            let d = (if neg {
                -v
            } else {
                v
            }) as i32;
            if horiz {
                seq![OutputView::SetCursorPosRel { x: Some(d), y: None }]
            } else {
                seq![OutputView::SetCursorPosRel { x: None, y: Some(d) }]
            }
        },
    }
}

pub open spec fn single_param_op(params: Seq<u8>, t: u8) -> Seq<OutputView> {
    match parse_param_spec(params, usize::MAX as nat) {
        Err(_) => seq![OutputView::Invalid],
        Ok(p) => {
            let one = or_default(p, 1) as usize;
            let zero = or_default(p, 0);
            if t == 0x47 {
                seq![OutputView::SetCursorPos { x: Some(one), y: None }]
            } else if t == 0x4a {
                if zero == 0 {
                    seq![OutputView::ClearForwards]
                } else if zero == 2 || zero == 3 {
                    seq![OutputView::ClearAll]
                } else {
                    seq![OutputView::Invalid]
                }
            } else if t == 0x4b {
                if zero == 0 {
                    seq![OutputView::ClearLineForwards]
                } else {
                    seq![OutputView::Invalid]
                }
            } else if t == 0x4c {
                seq![OutputView::InsertLines(one)]
            } else if t == 0x50 {
                seq![OutputView::Delete(one)]
            } else {
                seq![OutputView::InsertSpaces(one)]
            }
        },
    }
}

/// The operations a finished control sequence with final byte `t` stands for.
pub open spec fn csi_dispatch(t: u8, params: Seq<u8>) -> Seq<OutputView> {
    if t == 0x41 {
        rel_move(params, true, false)
    } else if t == 0x42 {
        rel_move(params, false, false)
    } else if t == 0x43 {
        rel_move(params, false, true)
    } else if t == 0x44 {
        rel_move(params, true, true)
    } else if t == 0x48 {
        match split_params_spec(params) {
            Err(_) => seq![OutputView::Invalid],
            Ok(ps) => seq![
                OutputView::SetCursorPos {
                    x: Some(or_default(param_at(ps, 1), 1) as usize),
                    y: Some(or_default(param_at(ps, 0), 1) as usize),
                },
            ],
        }
    } else if t == 0x47 || t == 0x4a || t == 0x4b || t == 0x4c || t == 0x50 || t == 0x40 {
        single_param_op(params, t)
    } else if t == 0x6d {
        match split_params_spec(params) {
            Err(_) => seq![OutputView::Invalid],
            Ok(ps) => sgr_ops(sgr_params(ps)),
        }
    } else if t == 0x68 {
        seq![OutputView::SetMode(mode_of(params))]
    } else if t == 0x6c {
        seq![OutputView::ResetMode(mode_of(params))]
    } else {
        seq![OutputView::Invalid]
    }
}

fn emit(output: &mut Vec<TerminalOutput>, op: TerminalOutput)
    ensures
        outputs_view(final(output)@) == outputs_view(old(output)@).push(op@),
{
    let ghost before = outputs_view(output@);
    let ghost v = op@;
    output.push(op);
    assert(outputs_view(output@) =~= before.push(v));
}

fn parse_param_as_usize(s: &Vec<u8>) -> (r: Result<Option<usize>, ()>)
    ensures
        match parse_param_spec(s@, usize::MAX as nat) {
            Ok(None) => r == Ok::<Option<usize>, ()>(None),
            Ok(Some(v)) => r == Ok::<Option<usize>, ()>(Some(v as usize)),
            Err(_) => r is Err,
        },
{
    assert(s@.subrange(0, s@.len() as int) =~= s@);
    parse_param_range(s, 0, s.len(), usize::MAX)
}

/// `o` is what the parameter `field` parses to, where it parses.
pub open spec fn field_matches(o: Option<usize>, field: Seq<u8>) -> bool {
    parse_param_spec(field, usize::MAX as nat) is Ok ==> match o {
        Some(x) => parse_param_spec(field, usize::MAX as nat) == Ok::<Option<nat>, ()>(
            Some(x as nat),
        ),
        None => parse_param_spec(field, usize::MAX as nat) == Ok::<Option<nat>, ()>(None),
    }
}

/// The parsed parameters `v` are the values `ps`.
pub open spec fn params_match(v: Seq<Option<usize>>, ps: Seq<Option<nat>>) -> bool {
    &&& v.len() == ps.len()
    &&& forall|k: int|
        0 <= k < ps.len() ==> match #[trigger] v[k] {
            Some(x) => ps[k] == Some(x as nat),
            None => ps[k] is None,
        }
}

/// Splits the parameter bytes at semicolons and parses each field.
pub fn split_params_into_semicolon_delimited_usize(params: &Vec<u8>) -> (r: Result<
    Vec<Option<usize>>,
    (),
>)
    ensures
        match split_params_spec(params@) {
            Ok(ps) => r matches Ok(v) && params_match(v@, ps),
            Err(_) => r is Err,
        },
{
    let n = params.len();
    let mut out: Vec<Option<usize>> = Vec::new();
    let mut ok = true;
    let mut lo: usize = 0;
    let mut i: usize = 0;
    let ghost mut done: Seq<Seq<u8>> = Seq::empty();
    proof {
        assert(params@.subrange(0, 0) =~= Seq::<u8>::empty());
        assert(split_fields(params@.subrange(0, 0)) =~= done.push(params@.subrange(0, 0)));
    }
    while i < n
        invariant
            n == params@.len(),
            lo <= i <= n,
            split_fields(params@.subrange(0, i as int)) == done.push(
                params@.subrange(lo as int, i as int),
            ),
            out@.len() == done.len(),
            ok <==> forall|k: int|
                0 <= k < done.len() ==> (#[trigger] parse_param_spec(
                    done[k],
                    usize::MAX as nat,
                )) is Ok,
            forall|k: int| 0 <= k < done.len() ==> field_matches(#[trigger] out@[k], done[k]),
        decreases n - i,
    {
        let ghost pre = params@.subrange(0, i + 1);
        assert(pre.drop_last() =~= params@.subrange(0, i as int));
        if params[i] == 0x3b {
            let parsed = parse_param_range(params, lo, i, usize::MAX);
            let ghost field = params@.subrange(lo as int, i as int);
            let ghost old_done = done;
            match parsed {
                Ok(v) => out.push(v),
                Err(_) => {
                    ok = false;
                    out.push(None);
                },
            }
            proof {
                done = done.push(field);
                assert(params@.subrange((i + 1) as int, (i + 1) as int) =~= Seq::<u8>::empty());
                assert forall|k: int| 0 <= k < done.len() implies field_matches(
                    #[trigger] out@[k],
                    done[k],
                ) by {
                    if k < old_done.len() {
                        assert(done[k] == old_done[k]);
                    }
                }
                if !ok {
                    if parsed is Err {
                        assert(!(parse_param_spec(done[old_done.len() as int], usize::MAX as nat) is Ok));
                    } else {
                        let k = choose|k: int|
                            0 <= k < old_done.len() && !(#[trigger] parse_param_spec(
                                old_done[k],
                                usize::MAX as nat,
                            ) is Ok);
                        assert(done[k] == old_done[k]);
                    }
                } else {
                    assert forall|k: int| 0 <= k < done.len() implies (#[trigger] parse_param_spec(
                        done[k],
                        usize::MAX as nat,
                    )) is Ok by {
                        if k < old_done.len() {
                            assert(done[k] == old_done[k]);
                        }
                    }
                }
            }
            lo = i + 1;
        } else {
            proof {
                assert(params@.subrange(lo as int, i + 1) =~= params@.subrange(
                    lo as int,
                    i as int,
                ).push(params@[i as int]));
            }
        }
        i = i + 1;
        proof {
            let sf = split_fields(params@.subrange(0, i as int));
            assert(sf =~= done.push(params@.subrange(lo as int, i as int)));
        }
    }
    let last = parse_param_range(params, lo, n, usize::MAX);
    let ghost field = params@.subrange(lo as int, n as int);
    let ghost old_done = done;
    match last {
        Ok(v) => out.push(v),
        Err(_) => {
            ok = false;
            out.push(None);
        },
    }
    proof {
        done = done.push(field);
        assert(params@.subrange(0, n as int) =~= params@);
        assert(split_fields(params@) == done);
        assert forall|k: int| 0 <= k < done.len() implies field_matches(
            #[trigger] out@[k],
            done[k],
        ) by {
            if k < old_done.len() {
                assert(done[k] == old_done[k]);
            }
        }
        if !ok {
            if last is Err {
                assert(!(parse_param_spec(done[old_done.len() as int], usize::MAX as nat) is Ok));
            } else {
                let k = choose|k: int|
                    0 <= k < old_done.len() && !(#[trigger] parse_param_spec(
                        old_done[k],
                        usize::MAX as nat,
                    ) is Ok);
                assert(done[k] == old_done[k]);
            }
        } else {
            assert forall|k: int| 0 <= k < done.len() implies (#[trigger] parse_param_spec(
                done[k],
                usize::MAX as nat,
            )) is Ok by {
                if k < old_done.len() {
                    assert(done[k] == old_done[k]);
                }
            }
            let ps = fields_parse(done)->Ok_0;
            assert forall|k: int| 0 <= k < ps.len() implies match #[trigger] out@[k] {
                Some(x) => ps[k] == Some(x as nat),
                None => ps[k] is None,
            } by {
                assert(field_matches(out@[k], done[k]));
                assert(parse_param_spec(done[k], usize::MAX as nat) is Ok);
            }
        }
    }
    if ok {
        Ok(out)
    } else {
        Err(())
    }
}

pub fn mode_from_params(params: &Vec<u8>) -> (r: Mode)
    ensures
        r@ == mode_of(params@),
{
    if params.len() == 2 && params[0] == 0x3f && params[1] == 0x31 {
        assert(params@ =~= seq![0x3fu8, 0x31u8]);
        Mode::Decckm
    } else {
        Mode::Unknown(copy_bytes(params))
    }
}

fn push_sgrs(params: &Vec<Option<usize>>, output: &mut Vec<TerminalOutput>, ps: Ghost<Seq<Option<nat>>>)
    requires
        params_match(params@, ps@),
    ensures
        outputs_view(final(output)@) == outputs_view(old(output)@) + sgr_ops(ps@),
{
    let n = params.len();
    let mut i: usize = 0;
    while i < n
        invariant
            n == params@.len(),
            params_match(params@, ps@),
            i <= n,
            outputs_view(output@) == outputs_view(old(output)@) + sgr_ops(
                ps@.subrange(0, i as int),
            ),
        decreases n - i,
    {
        let ghost pre = ps@.subrange(0, i + 1);
        assert(pre.drop_last() =~= ps@.subrange(0, i as int));
        match params[i] {
            Some(v) => {
                let sgr = SelectGraphicRendition::from_usize(v);
                emit(output, TerminalOutput::Sgr(sgr));
            },
            None => {},
        }
        i = i + 1;
        assert(outputs_view(output@) =~= outputs_view(old(output)@) + sgr_ops(
            ps@.subrange(0, i as int),
        ));
    }
    assert(ps@.subrange(0, n as int) =~= ps@);
}

/// The parameter at `idx`, if there is one and it is not empty.
pub fn extract_param(idx: usize, params: &Vec<Option<usize>>) -> (r: Option<usize>)
    ensures
        r == (if idx < params@.len() {
            params@[idx as int]
        } else {
            None
        }),
{
    if idx < params.len() {
        params[idx]
    } else {
        None
    }
}

/// Appends the operations that the finished sequence with final byte `t` stands for.
fn dispatch_csi(t: u8, params: &Vec<u8>, output: &mut Vec<TerminalOutput>)
    ensures
        outputs_view(final(output)@) == outputs_view(old(output)@) + csi_dispatch(t, params@),
{
    let ghost base = outputs_view(output@);
    if t == 0x41 || t == 0x42 || t == 0x43 || t == 0x44 {
        assert(params@.subrange(0, params@.len() as int) =~= params@);
        match parse_param_range(params, 0, params.len(), I32_MAX) {
            Err(_) => emit(output, TerminalOutput::Invalid),
            Ok(p) => {
                let v: i32 = match p {
                    Some(v) => v as i32,
                    None => 1,
                };
                if t == 0x41 {
                    emit(output, TerminalOutput::SetCursorPosRel { x: None, y: Some(-v) });
                } else if t == 0x42 {
                    emit(output, TerminalOutput::SetCursorPosRel { x: None, y: Some(v) });
                } else if t == 0x43 {
                    emit(output, TerminalOutput::SetCursorPosRel { x: Some(v), y: None });
                } else {
                    emit(output, TerminalOutput::SetCursorPosRel { x: Some(-v), y: None });
                }
            },
        }
        assert(outputs_view(output@) =~= base + csi_dispatch(t, params@));
    } else if t == 0x48 {
        match split_params_into_semicolon_delimited_usize(params) {
            Err(_) => emit(output, TerminalOutput::Invalid),
            Ok(ps) => {
                let y = match extract_param(0, &ps) {
                    Some(v) => v,
                    None => 1,
                };
                let x = match extract_param(1, &ps) {
                    Some(v) => v,
                    None => 1,
                };
                emit(output, TerminalOutput::SetCursorPos { x: Some(x), y: Some(y) });
            },
        }
        assert(outputs_view(output@) =~= base + csi_dispatch(t, params@));
    } else if t == 0x47 || t == 0x4a || t == 0x4b || t == 0x4c || t == 0x50 || t == 0x40 {
        match parse_param_as_usize(params) {
            Err(_) => emit(output, TerminalOutput::Invalid),
            Ok(p) => {
                let one = match p {
                    Some(v) => v,
                    None => 1,
                };
                let zero = match p {
                    Some(v) => v,
                    None => 0,
                };
                if t == 0x47 {
                    emit(output, TerminalOutput::SetCursorPos { x: Some(one), y: None });
                } else if t == 0x4a {
                    if zero == 0 {
                        emit(output, TerminalOutput::ClearForwards);
                    } else if zero == 2 || zero == 3 {
                        emit(output, TerminalOutput::ClearAll);
                    } else {
                        emit(output, TerminalOutput::Invalid);
                    }
                } else if t == 0x4b {
                    if zero == 0 {
                        emit(output, TerminalOutput::ClearLineForwards);
                    } else {
                        emit(output, TerminalOutput::Invalid);
                    }
                } else if t == 0x4c {
                    emit(output, TerminalOutput::InsertLines(one));
                } else if t == 0x50 {
                    emit(output, TerminalOutput::Delete(one));
                } else {
                    emit(output, TerminalOutput::InsertSpaces(one));
                }
            },
        }
        assert(outputs_view(output@) =~= base + csi_dispatch(t, params@));
    } else if t == 0x6d {
        match split_params_into_semicolon_delimited_usize(params) {
            Err(_) => {
                emit(output, TerminalOutput::Invalid);
                assert(outputs_view(output@) =~= base + csi_dispatch(t, params@));
            },
            Ok(mut ps) => {
                let ghost sp = split_params_spec(params@)->Ok_0;
                if ps.len() == 0 {
                    ps.push(Some(0));
                    assert(params_match(ps@, seq![Some(0nat)]));
                } else if ps.len() == 1 && ps[0].is_none() {
                    ps.set(0, Some(0));
                    assert(params_match(ps@, seq![Some(0nat)]));
                }
                push_sgrs(&ps, output, Ghost(sgr_params(sp)));
            },
        }
    } else if t == 0x68 {
        let m = mode_from_params(params);
        emit(output, TerminalOutput::SetMode(m));
        assert(outputs_view(output@) =~= base + csi_dispatch(t, params@));
    } else if t == 0x6c {
        let m = mode_from_params(params);
        emit(output, TerminalOutput::ResetMode(m));
        assert(outputs_view(output@) =~= base + csi_dispatch(t, params@));
    } else {
        emit(output, TerminalOutput::Invalid);
        assert(outputs_view(output@) =~= base + csi_dispatch(t, params@));
    }
}

/// Where a control sequence parser stands.
#[derive(Clone, Copy, Debug, PartialEq, Eq, Structural)]
pub enum CsiParserState {
    Params,
    Intermediates,
    Finished(u8),
    Invalid,
    InvalidFinished,
}

/// Collects the parameter and intermediate bytes of one control sequence.
#[derive(Debug, PartialEq, Eq)]
pub struct CsiParser {
    pub state: CsiParserState,
    pub params: Vec<u8>,
    pub intermediates: Vec<u8>,
}

/// Mathematical form of a `CsiParser`.
pub struct CsiModel {
    pub state: CsiParserState,
    pub params: Seq<u8>,
    pub intermediates: Seq<u8>,
}

impl View for CsiParser {
    type V = CsiModel;

    open spec fn view(&self) -> CsiModel {
        CsiModel { state: self.state, params: self.params@, intermediates: self.intermediates@ }
    }
}

pub open spec fn csi_model(state: CsiParserState, params: Seq<u8>, intermediates: Seq<u8>) -> CsiModel {
    CsiModel { state, params, intermediates }
}

pub open spec fn csi_finished(st: CsiParserState) -> bool {
    st is Finished || st is InvalidFinished
}

/// One byte fed to a control sequence parser. A finished parser ignores further bytes.
pub open spec fn csi_push_spec(c: CsiModel, b: u8) -> CsiModel {
    match c.state {
        CsiParserState::Params => if csi_param(b) {
            csi_model(c.state, c.params.push(b), c.intermediates)
        } else if csi_intermediate(b) {
            csi_model(CsiParserState::Intermediates, c.params, c.intermediates.push(b))
        } else if csi_terminator(b) {
            csi_model(CsiParserState::Finished(b), c.params, c.intermediates)
        } else {
            csi_model(CsiParserState::Invalid, c.params, c.intermediates)
        },
        CsiParserState::Intermediates => if csi_param(b) {
            csi_model(CsiParserState::Invalid, c.params, c.intermediates)
        } else if csi_intermediate(b) {
            csi_model(c.state, c.params, c.intermediates.push(b))
        } else if csi_terminator(b) {
            csi_model(CsiParserState::Finished(b), c.params, c.intermediates)
        } else {
            csi_model(CsiParserState::Invalid, c.params, c.intermediates)
        },
        CsiParserState::Invalid => if csi_terminator(b) {
            csi_model(CsiParserState::InvalidFinished, c.params, c.intermediates)
        } else {
            c
        },
        _ => c,
    }
}

impl CsiParser {
    pub fn new() -> (r: CsiParser)
        ensures
            r@ == csi_model(CsiParserState::Params, Seq::empty(), Seq::empty()),
    {
        CsiParser { state: CsiParserState::Params, params: Vec::new(), intermediates: Vec::new() }
    }

    pub fn push(&mut self, b: u8)
        ensures
            final(self)@ == csi_push_spec(old(self)@, b),
    {
        match self.state {
            CsiParserState::Params => {
                if is_csi_param(b) {
                    self.params.push(b);
                } else if is_csi_intermediate(b) {
                    self.intermediates.push(b);
                    self.state = CsiParserState::Intermediates;
                } else if is_csi_terminator(b) {
                    self.state = CsiParserState::Finished(b);
                } else {
                    self.state = CsiParserState::Invalid;
                }
            },
            CsiParserState::Intermediates => {
                if is_csi_param(b) {
                    self.state = CsiParserState::Invalid;
                } else if is_csi_intermediate(b) {
                    self.intermediates.push(b);
                } else if is_csi_terminator(b) {
                    self.state = CsiParserState::Finished(b);
                } else {
                    self.state = CsiParserState::Invalid;
                }
            },
            CsiParserState::Invalid => {
                if is_csi_terminator(b) {
                    self.state = CsiParserState::InvalidFinished;
                }
            },
            _ => {},
        }
    }
}

/// Where the byte-stream parser stands.
#[derive(Debug, PartialEq, Eq)]
pub enum AnsiParserInner {
    Empty,
    Escape,
    Csi(CsiParser),
}

/// Mathematical form of the byte-stream parser's state.
pub enum ParserModel {
    Empty,
    Escape,
    Csi(CsiModel),
}

/// Streaming decoder from bytes to `TerminalOutput` operations.
pub struct AnsiParser {
    pub inner: AnsiParserInner,
}

impl View for AnsiParserInner {
    type V = ParserModel;

    open spec fn view(&self) -> ParserModel {
        match self {
            AnsiParserInner::Empty => ParserModel::Empty,
            AnsiParserInner::Escape => ParserModel::Escape,
            AnsiParserInner::Csi(c) => ParserModel::Csi(c@),
        }
    }
}

impl View for AnsiParser {
    type V = ParserModel;

    open spec fn view(&self) -> ParserModel {
        self.inner@
    }
}

/// Not inside a control sequence that has already ended. Only a loaded snapshot can
/// start in such a state; every byte leaves the parser settled.
pub open spec fn parser_settled(p: ParserModel) -> bool {
    !(p matches ParserModel::Csi(c) && csi_finished(c.state))
}

/// Pending printable bytes as an operation, if there are any.
pub open spec fn flush(data: Seq<u8>) -> Seq<OutputView> {
    if data.len() == 0 {
        Seq::empty()
    } else {
        seq![OutputView::Data(data)]
    }
}

/// One byte in state `st` with printable bytes `data` pending: the next state, the
/// bytes pending after it, and the operations emitted.
pub open spec fn parser_step(st: ParserModel, data: Seq<u8>, b: u8) -> (ParserModel, Seq<u8>, Seq<
    OutputView,
>) {
    match st {
        ParserModel::Empty => if b == 0x1b {
            (ParserModel::Escape, data, Seq::empty())
        } else if b == 0x0d {
            (ParserModel::Empty, Seq::empty(), flush(data).push(OutputView::CarriageReturn))
        } else if b == 0x0a {
            (ParserModel::Empty, Seq::empty(), flush(data).push(OutputView::Newline))
        } else if b == 0x08 {
            (ParserModel::Empty, Seq::empty(), flush(data).push(OutputView::Backspace))
        } else {
            (ParserModel::Empty, data.push(b), Seq::empty())
        },
        ParserModel::Escape => if b == 0x5b {
            (
                ParserModel::Csi(csi_model(CsiParserState::Params, Seq::empty(), Seq::empty())),
                Seq::empty(),
                flush(data),
            )
        } else {
            (ParserModel::Empty, Seq::empty(), flush(data))
        },
        ParserModel::Csi(c) => {
            let c2 = csi_push_spec(c, b);
            match c2.state {
                CsiParserState::Finished(t) => (ParserModel::Empty, data, csi_dispatch(t, c2.params)),
                CsiParserState::InvalidFinished => (
                    ParserModel::Empty,
                    data,
                    seq![OutputView::Invalid],
                ),
                _ => (ParserModel::Csi(c2), data, Seq::empty()),
            }
        },
    }
}

/// The bytes `bytes` fed one by one from state `st`.
pub open spec fn parser_run(st: ParserModel, bytes: Seq<u8>) -> (ParserModel, Seq<u8>, Seq<
    OutputView,
>)
    decreases bytes.len(),
{
    if bytes.len() == 0 {
        (st, Seq::empty(), Seq::empty())
    } else {
        let prev = parser_run(st, bytes.drop_last());
        let next = parser_step(prev.0, prev.1, bytes.last());
        (next.0, next.1, prev.2 + next.2)
    }
}

/// State after `push(bytes)` and the operations it returns: printable bytes still
/// pending at the end are emitted as one final `Data`.
pub open spec fn push_spec(st: ParserModel, bytes: Seq<u8>) -> (ParserModel, Seq<OutputView>) {
    let r = parser_run(st, bytes);
    (r.0, r.2 + flush(r.1))
}

fn push_data_if_non_empty(data: &mut Vec<u8>, output: &mut Vec<TerminalOutput>)
    ensures
        final(data)@ == Seq::<u8>::empty(),
        outputs_view(final(output)@) == outputs_view(old(output)@) + flush(old(data)@),
{
    if data.len() > 0 {
        let mut taken: Vec<u8> = Vec::new();
        std::mem::swap(data, &mut taken);
        emit(output, TerminalOutput::Data(taken));
    } else {
        assert(outputs_view(output@) =~= outputs_view(output@) + flush(data@));
    }
}

impl AnsiParser {
    pub fn new() -> (r: AnsiParser)
        ensures
            r@ == ParserModel::Empty,
    {
        AnsiParser { inner: AnsiParserInner::Empty }
    }

    fn step(&mut self, b: u8, data: &mut Vec<u8>, output: &mut Vec<TerminalOutput>)
        ensures
            ({
                let r = parser_step(old(self)@, old(data)@, b);
                &&& final(self)@ == r.0
                &&& final(data)@ == r.1
                &&& outputs_view(final(output)@) == outputs_view(old(output)@) + r.2
            }),
    {
        let ghost base = outputs_view(output@);
        let mut inner = AnsiParserInner::Empty;
        std::mem::swap(&mut self.inner, &mut inner);
        match inner {
            AnsiParserInner::Empty => {
                if b == 0x1b {
                    self.inner = AnsiParserInner::Escape;
                    assert(outputs_view(output@) =~= base + Seq::empty());
                } else if b == 0x0d {
                    push_data_if_non_empty(data, output);
                    emit(output, TerminalOutput::CarriageReturn);
                    assert(outputs_view(output@) =~= base + parser_step(old(self)@, old(data)@, b).2);
                } else if b == 0x0a {
                    push_data_if_non_empty(data, output);
                    emit(output, TerminalOutput::Newline);
                    assert(outputs_view(output@) =~= base + parser_step(old(self)@, old(data)@, b).2);
                } else if b == 0x08 {
                    push_data_if_non_empty(data, output);
                    emit(output, TerminalOutput::Backspace);
                    assert(outputs_view(output@) =~= base + parser_step(old(self)@, old(data)@, b).2);
                } else {
                    data.push(b);
                    assert(outputs_view(output@) =~= base + Seq::empty());
                }
            },
            AnsiParserInner::Escape => {
                push_data_if_non_empty(data, output);
                if b == 0x5b {
                    self.inner = AnsiParserInner::Csi(CsiParser::new());
                }
            },
            AnsiParserInner::Csi(mut parser) => {
                parser.push(b);
                match parser.state {
                    CsiParserState::Finished(t) => {
                        dispatch_csi(t, &parser.params, output);
                    },
                    CsiParserState::InvalidFinished => {
                        emit(output, TerminalOutput::Invalid);
                        assert(outputs_view(output@) =~= base + seq![OutputView::Invalid]);
                    },
                    _ => {
                        self.inner = AnsiParserInner::Csi(parser);
                        assert(outputs_view(output@) =~= base + Seq::empty());
                    },
                }
            },
        }
    }

    /// Decodes `incoming`, continuing any sequence left open by earlier calls.
    /// Every byte slice is accepted.
    pub fn push(&mut self, incoming: &[u8]) -> (r: Vec<TerminalOutput>)
        ensures
            (final(self)@, outputs_view(r@)) == push_spec(old(self)@, incoming@),
            parser_settled(old(self)@) || incoming@.len() > 0 ==> parser_settled(final(self)@),
    {
        let mut output: Vec<TerminalOutput> = Vec::new();
        let mut data: Vec<u8> = Vec::new();
        let n = incoming.len();
        let mut i: usize = 0;
        proof {
            assert(incoming@.subrange(0, 0) =~= Seq::<u8>::empty());
            assert(outputs_view(output@) =~= Seq::empty());
        }
        while i < n
            invariant
                n == incoming@.len(),
                i <= n,
                (self@, data@, outputs_view(output@)) == parser_run(
                    old(self)@,
                    incoming@.subrange(0, i as int),
                ),
                parser_settled(old(self)@) || i > 0 ==> parser_settled(self@),
            decreases n - i,
        {
            let ghost pre = incoming@.subrange(0, i + 1);
            assert(pre.drop_last() =~= incoming@.subrange(0, i as int));
            self.step(incoming[i], &mut data, &mut output);
            i = i + 1;
        }
        assert(incoming@.subrange(0, n as int) =~= incoming@);
        push_data_if_non_empty(&mut data, &mut output);
        output
    }
}

/// Why a control sequence parser could not be loaded.
#[derive(Debug, Clone, Copy, PartialEq, Eq, Structural)]
pub enum LoadCsiParserSnapshotError {
    RootItemNotMap,
    MissingParams,
    ParamsNotBytes,
    MissingIntermediates,
    IntermediatesNotBytes,
    MissingState,
    StateNotMap,
    StateNoType,
    StateTypeNotString,
    StateNoFinishedValue,
    FinishedValueNotU8,
    InvalidState,
}

/// Why a byte-stream parser could not be loaded.
#[derive(Debug, Clone, Copy, PartialEq, Eq, Structural)]
pub enum LoadSnapshotError {
    RootNotMap,
    MissingType,
    TypeNotString,
    MissingVal,
    UnknownType,
    Csi(LoadCsiParserSnapshotError),
}

pub open spec fn csi_state_name(st: CsiParserState) -> Seq<char> {
    match st {
        CsiParserState::Params => "params"@,
        CsiParserState::Intermediates => "intermediates"@,
        CsiParserState::Finished(_) => "finished"@,
        CsiParserState::Invalid => "invalid"@,
        CsiParserState::InvalidFinished => "invalid_finished"@,
    }
}

pub open spec fn is_string(item: SnapshotItem, s: Seq<char>) -> bool {
    item matches SnapshotItem::String(t) && t@ == s
}

/// How a control sequence parser's state is saved: its name under "type", and for a
/// finished sequence the final byte under "val".
pub open spec fn is_csi_state_snapshot(item: SnapshotItem, st: CsiParserState) -> bool {
    match st {
        CsiParserState::Finished(b) => {
            &&& is_map_with(item, seq!["type"@, "val"@])
            &&& is_string(item->Object_0@[0].1, "finished"@)
            &&& item->Object_0@[1].1 == SnapshotItem::Int(b as i64)
        },
        _ => {
            &&& is_map_with(item, seq!["type"@])
            &&& is_string(item->Object_0@[0].1, csi_state_name(st))
        },
    }
}

/// How a control sequence parser is saved: "state", "params", "intermediates".
pub open spec fn is_csi_snapshot(item: SnapshotItem, c: CsiModel) -> bool {
    &&& is_map_with(item, seq!["state"@, "params"@, "intermediates"@])
    &&& is_csi_state_snapshot(item->Object_0@[0].1, c.state)
    &&& is_byte_array(item->Object_0@[1].1, c.params)
    &&& is_byte_array(item->Object_0@[2].1, c.intermediates)
}

pub open spec fn load_csi_state_spec(st: SnapshotItem) -> Result<CsiParserState, LoadCsiParserSnapshotError> {
    if !(st is Object) {
        Err(LoadCsiParserSnapshotError::StateNotMap)
    } else {
        match field(st, "type"@) {
            None => Err(LoadCsiParserSnapshotError::StateNoType),
            Some(SnapshotItem::String(t)) => if t@ == "params"@ {
                Ok(CsiParserState::Params)
            } else if t@ == "intermediates"@ {
                Ok(CsiParserState::Intermediates)
            } else if t@ == "invalid_finished"@ {
                Ok(CsiParserState::InvalidFinished)
            } else if t@ == "invalid"@ {
                Ok(CsiParserState::Invalid)
            } else if t@ == "finished"@ {
                match field(st, "val"@) {
                    None => Err(LoadCsiParserSnapshotError::StateNoFinishedValue),
                    Some(SnapshotItem::Int(v)) => if 0 <= v <= 255 {
                        Ok(CsiParserState::Finished(v as u8))
                    } else {
                        Err(LoadCsiParserSnapshotError::FinishedValueNotU8)
                    },
                    Some(_) => Err(LoadCsiParserSnapshotError::FinishedValueNotU8),
                }
            } else {
                Err(LoadCsiParserSnapshotError::InvalidState)
            },
            Some(_) => Err(LoadCsiParserSnapshotError::StateTypeNotString),
        }
    }
}

/// What loading a control sequence parser from `item` gives.
pub open spec fn load_csi_spec(item: SnapshotItem) -> Result<CsiModel, LoadCsiParserSnapshotError> {
    if !(item is Object) {
        Err(LoadCsiParserSnapshotError::RootItemNotMap)
    } else {
        match field(item, "params"@) {
            None => Err(LoadCsiParserSnapshotError::MissingParams),
            Some(p) => match bytes_of(p) {
                None => Err(LoadCsiParserSnapshotError::ParamsNotBytes),
                Some(params) => match field(item, "intermediates"@) {
                    None => Err(LoadCsiParserSnapshotError::MissingIntermediates),
                    Some(i) => match bytes_of(i) {
                        None => Err(LoadCsiParserSnapshotError::IntermediatesNotBytes),
                        Some(inter) => match field(item, "state"@) {
                            None => Err(LoadCsiParserSnapshotError::MissingState),
                            Some(st) => match load_csi_state_spec(st) {
                                Err(e) => Err(e),
                                Ok(state) => Ok(csi_model(state, params, inter)),
                            },
                        },
                    },
                },
            },
        }
    }
}

/// How the byte-stream parser is saved: its state name under "type", and for a
/// control sequence the sequence parser under "val".
pub open spec fn is_parser_snapshot(item: SnapshotItem, p: ParserModel) -> bool {
    match p {
        ParserModel::Empty => is_map_with(item, seq!["type"@]) && is_string(item->Object_0@[0].1, "empty"@),
        ParserModel::Escape => is_map_with(item, seq!["type"@]) && is_string(item->Object_0@[0].1, "escape"@),
        ParserModel::Csi(c) => {
            &&& is_map_with(item, seq!["type"@, "val"@])
            &&& is_string(item->Object_0@[0].1, "csi"@)
            &&& is_csi_snapshot(item->Object_0@[1].1, c)
        },
    }
}

/// What loading the byte-stream parser from `item` gives.
pub open spec fn load_parser_spec(item: SnapshotItem) -> Result<ParserModel, LoadSnapshotError> {
    if !(item is Object) {
        Err(LoadSnapshotError::RootNotMap)
    } else {
        match field(item, "type"@) {
            None => Err(LoadSnapshotError::MissingType),
            Some(SnapshotItem::String(t)) => if t@ == "empty"@ {
                Ok(ParserModel::Empty)
            } else if t@ == "escape"@ {
                Ok(ParserModel::Escape)
            } else if t@ == "csi"@ {
                match field(item, "val"@) {
                    None => Err(LoadSnapshotError::MissingVal),
                    Some(v) => match load_csi_spec(v) {
                        Ok(c) => Ok(ParserModel::Csi(c)),
                        Err(e) => Err(LoadSnapshotError::Csi(e)),
                    },
                }
            } else {
                Err(LoadSnapshotError::UnknownType)
            },
            Some(_) => Err(LoadSnapshotError::TypeNotString),
        }
    }
}

fn load_csi_state(st: &SnapshotItem) -> (r: Result<CsiParserState, LoadCsiParserSnapshotError>)
    ensures
        r == load_csi_state_spec(*st),
{
    if !matches!(st, SnapshotItem::Object(_)) {
        return Err(LoadCsiParserSnapshotError::StateNotMap);
    }
    let typ = match get_field(st, "type") {
        None => {
            return Err(LoadCsiParserSnapshotError::StateNoType);
        },
        Some(t) => t,
    };
    match typ {
        SnapshotItem::String(t) => {
            if str_eq(t.as_str(), "params") {
                Ok(CsiParserState::Params)
            } else if str_eq(t.as_str(), "intermediates") {
                Ok(CsiParserState::Intermediates)
            } else if str_eq(t.as_str(), "invalid_finished") {
                Ok(CsiParserState::InvalidFinished)
            } else if str_eq(t.as_str(), "invalid") {
                Ok(CsiParserState::Invalid)
            } else if str_eq(t.as_str(), "finished") {
                match get_field(st, "val") {
                    None => Err(LoadCsiParserSnapshotError::StateNoFinishedValue),
                    Some(SnapshotItem::Int(v)) => {
                        if 0 <= *v && *v <= 255 {
                            Ok(CsiParserState::Finished(*v as u8))
                        } else {
                            Err(LoadCsiParserSnapshotError::FinishedValueNotU8)
                        }
                    },
                    Some(_) => Err(LoadCsiParserSnapshotError::FinishedValueNotU8),
                }
            } else {
                Err(LoadCsiParserSnapshotError::InvalidState)
            }
        },
        _ => Err(LoadCsiParserSnapshotError::StateTypeNotString),
    }
}

impl CsiParser {
    pub fn snapshot(&self) -> (r: SnapshotItem)
        ensures
            is_csi_snapshot(r, self@),
            keys_distinct(r),
            load_csi_spec(r) == Ok::<CsiModel, LoadCsiParserSnapshotError>(self@),
    {
        let mut st: Vec<(String, SnapshotItem)> = Vec::new();
        match self.state {
            CsiParserState::Params => st.push(entry("type", string_item("params"))),
            CsiParserState::Intermediates => st.push(entry("type", string_item("intermediates"))),
            CsiParserState::Finished(b) => {
                st.push(entry("type", string_item("finished")));
                st.push(entry("val", SnapshotItem::Int(b as i64)));
            },
            CsiParserState::Invalid => st.push(entry("type", string_item("invalid"))),
            CsiParserState::InvalidFinished => st.push(entry("type", string_item("invalid_finished"))),
        }
        let mut root: Vec<(String, SnapshotItem)> = Vec::new();
        root.push(entry("state", SnapshotItem::Object(st)));
        root.push(entry("params", bytes_item(&self.params)));
        root.push(entry("intermediates", bytes_item(&self.intermediates)));
        let r = SnapshotItem::Object(root);
        proof {
            let keys = seq!["state"@, "params"@, "intermediates"@];
            assert(is_map_with(r, keys));
            reveal_strlit("state");
            reveal_strlit("params");
            reveal_strlit("intermediates");
            assert("state"@.len() == 5 && "params"@.len() == 6 && "intermediates"@.len() == 13);
            lemma_distinct_keys(keys);
            lemma_map_keys_distinct(r, keys);
            let sitem = r->Object_0@[0].1;
            match self.state {
                CsiParserState::Finished(b) => {
                    assert(is_map_with(sitem, seq!["type"@, "val"@]));
                },
                _ => {
                    assert(is_map_with(sitem, seq!["type"@]));
                },
            }
            lemma_csi_snapshot_round_trip(r, self@);
        }
        r
    }

    pub fn from_snapshot(snapshot: SnapshotItem) -> (r: Result<CsiParser, LoadCsiParserSnapshotError>)
        ensures
            match load_csi_spec(snapshot) {
                Ok(c) => r matches Ok(p) && p@ == c,
                Err(e) => r == Err::<CsiParser, LoadCsiParserSnapshotError>(e),
            },
    {
        Self::load(&snapshot)
    }

    fn load(snapshot: &SnapshotItem) -> (r: Result<CsiParser, LoadCsiParserSnapshotError>)
        ensures
            match load_csi_spec(*snapshot) {
                Ok(c) => r matches Ok(p) && p@ == c,
                Err(e) => r == Err::<CsiParser, LoadCsiParserSnapshotError>(e),
            },
    {
        if !matches!(snapshot, SnapshotItem::Object(_)) {
            return Err(LoadCsiParserSnapshotError::RootItemNotMap);
        }
        let params = match get_field(snapshot, "params") {
            None => {
                return Err(LoadCsiParserSnapshotError::MissingParams);
            },
            Some(p) => match item_bytes(p) {
                None => {
                    return Err(LoadCsiParserSnapshotError::ParamsNotBytes);
                },
                Some(b) => b,
            },
        };
        let intermediates = match get_field(snapshot, "intermediates") {
            None => {
                return Err(LoadCsiParserSnapshotError::MissingIntermediates);
            },
            Some(p) => match item_bytes(p) {
                None => {
                    return Err(LoadCsiParserSnapshotError::IntermediatesNotBytes);
                },
                Some(b) => b,
            },
        };
        let state = match get_field(snapshot, "state") {
            None => {
                return Err(LoadCsiParserSnapshotError::MissingState);
            },
            Some(st) => load_csi_state(st)?,
        };
        Ok(CsiParser { state, params, intermediates })
    }
}

/// Loading a saved control sequence parser gives it back.
pub proof fn lemma_csi_snapshot_round_trip(item: SnapshotItem, c: CsiModel)
    requires
        is_csi_snapshot(item, c),
    ensures
        load_csi_spec(item) == Ok::<CsiModel, LoadCsiParserSnapshotError>(c),
{
    reveal_strlit("state");
    reveal_strlit("params");
    reveal_strlit("intermediates");
    reveal_strlit("type");
    reveal_strlit("val");
    reveal_strlit("finished");
    reveal_strlit("invalid");
    reveal_strlit("invalid_finished");
    let keys = seq!["state"@, "params"@, "intermediates"@];
    lemma_distinct_keys(keys);
    lemma_field_at(item, keys, 0);
    lemma_field_at(item, keys, 1);
    lemma_field_at(item, keys, 2);
    assert(keys[1] == "params"@);
    assert(keys[2] == "intermediates"@);
    assert(keys[0] == "state"@);
    let m = item->Object_0@;
    lemma_bytes_round_trip(m[1].1, c.params);
    lemma_bytes_round_trip(m[2].1, c.intermediates);
    let st = m[0].1;
    assert("params"@.len() == 6);
    assert("intermediates"@.len() == 13);
    assert("invalid_finished"@.len() == 16);
    assert("invalid"@.len() == 7);
    assert("finished"@.len() == 8);
    match c.state {
        CsiParserState::Finished(b) => {
            let sk = seq!["type"@, "val"@];
            lemma_distinct_keys(sk);
            lemma_field_at(st, sk, 0);
            lemma_field_at(st, sk, 1);
            assert(sk[0] == "type"@);
            assert(sk[1] == "val"@);
            assert(load_csi_state_spec(st) == Ok::<CsiParserState, LoadCsiParserSnapshotError>(c.state));
        },
        _ => {
            let sk = seq!["type"@];
            lemma_distinct_keys(sk);
            lemma_field_at(st, sk, 0);
            assert(sk[0] == "type"@);
            assert(load_csi_state_spec(st) == Ok::<CsiParserState, LoadCsiParserSnapshotError>(c.state));
        },
    }
    assert(c == csi_model(c.state, c.params, c.intermediates));
}

impl AnsiParser {
    pub fn snapshot(&self) -> (r: SnapshotItem)
        ensures
            is_parser_snapshot(r, self@),
            keys_distinct(r),
            load_parser_spec(r) == Ok::<ParserModel, LoadSnapshotError>(self@),
    {
        let mut root: Vec<(String, SnapshotItem)> = Vec::new();
        match &self.inner {
            AnsiParserInner::Empty => root.push(entry("type", string_item("empty"))),
            AnsiParserInner::Escape => root.push(entry("type", string_item("escape"))),
            AnsiParserInner::Csi(c) => {
                root.push(entry("type", string_item("csi")));
                root.push(entry("val", c.snapshot()));
            },
        }
        let r = SnapshotItem::Object(root);
        proof {
            reveal_strlit("type");
            reveal_strlit("val");
            assert("type"@.len() == 4 && "val"@.len() == 3);
            match self.inner {
                AnsiParserInner::Csi(_) => {
                    let keys = seq!["type"@, "val"@];
                    assert(is_map_with(r, keys));
                    lemma_distinct_keys(keys);
                    lemma_map_keys_distinct(r, keys);
                },
                _ => {
                    let keys = seq!["type"@];
                    assert(is_map_with(r, keys));
                    lemma_distinct_keys(keys);
                    lemma_map_keys_distinct(r, keys);
                },
            }
            lemma_parser_snapshot_round_trip(r, self@);
        }
        r
    }

    pub fn from_snapshot(snapshot: SnapshotItem) -> (r: Result<AnsiParser, LoadSnapshotError>)
        ensures
            match load_parser_spec(snapshot) {
                Ok(p) => r matches Ok(a) && a@ == p,
                Err(e) => r == Err::<AnsiParser, LoadSnapshotError>(e),
            },
    {
        Self::load(&snapshot)
    }

    pub fn load(snapshot: &SnapshotItem) -> (r: Result<AnsiParser, LoadSnapshotError>)
        ensures
            match load_parser_spec(*snapshot) {
                Ok(p) => r matches Ok(a) && a@ == p,
                Err(e) => r == Err::<AnsiParser, LoadSnapshotError>(e),
            },
    {
        if !matches!(snapshot, SnapshotItem::Object(_)) {
            return Err(LoadSnapshotError::RootNotMap);
        }
        let typ = match get_field(snapshot, "type") {
            None => {
                return Err(LoadSnapshotError::MissingType);
            },
            Some(t) => t,
        };
        match typ {
            SnapshotItem::String(t) => {
                if str_eq(t.as_str(), "empty") {
                    Ok(AnsiParser { inner: AnsiParserInner::Empty })
                } else if str_eq(t.as_str(), "escape") {
                    Ok(AnsiParser { inner: AnsiParserInner::Escape })
                } else if str_eq(t.as_str(), "csi") {
                    match get_field(snapshot, "val") {
                        None => Err(LoadSnapshotError::MissingVal),
                        Some(v) => {
                            match CsiParser::load(v) {
                                Ok(c) => Ok(AnsiParser { inner: AnsiParserInner::Csi(c) }),
                                Err(e) => Err(LoadSnapshotError::Csi(e)),
                            }
                        },
                    }
                } else {
                    Err(LoadSnapshotError::UnknownType)
                }
            },
            _ => Err(LoadSnapshotError::TypeNotString),
        }
    }
}

/// Loading a saved byte-stream parser gives it back.
pub proof fn lemma_parser_snapshot_round_trip(item: SnapshotItem, p: ParserModel)
    requires
        is_parser_snapshot(item, p),
    ensures
        load_parser_spec(item) == Ok::<ParserModel, LoadSnapshotError>(p),
{
    reveal_strlit("type");
    reveal_strlit("val");
    reveal_strlit("empty");
    reveal_strlit("escape");
    reveal_strlit("csi");
    assert("empty"@.len() == 5);
    assert("escape"@.len() == 6);
    assert("csi"@.len() == 3);
    match p {
        ParserModel::Csi(c) => {
            let sk = seq!["type"@, "val"@];
            lemma_distinct_keys(sk);
            lemma_field_at(item, sk, 0);
            lemma_field_at(item, sk, 1);
            assert(sk[0] == "type"@);
            assert(sk[1] == "val"@);
            lemma_csi_snapshot_round_trip(item->Object_0@[1].1, c);
        },
        _ => {
            let sk = seq!["type"@];
            lemma_distinct_keys(sk);
            lemma_field_at(item, sk, 0);
            assert(sk[0] == "type"@);
        },
    }
}

} // verus!
