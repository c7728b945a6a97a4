use vstd::prelude::*;

use crate::buffer::cap;
use crate::recording::{items_view, ItemView, Recording, RecordingItem};

verus! {

/// One step of a replay: a byte for the engine to read, a resize, or the end.
#[derive(Clone, Copy, Debug, PartialEq, Eq, Structural)]
pub enum RecordingAction {
    Write(u8),
    SetWinSize { width: usize, height: usize },
    /// The recording has no more steps.
    Finished,
}

/// What the driver of a replay must do after a step.
#[derive(Clone, Copy, Debug, PartialEq, Eq, Structural)]
pub enum ControlAction {
    Resize { width: usize, height: usize },
    /// Nothing for the driver to do.
    Continue,
}

/// The steps one event stands for: one per written byte, one for a resize.
pub open spec fn item_actions(v: ItemView) -> Seq<RecordingAction> {
    match v {
        ItemView::Write { data } => Seq::new(data.len(), |i: int| RecordingAction::Write(data[i])),
        ItemView::SetWinSize { width, height } => seq![
            RecordingAction::SetWinSize { width, height },
        ],
    }
}

/// All steps of the events, in order.
pub open spec fn flat_actions(items: Seq<ItemView>) -> Seq<RecordingAction>
    decreases items.len(),
{
    if items.len() == 0 {
        Seq::empty()
    } else {
        flat_actions(items.drop_last()) + item_actions(items.last())
    }
}

/// Number of steps an event stands for.
pub fn item_len(item: &RecordingItem) -> (r: usize)
    ensures
        r == item_actions(item@).len(),
{
    match item {
        RecordingItem::Write { data } => data.len(),
        RecordingItem::SetWinSize { .. } => 1,
    }
}

/// Where a replay stands: which event, and how far into it.
pub struct RecordingTracker {
    pub item_idx: usize,
    pub item_pos: usize,
}

/// The step index that (`idx`, `pos`) stands for.
pub open spec fn tracker_pos(items: Seq<ItemView>, idx: int, pos: int) -> int {
    flat_actions(items.subrange(0, idx)).len() + pos
}

pub open spec fn tracker_wf(items: Seq<ItemView>, idx: int, pos: int) -> bool {
    &&& 0 <= idx <= items.len()
    &&& 0 <= pos
    &&& idx < items.len() ==> pos <= item_actions(items[idx]).len()
    &&& idx == items.len() ==> pos == 0
}

proof fn lemma_flat_prefix(items: Seq<ItemView>, k: int)
    requires
        0 <= k <= items.len(),
    ensures
        flat_actions(items.subrange(0, k)).len() <= flat_actions(items).len(),
        forall|p: int|
            0 <= p < flat_actions(items.subrange(0, k)).len() ==> #[trigger] flat_actions(
                items.subrange(0, k),
            )[p] == flat_actions(items)[p],
    decreases items.len() - k,
{
    if k < items.len() {
        lemma_flat_prefix(items, k + 1);
        let pre = items.subrange(0, k + 1);
        assert(pre.drop_last() =~= items.subrange(0, k));
        let a = flat_actions(items.subrange(0, k));
        let b = flat_actions(pre);
        assert(b == a + item_actions(pre.last()));
        assert forall|p: int| 0 <= p < a.len() implies #[trigger] a[p] == flat_actions(items)[p] by {
            assert(a[p] == b[p]);
        }
    } else {
        assert(items.subrange(0, k) =~= items);
    }
}

proof fn lemma_flat_step(items: Seq<ItemView>, k: int)
    requires
        0 <= k < items.len(),
    ensures
        flat_actions(items.subrange(0, k + 1)) == flat_actions(items.subrange(0, k)) + item_actions(
            items[k],
        ),
{
    let pre = items.subrange(0, k + 1);
    assert(pre.drop_last() =~= items.subrange(0, k));
}

impl RecordingTracker {
    /// The next step of `recording`, or `Finished` at its end; then moves past it.
    pub fn next(&mut self, recording: &Recording) -> (r: RecordingAction)
        requires
            tracker_wf(recording.items_spec(), old(self).item_idx as int, old(self).item_pos as int),
        ensures
            ({
                let items = recording.items_spec();
                let flat = flat_actions(items);
                let p = tracker_pos(items, old(self).item_idx as int, old(self).item_pos as int);
                let q = tracker_pos(items, final(self).item_idx as int, final(self).item_pos as int);
                &&& tracker_wf(items, final(self).item_idx as int, final(self).item_pos as int)
                &&& p < flat.len() ==> r == flat[p] && q == p + 1
                &&& p >= flat.len() ==> r == RecordingAction::Finished && q == p
            }),
    {
        let items = recording.items();
        let ghost iv = recording.items_spec();
        let n = items.len();
        proof {
            lemma_flat_prefix(iv, self.item_idx as int);
        }
        let ghost p0 = tracker_pos(iv, self.item_idx as int, self.item_pos as int);
        while self.item_idx < n && self.item_pos >= item_len(&items[self.item_idx])
            invariant
                n == iv.len(),
                iv == items_view(items@),
                tracker_wf(iv, self.item_idx as int, self.item_pos as int),
                tracker_pos(iv, self.item_idx as int, self.item_pos as int) == p0,
            decreases n - self.item_idx,
        {
            proof {
                lemma_flat_step(iv, self.item_idx as int);
            }
            self.item_idx = self.item_idx + 1;
            self.item_pos = 0;
        }
        if self.item_idx >= n {
            proof {
                assert(iv.subrange(0, n as int) =~= iv);
            }
            return RecordingAction::Finished;
        }
        let idx = self.item_idx;
        let pos = self.item_pos;
        proof {
            lemma_flat_step(iv, idx as int);
            lemma_flat_prefix(iv, idx as int + 1);
            assert(iv[idx as int] == items@[idx as int]@);
        }
        let ret = match &items[idx] {
            RecordingItem::Write { data } => RecordingAction::Write(data[pos]),
            RecordingItem::SetWinSize { width, height } => RecordingAction::SetWinSize {
                width: *width,
                height: *height,
            },
        };
        self.item_pos = pos + 1;
        proof {
            let f = flat_actions(iv.subrange(0, idx + 1));
            assert(f[p0] == item_actions(iv[idx as int])[pos as int]);
        }
        ret
    }
}

impl RecordingAction {
    /// What the driver must do for this step; a byte goes to the engine's input instead.
    pub fn control_action(&self) -> (r: ControlAction)
        ensures
            match *self {
                RecordingAction::SetWinSize { width, height } => r == ControlAction::Resize {
                    width,
                    height,
                },
                _ => r == ControlAction::Continue,
            },
    {
        match self {
            RecordingAction::SetWinSize { width, height } => ControlAction::Resize {
                width: *width,
                height: *height,
            },
            _ => ControlAction::Continue,
        }
    }
}

/// Steps through a recording one action at a time.
pub struct ReplayControl {
    recording: Recording,
    tracker: RecordingTracker,
    segment_lengths: Vec<usize>,
    total_len: usize,
}

impl ReplayControl {
    pub closed spec fn wf(&self) -> bool {
        let items = self.recording.items_spec();
        &&& tracker_wf(items, self.tracker.item_idx as int, self.tracker.item_pos as int)
        &&& self.segment_lengths@.len() == items.len()
        &&& forall|k: int| 0 <= k < items.len() ==> #[trigger] self.segment_lengths@[k] == item_actions(items[k]).len()
        &&& self.total_len == cap(flat_actions(items).len() as int)
    }

    /// Steps taken so far.
    pub closed spec fn pos_spec(&self) -> int {
        tracker_pos(self.recording.items_spec(), self.tracker.item_idx as int, self.tracker.item_pos as int)
    }

    /// All steps of the recording.
    pub closed spec fn actions_spec(&self) -> Seq<RecordingAction> {
        flat_actions(self.recording.items_spec())
    }

    pub fn new(recording: Recording) -> (r: ReplayControl)
        ensures
            r.wf(),
            r.pos_spec() == 0,
            r.actions_spec() == flat_actions(recording.items_spec()),
    {
        let mut segment_lengths: Vec<usize> = Vec::new();
        let mut total: usize = 0;
        let ghost iv = recording.items_spec();
        {
            let items = recording.items();
            let n = items.len();
            let mut i: usize = 0;
            assert(iv.subrange(0, 0) =~= Seq::<ItemView>::empty());
            while i < n
                invariant
                    n == iv.len(),
                    iv == items_view(items@),
                    i <= n,
                    segment_lengths@.len() == i,
                    forall|k: int| 0 <= k < i ==> #[trigger] segment_lengths@[k] == item_actions(iv[k]).len(),
                    total == cap(flat_actions(iv.subrange(0, i as int)).len() as int),
                decreases n - i,
            {
                let l = item_len(&items[i]);
                proof {
                    lemma_flat_step(iv, i as int);
                    assert(iv[i as int] == items@[i as int]@);
                }
                segment_lengths.push(l);
                total = total.saturating_add(l);
                i = i + 1;
            }
            assert(iv.subrange(0, n as int) =~= iv);
        }
        let r = ReplayControl {
            recording,
            tracker: RecordingTracker { item_idx: 0, item_pos: 0 },
            segment_lengths,
            total_len: total,
        };
        assert(iv.subrange(0, 0) =~= Seq::<ItemView>::empty());
        r
    }

    /// The number of steps taken, capped at `usize::MAX`.
    pub fn current_pos(&self) -> (r: usize)
        requires
            self.wf(),
        ensures
            r == cap(self.pos_spec()),
    {
        let ghost iv = self.recording.items_spec();
        let idx = self.tracker.item_idx;
        let mut sum: usize = 0;
        let mut i: usize = 0;
        assert(iv.subrange(0, 0) =~= Seq::<ItemView>::empty());
        while i < idx
            invariant
                self.wf(),
                iv == self.recording.items_spec(),
                idx == self.tracker.item_idx,
                idx <= iv.len(),
                i <= idx,
                sum == cap(flat_actions(iv.subrange(0, i as int)).len() as int),
            decreases idx - i,
        {
            proof {
                lemma_flat_step(iv, i as int);
            }
            sum = sum.saturating_add(self.segment_lengths[i]);
            i = i + 1;
        }
        sum.saturating_add(self.tracker.item_pos)
    }

    /// The number of steps in the recording, capped at `usize::MAX`.
    pub fn len(&self) -> (r: usize)
        requires
            self.wf(),
        ensures
            r == cap(self.actions_spec().len() as int),
    {
        self.total_len
    }

    /// Takes one step. A written byte is returned for the engine to read; a resize
    /// comes back as the action to apply.
    pub fn next(&mut self) -> (r: RecordingAction)
        requires
            old(self).wf(),
        ensures
            final(self).wf(),
            final(self).actions_spec() == old(self).actions_spec(),
            old(self).pos_spec() < old(self).actions_spec().len() ==> r == old(self).actions_spec()[old(self).pos_spec()]
                && final(self).pos_spec() == old(self).pos_spec() + 1,
            old(self).pos_spec() >= old(self).actions_spec().len() ==> r == RecordingAction::Finished
                && final(self).pos_spec() == old(self).pos_spec(),
    {
        self.tracker.next(&self.recording)
    }

    /// The recording being replayed.
    pub fn recording(&self) -> (r: &Recording)
        ensures
            flat_actions(r.items_spec()) == self.actions_spec(),
    {
        &self.recording
    }
}

} // verus!
