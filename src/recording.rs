use vstd::prelude::*;

use crate::bytes::{append_bytes, copy_bytes, str_eq};
use crate::snapshot::{
    keys_distinct, lemma_map_keys_distinct,
    bytes_item, bytes_of, entry, field, get_field, is_map_with, item_bytes, lemma_bytes_round_trip,
    lemma_distinct_keys, lemma_field_at, map_index, string_item, SnapshotItem,
};
use crate::terminal::usize_of;

verus! {

/// One recorded event: bytes the shell wrote, or a window resize.
#[derive(Debug, Clone, PartialEq, Eq)]
pub enum RecordingItem {
    SetWinSize { width: usize, height: usize },
    Write { data: Vec<u8> },
}

/// Mathematical form of a `RecordingItem`.
pub enum ItemView {
    SetWinSize { width: usize, height: usize },
    Write { data: Seq<u8> },
}

impl View for RecordingItem {
    type V = ItemView;

    open spec fn view(&self) -> ItemView {
        match self {
            RecordingItem::SetWinSize { width, height } => ItemView::SetWinSize {
                width: *width,
                height: *height,
            },
            RecordingItem::Write { data } => ItemView::Write { data: data@ },
        }
    }
}

pub open spec fn items_view(v: Seq<RecordingItem>) -> Seq<ItemView> {
    Seq::new(v.len(), |i: int| v[i]@)
}

/// Why a recorded event could not be read.
#[derive(Debug, Clone, Copy, PartialEq, Eq, Structural)]
pub enum ParseRecordingItemError {
    RootNotObject,
    TypeNotPresent,
    TypeNotString,
    WidthNotPresent,
    WidthNotUsize,
    HeightNotPresent,
    HeightNotUsize,
    DataNotPresent,
    DataNotBytes,
    UnexpectedType,
}

/// Why a recording could not be read.
#[derive(Debug, Clone, Copy, PartialEq, Eq, Structural)]
pub enum LoadRecordingError {
    RootNotObject,
    InitialStateMissing,
    InitialStateNotObject,
    ItemsNotPresent,
    ItemsNotArray,
    ItemInvalid(ParseRecordingItemError),
}

/// What reading an event from `item` gives: `{"type": "set_win_size", "width",
/// "height"}` or `{"type": "write", "data": [bytes]}`.
pub open spec fn parse_item_spec(item: SnapshotItem) -> Result<ItemView, ParseRecordingItemError> {
    if !(item is Object) {
        Err(ParseRecordingItemError::RootNotObject)
    } else {
        match field(item, "type"@) {
            None => Err(ParseRecordingItemError::TypeNotPresent),
            Some(SnapshotItem::String(t)) => if t@ == "set_win_size"@ {
                if field(item, "width"@) is None {
                    Err(ParseRecordingItemError::WidthNotPresent)
                } else if usize_of(field(item, "width"@)) is None {
                    Err(ParseRecordingItemError::WidthNotUsize)
                } else if field(item, "height"@) is None {
                    Err(ParseRecordingItemError::HeightNotPresent)
                } else if usize_of(field(item, "height"@)) is None {
                    Err(ParseRecordingItemError::HeightNotUsize)
                } else {
                    Ok(
                        ItemView::SetWinSize {
                            width: usize_of(field(item, "width"@))->Some_0,
                            height: usize_of(field(item, "height"@))->Some_0,
                        },
                    )
                }
            } else if t@ == "write"@ {
                match field(item, "data"@) {
                    None => Err(ParseRecordingItemError::DataNotPresent),
                    Some(d) => match bytes_of(d) {
                        None => Err(ParseRecordingItemError::DataNotBytes),
                        Some(b) => Ok(ItemView::Write { data: b }),
                    },
                }
            } else {
                Err(ParseRecordingItemError::UnexpectedType)
            },
            Some(_) => Err(ParseRecordingItemError::TypeNotString),
        }
    }
}

fn usize_field(item: &SnapshotItem, key: &str) -> (r: Option<Option<usize>>)
    ensures
        match field(*item, key@) {
            None => r is None,
            Some(v) => r == Some(usize_of(Some(v))),
        },
{
    match get_field(item, key) {
        None => None,
        Some(SnapshotItem::Int(v)) => {
            if *v < 0 || *v as u64 > usize::MAX as u64 {
                Some(None)
            } else {
                Some(Some(*v as usize))
            }
        },
        Some(_) => Some(None),
    }
}

impl RecordingItem {
    /// Reads an event from its saved form.
    pub fn from_snapshot(item: &SnapshotItem) -> (r: Result<RecordingItem, ParseRecordingItemError>)
        ensures
            match parse_item_spec(*item) {
                Ok(v) => r matches Ok(x) && x@ == v,
                Err(e) => r matches Err(x) && x == e,
            },
    {
        if !matches!(item, SnapshotItem::Object(_)) {
            return Err(ParseRecordingItemError::RootNotObject);
        }
        let typ = match get_field(item, "type") {
            None => {
                return Err(ParseRecordingItemError::TypeNotPresent);
            },
            Some(SnapshotItem::String(t)) => t,
            Some(_) => {
                return Err(ParseRecordingItemError::TypeNotString);
            },
        };
        if str_eq(typ.as_str(), "set_win_size") {
            let width = match usize_field(item, "width") {
                None => {
                    return Err(ParseRecordingItemError::WidthNotPresent);
                },
                Some(None) => {
                    return Err(ParseRecordingItemError::WidthNotUsize);
                },
                Some(Some(w)) => w,
            };
            let height = match usize_field(item, "height") {
                None => {
                    return Err(ParseRecordingItemError::HeightNotPresent);
                },
                Some(None) => {
                    return Err(ParseRecordingItemError::HeightNotUsize);
                },
                Some(Some(h)) => h,
            };
            Ok(RecordingItem::SetWinSize { width, height })
        } else if str_eq(typ.as_str(), "write") {
            match get_field(item, "data") {
                None => Err(ParseRecordingItemError::DataNotPresent),
                Some(d) => match item_bytes(d) {
                    None => Err(ParseRecordingItemError::DataNotBytes),
                    Some(b) => Ok(RecordingItem::Write { data: b }),
                },
            }
        } else {
            Err(ParseRecordingItemError::UnexpectedType)
        }
    }

    /// The saved form of the event. Sizes above `i64::MAX` are saved as `i64::MAX`.
    pub fn to_snapshot(&self) -> (r: SnapshotItem)
        ensures
            item_fits(self@) ==> parse_item_spec(r) == Ok::<ItemView, ParseRecordingItemError>(
                self@,
            ),
            keys_distinct(r),
    {
        let mut m: Vec<(String, SnapshotItem)> = Vec::new();
        match self {
            RecordingItem::SetWinSize { width, height } => {
                m.push(entry("type", string_item("set_win_size")));
                m.push(entry("width", SnapshotItem::Int(clamp_i64(*width))));
                m.push(entry("height", SnapshotItem::Int(clamp_i64(*height))));
                let r = SnapshotItem::Object(m);
                proof {
                    reveal_strlit("type");
                    reveal_strlit("width");
                    reveal_strlit("height");
                    reveal_strlit("set_win_size");
                    let keys = seq!["type"@, "width"@, "height"@];
                    assert("type"@.len() == 4);
                    assert("width"@.len() == 5);
                    assert("height"@.len() == 6);
                    lemma_distinct_keys(keys);
                    assert(is_map_with(r, keys));
                    lemma_map_keys_distinct(r, keys);
                    lemma_field_at(r, keys, 0);
                    lemma_field_at(r, keys, 1);
                    lemma_field_at(r, keys, 2);
                    assert(keys[0] == "type"@);
                    assert(keys[1] == "width"@);
                    assert(keys[2] == "height"@);
                }
                r
            },
            RecordingItem::Write { data } => {
                m.push(entry("type", string_item("write")));
                m.push(entry("data", bytes_item(data)));
                let r = SnapshotItem::Object(m);
                proof {
                    reveal_strlit("type");
                    reveal_strlit("data");
                    reveal_strlit("write");
                    reveal_strlit("set_win_size");
                    let keys = seq!["type"@, "data"@];
                    assert("type"@[0] != "data"@[0]);
                    assert("write"@.len() == 5);
                    assert("set_win_size"@.len() == 12);
                    lemma_distinct_keys(keys);
                    assert(is_map_with(r, keys));
                    lemma_map_keys_distinct(r, keys);
                    lemma_field_at(r, keys, 0);
                    lemma_field_at(r, keys, 1);
                    assert(keys[0] == "type"@);
                    assert(keys[1] == "data"@);
                    lemma_bytes_round_trip(r->Object_0@[1].1, data@);
                }
                r
            },
        }
    }
}

/// Whether the event's sizes fit in an `i64`, as saving needs.
pub open spec fn item_fits(v: ItemView) -> bool {
    match v {
        ItemView::SetWinSize { width, height } => width <= i64::MAX && height <= i64::MAX,
        ItemView::Write { .. } => true,
    }
}

fn clamp_i64(v: usize) -> (r: i64)
    ensures
        v <= i64::MAX ==> r == v,
{
    if v as u64 > i64::MAX as u64 {
        i64::MAX
    } else {
        v as i64
    }
}

/// A recorded session: the engine's state when recording began, then the events.
pub struct Recording {
    initial_state: Vec<(String, SnapshotItem)>,
    items: Vec<RecordingItem>,
}

/// The events after recording `data`: it joins a trailing write, or starts one.
pub open spec fn push_write_spec(items: Seq<ItemView>, data: Seq<u8>) -> Seq<ItemView> {
    if items.len() > 0 && items.last() is Write {
        items.update(items.len() - 1, ItemView::Write { data: items.last()->data + data })
    } else {
        items.push(ItemView::Write { data })
    }
}

impl Recording {
    pub closed spec fn items_spec(&self) -> Seq<ItemView> {
        items_view(self.items@)
    }

    pub closed spec fn state_spec(&self) -> Seq<(String, SnapshotItem)> {
        self.initial_state@
    }

    /// An empty recording.
    pub fn new() -> (r: Recording)
        ensures
            r.items_spec() == Seq::<ItemView>::empty(),
            r.state_spec() == Seq::<(String, SnapshotItem)>::empty(),
    {
        let r = Recording { initial_state: Vec::new(), items: Vec::new() };
        assert(r.items_spec() =~= Seq::<ItemView>::empty());
        r
    }

    /// Adds a named part of the engine's starting state.
    pub fn snapshot_item(&mut self, name: String, item: SnapshotItem)
        ensures
            final(self).state_spec() == old(self).state_spec().push((name, item)),
            final(self).items_spec() == old(self).items_spec(),
    {
        self.initial_state.push((name, item));
    }

    /// Records bytes the shell wrote.
    pub fn write(&mut self, to_insert: &[u8])
        ensures
            final(self).items_spec() == push_write_spec(old(self).items_spec(), to_insert@),
            final(self).state_spec() == old(self).state_spec(),
    {
        let ghost before = self.items_spec();
        let n = self.items.len();
        if n > 0 {
            if let RecordingItem::Write { data } = &self.items[n - 1] {
                let mut d = copy_bytes(data);
                append_bytes(&mut d, to_insert, 0, to_insert.len());
                assert(to_insert@.subrange(0, to_insert@.len() as int) =~= to_insert@);
                self.items.set(n - 1, RecordingItem::Write { data: d });
                assert(self.items_spec() =~= push_write_spec(before, to_insert@));
                return;
            }
        }
        let d = copy_bytes_slice(to_insert);
        self.items.push(RecordingItem::Write { data: d });
        assert(self.items_spec() =~= push_write_spec(before, to_insert@));
    }

    /// Records a window resize.
    pub fn set_win_size(&mut self, width: usize, height: usize)
        ensures
            final(self).items_spec() == old(self).items_spec().push(
                ItemView::SetWinSize { width, height },
            ),
            final(self).state_spec() == old(self).state_spec(),
    {
        let ghost before = self.items_spec();
        self.items.push(RecordingItem::SetWinSize { width, height });
        assert(self.items_spec() =~= before.push(ItemView::SetWinSize { width, height }));
    }

    /// The recorded events.
    pub fn items(&self) -> (r: &Vec<RecordingItem>)
        ensures
            items_view(r@) == self.items_spec(),
    {
        &self.items
    }

    /// The number of events.
    pub fn len(&self) -> (r: usize)
        ensures
            r == self.items_spec().len(),
    {
        self.items.len()
    }
}

fn copy_bytes_slice(s: &[u8]) -> (r: Vec<u8>)
    ensures
        r@ == s@,
{
    let mut out: Vec<u8> = Vec::new();
    append_bytes(&mut out, s, 0, s.len());
    assert(s@.subrange(0, s@.len() as int) =~= s@);
    assert(out@ =~= s@);
    out
}

/// The events read from the array `a`, or the error of the first that fails.
pub open spec fn parse_items_spec(a: Seq<SnapshotItem>) -> Result<Seq<ItemView>, ParseRecordingItemError>
    decreases a.len(),
{
    if a.len() == 0 {
        Ok(Seq::empty())
    } else {
        match parse_items_spec(a.drop_last()) {
            Err(e) => Err(e),
            Ok(prev) => match parse_item_spec(a.last()) {
                Err(e) => Err(e),
                Ok(v) => Ok(prev.push(v)),
            },
        }
    }
}

/// What reading a recording from `root` gives: the entries of "initial_state" and the
/// events of "items".
pub open spec fn load_recording_spec(root: SnapshotItem) -> Result<(Seq<(String, SnapshotItem)>, Seq<ItemView>), LoadRecordingError> {
    if !(root is Object) {
        Err(LoadRecordingError::RootNotObject)
    } else {
        match field(root, "initial_state"@) {
            None => Err(LoadRecordingError::InitialStateMissing),
            Some(SnapshotItem::Object(st)) => match field(root, "items"@) {
                None => Err(LoadRecordingError::ItemsNotPresent),
                Some(SnapshotItem::Array(a)) => match parse_items_spec(a@) {
                    Err(e) => Err(LoadRecordingError::ItemInvalid(e)),
                    Ok(items) => Ok((st@, items)),
                },
                Some(_) => Err(LoadRecordingError::ItemsNotArray),
            },
            Some(_) => Err(LoadRecordingError::InitialStateNotObject),
        }
    }
}

fn parse_items(a: &Vec<SnapshotItem>) -> (r: Result<Vec<RecordingItem>, ParseRecordingItemError>)
    ensures
        match parse_items_spec(a@) {
            Ok(v) => r matches Ok(x) && items_view(x@) == v,
            Err(e) => r matches Err(x) && x == e,
        },
{
    let mut out: Vec<RecordingItem> = Vec::new();
    let n = a.len();
    let mut i: usize = 0;
    assert(a@.subrange(0, 0) =~= Seq::<SnapshotItem>::empty());
    assert(items_view(out@) =~= Seq::<ItemView>::empty());
    while i < n
        invariant
            n == a@.len(),
            i <= n,
            parse_items_spec(a@.subrange(0, i as int)) == Ok::<Seq<ItemView>, ParseRecordingItemError>(items_view(out@)),
        decreases n - i,
    {
        let ghost pre = a@.subrange(0, i + 1);
        assert(pre.drop_last() =~= a@.subrange(0, i as int));
        match RecordingItem::from_snapshot(&a[i]) {
            Ok(item) => {
                let ghost before = items_view(out@);
                out.push(item);
                assert(items_view(out@) =~= before.push(out@.last()@));
            },
            Err(e) => {
                proof {
                    lemma_parse_items_err_stays(a@, i as int + 1);
                }
                return Err(e);
            },
        }
        i = i + 1;
    }
    assert(a@.subrange(0, n as int) =~= a@);
    Ok(out)
}

proof fn lemma_parse_items_err_stays(a: Seq<SnapshotItem>, i: int)
    requires
        0 <= i <= a.len(),
        parse_items_spec(a.subrange(0, i)) is Err,
    ensures
        parse_items_spec(a) == parse_items_spec(a.subrange(0, i)),
    decreases a.len() - i,
{
    if i < a.len() {
        let pre = a.subrange(0, i + 1);
        assert(pre.drop_last() =~= a.subrange(0, i));
        lemma_parse_items_err_stays(a, i + 1);
    } else {
        assert(a.subrange(0, i) =~= a);
    }
}

impl Recording {
    /// Reads a recording from its saved form.
    pub fn from_snapshot(root: SnapshotItem) -> (r: Result<Recording, LoadRecordingError>)
        ensures
            match load_recording_spec(root) {
                Ok(v) => r matches Ok(x) && x.state_spec() == v.0 && x.items_spec() == v.1,
                Err(e) => r matches Err(x) && x == e,
            },
    {
        let ghost g = root;
        let mut m = match root {
            SnapshotItem::Object(m) => m,
            _ => {
                return Err(LoadRecordingError::RootNotObject);
            },
        };
        let si = match map_index(&m, "initial_state") {
            None => {
                return Err(LoadRecordingError::InitialStateMissing);
            },
            Some(i) => i,
        };
        if !matches!(m[si].1, SnapshotItem::Object(_)) {
            return Err(LoadRecordingError::InitialStateNotObject);
        }
        let items = match get_field_of(&m, "items") {
            None => {
                return Err(LoadRecordingError::ItemsNotPresent);
            },
            Some(SnapshotItem::Array(a)) => match parse_items(a) {
                Ok(v) => v,
                Err(e) => {
                    return Err(LoadRecordingError::ItemInvalid(e));
                },
            },
            Some(_) => {
                return Err(LoadRecordingError::ItemsNotArray);
            },
        };
        let (_, st) = m.remove(si);
        match st {
            SnapshotItem::Object(entries) => Ok(Recording { initial_state: entries, items }),
            _ => Err(LoadRecordingError::InitialStateNotObject),
        }
    }

    /// The saved form: "initial_state" and "items". Sizes above `i64::MAX` are saved
    /// as `i64::MAX`.
    pub fn into_snapshot(self) -> (r: SnapshotItem)
        ensures
            (forall|k: int| 0 <= k < self.items_spec().len() ==> item_fits(#[trigger] self.items_spec()[k]))
                ==> load_recording_spec(r) == Ok::<(Seq<(String, SnapshotItem)>, Seq<ItemView>), LoadRecordingError>((self.state_spec(), self.items_spec())),
            keys_distinct(r),
    {
        let ghost st = self.state_spec();
        let ghost iv = self.items_spec();
        let mut arr: Vec<SnapshotItem> = Vec::new();
        let n = self.items.len();
        let mut i: usize = 0;
        while i < n
            invariant
                n == self.items@.len(),
                iv == items_view(self.items@),
                i <= n,
                arr@.len() == i,
                (forall|k: int| 0 <= k < iv.len() ==> item_fits(#[trigger] iv[k])) ==> forall|k: int| 0 <= k < i ==> parse_item_spec(#[trigger] arr@[k]) == Ok::<ItemView, ParseRecordingItemError>(iv[k]),
            decreases n - i,
        {
            arr.push(self.items[i].to_snapshot());
            i = i + 1;
        }
        let ghost a = arr@;
        let mut m: Vec<(String, SnapshotItem)> = Vec::new();
        m.push(entry("initial_state", SnapshotItem::Object(self.initial_state)));
        m.push(entry("items", SnapshotItem::Array(arr)));
        let r = SnapshotItem::Object(m);
        proof {
            reveal_strlit("initial_state");
            reveal_strlit("items");
            let keys = seq!["initial_state"@, "items"@];
            assert("initial_state"@.len() == 13);
            assert("items"@.len() == 5);
            lemma_distinct_keys(keys);
            assert(is_map_with(r, keys));
            lemma_map_keys_distinct(r, keys);
            lemma_field_at(r, keys, 0);
            lemma_field_at(r, keys, 1);
            assert(keys[0] == "initial_state"@);
            assert(keys[1] == "items"@);
            if forall|k: int| 0 <= k < iv.len() ==> item_fits(#[trigger] iv[k]) {
                lemma_parse_items_all(a, iv);
            }
        }
        r
    }

    /// Moves the engine's starting state out, as one map, and leaves none behind.
    pub fn take_initial_state(&mut self) -> (r: SnapshotItem)
        ensures
            r matches SnapshotItem::Object(m) && m@ == old(self).state_spec(),
            final(self).state_spec() == Seq::<(String, SnapshotItem)>::empty(),
            final(self).items_spec() == old(self).items_spec(),
    {
        let mut st: Vec<(String, SnapshotItem)> = Vec::new();
        std::mem::swap(&mut st, &mut self.initial_state);
        SnapshotItem::Object(st)
    }

    /// The engine's starting state, as one map.
    pub fn into_initial_state(self) -> (r: SnapshotItem)
        ensures
            r matches SnapshotItem::Object(m) && m@ == self.state_spec(),
    {
        SnapshotItem::Object(self.initial_state)
    }
}

proof fn lemma_parse_items_all(a: Seq<SnapshotItem>, iv: Seq<ItemView>)
    requires
        a.len() == iv.len(),
        forall|k: int| 0 <= k < a.len() ==> parse_item_spec(#[trigger] a[k]) == Ok::<ItemView, ParseRecordingItemError>(iv[k]),
    ensures
        parse_items_spec(a) == Ok::<Seq<ItemView>, ParseRecordingItemError>(iv),
    decreases a.len(),
{
    if a.len() > 0 {
        assert forall|k: int| 0 <= k < a.drop_last().len() implies parse_item_spec(#[trigger] a.drop_last()[k]) == Ok::<ItemView, ParseRecordingItemError>(iv.drop_last()[k]) by {
            assert(a.drop_last()[k] == a[k]);
        }
        lemma_parse_items_all(a.drop_last(), iv.drop_last());
        assert(iv.drop_last().push(iv.last()) =~= iv);
    } else {
        assert(iv =~= Seq::<ItemView>::empty());
    }
}

fn get_field_of<'a>(m: &'a Vec<(String, SnapshotItem)>, key: &str) -> (r: Option<&'a SnapshotItem>)
    ensures
        match r {
            Some(v) => crate::snapshot::lookup(m@, key@) == Some(*v),
            None => crate::snapshot::lookup(m@, key@) is None,
        },
{
    crate::snapshot::map_get(m, key)
}

} // verus!
