use vstd::prelude::*;

verus! {

/// The item is not a map.
#[derive(Debug, Clone, Copy, PartialEq, Eq, Structural)]
pub struct NotMap;

/// The item is not an array.
#[derive(Debug, Clone, Copy, PartialEq, Eq, Structural)]
pub struct NotArray;

/// The item is not a string.
#[derive(Debug, Clone, Copy, PartialEq, Eq, Structural)]
pub struct NotString;

/// The item is not a boolean.
#[derive(Debug, Clone, Copy, PartialEq, Eq, Structural)]
pub struct NotBool;

/// The item is not an integer, or its value does not fit the wanted type.
#[derive(Debug, Clone, Copy, PartialEq, Eq, Structural)]
pub enum NotIntOfType {
    NotNumber,
    Cast,
}

/// A tree of plain values that component state is saved to and loaded from.
/// A map keeps its entries in order; lookups take the first entry with the key. The
/// maps that this library saves have distinct keys (`keys_distinct`).
#[derive(Debug, PartialEq)]
pub enum SnapshotItem {
    Bool(bool),
    Int(i64),
    String(String),
    Array(Vec<SnapshotItem>),
    Object(Vec<(String, SnapshotItem)>),
}

/// The value of the first entry of `m` with key `k`.
pub open spec fn lookup(m: Seq<(String, SnapshotItem)>, k: Seq<char>) -> Option<SnapshotItem>
    decreases m.len(),
{
    if m.len() == 0 {
        None
    } else if m[0].0@ == k {
        Some(m[0].1)
    } else {
        lookup(m.drop_first(), k)
    }
}

/// The value under `k`, when `item` is a map that has it.
pub open spec fn field(item: SnapshotItem, k: Seq<char>) -> Option<SnapshotItem> {
    match item {
        SnapshotItem::Object(m) => lookup(m@, k),
        _ => None,
    }
}

/// The bytes an array of integers in `0..=255` holds.
pub open spec fn bytes_of(item: SnapshotItem) -> Option<Seq<u8>> {
    match item {
        SnapshotItem::Array(a) => if forall|k: int|
            0 <= k < a@.len() ==> (#[trigger] a@[k] matches SnapshotItem::Int(v) && 0 <= v
                <= 255) {
            Some(Seq::new(a@.len(), |k: int| a@[k]->Int_0 as u8))
        } else {
            None
        },
        _ => None,
    }
}

/// An array holding exactly the bytes `b`, as integers.
pub open spec fn is_byte_array(item: SnapshotItem, b: Seq<u8>) -> bool {
    &&& item is Array
    &&& item->Array_0@.len() == b.len()
    &&& forall|k: int|
        0 <= k < b.len() ==> #[trigger] item->Array_0@[k] == SnapshotItem::Int(b[k] as i64)
}

/// A map whose entries have exactly the keys `keys`, in order.
pub open spec fn is_map_with(item: SnapshotItem, keys: Seq<Seq<char>>) -> bool {
    &&& item is Object
    &&& item->Object_0@.len() == keys.len()
    &&& forall|k: int| 0 <= k < keys.len() ==> (#[trigger] item->Object_0@[k]).0@ == keys[k]
}

pub proof fn lemma_lookup_index(m: Seq<(String, SnapshotItem)>, k: Seq<char>, i: int)
    requires
        0 <= i < m.len(),
        m[i].0@ == k,
        forall|j: int| 0 <= j < i ==> (#[trigger] m[j]).0@ != k,
    ensures
        lookup(m, k) == Some(m[i].1),
    decreases i,
{
    if i > 0 {
        assert forall|j: int| 0 <= j < i - 1 implies (#[trigger] m.drop_first()[j]).0@ != k by {
            assert(m.drop_first()[j] == m[j + 1]);
        }
        lemma_lookup_index(m.drop_first(), k, i - 1);
    }
}

/// In a map whose keys are pairwise distinct, the key at position `i` finds the
/// value at position `i`.
pub proof fn lemma_field_at(item: SnapshotItem, keys: Seq<Seq<char>>, i: int)
    requires
        is_map_with(item, keys),
        0 <= i < keys.len(),
        distinct_keys(keys),
    ensures
        field(item, keys[i]) == Some(item->Object_0@[i].1),
{
    let m = item->Object_0@;
    assert forall|j: int| 0 <= j < i implies (#[trigger] m[j]).0@ != keys[i] by {
        assert(m[j].0@ == keys[j]);
    }
    lemma_lookup_index(m, keys[i], i);
}

pub proof fn lemma_bytes_round_trip(item: SnapshotItem, b: Seq<u8>)
    requires
        is_byte_array(item, b),
    ensures
        bytes_of(item) == Some(b),
{
    let a = item->Array_0@;
    assert forall|k: int| 0 <= k < a.len() implies (#[trigger] a[k] matches SnapshotItem::Int(v)
        && 0 <= v <= 255) by {
        assert(a[k] == SnapshotItem::Int(b[k] as i64));
    }
    assert(Seq::new(a.len(), |k: int| a[k]->Int_0 as u8) =~= b);
}

/// Keys that are pairwise different.
pub open spec fn distinct_keys(keys: Seq<Seq<char>>) -> bool {
    forall|a: int, b: int| 0 <= a < b < keys.len() ==> keys[a] != keys[b]
}

pub proof fn lemma_distinct_keys(keys: Seq<Seq<char>>)
    requires
        forall|a: int, b: int|
            0 <= a < b < keys.len() ==> (#[trigger] keys[a]).len() != (#[trigger] keys[b]).len()
                || keys[a][0] != keys[b][0],
    ensures
        distinct_keys(keys),
{
    assert forall|a: int, b: int| 0 <= a < b < keys.len() implies keys[a] != keys[b] by {
        if keys[a].len() == keys[b].len() {
            assert(keys[a][0] != keys[b][0]);
        }
    }
}

/// A map whose keys are pairwise different, so that every lookup finds the one
/// entry with its key.
pub open spec fn keys_distinct(item: SnapshotItem) -> bool {
    &&& item is Object
    &&& forall|a: int, b: int|
        0 <= a < b < item->Object_0@.len() ==> (#[trigger] item->Object_0@[a]).0@ != (
        #[trigger] item->Object_0@[b]).0@
}

pub proof fn lemma_map_keys_distinct(item: SnapshotItem, keys: Seq<Seq<char>>)
    requires
        is_map_with(item, keys),
        distinct_keys(keys),
    ensures
        keys_distinct(item),
{
    let m = item->Object_0@;
    assert forall|a: int, b: int| 0 <= a < b < m.len() implies (#[trigger] m[a]).0@ != (
    #[trigger] m[b]).0@ by {
        assert(m[a].0@ == keys[a]);
        assert(m[b].0@ == keys[b]);
    }
}

/// The value under `key` in the entries `m`.
pub fn map_get<'a>(m: &'a Vec<(String, SnapshotItem)>, key: &str) -> (r: Option<&'a SnapshotItem>)
    ensures
        match r {
            Some(v) => lookup(m@, key@) == Some(*v),
            None => lookup(m@, key@) is None,
        },
{
    let k: String = key.to_owned();
    let n = m.len();
    let mut i: usize = 0;
    assert(m@.subrange(0, n as int) =~= m@);
    while i < n
        invariant
            n == m@.len(),
            i <= n,
            k@ == key@,
            lookup(m@, key@) == lookup(m@.subrange(i as int, n as int), key@),
        decreases n - i,
    {
        let ghost rest = m@.subrange(i as int, n as int);
        assert(rest.drop_first() =~= m@.subrange(i + 1, n as int));
        if m[i].0 == k {
            return Some(&m[i].1);
        }
        i = i + 1;
    }
    None
}

/// Position of the first entry of `m` with key `key`.
pub fn map_index(m: &Vec<(String, SnapshotItem)>, key: &str) -> (r: Option<usize>)
    ensures
        match r {
            Some(i) => i < m@.len() && lookup(m@, key@) == Some(m@[i as int].1),
            None => lookup(m@, key@) is None,
        },
{
    let k: String = key.to_owned();
    let n = m.len();
    let mut i: usize = 0;
    assert(m@.subrange(0, n as int) =~= m@);
    while i < n
        invariant
            n == m@.len(),
            i <= n,
            k@ == key@,
            forall|j: int| 0 <= j < i ==> (#[trigger] m@[j]).0@ != key@,
            lookup(m@, key@) == lookup(m@.subrange(i as int, n as int), key@),
        decreases n - i,
    {
        let ghost rest = m@.subrange(i as int, n as int);
        assert(rest.drop_first() =~= m@.subrange(i + 1, n as int));
        if m[i].0 == k {
            proof {
                lemma_lookup_index(m@, key@, i as int);
            }
            return Some(i);
        }
        i = i + 1;
    }
    None
}

/// The value under `key`, when `item` is a map that has it.
pub fn get_field<'a>(item: &'a SnapshotItem, key: &str) -> (r: Option<&'a SnapshotItem>)
    ensures
        match r {
            Some(v) => field(*item, key@) == Some(*v),
            None => field(*item, key@) is None,
        },
{
    match item {
        SnapshotItem::Object(m) => map_get(m, key),
        _ => None,
    }
}

/// The bytes of an array of integers in `0..=255`.
pub fn item_bytes(item: &SnapshotItem) -> (r: Option<Vec<u8>>)
    ensures
        match bytes_of(*item) {
            Some(b) => r matches Some(v) && v@ == b,
            None => r is None,
        },
{
    match item {
        SnapshotItem::Array(a) => {
            let mut out: Vec<u8> = Vec::new();
            let n = a.len();
            let mut i: usize = 0;
            while i < n
                invariant
                    n == a@.len(),
                    *item == SnapshotItem::Array(*a),
                    i <= n,
                    out@.len() == i,
                    forall|k: int|
                        0 <= k < i ==> (#[trigger] a@[k] matches SnapshotItem::Int(v) && 0 <= v
                            <= 255),
                    forall|k: int| 0 <= k < i ==> #[trigger] out@[k] == a@[k]->Int_0 as u8,
                decreases n - i,
            {
                match &a[i] {
                    SnapshotItem::Int(v) => {
                        if *v < 0 || *v > 255 {
                            assert(!(a@[i as int] matches SnapshotItem::Int(w) && 0 <= w <= 255));
                            return None;
                        }
                        out.push(*v as u8);
                    },
                    _ => {
                        assert(!(a@[i as int] matches SnapshotItem::Int(w) && 0 <= w <= 255));
                        return None;
                    },
                }
                i = i + 1;
            }
            assert(out@ =~= Seq::new(a@.len(), |k: int| a@[k]->Int_0 as u8));
            Some(out)
        },
        _ => None,
    }
}

/// An array of the bytes `b`, as integers.
pub fn bytes_item(b: &Vec<u8>) -> (r: SnapshotItem)
    ensures
        is_byte_array(r, b@),
{
    let mut out: Vec<SnapshotItem> = Vec::new();
    let n = b.len();
    let mut i: usize = 0;
    while i < n
        invariant
            n == b@.len(),
            i <= n,
            out@.len() == i,
            forall|k: int| 0 <= k < i ==> #[trigger] out@[k] == SnapshotItem::Int(b@[k] as i64),
        decreases n - i,
    {
        out.push(SnapshotItem::Int(b[i] as i64));
        i = i + 1;
    }
    SnapshotItem::Array(out)
}

/// A map entry.
pub fn entry(key: &str, value: SnapshotItem) -> (r: (String, SnapshotItem))
    ensures
        r.0@ == key@,
        r.1 == value,
{
    (key.to_owned(), value)
}

/// A string item.
pub fn string_item(s: &str) -> (r: SnapshotItem)
    ensures
        r matches SnapshotItem::String(t) && t@ == s@,
{
    SnapshotItem::String(s.to_owned())
}

impl SnapshotItem {
    pub fn into_map(self) -> (r: Result<Vec<(String, SnapshotItem)>, NotMap>)
        ensures
            match self {
                SnapshotItem::Object(m) => r == Ok::<Vec<(String, SnapshotItem)>, NotMap>(m),
                _ => r is Err,
            },
    {
        match self {
            SnapshotItem::Object(m) => Ok(m),
            _ => Err(NotMap),
        }
    }

    pub fn into_vec(self) -> (r: Result<Vec<SnapshotItem>, NotArray>)
        ensures
            match self {
                SnapshotItem::Array(v) => r == Ok::<Vec<SnapshotItem>, NotArray>(v),
                _ => r is Err,
            },
    {
        match self {
            SnapshotItem::Array(v) => Ok(v),
            _ => Err(NotArray),
        }
    }

    pub fn into_bool(self) -> (r: Result<bool, NotBool>)
        ensures
            match self {
                SnapshotItem::Bool(b) => r == Ok::<bool, NotBool>(b),
                _ => r is Err,
            },
    {
        match self {
            SnapshotItem::Bool(v) => Ok(v),
            _ => Err(NotBool),
        }
    }

    pub fn into_i64(self) -> (r: Result<i64, NotIntOfType>)
        ensures
            match self {
                SnapshotItem::Int(v) => r == Ok::<i64, NotIntOfType>(v),
                _ => r == Err::<i64, NotIntOfType>(NotIntOfType::NotNumber),
            },
    {
        match self {
            SnapshotItem::Int(v) => Ok(v),
            _ => Err(NotIntOfType::NotNumber),
        }
    }

    /// The integer as a `usize`: not a number, or out of range, is an error.
    pub fn into_num(self) -> (r: Result<usize, NotIntOfType>)
        ensures
            match self {
                SnapshotItem::Int(v) => if 0 <= v && v <= usize::MAX {
                    r == Ok::<usize, NotIntOfType>(v as usize)
                } else {
                    r == Err::<usize, NotIntOfType>(NotIntOfType::Cast)
                },
                _ => r == Err::<usize, NotIntOfType>(NotIntOfType::NotNumber),
            },
    {
        let v = self.into_i64()?;
        if v < 0 || v as u64 > usize::MAX as u64 {
            Err(NotIntOfType::Cast)
        } else {
            Ok(v as usize)
        }
    }

    pub fn into_string(self) -> (r: Result<String, NotString>)
        ensures
            match self {
                SnapshotItem::String(s) => r == Ok::<String, NotString>(s),
                _ => r is Err,
            },
    {
        match self {
            SnapshotItem::String(s) => Ok(s),
            _ => Err(NotString),
        }
    }
}

} // verus!
