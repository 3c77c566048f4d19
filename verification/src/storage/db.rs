use vstd::prelude::*;

verus! {

use crate::storage::DBError;
use std::collections::VecDeque;
use std::sync::Arc;
use vstd::hash_map::StringHashMap;
use vstd::rwlock::{RwLock, RwLockPredicate};

broadcast use vstd::std_specs::vec::group_vec_axioms, vstd::seq::group_seq_axioms;

/// The mathematical value a stored entry stands for: a piece of text, or an
/// ordered sequence of pieces of text.
pub ghost enum StoredVal {
    Str(Seq<char>),
    List(Seq<Seq<char>>),
}

/// A value stored against a key. A key holds exactly one variant at a time;
/// an operation that expects the other variant fails with a type-mismatch
/// error.
#[derive(Debug, Clone)]
pub enum Value {
    /// A single string value.
    String(String),
    /// An ordered, index-addressable list of strings with fast push at both
    /// ends.
    List(VecDeque<String>),
}

/// The texts held by a list, in order.
pub open spec fn deque_view(l: VecDeque<String>) -> Seq<Seq<char>> {
    Seq::new(l@.len(), |i: int| l@[i]@)
}

impl View for Value {
    type V = StoredVal;

    open spec fn view(&self) -> StoredVal {
        match self {
            Value::String(s) => StoredVal::Str(s@),
            Value::List(l) => StoredVal::List(deque_view(*l)),
        }
    }
}

/// One stored key's current typed value.
#[derive(Debug, Clone)]
pub struct Entry {
    value: Value,
}

impl View for Entry {
    type V = StoredVal;

    closed spec fn view(&self) -> StoredVal {
        self.value@
    }
}

impl Entry {
    /// Wraps a value as a stored entry.
    pub fn new(value: Value) -> (r: Entry)
        ensures
            r@ == value@,
    {
        Entry { value }
    }
}

/// The abstract state of the store: each key's current value.
pub type StoreModel = Map<Seq<char>, StoredVal>;

/// The abstract state a concrete key table stands for.
pub open spec fn store_model(m: StringHashMap<Entry>) -> StoreModel {
    m@.map_values(|e: Entry| e@)
}

/// Every stored list is nonempty (pushes always add at least one element)
/// and short enough for its length to be counted in an `i64`.
pub open spec fn entry_ok(v: StoredVal) -> bool {
    match v {
        StoredVal::Str(_) => true,
        StoredVal::List(l) => 1 <= l.len() <= i64::MAX,
    }
}

/// The store's invariant: every entry is well formed.
pub open spec fn store_ok(s: StoreModel) -> bool {
    forall|k: Seq<char>| s.dom().contains(k) ==> entry_ok(#[trigger] s[k])
}

/// The index-rounding rule: a negative index counts from the end of the
/// list (clamped to 0), and an index at or past the end is pulled back to
/// the last position.
pub open spec fn round_index_spec(list_len: int, idx: int) -> int {
    if idx < 0 {
        if list_len + idx < 0 {
            0
        } else {
            list_len + idx
        }
    } else if idx >= list_len {
        list_len - 1
    } else {
        idx
    }
}

/// The half-open index window `LRANGE` reads: empty when the raw stop lies
/// before the raw start or the rounded stop before the rounded start, and
/// otherwise inclusive of the rounded stop position.
pub open spec fn round_indices_spec(list_len: int, start: int, stop: int) -> (int, int) {
    if stop < start {
        (0, 0)
    } else {
        let rs = round_index_spec(list_len, start);
        let re = round_index_spec(list_len, stop);
        if rs < re {
            (rs, re + 1)
        } else if re < rs {
            (0, 0)
        } else {
            (rs, rs + 1)
        }
    }
}

/// The sub-list `LRANGE start stop` returns from list `l`.
pub open spec fn range_model(l: Seq<Seq<char>>, start: int, stop: int) -> Seq<Seq<char>> {
    let w = round_indices_spec(l.len() as int, start, stop);
    l.subrange(w.0, w.1)
}

/// The list currently held at `k`, or the empty list when `k` is absent.
/// Meaningful only when `k` is absent or holds a list.
pub open spec fn list_at(s: StoreModel, k: Seq<char>) -> Seq<Seq<char>> {
    if s.dom().contains(k) {
        s[k]->List_0
    } else {
        Seq::empty()
    }
}

/// Whether a list push may proceed at `k`: the key is absent or holds a
/// list.
pub open spec fn can_push(s: StoreModel, k: Seq<char>) -> bool {
    !s.dom().contains(k) || s[k] is List
}

/// The store after pushing `vs` one by one onto the head of the list at
/// `k` (so the last pushed value ends up at index 0).
pub open spec fn lpush_model(s: StoreModel, k: Seq<char>, vs: Seq<Seq<char>>) -> StoreModel {
    s.insert(k, StoredVal::List(vs.reverse() + list_at(s, k)))
}

/// The store after pushing `vs` in order onto the tail of the list at `k`.
pub open spec fn rpush_model(s: StoreModel, k: Seq<char>, vs: Seq<Seq<char>>) -> StoreModel {
    s.insert(k, StoredVal::List(list_at(s, k) + vs))
}

/// What `GET k` must return against store `s`: the string at `k`, nothing
/// when `k` is absent, and a type-mismatch error when `k` holds a list.
pub open spec fn get_matches(s: StoreModel, k: Seq<char>, r: Result<Option<String>, DBError>) -> bool {
    if !s.dom().contains(k) {
        r matches Ok(o) && o is None
    } else {
        match s[k] {
            StoredVal::Str(t) => r matches Ok(o) && o matches Some(v) && v@ == t,
            StoredVal::List(_) => r matches Err(e) && e is WrongType,
        }
    }
}

/// What `SET k v` must return against store `s`: a type-mismatch error when
/// `k` holds a list, success otherwise.
pub open spec fn set_matches(s: StoreModel, k: Seq<char>, r: Result<(), DBError>) -> bool {
    if s.dom().contains(k) && s[k] is List {
        r matches Err(e) && e is WrongType
    } else {
        r is Ok
    }
}

/// What a push of `vs` at `k` must return against store `s`: a
/// type-mismatch error when `k` holds a string, an overflow report when the
/// resulting length could not be counted in an `i64`, and otherwise the
/// length of the resulting list.
pub open spec fn push_matches(
    s: StoreModel,
    k: Seq<char>,
    vs: Seq<Seq<char>>,
    r: Result<usize, DBError>,
) -> bool {
    if !can_push(s, k) {
        r matches Err(e) && e is WrongType
    } else if list_at(s, k).len() + vs.len() > i64::MAX {
        r matches Err(e) && e matches DBError::Other(m) && m@ == "List length overflow"@
    } else {
        r matches Ok(n) && n == list_at(s, k).len() + vs.len()
    }
}

/// What `LRANGE k start stop` must return against store `s`: an empty list
/// when `k` is absent, a type-mismatch error when `k` holds a string, and
/// otherwise the rounded inclusive sub-list.
pub open spec fn lrange_matches(
    s: StoreModel,
    k: Seq<char>,
    start: int,
    stop: int,
    r: Result<Vec<String>, DBError>,
) -> bool {
    if !s.dom().contains(k) {
        r matches Ok(v) && v@.len() == 0
    } else {
        match s[k] {
            StoredVal::Str(_) => r matches Err(e) && e is WrongType,
            StoredVal::List(l) => r matches Ok(v) && v.deep_view() == range_model(l, start, stop),
        }
    }
}

/// The lock invariant of the store: every entry is well formed.
pub struct StorePred;

impl RwLockPredicate<StringHashMap<Entry>> for StorePred {
    open spec fn inv(self, v: StringHashMap<Entry>) -> bool {
        store_ok(store_model(v))
    }
}

/// The storage engine: a key table behind a single reader/writer lock.
/// Reads (`get`, `lrange`) take the shared side; writes (`set`, `lpush`,
/// `rpush`) take the exclusive side. No lock is held outside a single
/// operation, and every operation is atomic with respect to the others.
pub struct DB {
    data: RwLock<StringHashMap<Entry>, StorePred>,
}

/// A shared, reference-counted handle to one storage engine, cloned into
/// every connection task.
#[derive(Clone)]
pub struct Storage {
    db: Arc<DB>,
}

/// Relies on `Arc::clone`: the clone is a handle to the same shared value.
#[verifier::external_body]
fn arc_clone(a: &Arc<DB>) -> (r: Arc<DB>)
    ensures
        r == *a,
{
    Arc::clone(a)
}

impl Storage {
    /// The engine this handle leads to.
    pub closed spec fn db_spec(&self) -> Arc<DB> {
        self.db
    }

    /// Wraps a storage engine for sharing.
    pub fn new(db: DB) -> (r: Storage)
        ensures
            r.db_spec() == db,
    {
        Storage { db: Arc::new(db) }
    }

    /// Returns a new shared handle to the engine.
    pub fn db(&self) -> (r: Arc<DB>)
        ensures
            r == self.db_spec(),
    {
        arc_clone(&self.db)
    }
}

/// Look up the string at `k` in the key table.
fn get_inner(map: &StringHashMap<Entry>, k: &str) -> (r: Result<Option<String>, DBError>)
    ensures
        get_matches(store_model(*map), k@, r),
{
    let entry = match map.get(k) {
        Option::Some(entry) => entry,
        Option::None => {
            return Result::Ok(Option::None);
        },
    };

    match &entry.value {
        Value::String(s) => Result::Ok(Option::Some(s.clone())),
        _ => Result::Err(DBError::WrongType),
    }
}

/// Store the value `v` at `k` in the key table, unless `k` holds a list.
fn set_inner(map: &mut StringHashMap<Entry>, k: String, v: Value) -> (r: Result<(), DBError>)
    requires
        entry_ok(v@),
    ensures
        set_matches(store_model(*old(map)), k@, r),
        r is Ok ==> store_model(*final(map)) == store_model(*old(map)).insert(k@, v@),
        r is Err ==> store_model(*final(map)) == store_model(*old(map)),
{
    let entry = map.get(k.as_str());

    if entry.is_some() {
        match entry.unwrap().value {
            Value::String(_) => {},
            _ => {
                return Result::Err(DBError::WrongType);
            },
        }
    }

    map.insert(k, Entry::new(v));
    proof {
        assert(store_model(*map) =~= store_model(*old(map)).insert(k@, v@));
    }
    Result::Ok(())
}

/// Push each of `v`, in order, onto the head of the list at `k`,
/// creating the list when the key is absent.
fn lpush_inner(map: &mut StringHashMap<Entry>, k: String, v: Vec<String>) -> (r: Result<
    usize,
    DBError,
>)
    requires
        store_ok(store_model(*old(map))),
        v@.len() >= 1,
    ensures
        push_matches(store_model(*old(map)), k@, v.deep_view(), r),
        r is Ok ==> store_model(*final(map)) == lpush_model(
            store_model(*old(map)),
            k@,
            v.deep_view(),
        ),
        r is Err ==> store_model(*final(map)) == store_model(*old(map)),
        store_ok(store_model(*final(map))),
{
    let ghost s0 = store_model(*map);
    let ghost vs = v.deep_view();
    let existing: Option<VecDeque<String>> = match map.get(k.as_str()) {
        Option::Some(e) => match &e.value {
            Value::List(l) => Option::Some(l.clone()),
            _ => {
                return Result::Err(DBError::WrongType);
            },
        },
        Option::None => Option::None,
    };
    let mut list: VecDeque<String> = match existing {
        Option::Some(l) => l,
        Option::None => VecDeque::new(),
    };
    proof {
        assert(deque_view(list) =~= list_at(s0, k@));
    }
    if (v.len() as u64) > (i64::MAX as u64) - (list.len() as u64) {
        return Result::Err(DBError::Other("List length overflow".to_owned()));
    }
    let ghost orig = deque_view(list);
    let mut i: usize = 0;
    while i < v.len()
        invariant
            i <= v@.len(),
            vs == v.deep_view(),
            deque_view(list) =~= vs.take(i as int).reverse() + orig,
            list@.len() == orig.len() + i,
        decreases v@.len() - i,
    {
        let piece: String = v[i].clone();
        proof {
            assert(piece@ == vs[i as int]);
        }
        let ghost before = deque_view(list);
        list.push_front(piece);
        proof {
            assert(list@.len() == before.len() + 1);
            assert(deque_view(list)[0] == piece@);
            assert(forall|j: int| 1 <= j < list@.len() ==> #[trigger] deque_view(list)[j] == before[j - 1]);
        }
        proof {
            assert(deque_view(list) =~= vs.take(i as int + 1).reverse() + orig);
        }
        i = i + 1;
    }
    proof {
        assert(vs.take(vs.len() as int) =~= vs);
    }
    let new_len = list.len();
    map.insert(k, Entry::new(Value::List(list)));
    proof {
        assert(store_model(*map) =~= lpush_model(s0, k@, vs));
    }
    Result::Ok(new_len)
}

/// Push each of `v`, in order, onto the tail of the list at `k`, creating
/// the list when the key is absent.
fn rpush_inner(map: &mut StringHashMap<Entry>, k: String, v: Vec<String>) -> (r: Result<
    usize,
    DBError,
>)
    requires
        store_ok(store_model(*old(map))),
        v@.len() >= 1,
    ensures
        push_matches(store_model(*old(map)), k@, v.deep_view(), r),
        r is Ok ==> store_model(*final(map)) == rpush_model(
            store_model(*old(map)),
            k@,
            v.deep_view(),
        ),
        r is Err ==> store_model(*final(map)) == store_model(*old(map)),
        store_ok(store_model(*final(map))),
{
    let ghost s0 = store_model(*map);
    let ghost vs = v.deep_view();
    let existing: Option<VecDeque<String>> = match map.get(k.as_str()) {
        Option::Some(e) => match &e.value {
            Value::List(l) => Option::Some(l.clone()),
            _ => {
                return Result::Err(DBError::WrongType);
            },
        },
        Option::None => Option::None,
    };
    let mut list: VecDeque<String> = match existing {
        Option::Some(l) => l,
        Option::None => VecDeque::new(),
    };
    proof {
        assert(deque_view(list) =~= list_at(s0, k@));
    }
    if (v.len() as u64) > (i64::MAX as u64) - (list.len() as u64) {
        return Result::Err(DBError::Other("List length overflow".to_owned()));
    }
    let ghost orig = deque_view(list);
    let mut i: usize = 0;
    while i < v.len()
        invariant
            i <= v@.len(),
            vs == v.deep_view(),
            deque_view(list) =~= orig + vs.take(i as int),
            list@.len() == orig.len() + i,
        decreases v@.len() - i,
    {
        let piece: String = v[i].clone();
        proof {
            assert(piece@ == vs[i as int]);
        }
        let ghost before = deque_view(list);
        list.push_back(piece);
        proof {
            assert(list@.len() == before.len() + 1);
            assert(deque_view(list)[list@.len() - 1] == piece@);
            assert(forall|j: int| 0 <= j < before.len() ==> #[trigger] deque_view(list)[j] == before[j]);
        }
        proof {
            assert(deque_view(list) =~= orig + vs.take(i as int + 1));
        }
        i = i + 1;
    }
    proof {
        assert(vs.take(vs.len() as int) =~= vs);
    }
    let new_len = list.len();
    map.insert(k, Entry::new(Value::List(list)));
    proof {
        assert(store_model(*map) =~= rpush_model(s0, k@, vs));
    }
    Result::Ok(new_len)
}

/// Read the rounded inclusive sub-list of the list at `k`.
fn lrange_inner(map: &StringHashMap<Entry>, k: &str, start_idx: i64, stop_idx: i64) -> (r: Result<
    Vec<String>,
    DBError,
>)
    requires
        store_ok(store_model(*map)),
    ensures
        lrange_matches(store_model(*map), k@, start_idx as int, stop_idx as int, r),
{
    let ghost s0 = store_model(*map);
    let entry = match map.get(k) {
        Option::Some(entry) => entry,
        Option::None => {
            return Result::Ok(Vec::new());
        },
    };

    match &entry.value {
        Value::List(l) => {
            proof {
                assert(s0.dom().contains(k@) && s0[k@] == StoredVal::List(deque_view(*l)));
            }
            let l_len = l.len();
            let (lo, hi) = DB::round_list_indices(l_len as i64, start_idx, stop_idx);
            let mut out: Vec<String> = Vec::new();
            let mut i: usize = lo;
            while i < hi
                invariant
                    lo <= i <= hi <= l@.len(),
                    out.deep_view() =~= deque_view(*l).subrange(lo as int, i as int),
                decreases hi - i,
            {
                let piece: String = l[i].clone();
                proof {
                    assert(piece@ == deque_view(*l)[i as int]);
                }
                let ghost before = out.deep_view();
                out.push(piece);
                proof {
                    assert(out@.len() == before.len() + 1);
                    assert(out.deep_view()[out@.len() - 1] == piece@);
                    assert(forall|j: int| 0 <= j < before.len() ==> #[trigger] out.deep_view()[j] == before[j]);
                }
                proof {
                    assert(out.deep_view() =~= deque_view(*l).subrange(lo as int, i as int + 1));
                }
                i = i + 1;
            }
            proof {
                assert(out.deep_view() =~= range_model(deque_view(*l), start_idx as int, stop_idx as int));
            }
            Result::Ok(out)
        },
        _ => Result::Err(DBError::WrongType),
    }
}

impl DB {
    /// Creates an empty storage engine.
    pub fn new() -> DB {
        let map = StringHashMap::<Entry>::new();
        proof {
            assert(store_model(map) =~= Map::<Seq<char>, StoredVal>::empty());
        }
        DB { data: RwLock::new(map, Ghost(StorePred)) }
    }

    /// Get the string value stored against a key. The result reflects one
    /// atomically observed, well-formed store state: the value at the key,
    /// `None` when the key is absent, and a type-mismatch error exactly
    /// when the key holds a list.
    pub fn get(&self, k: &str) -> (r: Result<Option<String>, DBError>)
        ensures
            exists|s: StoreModel| store_ok(s) && get_matches(s, k@, r),
    {
        let handle = self.data.acquire_read();
        let r = get_inner(handle.borrow(), k);
        handle.release_read();
        r
    }

    /// Set a string value against a key, overwriting any existing string.
    /// The outcome reflects one atomically updated, well-formed store
    /// state: a type-mismatch error exactly when the key held a list.
    pub fn set(&self, k: String, v: Value) -> (r: Result<(), DBError>)
        requires
            entry_ok(v@),
        ensures
            exists|s: StoreModel| store_ok(s) && set_matches(s, k@, r),
    {
        let (mut map, write_handle) = self.data.acquire_write();
        let r = set_inner(&mut map, k, v);
        write_handle.release_write(map);
        r
    }

    /// Round a raw list index to a position inside a list of length
    /// `list_len`.
    pub fn round_list_index(list_len: i64, idx: i64) -> (r: usize)
        requires
            1 <= list_len,
            list_len as int <= usize::MAX as int,
        ensures
            r == round_index_spec(list_len as int, idx as int),
    {
        if idx < 0 {
            if idx == i64::MIN {
                return 0;
            }
            let k = list_len + idx;
            if k < 0 {
                return 0;
            } else {
                return k as usize;
            }
        }

        if idx >= list_len {
            return (list_len - 1) as usize;
        }

        idx as usize
    }

    /// Round the start and stop indices and return the half-open window to
    /// read, empty when the stop index lies before the start index.
    pub fn round_list_indices(list_len: i64, start_idx: i64, stop_idx: i64) -> (r: (usize, usize))
        requires
            1 <= list_len,
            list_len as int <= usize::MAX as int,
        ensures
            (r.0 as int, r.1 as int) == round_indices_spec(
                list_len as int,
                start_idx as int,
                stop_idx as int,
            ),
            r.0 <= r.1 <= list_len,
    {
        if stop_idx < start_idx {
            return (0, 0);
        }

        let rounded_start_idx = Self::round_list_index(list_len, start_idx);
        let rounded_stop_idx = Self::round_list_index(list_len, stop_idx);

        if rounded_start_idx < rounded_stop_idx {
            (rounded_start_idx, rounded_stop_idx + 1)
        } else if rounded_stop_idx < rounded_start_idx {
            (0, 0)
        } else {
            (rounded_start_idx, rounded_start_idx + 1)
        }
    }

    /// Add new elements to the head of the list at `k`, creating the list
    /// when the key is absent; the first given value ends up deepest, the
    /// last at the head. The outcome reflects one atomically updated,
    /// well-formed store state: a type-mismatch error exactly when the key
    /// held a string, else the resulting list length.
    pub fn lpush(&self, k: String, v: Vec<String>) -> (r: Result<usize, DBError>)
        requires
            v@.len() >= 1,
        ensures
            exists|s: StoreModel| store_ok(s) && push_matches(s, k@, v.deep_view(), r),
    {
        let (mut map, write_handle) = self.data.acquire_write();
        let r = lpush_inner(&mut map, k, v);
        write_handle.release_write(map);
        r
    }

    /// Add new elements to the tail of the list at `k`, in the order given,
    /// creating the list when the key is absent. The outcome reflects one
    /// atomically updated, well-formed store state: a type-mismatch error
    /// exactly when the key held a string, else the resulting list length.
    pub fn rpush(&self, k: String, v: Vec<String>) -> (r: Result<usize, DBError>)
        requires
            v@.len() >= 1,
        ensures
            exists|s: StoreModel| store_ok(s) && push_matches(s, k@, v.deep_view(), r),
    {
        let (mut map, write_handle) = self.data.acquire_write();
        let r = rpush_inner(&mut map, k, v);
        write_handle.release_write(map);
        r
    }

    /// Read the elements of the list at `k` between `start_idx` and
    /// `stop_idx` inclusive, after index rounding; an absent key reads as an
    /// empty list. The result reflects one atomically observed, well-formed
    /// store state: a type-mismatch error exactly when the key holds a
    /// string.
    pub fn lrange(&self, k: String, start_idx: i64, stop_idx: i64) -> (r: Result<
        Vec<String>,
        DBError,
    >)
        ensures
            exists|s: StoreModel|
                store_ok(s) && lrange_matches(s, k@, start_idx as int, stop_idx as int, r),
    {
        let handle = self.data.acquire_read();
        let r = lrange_inner(handle.borrow(), k.as_str(), start_idx, stop_idx);
        handle.release_read();
        r
    }
}

/// Once a key holds a list, the string-only operations on it report the
/// type mismatch and nothing else, and every store-changing operation —
/// a push at any key, or a successful SET (which can only land elsewhere) —
/// leaves the key holding a list. Since nothing removes keys, the key holds
/// a list forever.
pub proof fn lemma_list_key_permanent(
    s: StoreModel,
    k: Seq<char>,
    k2: Seq<char>,
    v: Seq<char>,
    vs: Seq<Seq<char>>,
    get_result: Result<Option<String>, DBError>,
    set_result: Result<(), DBError>,
)
    requires
        s.dom().contains(k),
        s[k] is List,
        get_matches(s, k, get_result),
        set_matches(s, k, set_result),
    ensures
        get_result matches Err(e) && e is WrongType,
        set_result matches Err(e) && e is WrongType,
        lpush_model(s, k2, vs).dom().contains(k),
        lpush_model(s, k2, vs)[k] is List,
        rpush_model(s, k2, vs).dom().contains(k),
        rpush_model(s, k2, vs)[k] is List,
        k2 != k ==> s.insert(k2, StoredVal::Str(v)).dom().contains(k) && s.insert(
            k2,
            StoredVal::Str(v),
        )[k] is List,
{
}

/// Pushing values onto the head of an absent key leaves them in reverse
/// push order — the last value pushed stands at index 0 — and reading
/// positions 0 through length - 1 returns exactly that.
pub proof fn lemma_lpush_order(s: StoreModel, k: Seq<char>, vs: Seq<Seq<char>>)
    requires
        !s.dom().contains(k),
        1 <= vs.len(),
    ensures
        list_at(lpush_model(s, k, vs), k) == vs.reverse(),
        range_model(list_at(lpush_model(s, k, vs), k), 0, vs.len() - 1) == vs.reverse(),
{
    assert(list_at(lpush_model(s, k, vs), k) =~= vs.reverse());
    let l = list_at(lpush_model(s, k, vs), k);
    assert(range_model(l, 0, vs.len() - 1) =~= vs.reverse());
}

/// Pushing values onto the tail of an absent key keeps them in push order,
/// and reading positions 0 through length - 1 returns exactly that.
pub proof fn lemma_rpush_order(s: StoreModel, k: Seq<char>, vs: Seq<Seq<char>>)
    requires
        !s.dom().contains(k),
        1 <= vs.len(),
    ensures
        list_at(rpush_model(s, k, vs), k) == vs,
        range_model(list_at(rpush_model(s, k, vs), k), 0, vs.len() - 1) == vs,
{
    assert(list_at(rpush_model(s, k, vs), k) =~= vs);
    let l = list_at(rpush_model(s, k, vs), k);
    assert(range_model(l, 0, vs.len() - 1) =~= vs);
}

/// The store after single-value tail pushes applied one at a time, in the
/// order the store's writer lock serialized them.
pub open spec fn rpush_each(s: StoreModel, k: Seq<char>, order: Seq<Seq<char>>) -> StoreModel
    decreases order.len(),
{
    if order.len() == 0 {
        s
    } else {
        rpush_each(rpush_model(s, k, seq![order[0]]), k, order.drop_first())
    }
}

/// Serialized single-value pushes append exactly their values, in the
/// serialization order.
pub proof fn lemma_rpush_each(s: StoreModel, k: Seq<char>, order: Seq<Seq<char>>)
    requires
        can_push(s, k),
    ensures
        order.len() == 0 ==> rpush_each(s, k, order) == s,
        order.len() >= 1 ==> rpush_each(s, k, order) == s.insert(
            k,
            StoredVal::List(list_at(s, k) + order),
        ),
    decreases order.len(),
{
    if order.len() >= 1 {
        let s1 = rpush_model(s, k, seq![order[0]]);
        assert(can_push(s1, k));
        lemma_rpush_each(s1, k, order.drop_first());
        if order.len() == 1 {
            assert(list_at(s, k) + seq![order[0]] =~= list_at(s, k) + order);
        } else {
            assert(list_at(s1, k) =~= list_at(s, k) + seq![order[0]]);
            assert(list_at(s1, k) + order.drop_first() =~= list_at(s, k) + order);
            assert(s1.insert(k, StoredVal::List(list_at(s1, k) + order.drop_first())) =~= s.insert(
                k,
                StoredVal::List(list_at(s, k) + order),
            ));
        }
    }
}

/// Concurrent single-value tail pushes at one key, serialized by the
/// store's writer lock in some order, leave a list holding exactly the
/// pushed values — one each, none lost, none duplicated — in that
/// serialization order.
pub proof fn lemma_concurrent_rpush(s: StoreModel, k: Seq<char>, order: Seq<Seq<char>>)
    requires
        !s.dom().contains(k),
        order.len() >= 1,
    ensures
        rpush_each(s, k, order).dom().contains(k),
        rpush_each(s, k, order)[k] == StoredVal::List(order),
        rpush_each(s, k, order)[k]->List_0.len() == order.len(),
        rpush_each(s, k, order)[k]->List_0.to_multiset() == order.to_multiset(),
{
    lemma_rpush_each(s, k, order);
    assert(list_at(s, k) + order =~= order);
}

} // verus!
