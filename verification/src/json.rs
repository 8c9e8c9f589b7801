//! A JSON document model that keeps object entries in order, the way the
//! settings files' JSON form does (objects behave as insertion-ordered maps).
//!
//! [`JsonValue`] is the executable value; its view [`Json`] is the same tree
//! made of sequences. Object operations are specified on entry sequences:
//! [`find_key`], [`get`], [`obj_insert`] (replace in place or append) and
//! [`obj_swap_remove`] (remove by moving the last entry into the hole).
use vstd::prelude::*;
use crate::text::str_eq;

verus! {

/// A JSON number as the JSON reader distinguishes it: a non-negative
/// integer, a negative integer, or a finite floating-point number held as
/// its IEEE-754 bit pattern.
#[derive(Debug, Clone, Copy, PartialEq, Eq, Structural)]
pub enum JsonNumber {
    PosInt(u64),
    NegInt(i64),
    Float(u64),
}

/// A JSON value.
#[derive(Debug)]
pub enum JsonValue {
    Null,
    Bool(bool),
    Number(JsonNumber),
    Str(String),
    Array(Vec<JsonValue>),
    Object(Vec<(String, JsonValue)>),
}

/// The view of a [`JsonValue`].
pub enum Json {
    Null,
    Bool(bool),
    Number(JsonNumber),
    Str(Seq<char>),
    Array(Seq<Json>),
    Object(Seq<(Seq<char>, Json)>),
}

pub open spec fn view_list(s: Seq<JsonValue>) -> Seq<Json>
    decreases s,
{
    if s.len() == 0 {
        Seq::empty()
    } else {
        view_list(s.drop_last()).push(view_value(s.last()))
    }
}

pub open spec fn view_entries(s: Seq<(String, JsonValue)>) -> Seq<(Seq<char>, Json)>
    decreases s,
{
    if s.len() == 0 {
        Seq::empty()
    } else {
        view_entries(s.drop_last()).push((s.last().0@, view_value(s.last().1)))
    }
}

pub open spec fn view_value(v: JsonValue) -> Json
    decreases v,
{
    match v {
        JsonValue::Null => Json::Null,
        JsonValue::Bool(b) => Json::Bool(b),
        JsonValue::Number(n) => Json::Number(n),
        JsonValue::Str(s) => Json::Str(s@),
        JsonValue::Array(a) => Json::Array(view_list(a@)),
        JsonValue::Object(o) => Json::Object(view_entries(o@)),
    }
}

impl View for JsonValue {
    type V = Json;

    open spec fn view(&self) -> Json {
        view_value(*self)
    }
}

pub proof fn lemma_view_list(s: Seq<JsonValue>)
    ensures
        view_list(s).len() == s.len(),
        forall|i: int| 0 <= i < s.len() ==> #[trigger] view_list(s)[i] == view_value(s[i]),
    decreases s.len(),
{
    if s.len() > 0 {
        lemma_view_list(s.drop_last());
        assert forall|i: int| 0 <= i < s.len() implies #[trigger] view_list(s)[i] == view_value(
            s[i],
        ) by {
            if i < s.len() - 1 {
                assert(s.drop_last()[i] == s[i]);
            }
        }
    }
}

pub proof fn lemma_view_entries(s: Seq<(String, JsonValue)>)
    ensures
        view_entries(s).len() == s.len(),
        forall|i: int|
            0 <= i < s.len() ==> #[trigger] view_entries(s)[i] == (s[i].0@, view_value(s[i].1)),
    decreases s.len(),
{
    if s.len() > 0 {
        lemma_view_entries(s.drop_last());
        assert forall|i: int| 0 <= i < s.len() implies #[trigger] view_entries(s)[i] == (
            s[i].0@,
            view_value(s[i].1),
        ) by {
            if i < s.len() - 1 {
                assert(s.drop_last()[i] == s[i]);
            }
        }
    }
}

/// The entries of an object, or nothing for any other value.
pub open spec fn entries_of(j: Json) -> Seq<(Seq<char>, Json)> {
    match j {
        Json::Object(e) => e,
        _ => Seq::empty(),
    }
}

/// Index of the first entry with key `k`, or -1.
pub open spec fn find_key(e: Seq<(Seq<char>, Json)>, k: Seq<char>) -> int
    decreases e.len(),
{
    if e.len() == 0 {
        -1
    } else if e[0].0 == k {
        0
    } else {
        let r = find_key(e.drop_first(), k);
        if r < 0 {
            -1
        } else {
            r + 1
        }
    }
}

/// The value stored under `k`.
pub open spec fn get(e: Seq<(Seq<char>, Json)>, k: Seq<char>) -> Option<Json> {
    let i = find_key(e, k);
    if i < 0 {
        None
    } else {
        Some(e[i].1)
    }
}

/// No key occurs twice.
pub open spec fn unique_keys(e: Seq<(Seq<char>, Json)>) -> bool {
    forall|i: int, j: int| 0 <= i < j < e.len() ==> #[trigger] e[i].0 != #[trigger] e[j].0
}

/// Inserting into an insertion-ordered map: an existing entry keeps its
/// place and takes the new value; a new key goes to the end.
pub open spec fn obj_insert(e: Seq<(Seq<char>, Json)>, k: Seq<char>, v: Json) -> Seq<(Seq<char>, Json)> {
    let i = find_key(e, k);
    if i < 0 {
        e.push((k, v))
    } else {
        e.update(i, (k, v))
    }
}

/// Removing from an insertion-ordered map by swapping: the last entry takes
/// the place of the removed one.
pub open spec fn obj_swap_remove(e: Seq<(Seq<char>, Json)>, k: Seq<char>) -> Seq<(Seq<char>, Json)> {
    let i = find_key(e, k);
    if i < 0 {
        e
    } else {
        e.update(i, e.last()).drop_last()
    }
}

pub proof fn lemma_find_key(e: Seq<(Seq<char>, Json)>, k: Seq<char>)
    ensures
        -1 <= find_key(e, k) < e.len(),
        find_key(e, k) >= 0 ==> e[find_key(e, k)].0 == k,
        find_key(e, k) >= 0 ==> forall|j: int| 0 <= j < find_key(e, k) ==> e[j].0 != k,
        find_key(e, k) < 0 ==> forall|j: int| 0 <= j < e.len() ==> e[j].0 != k,
    decreases e.len(),
{
    if e.len() > 0 {
        lemma_find_key(e.drop_first(), k);
        assert(forall|j: int| 0 < j < e.len() ==> e.drop_first()[j - 1] == e[j]);
    }
}

pub proof fn lemma_find_key_at(e: Seq<(Seq<char>, Json)>, k: Seq<char>, i: int)
    requires
        0 <= i < e.len(),
        e[i].0 == k,
        forall|j: int| 0 <= j < i ==> e[j].0 != k,
    ensures
        find_key(e, k) == i,
    decreases e.len(),
{
    if i > 0 {
        assert(forall|j: int| 0 <= j < i - 1 ==> e.drop_first()[j] == e[j + 1]);
        lemma_find_key_at(e.drop_first(), k, i - 1);
    }
}

pub proof fn lemma_find_key_unique(e: Seq<(Seq<char>, Json)>, k: Seq<char>, i: int)
    requires
        unique_keys(e),
        0 <= i < e.len(),
        e[i].0 == k,
    ensures
        find_key(e, k) == i,
{
    assert forall|j: int| 0 <= j < i implies e[j].0 != k by {
        assert(e[j].0 != e[i].0);
    }
    lemma_find_key_at(e, k, i);
}

/// Lookup after an insertion.
pub proof fn lemma_get_insert(e: Seq<(Seq<char>, Json)>, k: Seq<char>, v: Json, q: Seq<char>)
    requires
        unique_keys(e),
    ensures
        unique_keys(obj_insert(e, k, v)),
        get(obj_insert(e, k, v), q) == if q == k {
            Some(v)
        } else {
            get(e, q)
        },
{
    lemma_find_key(e, k);
    lemma_find_key(e, q);
    let r = obj_insert(e, k, v);
    let i = find_key(e, k);
    assert forall|a: int, b: int| 0 <= a < b < r.len() implies #[trigger] r[a].0 != #[trigger] r[b].0 by {
        if i < 0 {
            if b == e.len() {
                assert(e[a].0 != k);
            } else {
                assert(e[a].0 != e[b].0);
            }
        } else {
            if a == i {
                assert(e[b].0 != e[i].0);
            } else if b == i {
                assert(e[a].0 != e[i].0);
            } else {
                assert(e[a].0 != e[b].0);
            }
        }
    }
    lemma_find_key(r, q);
    if q == k {
        if i < 0 {
            lemma_find_key_unique(r, q, e.len() as int);
        } else {
            lemma_find_key_unique(r, q, i);
        }
    } else {
        let fq = find_key(e, q);
        if fq >= 0 {
            assert(r[fq].0 == q);
            lemma_find_key_unique(r, q, fq);
        } else {
            assert forall|j: int| 0 <= j < r.len() implies r[j].0 != q by {
                if j < e.len() && j != i {
                    assert(r[j] == e[j]);
                }
            }
        }
    }
}

/// Lookup after a swap-removal.
pub proof fn lemma_get_swap_remove(e: Seq<(Seq<char>, Json)>, k: Seq<char>, q: Seq<char>)
    requires
        unique_keys(e),
    ensures
        unique_keys(obj_swap_remove(e, k)),
        get(obj_swap_remove(e, k), q) == if q == k {
            None
        } else {
            get(e, q)
        },
{
    lemma_find_key(e, k);
    lemma_find_key(e, q);
    let r = obj_swap_remove(e, k);
    let i = find_key(e, k);
    if i >= 0 {
        let last = e.len() - 1;
        assert forall|j: int| 0 <= j < r.len() implies #[trigger] r[j] == if j == i {
            e[last]
        } else {
            e[j]
        } by {}
        assert forall|a: int, b: int| 0 <= a < b < r.len() implies #[trigger] r[a].0
            != #[trigger] r[b].0 by {
            if a == i {
                assert(e[b].0 != e[last].0);
            } else if b == i {
                assert(e[a].0 != e[last].0);
            } else {
                assert(e[a].0 != e[b].0);
            }
        }
        lemma_find_key(r, q);
        if q == k {
            assert forall|j: int| 0 <= j < r.len() implies r[j].0 != q by {
                if j == i {
                    assert(e[last].0 != e[i].0);
                } else {
                    assert(e[j].0 != e[i].0);
                }
            }
        } else {
            let fq = find_key(e, q);
            if fq >= 0 {
                if fq == last {
                    if i != last {
                        assert(r[i].0 == q);
                        lemma_find_key_unique(r, q, i);
                    }
                } else {
                    assert(fq != i);
                    assert(r[fq].0 == q);
                    lemma_find_key_unique(r, q, fq);
                }
            } else {
                assert forall|j: int| 0 <= j < r.len() implies r[j].0 != q by {
                    if j == i {
                        assert(e[last].0 != q);
                    }
                }
            }
        }
    }
}

// ----------------------------------------------------------------------
// Executable operations
// ----------------------------------------------------------------------

impl JsonValue {
    /// A copy of the value (the same tree, freshly allocated).
    pub fn deep_copy(&self) -> (r: JsonValue)
        ensures
            r@ == self@,
        decreases self,
    {
        match self {
            JsonValue::Null => JsonValue::Null,
            JsonValue::Bool(b) => JsonValue::Bool(*b),
            JsonValue::Number(n) => JsonValue::Number(*n),
            JsonValue::Str(s) => JsonValue::Str(s.clone()),
            JsonValue::Array(a) => {
                let mut out: Vec<JsonValue> = Vec::new();
                let mut i: usize = 0;
                while i < a.len()
                    invariant
                        i <= a@.len(),
                        *self == JsonValue::Array(*a),
                        view_list(out@) == view_list(a@.take(i as int)),
                    decreases a@.len() - i,
                {
                    proof {
                        broadcast use vstd::std_specs::vec::axiom_vec_index_decreases;

                        assert(decreases_to!(*self => self->Array_0));
                        assert(decreases_to!(*a => a[i as int]));
                    }
                    let c = a[i].deep_copy();
                    let ghost prev = out@;
                    assert(a@.take(i + 1).drop_last() == a@.take(i as int));
                    out.push(c);
                    assert(out@.drop_last() == prev);
                    i = i + 1;
                }
                assert(a@.take(a@.len() as int) == a@);
                JsonValue::Array(out)
            },
            JsonValue::Object(o) => {
                let out = copy_entries(o);
                JsonValue::Object(out)
            },
        }
    }
}

impl Clone for JsonValue {
    fn clone(&self) -> (r: Self)
        ensures
            r@ == self@,
    {
        self.deep_copy()
    }
}

/// A copy of a sequence of object entries.
pub fn copy_entries(o: &Vec<(String, JsonValue)>) -> (r: Vec<(String, JsonValue)>)
    ensures
        view_entries(r@) == view_entries(o@),
    decreases o,
{
    let mut out: Vec<(String, JsonValue)> = Vec::new();
    let mut i: usize = 0;
    while i < o.len()
        invariant
            i <= o@.len(),
            view_entries(out@) == view_entries(o@.take(i as int)),
        decreases o@.len() - i,
    {
        proof {
            broadcast use vstd::std_specs::vec::axiom_vec_index_decreases;

            assert(decreases_to!(*o => o[i as int]));
            assert(decreases_to!(o[i as int] => o[i as int].1));
        }
        let c = o[i].1.deep_copy();
        let k = o[i].0.clone();
        let ghost prev = out@;
        assert(o@.take(i + 1).drop_last() == o@.take(i as int));
        out.push((k, c));
        assert(out@.drop_last() == prev);
        i = i + 1;
    }
    assert(o@.take(o@.len() as int) == o@);
    out
}

/// Position of the entry with key `k` (see [`find_key`]).
pub fn obj_find(e: &Vec<(String, JsonValue)>, k: &str) -> (r: Option<usize>)
    ensures
        match r {
            Some(i) => i as int == find_key(view_entries(e@), k@) && i < e@.len(),
            None => find_key(view_entries(e@), k@) == -1,
        },
{
    proof {
        lemma_view_entries(e@);
    }
    let ghost ve = view_entries(e@);
    let mut i: usize = 0;
    while i < e.len()
        invariant
            ve == view_entries(e@),
            ve.len() == e@.len(),
            forall|j: int| 0 <= j < e@.len() ==> #[trigger] ve[j] == (e@[j].0@, view_value(e@[j].1)),
            i <= e@.len(),
            forall|j: int| 0 <= j < i ==> ve[j].0 != k@,
        decreases e@.len() - i,
    {
        if str_eq(e[i].0.as_str(), k) {
            proof {
                lemma_find_key_at(ve, k@, i as int);
            }
            return Some(i);
        }
        i = i + 1;
    }
    proof {
        lemma_find_key(ve, k@);
    }
    None
}

/// The value stored under `k` (see [`get`]).
pub fn obj_get<'a>(e: &'a Vec<(String, JsonValue)>, k: &str) -> (r: Option<&'a JsonValue>)
    ensures
        match r {
            Some(v) => get(view_entries(e@), k@) == Some(v@),
            None => get(view_entries(e@), k@) is None,
        },
{
    proof {
        lemma_view_entries(e@);
    }
    match obj_find(e, k) {
        Some(i) => Some(&e[i].1),
        None => None,
    }
}

/// Inserts `v` under `k` (see [`obj_insert`]).
pub fn obj_insert_exec(e: &mut Vec<(String, JsonValue)>, k: String, v: JsonValue)
    ensures
        view_entries(final(e)@) == obj_insert(view_entries(old(e)@), k@, v@),
{
    proof {
        lemma_view_entries(e@);
    }
    match obj_find(e, k.as_str()) {
        Some(i) => {
            let ghost ke = k@;
            let ghost ve = v@;
            e.set(i, (k, v));
            proof {
                lemma_view_entries(e@);
                assert(view_entries(e@) == view_entries(old(e)@).update(i as int, (ke, ve)));
            }
        },
        None => {
            let ghost ke = k@;
            let ghost ve = v@;
            e.push((k, v));
            proof {
                lemma_view_entries(e@);
                assert(view_entries(e@) == view_entries(old(e)@).push((ke, ve)));
            }
        },
    }
}

/// Removes the entry with key `k` by swapping (see [`obj_swap_remove`]).
pub fn obj_swap_remove_exec(e: &mut Vec<(String, JsonValue)>, k: &str)
    ensures
        view_entries(final(e)@) == obj_swap_remove(view_entries(old(e)@), k@),
{
    proof {
        lemma_view_entries(e@);
    }
    match obj_find(e, k) {
        Some(i) => {
            let _ = e.swap_remove(i);
            proof {
                lemma_view_entries(e@);
                let o = view_entries(old(e)@);
                assert(view_entries(e@) == o.update(i as int, o.last()).drop_last());
            }
        },
        None => {},
    }
}

} // verus!
