//! Probe formations as stored in an account settings file.
//!
//! They live under `ui` -> `probescanning.customFormations` as
//! `(timestamp, {id: (name, [((x, y, z), range), ...])})`: each tuple is an
//! object `{"tuple": [...]}`, ids are keys such as `int:3`, names are
//! `utf8:` strings and coordinates are numbers (metres). Negative ids are
//! the client's own scratch entries and are never shown or edited.
use vstd::prelude::*;
use crate::json::{
    copy_entries, find_key, get, lemma_view_entries, lemma_view_list, obj_find,
    obj_get, obj_insert, obj_insert_exec, view_entries, view_list, view_value, Json, JsonNumber,
    JsonValue,
};
use crate::groups::{strip_type_prefix, strip_type_prefix_spec};
use crate::clock::{filetime_now, filetime_of};
use crate::text::{chars_of, decimal, decimal_int, i64_to_string, parse_i64, parse_i64_str, push_decimal, push_str};

verus! {

/// One probe of a formation: its position and scan range as the JSON
/// numbers stored in the settings file.
#[derive(Debug, Clone, Copy, PartialEq, Eq, Structural)]
pub struct StoredProbe {
    pub x: JsonNumber,
    pub y: JsonNumber,
    pub z: JsonNumber,
    pub range: JsonNumber,
}

/// A custom probe formation as stored in a settings file.
#[derive(Debug)]
pub struct StoredFormation {
    pub id: i64,
    pub name: String,
    pub probes: Vec<StoredProbe>,
}

/// The view of a [`StoredFormation`].
pub struct FormationSpec {
    pub id: i64,
    pub name: Seq<char>,
    pub probes: Seq<StoredProbe>,
}

impl View for StoredFormation {
    type V = FormationSpec;

    open spec fn view(&self) -> FormationSpec {
        FormationSpec { id: self.id, name: self.name@, probes: self.probes@ }
    }
}

impl Clone for StoredFormation {
    fn clone(&self) -> (r: Self)
        ensures
            r@ == self@,
    {
        StoredFormation { id: self.id, name: self.name.clone(), probes: self.probes.clone() }
    }
}

pub open spec fn formations_view(s: Seq<StoredFormation>) -> Seq<FormationSpec> {
    s.map_values(|f: StoredFormation| f@)
}

/// The value under `k` of an object.
pub open spec fn value_get(v: Json, k: Seq<char>) -> Option<Json> {
    match v {
        Json::Object(e) => get(e, k),
        _ => None,
    }
}

/// The `i`-th element of an array.
pub open spec fn index_get(v: Json, i: int) -> Option<Json> {
    match v {
        Json::Array(a) => if 0 <= i < a.len() {
            Some(a[i])
        } else {
            None
        },
        _ => None,
    }
}

/// The items of a tuple `{"tuple": [...]}`.
pub open spec fn tuple_items(v: Json) -> Option<Seq<Json>> {
    match value_get(v, "tuple"@) {
        Some(Json::Array(a)) => Some(a),
        _ => None,
    }
}

pub open spec fn number_of(v: Json) -> Option<JsonNumber> {
    match v {
        Json::Number(n) => Some(n),
        _ => None,
    }
}

/// A probe `((x, y, z), range)`; extra tuple items are ignored.
pub open spec fn probe_of(v: Json) -> Option<StoredProbe> {
    match tuple_items(v) {
        None => None,
        Some(outer) => if outer.len() < 2 {
            None
        } else {
            match tuple_items(outer[0]) {
                None => None,
                Some(pos) => if pos.len() < 3 {
                    None
                } else {
                    match (number_of(pos[0]), number_of(pos[1]), number_of(pos[2]), number_of(outer[1])) {
                        (Some(x), Some(y), Some(z), Some(range)) => Some(
                            StoredProbe { x, y, z, range },
                        ),
                        _ => None,
                    }
                },
            }
        },
    }
}

/// The probes of a formation: the readable entries of its probe list.
pub open spec fn probes_of(v: Option<Json>) -> Seq<StoredProbe> {
    match v {
        Some(Json::Array(l)) => l.filter_map(|p: Json| probe_of(p)),
        _ => Seq::empty(),
    }
}

/// The formation an entry of the formation map holds, if it is a user
/// formation (a non-negative id) with a name.
pub open spec fn formation_of_entry(e: (Seq<char>, Json)) -> Option<FormationSpec> {
    match parse_i64(strip_type_prefix_spec(e.0)) {
        None => None,
        Some(id) => if id < 0 {
            None
        } else {
            match tuple_items(e.1) {
                None => None,
                Some(t) => if t.len() == 0 {
                    None
                } else {
                    match t[0] {
                        Json::Str(name) => Some(
                            FormationSpec {
                                id,
                                name: strip_type_prefix_spec(name),
                                probes: probes_of(index_get(Json::Array(t), 1)),
                            },
                        ),
                        _ => None,
                    }
                },
            }
        },
    }
}

/// The formation map of a settings file, where it has one.
pub open spec fn formation_map(root: Json) -> Option<Seq<(Seq<char>, Json)>> {
    match value_get(root, "bytes:ui"@) {
        None => None,
        Some(ui) => match value_get(ui, "bytes:probescanning.customFormations"@) {
            None => None,
            Some(f) => match value_get(f, "tuple"@) {
                None => None,
                Some(t) => match index_get(t, 1) {
                    Some(Json::Object(e)) => Some(e),
                    _ => None,
                },
            },
        },
    }
}

/// The user formations of a settings file in map order.
pub open spec fn formations_in_map(root: Json) -> Seq<FormationSpec> {
    match formation_map(root) {
        None => Seq::empty(),
        Some(e) => e.filter_map(|x: (Seq<char>, Json)| formation_of_entry(x)),
    }
}

/// Ids never decrease along the sequence.
pub open spec fn sorted_by_id(s: Seq<FormationSpec>) -> bool {
    forall|i: int, j: int| 0 <= i < j < s.len() ==> (#[trigger] s[i]).id <= (#[trigger] s[j]).id
}

/// The formations with id `x`, in order.
pub open spec fn with_id(s: Seq<FormationSpec>, x: i64) -> Seq<FormationSpec> {
    s.filter(|f: FormationSpec| f.id == x)
}

/// `r` is `s` sorted stably by id: sorted, and holding for each id the same
/// formations in the same order.
pub open spec fn stable_sorted_by_id(r: Seq<FormationSpec>, s: Seq<FormationSpec>) -> bool {
    sorted_by_id(r) && forall|x: i64| #[trigger] with_id(r, x) == with_id(s, x)
}

// ----------------------------------------------------------------------
// Reading
// ----------------------------------------------------------------------

/// The value under `k` of an object value.
pub fn json_get<'a>(v: &'a JsonValue, k: &str) -> (r: Option<&'a JsonValue>)
    ensures
        match r {
            Some(x) => value_get(v@, k@) == Some(x@),
            None => value_get(v@, k@) is None,
        },
{
    match v {
        JsonValue::Object(e) => obj_get(e, k),
        _ => None,
    }
}

/// The `i`-th element of an array value.
pub fn json_index<'a>(v: &'a JsonValue, i: usize) -> (r: Option<&'a JsonValue>)
    ensures
        match r {
            Some(x) => index_get(v@, i as int) == Some(x@),
            None => index_get(v@, i as int) is None,
        },
{
    match v {
        JsonValue::Array(a) => {
            proof {
                lemma_view_list(a@);
            }
            if i < a.len() {
                Some(&a[i])
            } else {
                None
            }
        },
        _ => None,
    }
}

/// The items of a tuple value.
pub fn json_tuple_items<'a>(v: &'a JsonValue) -> (r: Option<&'a Vec<JsonValue>>)
    ensures
        match r {
            Some(a) => tuple_items(v@) == Some(view_list(a@)),
            None => tuple_items(v@) is None,
        },
{
    match json_get(v, "tuple") {
        Some(JsonValue::Array(a)) => Some(a),
        _ => None,
    }
}

fn json_number(v: &JsonValue) -> (r: Option<JsonNumber>)
    ensures
        r == number_of(v@),
{
    match v {
        JsonValue::Number(n) => Some(*n),
        _ => None,
    }
}

/// Reads one probe (see [`probe_of`]).
pub fn parse_probe(v: &JsonValue) -> (r: Option<StoredProbe>)
    ensures
        r == probe_of(v@),
{
    let outer = match json_tuple_items(v) {
        Some(o) => o,
        None => return None,
    };
    proof {
        lemma_view_list(outer@);
    }
    if outer.len() < 2 {
        return None;
    }
    let pos = match json_tuple_items(&outer[0]) {
        Some(p) => p,
        None => return None,
    };
    proof {
        lemma_view_list(pos@);
    }
    if pos.len() < 3 {
        return None;
    }
    let x = json_number(&pos[0]);
    let y = json_number(&pos[1]);
    let z = json_number(&pos[2]);
    let range = json_number(&outer[1]);
    match (x, y, z, range) {
        (Some(x), Some(y), Some(z), Some(range)) => Some(StoredProbe { x, y, z, range }),
        _ => None,
    }
}

/// Reads the probes of a probe list value (see [`probes_of`]).
fn parse_probes(v: Option<&JsonValue>) -> (r: Vec<StoredProbe>)
    ensures
        r@ == probes_of(
            match v {
                Some(x) => Some(x@),
                None => None,
            },
        ),
{
    let mut out: Vec<StoredProbe> = Vec::new();
    match v {
        Some(JsonValue::Array(l)) => {
            proof {
                lemma_view_list(l@);
            }
            let ghost lv = view_list(l@);
            let mut i: usize = 0;
            while i < l.len()
                invariant
                    i <= l@.len(),
                    lv == view_list(l@),
                    lv.len() == l@.len(),
                    forall|j: int| 0 <= j < l@.len() ==> #[trigger] lv[j] == view_value(l@[j]),
                    out@ == lv.take(i as int).filter_map(|p: Json| probe_of(p)),
                decreases l@.len() - i,
            {
                assert(lv.take(i + 1).drop_last() == lv.take(i as int));
                match parse_probe(&l[i]) {
                    Some(p) => {
                        out.push(p);
                    },
                    None => {},
                }
                i = i + 1;
            }
            assert(lv.take(l@.len() as int) == lv);
            out
        },
        _ => out,
    }
}

/// Reads one entry of the formation map (see [`formation_of_entry`]).
fn parse_formation_entry(key: &str, value: &JsonValue) -> (r: Option<StoredFormation>)
    ensures
        match r {
            Some(f) => formation_of_entry((key@, value@)) == Some(f@),
            None => formation_of_entry((key@, value@)) is None,
        },
{
    let id = match parse_i64_str(&chars_of(strip_type_prefix(key))) {
        Some(id) => id,
        None => return None,
    };
    if id < 0 {
        return None;
    }
    let t = match json_tuple_items(value) {
        Some(t) => t,
        None => return None,
    };
    proof {
        lemma_view_list(t@);
    }
    if t.len() == 0 {
        return None;
    }
    let name = match &t[0] {
        JsonValue::Str(s) => s,
        _ => return None,
    };
    let list = if 1 < t.len() {
        Some(&t[1])
    } else {
        None
    };
    assert(index_get(Json::Array(view_list(t@)), 1) == match list {
        Some(x) => Some(x@),
        None => None::<Json>,
    });
    let probes = parse_probes(list);
    Some(StoredFormation { id, name: strip_type_prefix(name.as_str()).to_owned(), probes })
}

/// Sorts formations by id, keeping the order of equal ids.
pub fn sort_formations_by_id(v: Vec<StoredFormation>) -> (r: Vec<StoredFormation>)
    ensures
        stable_sorted_by_id(formations_view(r@), formations_view(v@)),
{
    let ghost input = formations_view(v@);
    let mut out: Vec<StoredFormation> = Vec::new();
    let mut rest = v;
    let mut i: usize = 0;
    let n = rest.len();
    assert(input.take(0) =~= Seq::<FormationSpec>::empty());
    assert forall|x: i64| #[trigger] with_id(formations_view(out@), x) == with_id(input.take(0), x) by {
        reveal(Seq::filter);
        assert(formations_view(out@) =~= Seq::<FormationSpec>::empty());
    }
    while i < n
        invariant
            n == input.len(),
            i <= n,
            rest@.len() == n - i,
            forall|j: int| 0 <= j < n - i ==> (#[trigger] rest@[j])@ == input[i + j],
            sorted_by_id(formations_view(out@)),
            forall|x: i64| #[trigger] with_id(formations_view(out@), x) == with_id(input.take(i as int), x),
        decreases n - i,
    {
        let f = rest.remove(0);
        assert(f@ == input[i as int]);
        let d = f.id;
        let mut p: usize = 0;
        let ghost ov = formations_view(out@);
        while p < out.len() && out[p].id <= d
            invariant
                ov == formations_view(out@),
                p <= out@.len(),
                forall|j: int| 0 <= j < p ==> (#[trigger] ov[j]).id <= d,
            decreases out@.len() - p,
        {
            p = p + 1;
        }
        // every formation from p on has an id above d
        assert forall|j: int| p <= j < ov.len() implies (#[trigger] ov[j]).id > d by {
            if p < ov.len() {
                assert(ov[p as int].id > d);
                assert(ov[p as int].id <= ov[j].id);
            }
        }
        let ghost fv = f@;
        out.insert(p, f);
        proof {
            let nv = formations_view(out@);
            assert(nv =~= ov.take(p as int) + seq![fv] + ov.skip(p as int));
            assert(ov =~= ov.take(p as int) + ov.skip(p as int));
            assert forall|a: int, b: int| 0 <= a < b < nv.len() implies (#[trigger] nv[a]).id <= (
            #[trigger] nv[b]).id by {
                if b < p {
                } else if b == p {
                    assert(nv[a] == ov[a]);
                } else if a == p {
                    assert(nv[b] == ov[b - 1]);
                } else if a < p {
                    assert(nv[a] == ov[a]);
                    assert(nv[b] == ov[b - 1]);
                    assert(ov[a].id <= d);
                } else {
                    assert(nv[a] == ov[a - 1]);
                    assert(nv[b] == ov[b - 1]);
                }
            }
            assert(input.take(i + 1) =~= input.take(i as int).push(fv));
            assert forall|x: i64| #[trigger] with_id(nv, x) == with_id(input.take(i + 1), x) by {
                lemma_with_id_insert(ov, p as int, fv, x);
                lemma_with_id_push(input.take(i as int), fv, x);
            }
        }
        i = i + 1;
    }
    assert(input.take(n as int) == input);
    out
}

proof fn lemma_with_id_push(s: Seq<FormationSpec>, f: FormationSpec, x: i64)
    ensures
        with_id(s.push(f), x) == if f.id == x {
            with_id(s, x).push(f)
        } else {
            with_id(s, x)
        },
{
    reveal(Seq::filter);
    assert(s.push(f).drop_last() == s);
}

proof fn lemma_with_id_insert(ov: Seq<FormationSpec>, p: int, f: FormationSpec, x: i64)
    requires
        0 <= p <= ov.len(),
        forall|j: int| 0 <= j < p ==> (#[trigger] ov[j]).id <= f.id,
        forall|j: int| p <= j < ov.len() ==> (#[trigger] ov[j]).id > f.id,
    ensures
        with_id(ov.take(p) + seq![f] + ov.skip(p), x) == if x == f.id {
            with_id(ov, x).push(f)
        } else {
            with_id(ov, x)
        },
{
    let pr = |g: FormationSpec| g.id == x;
    let a = ov.take(p);
    let b = ov.skip(p);
    Seq::filter_distributes_over_add(a + seq![f], b, pr);
    Seq::filter_distributes_over_add(a, seq![f], pr);
    Seq::filter_distributes_over_add(a, b, pr);
    assert(ov == a + b);
    lemma_with_id_push(Seq::<FormationSpec>::empty(), f, x);
    assert(Seq::<FormationSpec>::empty().push(f) == seq![f]);
    assert(with_id(Seq::<FormationSpec>::empty(), x) == Seq::<FormationSpec>::empty()) by {
        reveal(Seq::filter);
    }
    if x == f.id {
        assert forall|j: int| 0 <= j < b.len() implies !pr(#[trigger] b[j]) by {
            assert(b[j] == ov[p + j]);
        }
        lemma_filter_none(b, pr);
        assert(with_id(ov.take(p) + seq![f] + ov.skip(p), x) =~= with_id(ov, x).push(f));
    } else {
        assert(with_id(ov.take(p) + seq![f] + ov.skip(p), x) =~= with_id(ov, x));
    }
}

/// Filtering a sequence none of whose elements pass leaves nothing.
proof fn lemma_filter_none(s: Seq<FormationSpec>, pr: spec_fn(FormationSpec) -> bool)
    requires
        forall|j: int| 0 <= j < s.len() ==> !pr(#[trigger] s[j]),
    ensures
        s.filter(pr) == Seq::<FormationSpec>::empty(),
    decreases s.len(),
{
    reveal(Seq::filter);
    if s.len() > 0 {
        lemma_filter_none(s.drop_last(), pr);
        assert(!pr(s[s.len() - 1]));
    }
}

/// The user formations of a settings file, sorted by id (equal ids keep
/// their map order). Files without a formation map have none.
pub fn formations_from_settings(root: &JsonValue) -> (r: Vec<StoredFormation>)
    ensures
        stable_sorted_by_id(formations_view(r@), formations_in_map(root@)),
{
    let mut found: Vec<StoredFormation> = Vec::new();
    let entries = match json_get(root, "bytes:ui") {
        None => None,
        Some(ui) => match json_get(ui, "bytes:probescanning.customFormations") {
            None => None,
            Some(f) => match json_get(f, "tuple") {
                None => None,
                Some(t) => match json_index(t, 1) {
                    Some(JsonValue::Object(e)) => Some(e),
                    _ => None,
                },
            },
        },
    };
    match entries {
        None => {
            assert(formations_in_map(root@) == Seq::<FormationSpec>::empty());
            assert(formations_view(found@) =~= Seq::<FormationSpec>::empty());
        },
        Some(e) => {
            proof {
                lemma_view_entries(e@);
            }
            let ghost ve = view_entries(e@);
            assert(formation_map(root@) == Some(ve));
            let mut i: usize = 0;
            while i < e.len()
                invariant
                    i <= e@.len(),
                    ve == view_entries(e@),
                    ve.len() == e@.len(),
                    forall|j: int| 0 <= j < e@.len() ==> #[trigger] ve[j] == (e@[j].0@, view_value(e@[j].1)),
                    formations_view(found@) == ve.take(i as int).filter_map(
                        |x: (Seq<char>, Json)| formation_of_entry(x),
                    ),
                decreases e@.len() - i,
            {
                assert(ve.take(i + 1).drop_last() == ve.take(i as int));
                let ghost before = found@;
                match parse_formation_entry(e[i].0.as_str(), &e[i].1) {
                    Some(f) => {
                        found.push(f);
                        assert(formations_view(found@) =~= formations_view(before) + seq![found@.last()@]);
                    },
                    None => {},
                }
                i = i + 1;
            }
            assert(ve.take(e@.len() as int) == ve);
        },
    }
    sort_formations_by_id(found)
}

// ----------------------------------------------------------------------
// Writing
// ----------------------------------------------------------------------

/// A tuple `{"tuple": [...]}`.
pub open spec fn tuple_json(items: Seq<Json>) -> Json {
    Json::Object(seq![("tuple"@, Json::Array(items))])
}

/// A probe `((x, y, z), range)`.
pub open spec fn probe_json(p: StoredProbe) -> Json {
    tuple_json(
        seq![
            tuple_json(seq![Json::Number(p.x), Json::Number(p.y), Json::Number(p.z)]),
            Json::Number(p.range),
        ],
    )
}

/// A formation `(name, [probe, ...])`.
pub open spec fn formation_json(f: FormationSpec) -> Json {
    tuple_json(
        seq![Json::Str("utf8:"@ + f.name), Json::Array(f.probes.map_values(|p: StoredProbe| probe_json(p)))],
    )
}

/// The map key of a formation, `int:{id}`.
pub open spec fn formation_key(f: FormationSpec) -> Seq<char> {
    "int:"@ + decimal_int(f.id as int)
}

/// A formation map entry that is carried over untouched: one whose key reads
/// as a negative id.
pub open spec fn is_client_entry(e: (Seq<char>, Json)) -> bool {
    match parse_i64(strip_type_prefix_spec(e.0)) {
        Some(id) => id < 0,
        None => false,
    }
}

/// Inserts the entries in order.
pub open spec fn insert_all(e: Seq<(Seq<char>, Json)>, items: Seq<(Seq<char>, Json)>) -> Seq<(Seq<char>, Json)>
    decreases items.len(),
{
    if items.len() == 0 {
        e
    } else {
        let r = insert_all(e, items.drop_last());
        obj_insert(r, items.last().0, items.last().1)
    }
}

/// The existing formation map (empty where there is none).
pub open spec fn existing_map(root: Json) -> Seq<(Seq<char>, Json)> {
    match formation_map(root) {
        Some(e) => e,
        None => Seq::empty(),
    }
}

/// The new formation map: the client's own entries, then the formations.
pub open spec fn new_formation_map(existing: Seq<(Seq<char>, Json)>, fs: Seq<FormationSpec>) -> Seq<(Seq<char>, Json)> {
    insert_all(
        insert_all(Seq::empty(), existing.filter(|e: (Seq<char>, Json)| is_client_entry(e))),
        fs.map_values(|f: FormationSpec| (formation_key(f), formation_json(f))),
    )
}

/// What `Value::as_i64` gives for a value.
pub open spec fn as_i64(v: Json) -> Option<i64> {
    match v {
        Json::Number(JsonNumber::PosInt(u)) => if u <= i64::MAX {
            Some(u as i64)
        } else {
            None
        },
        Json::Number(JsonNumber::NegInt(i)) => Some(i),
        _ => None,
    }
}

/// The number a JSON writer makes of an `i64`.
pub open spec fn number_from_i64(i: i64) -> JsonNumber {
    if i >= 0 {
        JsonNumber::PosInt(i as u64)
    } else {
        JsonNumber::NegInt(i)
    }
}

/// Whether a selected-formation value names one of the formations.
pub open spec fn selection_valid(v: Json, fs: Seq<FormationSpec>) -> bool {
    match as_i64(v) {
        Some(id) => exists|i: int| 0 <= i < fs.len() && (#[trigger] fs[i]).id == id,
        None => false,
    }
}

/// The id a stale selection is reset to: the first formation's, or 0.
pub open spec fn fallback_selection(fs: Seq<FormationSpec>) -> i64 {
    if fs.len() > 0 {
        fs[0].id
    } else {
        0
    }
}

/// Keeps the selected-formation pointer valid: where `ui` holds a selection
/// tuple with a second item that names no formation, that item becomes the
/// fallback id.
pub open spec fn fix_selection(u: Seq<(Seq<char>, Json)>, fs: Seq<FormationSpec>) -> Seq<(Seq<char>, Json)> {
    let sk = "bytes:probescanning.selectedFormationID"@;
    let i = find_key(u, sk);
    if i < 0 {
        u
    } else {
        match u[i].1 {
            Json::Object(o) => {
                let j = find_key(o, "tuple"@);
                if j < 0 {
                    u
                } else {
                    match o[j].1 {
                        Json::Array(a) => if a.len() >= 2 && !selection_valid(a[1], fs) {
                            u.update(
                                i,
                                (
                                    sk,
                                    Json::Object(
                                        o.update(
                                            j,
                                            (
                                                "tuple"@,
                                                Json::Array(
                                                    a.update(1, Json::Number(number_from_i64(fallback_selection(fs)))),
                                                ),
                                            ),
                                        ),
                                    ),
                                ),
                            )
                        } else {
                            u
                        },
                        _ => u,
                    }
                }
            },
            _ => u,
        }
    }
}

/// The settings file after storing `fs` as its formations with the
/// FILETIME stamp `ts`, or `None` where the file or its `ui` section is not
/// an object.
pub open spec fn store_formations(root: Json, fs: Seq<FormationSpec>, ts: u64) -> Option<Json> {
    match root {
        Json::Object(r) => {
            let i = find_key(r, "bytes:ui"@);
            let ui = if i < 0 {
                Json::Object(Seq::empty())
            } else {
                r[i].1
            };
            match ui {
                Json::Object(u) => {
                    let map = new_formation_map(existing_map(root), fs);
                    let u1 = obj_insert(
                        u,
                        "bytes:probescanning.customFormations"@,
                        tuple_json(seq![Json::Str("long:"@ + decimal(ts as nat)), Json::Object(map)]),
                    );
                    Some(Json::Object(obj_insert(r, "bytes:ui"@, Json::Object(fix_selection(u1, fs)))))
                },
                _ => None,
            }
        },
        _ => None,
    }
}

/// `{"tuple": items}`.
fn tuple_value(items: Vec<JsonValue>) -> (r: JsonValue)
    ensures
        r@ == tuple_json(view_list(items@)),
{
    let mut e: Vec<(String, JsonValue)> = Vec::new();
    let ghost iv = view_list(items@);
    e.push(("tuple".to_owned(), JsonValue::Array(items)));
    proof {
        lemma_view_entries(e@);
        assert(view_entries(e@) =~= seq![("tuple"@, Json::Array(iv))]);
    }
    JsonValue::Object(e)
}

fn probe_value(p: StoredProbe) -> (r: JsonValue)
    ensures
        r@ == probe_json(p),
{
    let mut pos: Vec<JsonValue> = Vec::new();
    pos.push(JsonValue::Number(p.x));
    pos.push(JsonValue::Number(p.y));
    pos.push(JsonValue::Number(p.z));
    proof {
        lemma_view_list(pos@);
        assert(view_list(pos@) =~= seq![Json::Number(p.x), Json::Number(p.y), Json::Number(p.z)]);
    }
    let inner = tuple_value(pos);
    let ghost iv = inner@;
    let mut outer: Vec<JsonValue> = Vec::new();
    outer.push(inner);
    outer.push(JsonValue::Number(p.range));
    proof {
        lemma_view_list(outer@);
        assert(view_list(outer@) =~= seq![iv, Json::Number(p.range)]);
    }
    tuple_value(outer)
}

fn formation_value(f: &StoredFormation) -> (r: JsonValue)
    ensures
        r@ == formation_json(f@),
{
    let mut probes: Vec<JsonValue> = Vec::new();
    let mut i: usize = 0;
    while i < f.probes.len()
        invariant
            i <= f.probes@.len(),
            view_list(probes@) == f.probes@.take(i as int).map_values(|p: StoredProbe| probe_json(p)),
        decreases f.probes@.len() - i,
    {
        let v = probe_value(f.probes[i]);
        let ghost before = probes@;
        probes.push(v);
        proof {
            assert(probes@.drop_last() == before);
            assert(f.probes@.take(i + 1).map_values(|p: StoredProbe| probe_json(p)) =~= f.probes@.take(
                i as int,
            ).map_values(|p: StoredProbe| probe_json(p)).push(probe_json(f.probes@[i as int])));
        }
        i = i + 1;
    }
    assert(f.probes@.take(f.probes@.len() as int) == f.probes@);
    let ghost pv = view_list(probes@);
    let mut name = "utf8:".to_owned();
    push_str(&mut name, f.name.as_str());
    let mut items: Vec<JsonValue> = Vec::new();
    let ghost nv = name@;
    items.push(JsonValue::Str(name));
    items.push(JsonValue::Array(probes));
    proof {
        lemma_view_list(items@);
        assert(view_list(items@) =~= seq![Json::Str(nv), Json::Array(pv)]);
    }
    tuple_value(items)
}

/// Builds the new formation map (see [`new_formation_map`]).
fn build_formation_map(existing: Option<&Vec<(String, JsonValue)>>, fs: &[StoredFormation]) -> (r: Vec<(String, JsonValue)>)
    ensures
        view_entries(r@) == new_formation_map(
            match existing {
                Some(e) => view_entries(e@),
                None => Seq::empty(),
            },
            formations_view(fs@),
        ),
{
    let ghost ex = match existing {
        Some(e) => view_entries(e@),
        None => Seq::<(Seq<char>, Json)>::empty(),
    };
    let ghost pred = |e: (Seq<char>, Json)| is_client_entry(e);
    let mut out: Vec<(String, JsonValue)> = Vec::new();
    assert(view_entries(out@) == Seq::<(Seq<char>, Json)>::empty());
    match existing {
        Some(e) => {
            proof {
                lemma_view_entries(e@);
            }
            let mut i: usize = 0;
            while i < e.len()
                invariant
                    i <= e@.len(),
                    ex == view_entries(e@),
                    ex.len() == e@.len(),
                    forall|j: int| 0 <= j < e@.len() ==> #[trigger] ex[j] == (e@[j].0@, view_value(e@[j].1)),
                    pred == (|e: (Seq<char>, Json)| is_client_entry(e)),
                    view_entries(out@) == insert_all(Seq::empty(), ex.take(i as int).filter(pred)),
                decreases e@.len() - i,
            {
                proof {
                    reveal(Seq::filter);
                    assert(ex.take(i + 1).drop_last() == ex.take(i as int));
                }
                let id = parse_i64_str(&chars_of(strip_type_prefix(e[i].0.as_str())));
                let keep = match id {
                    Some(v) => v < 0,
                    None => false,
                };
                if keep {
                    let k = e[i].0.clone();
                    let v = e[i].1.deep_copy();
                    proof {
                        let f = ex.take(i as int).filter(pred);
                        assert(ex.take(i + 1).filter(pred) == f.push(ex[i as int]));
                        assert(f.push(ex[i as int]).drop_last() == f);
                    }
                    obj_insert_exec(&mut out, k, v);
                }
                i = i + 1;
            }
            assert(ex.take(e@.len() as int) == ex);
        },
        None => {
            assert(ex.filter(pred) =~= Seq::<(Seq<char>, Json)>::empty()) by {
                reveal(Seq::filter);
            }
        },
    }
    let ghost base = view_entries(out@);
    let ghost items = formations_view(fs@).map_values(|f: FormationSpec| (formation_key(f), formation_json(f)));
    let mut j: usize = 0;
    while j < fs.len()
        invariant
            j <= fs@.len(),
            items == formations_view(fs@).map_values(|f: FormationSpec| (formation_key(f), formation_json(f))),
            view_entries(out@) == insert_all(base, items.take(j as int)),
        decreases fs@.len() - j,
    {
        let mut key = "int:".to_owned();
        let ids = i64_to_string(fs[j].id);
        push_str(&mut key, ids.as_str());
        let v = formation_value(&fs[j]);
        proof {
            assert(items.take(j + 1).drop_last() == items.take(j as int));
            assert(items[j as int] == (formation_key(fs@[j as int]@), formation_json(fs@[j as int]@)));
        }
        obj_insert_exec(&mut out, key, v);
        j = j + 1;
    }
    assert(items.take(fs@.len() as int) == items);
    out
}

/// Whether a selected-formation value names one of the formations.
fn selection_is_valid(v: &JsonValue, fs: &[StoredFormation]) -> (r: bool)
    ensures
        r == selection_valid(v@, formations_view(fs@)),
{
    let id: Option<i64> = match v {
        JsonValue::Number(JsonNumber::PosInt(u)) => if *u <= 0x7fff_ffff_ffff_ffffu64 {
            Some(*u as i64)
        } else {
            None
        },
        JsonValue::Number(JsonNumber::NegInt(i)) => Some(*i),
        _ => None,
    };
    assert(id == as_i64(v@));
    match id {
        None => false,
        Some(id) => {
            let ghost fv = formations_view(fs@);
            let mut i: usize = 0;
            while i < fs.len()
                invariant
                    i <= fs@.len(),
                    fv == formations_view(fs@),
                    as_i64(v@) == Some(id),
                    forall|j: int| 0 <= j < i ==> (#[trigger] fv[j]).id != id,
                decreases fs@.len() - i,
            {
                if fs[i].id == id {
                    assert(fs@[i as int]@ == fv[i as int]);
                    assert(fv[i as int].id == id);
                    assert(selection_valid(v@, fv));
                    return true;
                }
                i = i + 1;
            }
            false
        },
    }
}

fn fix_selection_exec(u: Vec<(String, JsonValue)>, fs: &[StoredFormation]) -> (r: Vec<(String, JsonValue)>)
    ensures
        view_entries(r@) == fix_selection(view_entries(u@), formations_view(fs@)),
{
    proof {
        lemma_view_entries(u@);
    }
    let mut u = u;
    let i = match obj_find(&u, "bytes:probescanning.selectedFormationID") {
        Some(i) => i,
        None => return u,
    };
    let new_sel = match &u[i].1 {
        JsonValue::Object(o) => {
            proof {
                lemma_view_entries(o@);
            }
            match obj_find(o, "tuple") {
                None => None,
                Some(j) => match &o[j].1 {
                    JsonValue::Array(a) => {
                        proof {
                            lemma_view_list(a@);
                        }
                        if a.len() >= 2 && !selection_is_valid(&a[1], fs) {
                            let fallback: i64 = if fs.len() > 0 {
                                fs[0].id
                            } else {
                                0
                            };
                            let n = if fallback >= 0 {
                                JsonNumber::PosInt(fallback as u64)
                            } else {
                                JsonNumber::NegInt(fallback)
                            };
                            let mut a2: Vec<JsonValue> = Vec::new();
                            let mut m: usize = 0;
                            while m < a.len()
                                invariant
                                    m <= a@.len(),
                                    a@.len() >= 2,
                                    view_list(a@).len() == a@.len(),
                                    forall|k: int| 0 <= k < a@.len() ==> #[trigger] view_list(a@)[k] == view_value(a@[k]),
                                    view_list(a2@) == view_list(a@).take(m as int),
                                decreases a@.len() - m,
                            {
                                let c = a[m].deep_copy();
                                let ghost before = a2@;
                                a2.push(c);
                                proof {
                                    assert(a2@.drop_last() == before);
                                    assert(view_list(a@).take(m + 1) == view_list(a@).take(m as int).push(view_list(a@)[m as int]));
                                }
                                m = m + 1;
                            }
                            assert(view_list(a@).take(a@.len() as int) == view_list(a@));
                            proof {
                                lemma_view_list(a2@);
                            }
                            let ghost av = view_list(a2@);
                            a2.set(1, JsonValue::Number(n));
                            proof {
                                lemma_view_list(a2@);
                                assert(view_list(a2@) =~= av.update(1, Json::Number(n)));
                            }
                            let mut o2 = copy_entries(o);
                            proof {
                                lemma_view_entries(o2@);
                            }
                            let ghost ov = view_entries(o2@);
                            let ghost a2v = view_list(a2@);
                            o2.set(j, ("tuple".to_owned(), JsonValue::Array(a2)));
                            proof {
                                lemma_view_entries(o2@);
                                assert(view_entries(o2@) =~= ov.update(j as int, ("tuple"@, Json::Array(a2v))));
                            }
                            Some(o2)
                        } else {
                            None
                        }
                    },
                    _ => None,
                },
            }
        },
        _ => None,
    };
    match new_sel {
        Some(o2) => {
            let ghost uv = view_entries(u@);
            let ghost o2v = view_entries(o2@);
            u.set(i, ("bytes:probescanning.selectedFormationID".to_owned(), JsonValue::Object(o2)));
            proof {
                lemma_view_entries(u@);
                assert(view_entries(u@) =~= uv.update(i as int, ("bytes:probescanning.selectedFormationID"@, Json::Object(o2v))));
            }
            u
        },
        None => u,
    }
}

/// What storing `fs` stamped `filetime` into the settings `before` does:
/// `after` is [`store_formations`]'s result, or, where that is `None`, the
/// settings stay as they were and the error names the part that is not an
/// object.
pub open spec fn stored_as(before: Json, after: Json, r: Result<(), String>, fs: Seq<FormationSpec>, filetime: u64) -> bool {
    match store_formations(before, fs, filetime) {
        Some(j) => r is Ok && after == j,
        None => r is Err && after == before && (match before {
            Json::Object(_) => r matches Err(e) && e@ == "Settings 'ui' section has an unexpected structure"@,
            _ => r matches Err(e) && e@ == "Settings file has an unexpected structure"@,
        }),
    }
}

/// Stores `formations` as the custom formations of a settings file, stamped
/// with the FILETIME `filetime`: the client's own entries (negative ids)
/// are kept, every other entry is replaced, and a selection that names no
/// formation is reset.
pub fn formations_into_settings_at(root: &mut JsonValue, formations: &[StoredFormation], filetime: u64) -> (r: Result<(), String>)
    ensures
        stored_as(old(root)@, final(root)@, r, formations_view(formations@), filetime),
{
    let existing: Option<&Vec<(String, JsonValue)>> = match json_get(root, "bytes:ui") {
        None => None,
        Some(ui) => match json_get(ui, "bytes:probescanning.customFormations") {
            None => None,
            Some(f) => match json_get(f, "tuple") {
                None => None,
                Some(t) => match json_index(t, 1) {
                    Some(JsonValue::Object(e)) => Some(e),
                    _ => None,
                },
            },
        },
    };
    let map = build_formation_map(existing, formations);
    let mut stamp = "long:".to_owned();
    push_decimal(&mut stamp, filetime);
    let mut items: Vec<JsonValue> = Vec::new();
    let ghost sv = stamp@;
    let ghost mv = view_entries(map@);
    items.push(JsonValue::Str(stamp));
    items.push(JsonValue::Object(map));
    proof {
        lemma_view_list(items@);
        assert(view_list(items@) =~= seq![Json::Str(sv), Json::Object(mv)]);
    }
    let stored = tuple_value(items);
    let ghost old_root = root@;
    let mut taken = JsonValue::Null;
    std::mem::swap(root, &mut taken);
    let mut r = match taken {
        JsonValue::Object(e) => e,
        other => {
            *root = other;
            return Err("Settings file has an unexpected structure".to_owned());
        },
    };
    proof {
        lemma_view_entries(r@);
    }
    let ui_entries: Vec<(String, JsonValue)> = match obj_find(&r, "bytes:ui") {
        None => Vec::new(),
        Some(i) => match &r[i].1 {
            JsonValue::Object(u) => copy_entries(u),
            _ => {
                *root = JsonValue::Object(r);
                return Err("Settings 'ui' section has an unexpected structure".to_owned());
            },
        },
    };
    let mut u1 = ui_entries;
    obj_insert_exec(&mut u1, "bytes:probescanning.customFormations".to_owned(), stored);
    let u2 = fix_selection_exec(u1, formations);
    obj_insert_exec(&mut r, "bytes:ui".to_owned(), JsonValue::Object(u2));
    *root = JsonValue::Object(r);
    Ok(())
}

/// Stores `formations` stamped with the machine's current FILETIME (see
/// [`formations_into_settings_at`]).
pub fn formations_into_settings(root: &mut JsonValue, formations: &[StoredFormation]) -> (r: Result<(), String>)
    ensures
        exists|now: u64| stored_as(old(root)@, final(root)@, r, formations_view(formations@), filetime_of(now)),
{
    let stamp = filetime_now();
    let ghost now = choose|now: u64| stamp == filetime_of(now);
    let r = formations_into_settings_at(root, formations, stamp);
    assert(stored_as(old(root)@, root@, r, formations_view(formations@), filetime_of(now)));
    r
}

} // verus!
