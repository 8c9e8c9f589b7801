//! Reading back what was stored: the formations written into a settings
//! file are exactly the formations read from it.
use vstd::prelude::*;
use crate::formations::{
    existing_map, fix_selection, formation_json, formation_key, formation_map, formation_of_entry,
    formations_in_map, index_get, insert_all, is_client_entry, new_formation_map, number_from_i64,
    probe_json, probe_of, selection_valid, store_formations, tuple_items, tuple_json, FormationSpec,
    StoredProbe,
};
use crate::groups::strip_type_prefix_spec;
use crate::json::{find_key, get, lemma_find_key, lemma_find_key_at, obj_insert, Json, JsonNumber};
use crate::text::{
    all_digits, decimal, decimal_int, digit_char, digits_value, is_digit,
    lemma_first_index_found, parse_i64,
};

verus! {

/// Lookup of the key just inserted.
pub proof fn lemma_get_insert_same(e: Seq<(Seq<char>, Json)>, k: Seq<char>, v: Json)
    ensures
        get(obj_insert(e, k, v), k) == Some(v),
{
    lemma_find_key(e, k);
    let i = find_key(e, k);
    let r = obj_insert(e, k, v);
    if i < 0 {
        assert forall|j: int| 0 <= j < e.len() implies r[j].0 != k by {
            assert(r[j] == e[j]);
        }
        lemma_find_key_at(r, k, e.len() as int);
    } else {
        assert forall|j: int| 0 <= j < i implies r[j].0 != k by {
            assert(r[j] == e[j]);
        }
        lemma_find_key_at(r, k, i);
    }
}

/// Replacing the value of an entry leaves every lookup of another key as
/// it was.
proof fn lemma_get_update_value(e: Seq<(Seq<char>, Json)>, i: int, v: Json, q: Seq<char>)
    requires
        0 <= i < e.len(),
        q != e[i].0,
    ensures
        get(e.update(i, (e[i].0, v)), q) == get(e, q),
{
    let r = e.update(i, (e[i].0, v));
    lemma_find_key(e, q);
    lemma_find_key(r, q);
    let f = find_key(e, q);
    if f >= 0 {
        assert forall|j: int| 0 <= j < f implies r[j].0 != q by {
            assert(r[j].0 == e[j].0);
        }
        lemma_find_key_at(r, q, f);
    } else {
        if find_key(r, q) >= 0 {
            let g = find_key(r, q);
            assert(r[g].0 == e[g].0);
        }
    }
}

proof fn lemma_fix_selection_keeps(u: Seq<(Seq<char>, Json)>, fs: Seq<FormationSpec>, q: Seq<char>)
    requires
        q != "bytes:probescanning.selectedFormationID"@,
    ensures
        get(fix_selection(u, fs), q) == get(u, q),
{
    let sk = "bytes:probescanning.selectedFormationID"@;
    lemma_find_key(u, sk);
    let i = find_key(u, sk);
    if i >= 0 {
        match u[i].1 {
            Json::Object(o) => {
                let j = find_key(o, "tuple"@);
                if j >= 0 {
                    match o[j].1 {
                        Json::Array(a) => {
                            if fix_selection(u, fs) != u {
                                let nv = fix_selection(u, fs)[i].1;
                                assert(fix_selection(u, fs) == u.update(i, (u[i].0, nv)));
                                lemma_get_update_value(u, i, nv, q);
                            }
                        },
                        _ => {},
                    }
                }
            },
            _ => {},
        }
    }
}

proof fn lemma_decimal_digits(n: nat)
    ensures
        decimal(n).len() >= 1,
        all_digits(decimal(n)),
        digits_value(decimal(n)) == n,
    decreases n,
{
    let c = digit_char(n % 10);
    assert((c as int) == (n % 10) + 48);
    if n >= 10 {
        lemma_decimal_digits(n / 10);
        let d = decimal(n / 10);
        let s = d.push(digit_char(n % 10));
        assert(s.drop_last() == d);
        assert(s.last() == c);
        assert(digits_value(s) == digits_value(d) * 10 + ((c as int) - 48) as nat);
        assert((n / 10) * 10 + n % 10 == n);
        assert forall|i: int| 0 <= i < s.len() implies is_digit(#[trigger] s[i]) by {
            if i < d.len() {
                assert(s[i] == d[i]);
            }
        }
    } else {
        assert(decimal(n) == seq![c]);
        assert(decimal(n).drop_last() =~= Seq::<char>::empty());
        assert(digits_value(Seq::<char>::empty()) == 0);
        assert(digits_value(decimal(n)) == 0 * 10 + ((c as int) - 48) as nat);
    }
}

proof fn lemma_parse_decimal(n: i64)
    requires
        n >= 0,
    ensures
        parse_i64(decimal_int(n as int)) == Some(n),
{
    lemma_decimal_digits(n as nat);
    let s = decimal(n as nat);
    assert(is_digit(s[0]));
}

/// Stripping the type prefix from `{tag}:{rest}` where `tag` has no colon.
proof fn lemma_strip_tagged(tag: Seq<char>, rest: Seq<char>)
    requires
        forall|i: int| 0 <= i < tag.len() ==> tag[i] != ':',
    ensures
        strip_type_prefix_spec(tag + seq![':'] + rest) == rest,
{
    let s = tag + seq![':'] + rest;
    assert(s[tag.len() as int] == ':');
    assert forall|j: int| 0 <= j < tag.len() implies s[j] != ':' by {
        assert(s[j] == tag[j]);
    }
    lemma_first_index_found(s, ':', tag.len() as int);
    assert(s.skip(tag.len() as int + 1) =~= rest);
}

proof fn lemma_key_strip(f: FormationSpec)
    ensures
        strip_type_prefix_spec(formation_key(f)) == decimal_int(f.id as int),
{
    reveal_strlit("int:");
    reveal_strlit("int");
    assert("int:"@ == "int"@ + seq![':']);
    lemma_strip_tagged("int"@, decimal_int(f.id as int));
    assert("int:"@ + decimal_int(f.id as int) == "int"@ + seq![':'] + decimal_int(f.id as int));
}

proof fn lemma_name_strip(name: Seq<char>)
    ensures
        strip_type_prefix_spec("utf8:"@ + name) == name,
{
    reveal_strlit("utf8:");
    reveal_strlit("utf8");
    assert("utf8:"@ == "utf8"@ + seq![':']);
    lemma_strip_tagged("utf8"@, name);
    assert("utf8:"@ + name == "utf8"@ + seq![':'] + name);
}

proof fn lemma_tuple_items(items: Seq<Json>)
    ensures
        tuple_items(tuple_json(items)) == Some(items),
{
    let e = seq![("tuple"@, Json::Array(items))];
    lemma_find_key_at(e, "tuple"@, 0);
}

proof fn lemma_probe_round_trip(p: StoredProbe)
    ensures
        probe_of(probe_json(p)) == Some(p),
{
    let inner = tuple_json(seq![Json::Number(p.x), Json::Number(p.y), Json::Number(p.z)]);
    lemma_tuple_items(seq![inner, Json::Number(p.range)]);
    lemma_tuple_items(seq![Json::Number(p.x), Json::Number(p.y), Json::Number(p.z)]);
}

proof fn lemma_probes_round_trip(ps: Seq<StoredProbe>)
    ensures
        ps.map_values(|p: StoredProbe| probe_json(p)).filter_map(|v: Json| probe_of(v)) == ps,
    decreases ps.len(),
{
    let m = ps.map_values(|p: StoredProbe| probe_json(p));
    if ps.len() > 0 {
        lemma_probes_round_trip(ps.drop_last());
        assert(m.drop_last() == ps.drop_last().map_values(|p: StoredProbe| probe_json(p)));
        lemma_probe_round_trip(ps.last());
        assert(m.last() == probe_json(ps.last()));
        assert(ps.drop_last() + seq![ps.last()] == ps);
    } else {
        assert(m.len() == 0);
    }
}

proof fn lemma_formation_round_trip(f: FormationSpec)
    requires
        f.id >= 0,
    ensures
        formation_of_entry((formation_key(f), formation_json(f))) == Some(f),
{
    lemma_key_strip(f);
    lemma_parse_decimal(f.id);
    let probes = f.probes.map_values(|p: StoredProbe| probe_json(p));
    let t = seq![Json::Str("utf8:"@ + f.name), Json::Array(probes)];
    lemma_tuple_items(t);
    lemma_name_strip(f.name);
    assert(index_get(Json::Array(t), 1) == Some(Json::Array(probes)));
    lemma_probes_round_trip(f.probes);
}

proof fn lemma_filter_map_add<A, B>(a: Seq<A>, b: Seq<A>, f: spec_fn(A) -> Option<B>)
    ensures
        (a + b).filter_map(f) == a.filter_map(f) + b.filter_map(f),
    decreases b.len(),
{
    if b.len() == 0 {
        assert(a + b == a);
        assert(b.filter_map(f) == Seq::<B>::empty());
        assert(a.filter_map(f) + Seq::<B>::empty() == a.filter_map(f));
    } else {
        lemma_filter_map_add(a, b.drop_last(), f);
        assert((a + b).drop_last() == a + b.drop_last());
        assert((a + b).last() == b.last());
        match f(b.last()) {
            Some(x) => {
                assert(a.filter_map(f) + b.drop_last().filter_map(f) + seq![x] == a.filter_map(f) + (
                b.drop_last().filter_map(f) + seq![x]));
            },
            None => {},
        }
    }
}

/// Entries whose keys read as a negative id give no formation.
proof fn lemma_client_entries_vanish(e: Seq<(Seq<char>, Json)>)
    requires
        forall|i: int| 0 <= i < e.len() ==> is_client_entry(#[trigger] e[i]),
    ensures
        e.filter_map(|x: (Seq<char>, Json)| formation_of_entry(x)) == Seq::<FormationSpec>::empty(),
    decreases e.len(),
{
    if e.len() > 0 {
        lemma_client_entries_vanish(e.drop_last());
        assert(is_client_entry(e[e.len() - 1]));
    }
}

/// Every key of a map built from client entries is a client key.
proof fn lemma_insert_all_client(e: Seq<(Seq<char>, Json)>, items: Seq<(Seq<char>, Json)>)
    requires
        forall|i: int| 0 <= i < e.len() ==> is_client_entry(#[trigger] e[i]),
        forall|i: int| 0 <= i < items.len() ==> is_client_entry(#[trigger] items[i]),
    ensures
        forall|i: int|
            0 <= i < insert_all(e, items).len() ==> is_client_entry(#[trigger] insert_all(e, items)[i]),
    decreases items.len(),
{
    if items.len() > 0 {
        lemma_insert_all_client(e, items.drop_last());
        let r = insert_all(e, items.drop_last());
        lemma_find_key(r, items.last().0);
        assert(is_client_entry(items[items.len() - 1]));
        let k = items.last().0;
        let j = find_key(r, k);
        assert forall|i: int| 0 <= i < obj_insert(r, k, items.last().1).len() implies is_client_entry(
            #[trigger] obj_insert(r, k, items.last().1)[i],
        ) by {
            if j < 0 {
                if i < r.len() {
                    assert(obj_insert(r, k, items.last().1)[i] == r[i]);
                }
            } else {
                if i != j {
                    assert(obj_insert(r, k, items.last().1)[i] == r[i]);
                }
            }
        }
    }
}

/// Inserting entries with fresh, distinct keys appends them.
proof fn lemma_insert_all_fresh(e: Seq<(Seq<char>, Json)>, items: Seq<(Seq<char>, Json)>)
    requires
        forall|i: int, j: int| 0 <= i < e.len() && 0 <= j < items.len() ==> (#[trigger] e[i]).0 != (
        #[trigger] items[j]).0,
        forall|i: int, j: int| 0 <= i < j < items.len() ==> (#[trigger] items[i]).0 != (
        #[trigger] items[j]).0,
    ensures
        insert_all(e, items) == e + items,
    decreases items.len(),
{
    if items.len() > 0 {
        let d = items.drop_last();
        assert forall|i: int, j: int| 0 <= i < e.len() && 0 <= j < d.len() implies (#[trigger] e[i]).0
            != (#[trigger] d[j]).0 by {
            assert(d[j] == items[j]);
        }
        assert forall|i: int, j: int| 0 <= i < j < d.len() implies (#[trigger] d[i]).0 != (
        #[trigger] d[j]).0 by {
            assert(d[i] == items[i]);
            assert(d[j] == items[j]);
        }
        lemma_insert_all_fresh(e, d);
        let r = e + d;
        let k = items.last().0;
        assert forall|m: int| 0 <= m < r.len() implies r[m].0 != k by {
            if m < e.len() {
                assert(e[m].0 != items[items.len() - 1].0);
            } else {
                assert(r[m] == items[m - e.len()]);
                assert(items[m - e.len()].0 != items[items.len() - 1].0);
            }
        }
        lemma_find_key(r, k);
        assert(r.push(items.last()) == e + items);
    }
}

/// Storing formations and reading them back gives the same formations, in
/// the order given, where their ids are non-negative and distinct; the
/// client's own entries (negative ids) stay hidden.
pub proof fn lemma_store_then_read(root: Json, fs: Seq<FormationSpec>, ts: u64)
    requires
        store_formations(root, fs, ts) is Some,
        forall|i: int| 0 <= i < fs.len() ==> (#[trigger] fs[i]).id >= 0,
        forall|i: int, j: int| 0 <= i < j < fs.len() ==> (#[trigger] fs[i]).id != (#[trigger] fs[j]).id,
    ensures
        formations_in_map(store_formations(root, fs, ts).unwrap()) == fs,
{
    let r = match root {
        Json::Object(r) => r,
        _ => Seq::empty(),
    };
    let i = find_key(r, "bytes:ui"@);
    let u = match (if i < 0 {
        Json::Object(Seq::empty())
    } else {
        r[i].1
    }) {
        Json::Object(u) => u,
        _ => Seq::empty(),
    };
    let map = new_formation_map(existing_map(root), fs);
    let stored = tuple_json(seq![Json::Str("long:"@ + decimal(ts as nat)), Json::Object(map)]);
    let fk = "bytes:probescanning.customFormations"@;
    let u1 = obj_insert(u, fk, stored);
    let u2 = fix_selection(u1, fs);
    let out = Json::Object(obj_insert(r, "bytes:ui"@, Json::Object(u2)));
    assert(store_formations(root, fs, ts) == Some(out));
    // the formation map is where the reader looks
    lemma_get_insert_same(r, "bytes:ui"@, Json::Object(u2));
    reveal_strlit("bytes:probescanning.customFormations");
    reveal_strlit("bytes:probescanning.selectedFormationID");
    assert(fk.len() != "bytes:probescanning.selectedFormationID"@.len());
    lemma_fix_selection_keeps(u1, fs, fk);
    lemma_get_insert_same(u, fk, stored);
    lemma_tuple_items(seq![Json::Str("long:"@ + decimal(ts as nat)), Json::Object(map)]);
    let e = seq![("tuple"@, Json::Array(seq![Json::Str("long:"@ + decimal(ts as nat)), Json::Object(map)]))];
    lemma_find_key_at(e, "tuple"@, 0);
    assert(formation_map(out) == Some(map));
    // the map is the client entries followed by the formations
    let kept = existing_map(root).filter(|x: (Seq<char>, Json)| is_client_entry(x));
    let m0 = insert_all(Seq::empty(), kept);
    let items = fs.map_values(|f: FormationSpec| (formation_key(f), formation_json(f)));
    assert forall|a: int| 0 <= a < kept.len() implies is_client_entry(#[trigger] kept[a]) by {
        let pr = |x: (Seq<char>, Json)| is_client_entry(x);
        existing_map(root).lemma_filter_pred(pr, a);
    }
    lemma_insert_all_client(Seq::empty(), kept);
    assert forall|a: int, b: int| 0 <= a < m0.len() && 0 <= b < items.len() implies (#[trigger] m0[a]).0
        != (#[trigger] items[b]).0 by {
        assert(is_client_entry(m0[a]));
        assert(items[b] == (formation_key(fs[b]), formation_json(fs[b])));
        lemma_key_strip(fs[b]);
        lemma_parse_decimal(fs[b].id);
    }
    assert forall|a: int, b: int| 0 <= a < b < items.len() implies (#[trigger] items[a]).0 != (
    #[trigger] items[b]).0 by {
        lemma_key_strip(fs[a]);
        lemma_key_strip(fs[b]);
        lemma_parse_decimal(fs[a].id);
        lemma_parse_decimal(fs[b].id);
        assert(fs[a].id != fs[b].id);
    }
    lemma_insert_all_fresh(m0, items);
    assert(map == m0 + items);
    let fe = |x: (Seq<char>, Json)| formation_of_entry(x);
    lemma_filter_map_add(m0, items, fe);
    lemma_client_entries_vanish(m0);
    assert(items.filter_map(fe) == fs) by {
        lemma_items_round_trip(fs);
    }
    assert(Seq::<FormationSpec>::empty() + fs == fs);
}

proof fn lemma_items_round_trip(fs: Seq<FormationSpec>)
    requires
        forall|i: int| 0 <= i < fs.len() ==> (#[trigger] fs[i]).id >= 0,
    ensures
        fs.map_values(|f: FormationSpec| (formation_key(f), formation_json(f))).filter_map(
            |x: (Seq<char>, Json)| formation_of_entry(x),
        ) == fs,
    decreases fs.len(),
{
    let items = fs.map_values(|f: FormationSpec| (formation_key(f), formation_json(f)));
    if fs.len() > 0 {
        let d = fs.drop_last();
        assert forall|i: int| 0 <= i < d.len() implies (#[trigger] d[i]).id >= 0 by {
            assert(d[i] == fs[i]);
        }
        lemma_items_round_trip(d);
        assert(items.drop_last() == d.map_values(|f: FormationSpec| (formation_key(f), formation_json(f))));
        lemma_formation_round_trip(fs.last());
        assert(d + seq![fs.last()] == fs);
    } else {
        assert(items.len() == 0);
    }
}

/// The formation a settings file has selected: the second item of the
/// selection tuple in its `ui` section, where it holds one.
pub open spec fn selected_formation(root: Json) -> Option<Json> {
    match root {
        Json::Object(r) => match get(r, "bytes:ui"@) {
            Some(Json::Object(u)) => match get(u, "bytes:probescanning.selectedFormationID"@) {
                Some(Json::Object(o)) => match get(o, "tuple"@) {
                    Some(Json::Array(a)) => if a.len() >= 2 {
                        Some(a[1])
                    } else {
                        None
                    },
                    _ => None,
                },
                _ => None,
            },
            _ => None,
        },
        _ => None,
    }
}

/// The selection `fix_selection` leaves names a formation, or is 0 where
/// there are none.
proof fn lemma_fix_selection_valid(u: Seq<(Seq<char>, Json)>, fs: Seq<FormationSpec>)
    ensures
        ({
            let u2 = fix_selection(u, fs);
            match get(u2, "bytes:probescanning.selectedFormationID"@) {
                Some(Json::Object(o)) => match get(o, "tuple"@) {
                    Some(Json::Array(a)) => a.len() >= 2 ==> (selection_valid(a[1], fs) || (fs.len() == 0
                        && a[1] == Json::Number(JsonNumber::PosInt(0)))),
                    _ => true,
                },
                _ => true,
            }
        }),
{
    let sk = "bytes:probescanning.selectedFormationID"@;
    lemma_find_key(u, sk);
    let i = find_key(u, sk);
    if i >= 0 {
        match u[i].1 {
            Json::Object(o) => {
                lemma_find_key(o, "tuple"@);
                let j = find_key(o, "tuple"@);
                if j >= 0 {
                    match o[j].1 {
                        Json::Array(a) => {
                            if a.len() >= 2 && !selection_valid(a[1], fs) {
                                let f = if fs.len() > 0 {
                                    fs[0].id
                                } else {
                                    0
                                };
                                let a2 = a.update(1, Json::Number(number_from_i64(f)));
                                let o2 = o.update(j, ("tuple"@, Json::Array(a2)));
                                let u2 = u.update(i, (sk, Json::Object(o2)));
                                assert(fix_selection(u, fs) == u2);
                                lemma_find_key_at(u2, sk, i);
                                lemma_find_key_at(o2, "tuple"@, j);
                                if fs.len() > 0 {
                                    assert(fs[0].id == f);
                                    assert(selection_valid(a2[1], fs));
                                }
                            }
                        },
                        _ => {},
                    }
                }
            },
            _ => {},
        }
    }
}

/// Law: after formations are stored in a settings file, the formation it
/// has selected (where it holds a selection) is one of them, or 0 where
/// there are none: a stale selection is repaired, a valid one kept.
pub proof fn lemma_selection_after_store(root: Json, fs: Seq<FormationSpec>, ts: u64)
    requires
        store_formations(root, fs, ts) is Some,
    ensures
        selected_formation(store_formations(root, fs, ts).unwrap()) matches Some(v) ==> (selection_valid(v, fs)
            || (fs.len() == 0 && v == Json::Number(JsonNumber::PosInt(0)))),
{
    let r = match root {
        Json::Object(r) => r,
        _ => Seq::empty(),
    };
    let i = find_key(r, "bytes:ui"@);
    let u = match (if i < 0 {
        Json::Object(Seq::empty())
    } else {
        r[i].1
    }) {
        Json::Object(u) => u,
        _ => Seq::empty(),
    };
    let map = new_formation_map(existing_map(root), fs);
    let stored = tuple_json(seq![Json::Str("long:"@ + decimal(ts as nat)), Json::Object(map)]);
    let u1 = obj_insert(u, "bytes:probescanning.customFormations"@, stored);
    let u2 = fix_selection(u1, fs);
    let out = Json::Object(obj_insert(r, "bytes:ui"@, Json::Object(u2)));
    assert(store_formations(root, fs, ts) == Some(out));
    lemma_get_insert_same(r, "bytes:ui"@, Json::Object(u2));
    lemma_fix_selection_valid(u1, fs);
}

/// Looking up another key than the one inserted finds what was there.
proof fn lemma_get_insert_other(e: Seq<(Seq<char>, Json)>, k: Seq<char>, v: Json, q: Seq<char>)
    requires
        q != k,
    ensures
        get(obj_insert(e, k, v), q) == get(e, q),
{
    lemma_find_key(e, k);
    let i = find_key(e, k);
    if i >= 0 {
        assert(obj_insert(e, k, v) == e.update(i, (e[i].0, v)));
        lemma_get_update_value(e, i, v, q);
    } else {
        let r = e.push((k, v));
        lemma_find_key(e, q);
        lemma_find_key(r, q);
        let f = find_key(e, q);
        if f >= 0 {
            assert forall|j: int| 0 <= j < f implies r[j].0 != q by {
                assert(r[j] == e[j]);
            }
            lemma_find_key_at(r, q, f);
        } else if find_key(r, q) >= 0 {
            let g = find_key(r, q);
            if g < e.len() {
                assert(r[g] == e[g]);
            }
        }
    }
}

/// The selection a `ui` section holds: the second item of its selection
/// tuple.
pub open spec fn ui_selection(u: Seq<(Seq<char>, Json)>) -> Option<Json> {
    match get(u, "bytes:probescanning.selectedFormationID"@) {
        Some(Json::Object(o)) => match get(o, "tuple"@) {
            Some(Json::Array(a)) => if a.len() >= 2 {
                Some(a[1])
            } else {
                None
            },
            _ => None,
        },
        _ => None,
    }
}

/// What `fix_selection` does to the selection: a valid one stays, a stale
/// one becomes the first formation's id (0 where there is none).
proof fn lemma_fix_selection_effect(u: Seq<(Seq<char>, Json)>, fs: Seq<FormationSpec>)
    ensures
        ui_selection(fix_selection(u, fs)) == match ui_selection(u) {
            Some(v) => Some(
                if selection_valid(v, fs) {
                    v
                } else {
                    Json::Number(number_from_i64(if fs.len() > 0 { fs[0].id } else { 0 }))
                },
            ),
            None => None,
        },
{
    let sk = "bytes:probescanning.selectedFormationID"@;
    lemma_find_key(u, sk);
    let i = find_key(u, sk);
    if i >= 0 {
        match u[i].1 {
            Json::Object(o) => {
                lemma_find_key(o, "tuple"@);
                let j = find_key(o, "tuple"@);
                if j >= 0 {
                    match o[j].1 {
                        Json::Array(a) => {
                            if a.len() >= 2 && !selection_valid(a[1], fs) {
                                let f = if fs.len() > 0 {
                                    fs[0].id
                                } else {
                                    0
                                };
                                let a2 = a.update(1, Json::Number(number_from_i64(f)));
                                let o2 = o.update(j, ("tuple"@, Json::Array(a2)));
                                let u2 = u.update(i, (sk, Json::Object(o2)));
                                assert(fix_selection(u, fs) == u2);
                                lemma_find_key_at(u2, sk, i);
                                lemma_find_key_at(o2, "tuple"@, j);
                            }
                        },
                        _ => {},
                    }
                }
            },
            _ => {},
        }
    }
}

/// Law: storing formations keeps a selection that already names one of
/// them, and replaces one that names none by the first formation's id (0
/// where there are none); a file without a selection gets none.
pub proof fn lemma_selection_kept_or_repaired(root: Json, fs: Seq<FormationSpec>, ts: u64)
    requires
        store_formations(root, fs, ts) is Some,
    ensures
        selected_formation(store_formations(root, fs, ts).unwrap()) == match selected_formation(root) {
            Some(v) => Some(
                if selection_valid(v, fs) {
                    v
                } else {
                    Json::Number(number_from_i64(if fs.len() > 0 { fs[0].id } else { 0 }))
                },
            ),
            None => None,
        },
{
    let r = match root {
        Json::Object(r) => r,
        _ => Seq::empty(),
    };
    lemma_find_key(r, "bytes:ui"@);
    let i = find_key(r, "bytes:ui"@);
    let u = match (if i < 0 {
        Json::Object(Seq::empty())
    } else {
        r[i].1
    }) {
        Json::Object(u) => u,
        _ => Seq::empty(),
    };
    let map = new_formation_map(existing_map(root), fs);
    let stored = tuple_json(seq![Json::Str("long:"@ + decimal(ts as nat)), Json::Object(map)]);
    let fk = "bytes:probescanning.customFormations"@;
    let sk = "bytes:probescanning.selectedFormationID"@;
    let u1 = obj_insert(u, fk, stored);
    let u2 = fix_selection(u1, fs);
    let out = Json::Object(obj_insert(r, "bytes:ui"@, Json::Object(u2)));
    assert(store_formations(root, fs, ts) == Some(out));
    lemma_get_insert_same(r, "bytes:ui"@, Json::Object(u2));
    reveal_strlit("bytes:probescanning.customFormations");
    reveal_strlit("bytes:probescanning.selectedFormationID");
    assert(fk.len() != sk.len());
    lemma_get_insert_other(u, fk, stored, sk);
    assert(ui_selection(u1) == ui_selection(u));
    lemma_fix_selection_effect(u1, fs);
    assert(selected_formation(out) == ui_selection(u2));
    if i < 0 {
        assert(get(u, sk) is None);
        assert(selected_formation(root) is None);
    } else {
        assert(selected_formation(root) == ui_selection(u));
    }
}

/// Law: a probe is read from the layout the client writes,
/// `{"tuple": [{"tuple": [x, y, z]}, range]}`: the position's items are x,
/// y and z in that order and the second item is the range; the library
/// writes a probe in that same layout.
pub proof fn lemma_probe_layout(a: JsonNumber, b: JsonNumber, c: JsonNumber, r: JsonNumber)
    ensures
        ({
            let pos = Json::Object(seq![("tuple"@, Json::Array(seq![Json::Number(a), Json::Number(b), Json::Number(c)]))]);
            let v = Json::Object(seq![("tuple"@, Json::Array(seq![pos, Json::Number(r)]))]);
            &&& probe_of(v) == Some(StoredProbe { x: a, y: b, z: c, range: r })
            &&& probe_json(StoredProbe { x: a, y: b, z: c, range: r }) == v
        }),
{
    let items = seq![Json::Number(a), Json::Number(b), Json::Number(c)];
    let pos = Json::Object(seq![("tuple"@, Json::Array(items))]);
    lemma_tuple_items(items);
    lemma_tuple_items(seq![pos, Json::Number(r)]);
}

} // verus!
