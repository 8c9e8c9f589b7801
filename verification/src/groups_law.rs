//! What a selective copy means key by key.
//!
//! Within a file, no two top-level keys name the same section (keys differ
//! after their type prefix is removed) and the `ui` section is an object
//! with distinct keys. Then, after copying a list of groups:
//! * a top-level section covered by a section group has exactly the
//!   source's value (absent where the source lacks it);
//! * a `ui` key covered by a prefix group has exactly the source's value;
//! * everything else keeps the target's value.
use vstd::prelude::*;
use crate::groups::{
    copy_group, copy_groups, copy_one_section, copy_prefixed, copy_sections, copy_ui, group_rule_spec,
    insert_matched, key_matches_spec, retain_unmatched, section_index, section_key, source_ui,
    strip_type_prefix_spec, GroupRuleSpec,
};
use crate::json::{
    find_key, get, lemma_find_key, lemma_find_key_unique, lemma_get_insert, lemma_get_swap_remove,
    obj_insert, obj_swap_remove, unique_keys, Json,
};
use crate::text::{lemma_first_index_found, split_once, starts_with};

verus! {

/// No two keys name the same section.
pub open spec fn strip_distinct(e: Seq<(Seq<char>, Json)>) -> bool {
    forall|i: int, j: int|
        0 <= i < j < e.len() ==> strip_type_prefix_spec(#[trigger] e[i].0) != strip_type_prefix_spec(
            #[trigger] e[j].0,
        )
}

/// The `ui` section is absent or an object.
pub open spec fn ui_is_object(e: Seq<(Seq<char>, Json)>) -> bool {
    match get(e, section_key(e, "ui"@)) {
        Some(v) => v is Object,
        None => true,
    }
}

/// The shape a settings file's JSON form has.
pub open spec fn well_shaped(e: Seq<(Seq<char>, Json)>) -> bool {
    strip_distinct(e) && unique_keys(source_ui(e)) && ui_is_object(e)
}

/// A section named by one of the section groups in `groups`.
pub open spec fn section_selected(groups: Seq<Seq<char>>, sec: Seq<char>) -> bool {
    exists|i: int|
        0 <= i < groups.len() && match group_rule_spec(#[trigger] groups[i]) {
            Some(GroupRuleSpec::Sections(ss)) => ss.contains(sec),
            _ => false,
        }
}

/// A `ui` key matched by one of the prefix groups in `groups`.
pub open spec fn ui_key_selected(groups: Seq<Seq<char>>, k: Seq<char>) -> bool {
    exists|i: int|
        0 <= i < groups.len() && match group_rule_spec(#[trigger] groups[i]) {
            Some(GroupRuleSpec::UiPrefixes(p)) => key_matches_spec(k, p),
            _ => false,
        }
}

proof fn lemma_strip_distinct_unique(e: Seq<(Seq<char>, Json)>)
    requires
        strip_distinct(e),
    ensures
        unique_keys(e),
{
    assert forall|i: int, j: int| 0 <= i < j < e.len() implies #[trigger] e[i].0 != #[trigger] e[j].0 by {
        assert(strip_type_prefix_spec(e[i].0) != strip_type_prefix_spec(e[j].0));
    }
}

proof fn lemma_bytes_key_strip(sec: Seq<char>)
    ensures
        strip_type_prefix_spec("bytes:"@ + sec) == sec,
{
    reveal_strlit("bytes:");
    let s = "bytes:"@ + sec;
    assert(s[5] == ':');
    assert forall|j: int| 0 <= j < 5 implies s[j] != ':' by {}
    lemma_first_index_found(s, ':', 5);
    assert(split_once(s, ':') == Some((s.take(5), s.skip(6))));
    assert(s.skip(6) == sec);
}

proof fn lemma_section_index_props(e: Seq<(Seq<char>, Json)>, sec: Seq<char>)
    ensures
        -1 <= section_index(e, sec) < e.len(),
        section_index(e, sec) >= 0 ==> strip_type_prefix_spec(e[section_index(e, sec)].0) == sec,
        section_index(e, sec) < 0 ==> forall|j: int|
            0 <= j < e.len() ==> strip_type_prefix_spec(#[trigger] e[j].0) != sec,
    decreases e.len(),
{
    if e.len() > 0 {
        lemma_section_index_props(e.drop_first(), sec);
        assert(forall|j: int| 0 < j < e.len() ==> e.drop_first()[j - 1] == e[j]);
    }
}

proof fn lemma_section_index_distinct(e: Seq<(Seq<char>, Json)>, sec: Seq<char>, i: int)
    requires
        strip_distinct(e),
        0 <= i < e.len(),
        strip_type_prefix_spec(e[i].0) == sec,
    ensures
        section_index(e, sec) == i,
{
    lemma_section_index_props(e, sec);
    let si = section_index(e, sec);
    if si != i {
        if si < 0 {
            assert(strip_type_prefix_spec(e[i].0) != sec);
        } else if si < i {
            assert(strip_type_prefix_spec(e[si].0) != strip_type_prefix_spec(e[i].0));
        } else {
            assert(strip_type_prefix_spec(e[i].0) != strip_type_prefix_spec(e[si].0));
        }
    }
}

/// Under distinct section names, the key of a section has that section's
/// name, and any key with that name is the section key.
proof fn lemma_section_key(e: Seq<(Seq<char>, Json)>, sec: Seq<char>)
    requires
        strip_distinct(e),
    ensures
        strip_type_prefix_spec(section_key(e, sec)) == sec,
        forall|q: Seq<char>|
            strip_type_prefix_spec(q) == sec && q != section_key(e, sec) ==> find_key(e, q) < 0,
        find_key(e, section_key(e, sec)) == section_index(e, sec),
{
    lemma_section_index_props(e, sec);
    lemma_bytes_key_strip(sec);
    lemma_strip_distinct_unique(e);
    let si = section_index(e, sec);
    assert forall|q: Seq<char>| strip_type_prefix_spec(q) == sec && q != section_key(e, sec) implies find_key(e, q) < 0 by {
        lemma_find_key(e, q);
        if find_key(e, q) >= 0 {
            let f = find_key(e, q);
            assert(strip_type_prefix_spec(e[f].0) == sec);
            lemma_section_index_distinct(e, sec, f);
        }
    }
    if si >= 0 {
        lemma_find_key_unique(e, e[si].0, si);
    } else {
        lemma_find_key(e, section_key(e, sec));
        if find_key(e, section_key(e, sec)) >= 0 {
            let f = find_key(e, section_key(e, sec));
            assert(strip_type_prefix_spec(e[f].0) == sec);
        }
    }
}

/// Inserting a key keeps section names distinct when no other key names its
/// section.
proof fn lemma_insert_strip_distinct(e: Seq<(Seq<char>, Json)>, k: Seq<char>, v: Json)
    requires
        strip_distinct(e),
        forall|j: int|
            0 <= j < e.len() && #[trigger] e[j].0 != k ==> strip_type_prefix_spec(e[j].0)
                != strip_type_prefix_spec(k),
    ensures
        strip_distinct(obj_insert(e, k, v)),
{
    lemma_find_key(e, k);
    let r = obj_insert(e, k, v);
    let i = find_key(e, k);
    assert forall|a: int, b: int| 0 <= a < b < r.len() implies strip_type_prefix_spec(#[trigger] r[a].0)
        != strip_type_prefix_spec(#[trigger] r[b].0) by {
        if i < 0 {
            if b == e.len() {
                assert(e[a].0 != k);
            } else {
                assert(strip_type_prefix_spec(e[a].0) != strip_type_prefix_spec(e[b].0));
            }
        } else {
            if a == i {
                assert(strip_type_prefix_spec(e[a].0) != strip_type_prefix_spec(e[b].0));
            } else if b == i {
                assert(strip_type_prefix_spec(e[a].0) != strip_type_prefix_spec(e[b].0));
            } else {
                assert(strip_type_prefix_spec(e[a].0) != strip_type_prefix_spec(e[b].0));
            }
        }
    }
}

proof fn lemma_swap_remove_strip_distinct(e: Seq<(Seq<char>, Json)>, k: Seq<char>)
    requires
        strip_distinct(e),
    ensures
        strip_distinct(obj_swap_remove(e, k)),
        forall|j: int|
            0 <= j < obj_swap_remove(e, k).len() ==> (exists|m: int|
                0 <= m < e.len() && #[trigger] obj_swap_remove(e, k)[j] == e[m] && e[m].0 != k),
{
    lemma_find_key(e, k);
    let r = obj_swap_remove(e, k);
    let i = find_key(e, k);
    if i >= 0 {
        let last = e.len() - 1;
        assert forall|j: int| 0 <= j < r.len() implies #[trigger] r[j] == if j == i {
            e[last]
        } else {
            e[j]
        } by {}
        lemma_strip_distinct_unique(e);
        assert forall|a: int, b: int| 0 <= a < b < r.len() implies strip_type_prefix_spec(
            #[trigger] r[a].0,
        ) != strip_type_prefix_spec(#[trigger] r[b].0) by {
            if a == i {
                assert(strip_type_prefix_spec(e[b].0) != strip_type_prefix_spec(e[last].0));
            } else if b == i {
                assert(strip_type_prefix_spec(e[a].0) != strip_type_prefix_spec(e[last].0));
            } else {
                assert(strip_type_prefix_spec(e[a].0) != strip_type_prefix_spec(e[b].0));
            }
        }
        assert forall|j: int| 0 <= j < r.len() implies (exists|m: int|
            0 <= m < e.len() && #[trigger] r[j] == e[m] && e[m].0 != k) by {
            if j == i {
                assert(e[last].0 != e[i].0);
                assert(r[j] == e[last]);
            } else {
                assert(e[j].0 != e[i].0);
                assert(r[j] == e[j]);
            }
        }
    } else {
        assert forall|j: int| 0 <= j < r.len() implies (exists|m: int|
            0 <= m < e.len() && #[trigger] r[j] == e[m] && e[m].0 != k) by {
            assert(r[j] == e[j]);
        }
    }
}

/// Lookup in a map whose last entry is split off.
proof fn lemma_get_last(e: Seq<(Seq<char>, Json)>, q: Seq<char>)
    requires
        unique_keys(e),
        e.len() > 0,
    ensures
        get(e, q) == if q == e.last().0 {
            Some(e.last().1)
        } else {
            get(e.drop_last(), q)
        },
        unique_keys(e.drop_last()),
{
    let d = e.drop_last();
    assert forall|a: int, b: int| 0 <= a < b < d.len() implies #[trigger] d[a].0 != #[trigger] d[b].0 by {
        assert(e[a].0 != e[b].0);
    }
    lemma_find_key(e, q);
    lemma_find_key(d, q);
    if q == e.last().0 {
        lemma_find_key_unique(e, q, e.len() - 1);
    } else {
        let f = find_key(d, q);
        if f >= 0 {
            assert(e[f] == d[f]);
            lemma_find_key_unique(e, q, f);
        } else {
            assert forall|j: int| 0 <= j < e.len() implies e[j].0 != q by {
                if j < e.len() - 1 {
                    assert(e[j] == d[j]);
                }
            }
            if find_key(e, q) >= 0 {
                let g = find_key(e, q);
                assert(e[g].0 == q);
            }
        }
    }
}

/// Lookup after dropping the entries a prefix list matches.
proof fn lemma_get_retain(e: Seq<(Seq<char>, Json)>, pf: Seq<Seq<char>>, q: Seq<char>)
    requires
        unique_keys(e),
    ensures
        unique_keys(retain_unmatched(e, pf)),
        get(retain_unmatched(e, pf), q) == if key_matches_spec(q, pf) {
            None
        } else {
            get(e, q)
        },
    decreases e.len(),
{
    reveal(Seq::filter);
    let pred = |p: (Seq<char>, Json)| !key_matches_spec(p.0, pf);
    if e.len() == 0 {
        assert(retain_unmatched(e, pf) =~= Seq::empty());
        lemma_find_key(e, q);
    } else {
        let d = e.drop_last();
        lemma_get_last(e, q);
        lemma_get_last(e, e.last().0);
        lemma_get_retain(d, pf, q);
        lemma_get_retain(d, pf, e.last().0);
        let fd = retain_unmatched(d, pf);
        assert(retain_unmatched(e, pf) == if pred(e.last()) {
            fd.push(e.last())
        } else {
            fd
        });
        // the last key does not occur earlier
        lemma_find_key(d, e.last().0);
        if find_key(d, e.last().0) >= 0 {
            let f = find_key(d, e.last().0);
            assert(e[f].0 != e[e.len() - 1].0);
        }
        if pred(e.last()) {
            let r = fd.push(e.last());
            lemma_find_key(fd, e.last().0);
            assert forall|a: int, b: int| 0 <= a < b < r.len() implies #[trigger] r[a].0
                != #[trigger] r[b].0 by {
                if b == fd.len() {
                    assert(fd[a].0 != e.last().0);
                } else {
                    assert(fd[a].0 != fd[b].0);
                }
            }
            lemma_get_last(r, q);
            assert(r.drop_last() == fd);
        }
    }
}

/// Lookup after inserting the matched entries of a source map.
proof fn lemma_get_insert_matched(
    e: Seq<(Seq<char>, Json)>,
    src: Seq<(Seq<char>, Json)>,
    pf: Seq<Seq<char>>,
    q: Seq<char>,
)
    requires
        unique_keys(e),
        unique_keys(src),
    ensures
        unique_keys(insert_matched(e, src, pf)),
        get(insert_matched(e, src, pf), q) == if key_matches_spec(q, pf) && get(src, q) is Some {
            get(src, q)
        } else {
            get(e, q)
        },
    decreases src.len(),
{
    if src.len() == 0 {
        lemma_find_key(src, q);
    } else {
        let d = src.drop_last();
        lemma_get_last(src, q);
        lemma_get_insert_matched(e, d, pf, q);
        let r = insert_matched(e, d, pf);
        if key_matches_spec(src.last().0, pf) {
            lemma_get_insert(r, src.last().0, src.last().1, q);
        }
    }
}

/// Lookup in a `ui` section after a prefix copy.
proof fn lemma_get_copy_prefixed(
    ui: Seq<(Seq<char>, Json)>,
    src_ui: Seq<(Seq<char>, Json)>,
    pf: Seq<Seq<char>>,
    q: Seq<char>,
)
    requires
        unique_keys(ui),
        unique_keys(src_ui),
    ensures
        unique_keys(copy_prefixed(ui, src_ui, pf)),
        get(copy_prefixed(ui, src_ui, pf), q) == if key_matches_spec(q, pf) {
            get(src_ui, q)
        } else {
            get(ui, q)
        },
{
    lemma_get_retain(ui, pf, q);
    lemma_get_insert_matched(retain_unmatched(ui, pf), src_ui, pf, q);
}

/// One section of a section group.
proof fn lemma_copy_one_section(
    r: Seq<(Seq<char>, Json)>,
    s: Seq<(Seq<char>, Json)>,
    sec: Seq<char>,
)
    requires
        well_shaped(r),
        well_shaped(s),
        sec != "ui"@,
    ensures
        well_shaped(copy_one_section(r, s, sec)),
        source_ui(copy_one_section(r, s, sec)) == source_ui(r),
        forall|q: Seq<char>|
            #[trigger] get(copy_one_section(r, s, sec), q) == if strip_type_prefix_spec(q) == sec {
                get(s, q)
            } else {
                get(r, q)
            },
{
    let rk = section_key(r, sec);
    let r1 = obj_swap_remove(r, rk);
    let sk = section_key(s, sec);
    let r2 = match get(s, sk) {
        Some(v) => obj_insert(r1, sk, v),
        None => r1,
    };
    lemma_strip_distinct_unique(r);
    lemma_strip_distinct_unique(s);
    lemma_section_key(r, sec);
    lemma_section_key(s, sec);
    lemma_swap_remove_strip_distinct(r, rk);
    lemma_strip_distinct_unique(r1);
    // r1 holds no key naming `sec`
    assert forall|j: int| 0 <= j < r1.len() implies strip_type_prefix_spec(#[trigger] r1[j].0) != sec by {
        let m = choose|m: int| 0 <= m < r.len() && r1[j] == r[m] && r[m].0 != rk;
        lemma_find_key_unique(r, r[m].0, m);
    }
    assert forall|q: Seq<char>| #[trigger] get(r1, q) == if strip_type_prefix_spec(q) == sec {
        None
    } else {
        get(r, q)
    } by {
        lemma_get_swap_remove(r, rk, q);
        if strip_type_prefix_spec(q) == sec && q != rk {
            lemma_find_key(r, q);
        }
    }
    match get(s, sk) {
        Some(v) => {
            lemma_insert_strip_distinct(r1, sk, v);
            assert forall|q: Seq<char>| #[trigger] get(r2, q) == if strip_type_prefix_spec(q) == sec {
                get(s, q)
            } else {
                get(r, q)
            } by {
                lemma_get_insert(r1, sk, v, q);
                assert(get(r1, q) == if strip_type_prefix_spec(q) == sec {
                    None
                } else {
                    get(r, q)
                });
                if strip_type_prefix_spec(q) == sec && q != sk {
                    lemma_find_key(s, q);
                }
            }
        },
        None => {
            assert forall|q: Seq<char>| #[trigger] get(r2, q) == if strip_type_prefix_spec(q) == sec {
                get(s, q)
            } else {
                get(r, q)
            } by {
                assert(get(r1, q) == if strip_type_prefix_spec(q) == sec {
                    None
                } else {
                    get(r, q)
                });
                if strip_type_prefix_spec(q) == sec && q != sk {
                    lemma_find_key(s, q);
                }
            }
        },
    }
    // the ui section is untouched
    lemma_strip_distinct_unique(r2);
    lemma_section_key(r2, "ui"@);
    lemma_section_key(r, "ui"@);
    lemma_section_index_props(r, "ui"@);
    lemma_section_index_props(r2, "ui"@);
    let uk = section_key(r, "ui"@);
    let uk2 = section_key(r2, "ui"@);
    assert(get(r2, uk) == get(r, uk));
    assert(get(r2, uk2) == get(r, uk2));
    if uk2 != uk {
        assert(find_key(r2, uk) < 0);
        assert(find_key(r, uk2) < 0);
        assert(get(r, uk2) is None);
    }
    assert(source_ui(r2) == source_ui(r));
}

/// A whole section group.
proof fn lemma_copy_sections(r: Seq<(Seq<char>, Json)>, s: Seq<(Seq<char>, Json)>, secs: Seq<Seq<char>>)
    requires
        well_shaped(r),
        well_shaped(s),
        !secs.contains("ui"@),
    ensures
        well_shaped(copy_sections(r, s, secs)),
        source_ui(copy_sections(r, s, secs)) == source_ui(r),
        forall|q: Seq<char>|
            #[trigger] get(copy_sections(r, s, secs), q) == if secs.contains(strip_type_prefix_spec(q)) {
                get(s, q)
            } else {
                get(r, q)
            },
    decreases secs.len(),
{
    if secs.len() > 0 {
        let sec = secs[0];
        assert(secs.contains(sec));
        lemma_copy_one_section(r, s, sec);
        let r2 = copy_one_section(r, s, sec);
        let rest = secs.drop_first();
        assert forall|x: Seq<char>| rest.contains(x) implies secs.contains(x) by {
            let j = choose|j: int| 0 <= j < rest.len() && rest[j] == x;
            assert(secs[j + 1] == x);
        }
        lemma_copy_sections(r2, s, rest);
        assert forall|q: Seq<char>| #[trigger] get(copy_sections(r, s, secs), q) == if secs.contains(
            strip_type_prefix_spec(q),
        ) {
            get(s, q)
        } else {
            get(r, q)
        } by {
            let x = strip_type_prefix_spec(q);
            assert(get(r2, q) == if x == sec {
                get(s, q)
            } else {
                get(r, q)
            });
            if secs.contains(x) && x != sec {
                let j = choose|j: int| 0 <= j < secs.len() && secs[j] == x;
                assert(rest[j - 1] == x);
            }
        }
    }
}

/// A whole prefix group.
proof fn lemma_copy_ui(r: Seq<(Seq<char>, Json)>, s: Seq<(Seq<char>, Json)>, p: Seq<Seq<char>>)
    requires
        well_shaped(r),
        well_shaped(s),
    ensures
        well_shaped(copy_ui(r, s, p)),
        forall|q: Seq<char>|
            strip_type_prefix_spec(q) != "ui"@ ==> #[trigger] get(copy_ui(r, s, p), q) == get(r, q),
        forall|k: Seq<char>|
            #[trigger] get(source_ui(copy_ui(r, s, p)), k) == if key_matches_spec(k, p) {
                get(source_ui(s), k)
            } else {
                get(source_ui(r), k)
            },
{
    let uk = section_key(r, "ui"@);
    let i = find_key(r, uk);
    lemma_strip_distinct_unique(r);
    lemma_section_key(r, "ui"@);
    lemma_find_key(r, uk);
    let new_ui = copy_prefixed(source_ui(r), source_ui(s), p);
    let nv = Json::Object(new_ui);
    let r2 = obj_insert(r, uk, nv);
    if i < 0 {
        assert(source_ui(r) == Seq::<(Seq<char>, Json)>::empty());
        assert(copy_ui(r, s, p) == r2);
    } else {
        assert(get(r, uk) == Some(r[i].1));
        assert(r[i].1 is Object);
        assert(copy_ui(r, s, p) == r2);
    }
    assert forall|j: int| 0 <= j < r.len() && #[trigger] r[j].0 != uk implies strip_type_prefix_spec(
        r[j].0,
    ) != strip_type_prefix_spec(uk) by {
        lemma_find_key_unique(r, r[j].0, j);
    }
    lemma_insert_strip_distinct(r, uk, nv);
    lemma_strip_distinct_unique(r2);
    lemma_get_insert(r, uk, nv, uk);
    lemma_section_key(r2, "ui"@);
    lemma_find_key(r2, uk);
    assert(section_key(r2, "ui"@) == uk);
    assert(source_ui(r2) == new_ui);
    assert forall|k: Seq<char>| #[trigger] get(source_ui(r2), k) == if key_matches_spec(k, p) {
        get(source_ui(s), k)
    } else {
        get(source_ui(r), k)
    } by {
        lemma_get_copy_prefixed(source_ui(r), source_ui(s), p, k);
    }
    lemma_get_copy_prefixed(source_ui(r), source_ui(s), p, uk);
    assert forall|q: Seq<char>| strip_type_prefix_spec(q) != "ui"@ implies #[trigger] get(r2, q) == get(
        r,
        q,
    ) by {
        lemma_get_insert(r, uk, nv, q);
    }
}

/// No section group names the `ui` section.
proof fn lemma_sections_not_ui(g: Seq<char>)
    ensures
        group_rule_spec(g) matches Some(GroupRuleSpec::Sections(ss)) ==> !ss.contains("ui"@),
{
    reveal_strlit("ui");
    reveal_strlit("overview");
    reveal_strlit("defaultoverview");
    reveal_strlit("suppress");
    reveal_strlit("audio");
    reveal_strlit("tabgroups");
    reveal_strlit("windows");
    reveal_strlit("dockPanels");
    if let Some(GroupRuleSpec::Sections(ss)) = group_rule_spec(g) {
        assert forall|j: int| 0 <= j < ss.len() implies ss[j] != "ui"@ by {
            assert(ss[j].len() != 2);
        }
    }
}

/// Selective copy, key by key: a top-level section covered by a selected
/// section group takes the source's value, a `ui` key covered by a selected
/// prefix group takes the source's value, and every other key keeps the
/// target's value. Files whose section names are distinct and whose `ui`
/// section is an object with distinct keys stay that way.
pub proof fn lemma_copy_groups(t: Seq<(Seq<char>, Json)>, s: Seq<(Seq<char>, Json)>, groups: Seq<Seq<char>>)
    requires
        well_shaped(t),
        well_shaped(s),
    ensures
        well_shaped(copy_groups(t, s, groups)),
        forall|q: Seq<char>|
            strip_type_prefix_spec(q) != "ui"@ ==> #[trigger] get(copy_groups(t, s, groups), q) == if section_selected(
                groups,
                strip_type_prefix_spec(q),
            ) {
                get(s, q)
            } else {
                get(t, q)
            },
        forall|k: Seq<char>|
            #[trigger] get(source_ui(copy_groups(t, s, groups)), k) == if ui_key_selected(groups, k) {
                get(source_ui(s), k)
            } else {
                get(source_ui(t), k)
            },
    decreases groups.len(),
{
    if groups.len() > 0 {
        let g = groups[0];
        let rest = groups.drop_first();
        let t1 = copy_group(t, s, g);
        lemma_sections_not_ui(g);
        match group_rule_spec(g) {
            None => {},
            Some(GroupRuleSpec::Sections(secs)) => {
                lemma_copy_sections(t, s, secs);
            },
            Some(GroupRuleSpec::UiPrefixes(p)) => {
                lemma_copy_ui(t, s, p);
            },
        }
        lemma_copy_groups(t1, s, rest);
        assert forall|q: Seq<char>| strip_type_prefix_spec(q) != "ui"@ implies #[trigger] get(
            copy_groups(t, s, groups),
            q,
        ) == if section_selected(groups, strip_type_prefix_spec(q)) {
            get(s, q)
        } else {
            get(t, q)
        } by {
            let x = strip_type_prefix_spec(q);
            if section_selected(rest, x) {
                let j = choose|j: int|
                    0 <= j < rest.len() && match group_rule_spec(#[trigger] rest[j]) {
                        Some(GroupRuleSpec::Sections(ss)) => ss.contains(x),
                        _ => false,
                    };
                assert(groups[j + 1] == rest[j]);
            } else {
                let here = match group_rule_spec(g) {
                    Some(GroupRuleSpec::Sections(ss)) => ss.contains(x),
                    _ => false,
                };
                if here {
                    assert(groups[0] == g);
                } else if section_selected(groups, x) {
                    let j = choose|j: int|
                        0 <= j < groups.len() && match group_rule_spec(#[trigger] groups[j]) {
                            Some(GroupRuleSpec::Sections(ss)) => ss.contains(x),
                            _ => false,
                        };
                    assert(j != 0);
                    assert(rest[j - 1] == groups[j]);
                }
            }
        }
        assert forall|k: Seq<char>| #[trigger] get(source_ui(copy_groups(t, s, groups)), k) == if ui_key_selected(
            groups,
            k,
        ) {
            get(source_ui(s), k)
        } else {
            get(source_ui(t), k)
        } by {
            if ui_key_selected(rest, k) {
                let j = choose|j: int|
                    0 <= j < rest.len() && match group_rule_spec(#[trigger] rest[j]) {
                        Some(GroupRuleSpec::UiPrefixes(p)) => key_matches_spec(k, p),
                        _ => false,
                    };
                assert(groups[j + 1] == rest[j]);
            } else {
                let here = match group_rule_spec(g) {
                    Some(GroupRuleSpec::UiPrefixes(p)) => key_matches_spec(k, p),
                    _ => false,
                };
                if here {
                    assert(groups[0] == g);
                } else if ui_key_selected(groups, k) {
                    let j = choose|j: int|
                        0 <= j < groups.len() && match group_rule_spec(#[trigger] groups[j]) {
                            Some(GroupRuleSpec::UiPrefixes(p)) => key_matches_spec(k, p),
                            _ => false,
                        };
                    assert(j != 0);
                    assert(rest[j - 1] == groups[j]);
                }
            }
        }
    } else {
        assert forall|q: Seq<char>| strip_type_prefix_spec(q) != "ui"@ implies !section_selected(groups, strip_type_prefix_spec(q)) by {}
    }
}

/// Law: the copy groups and what each covers, as the client's settings
/// are laid out: whole top-level sections for some groups, key prefixes
/// inside `ui` for the others; any other name is no group.
pub proof fn lemma_copy_group_table(g: Seq<char>)
    ensures
        g == "overview"@ ==> group_rule_spec(g) == Some(GroupRuleSpec::Sections(seq!["overview"@, "defaultoverview"@])),
        g == "probes"@ ==> group_rule_spec(g) == Some(GroupRuleSpec::UiPrefixes(seq!["probescanning."@])),
        g == "suppress"@ ==> group_rule_spec(g) == Some(GroupRuleSpec::Sections(seq!["suppress"@])),
        g == "audio"@ ==> group_rule_spec(g) == Some(GroupRuleSpec::Sections(seq!["audio"@])),
        g == "camera_graphics"@ ==> group_rule_spec(g) == Some(
            GroupRuleSpec::UiPrefixes(
                seq![
                    "camera"@,
                    "spaceMouse"@,
                    "offsetUIwithCamera"@,
                    "invertCameraZoom"@,
                    "advancedCamera"@,
                    "missilesEnabled"@,
                    "turretsEnabled"@,
                    "trailsEnabled"@,
                    "effectsEnabled"@,
                    "explosionEffectsEnabled"@,
                    "gpuParticlesEnabled"@,
                    "droneModelsEnabled"@,
                    "modelSkinsInSpaceEnabled"@,
                    "UI_ASTEROID_"@,
                ],
            ),
        ),
        g == "market"@ ==> group_rule_spec(g) == Some(
            GroupRuleSpec::UiPrefixes(
                seq![
                    "market_"@,
                    "minEdit_market"@,
                    "maxEdit_market"@,
                    "quickbar"@,
                    "contracts_search_"@,
                    "mycontracts_"@,
                    "pricehistorytype"@,
                ],
            ),
        ),
        g == "slots"@ ==> group_rule_spec(g) == Some(GroupRuleSpec::UiPrefixes(seq!["slotOrder"@, "linkedWeapons_"@])),
        g == "tabgroups"@ ==> group_rule_spec(g) == Some(GroupRuleSpec::Sections(seq!["tabgroups"@])),
        g == "search_history"@ ==> group_rule_spec(g) == Some(
            GroupRuleSpec::UiPrefixes(seq!["editHistory"@, "contracts_history"@, "market_searchText"@, "assetsSearch"@]),
        ),
        g == "windows"@ ==> group_rule_spec(g) == Some(GroupRuleSpec::Sections(seq!["windows"@])),
        g == "neocom"@ ==> group_rule_spec(g) == Some(GroupRuleSpec::UiPrefixes(seq!["neocomButtonRawData"@])),
        g == "chat"@ ==> group_rule_spec(g) == Some(GroupRuleSpec::UiPrefixes(seq!["chatchannels"@])),
        g == "infopanels"@ ==> group_rule_spec(g) == Some(GroupRuleSpec::UiPrefixes(seq!["InfoPanelModes_"@])),
        g == "dockpanels"@ ==> group_rule_spec(g) == Some(GroupRuleSpec::Sections(seq!["dockPanels"@])),
        !(g == "overview"@ || g == "probes"@ || g == "suppress"@ || g == "audio"@ || g == "camera_graphics"@ || g
            == "market"@ || g == "slots"@ || g == "tabgroups"@ || g == "search_history"@ || g == "windows"@ || g
            == "neocom"@ || g == "chat"@ || g == "infopanels"@ || g == "dockpanels"@) ==> group_rule_spec(g) is None,
{
    reveal_strlit("overview");
    reveal_strlit("probes");
    reveal_strlit("suppress");
    reveal_strlit("audio");
    reveal_strlit("camera_graphics");
    reveal_strlit("market");
    reveal_strlit("slots");
    reveal_strlit("tabgroups");
    reveal_strlit("search_history");
    reveal_strlit("windows");
    reveal_strlit("neocom");
    reveal_strlit("chat");
    reveal_strlit("infopanels");
    reveal_strlit("dockpanels");
    if g == "probes"@ {
        assert("probes"@.len() != "overview"@.len());
    }
    if g == "suppress"@ {
        assert("suppress"@[0] != "overview"@[0]);
        assert("suppress"@.len() != "probes"@.len());
    }
    if g == "audio"@ {
        assert("audio"@.len() != "overview"@.len());
        assert("audio"@.len() != "probes"@.len());
        assert("audio"@.len() != "suppress"@.len());
    }
    if g == "camera_graphics"@ {
        assert("camera_graphics"@.len() != "overview"@.len());
        assert("camera_graphics"@.len() != "probes"@.len());
        assert("camera_graphics"@.len() != "suppress"@.len());
        assert("camera_graphics"@.len() != "audio"@.len());
    }
    if g == "market"@ {
        assert("market"@.len() != "overview"@.len());
        assert("market"@[0] != "probes"@[0]);
        assert("market"@.len() != "suppress"@.len());
        assert("market"@.len() != "audio"@.len());
        assert("market"@.len() != "camera_graphics"@.len());
    }
    if g == "slots"@ {
        assert("slots"@.len() != "overview"@.len());
        assert("slots"@.len() != "probes"@.len());
        assert("slots"@.len() != "suppress"@.len());
        assert("slots"@[0] != "audio"@[0]);
        assert("slots"@.len() != "camera_graphics"@.len());
        assert("slots"@.len() != "market"@.len());
    }
    if g == "tabgroups"@ {
        assert("tabgroups"@.len() != "overview"@.len());
        assert("tabgroups"@.len() != "probes"@.len());
        assert("tabgroups"@.len() != "suppress"@.len());
        assert("tabgroups"@.len() != "audio"@.len());
        assert("tabgroups"@.len() != "camera_graphics"@.len());
        assert("tabgroups"@.len() != "market"@.len());
        assert("tabgroups"@.len() != "slots"@.len());
    }
    if g == "search_history"@ {
        assert("search_history"@.len() != "overview"@.len());
        assert("search_history"@.len() != "probes"@.len());
        assert("search_history"@.len() != "suppress"@.len());
        assert("search_history"@.len() != "audio"@.len());
        assert("search_history"@.len() != "camera_graphics"@.len());
        assert("search_history"@.len() != "market"@.len());
        assert("search_history"@.len() != "slots"@.len());
        assert("search_history"@.len() != "tabgroups"@.len());
    }
    if g == "windows"@ {
        assert("windows"@.len() != "overview"@.len());
        assert("windows"@.len() != "probes"@.len());
        assert("windows"@.len() != "suppress"@.len());
        assert("windows"@.len() != "audio"@.len());
        assert("windows"@.len() != "camera_graphics"@.len());
        assert("windows"@.len() != "market"@.len());
        assert("windows"@.len() != "slots"@.len());
        assert("windows"@.len() != "tabgroups"@.len());
        assert("windows"@.len() != "search_history"@.len());
    }
    if g == "neocom"@ {
        assert("neocom"@.len() != "overview"@.len());
        assert("neocom"@[0] != "probes"@[0]);
        assert("neocom"@.len() != "suppress"@.len());
        assert("neocom"@.len() != "audio"@.len());
        assert("neocom"@.len() != "camera_graphics"@.len());
        assert("neocom"@[0] != "market"@[0]);
        assert("neocom"@.len() != "slots"@.len());
        assert("neocom"@.len() != "tabgroups"@.len());
        assert("neocom"@.len() != "search_history"@.len());
        assert("neocom"@.len() != "windows"@.len());
    }
    if g == "chat"@ {
        assert("chat"@.len() != "overview"@.len());
        assert("chat"@.len() != "probes"@.len());
        assert("chat"@.len() != "suppress"@.len());
        assert("chat"@.len() != "audio"@.len());
        assert("chat"@.len() != "camera_graphics"@.len());
        assert("chat"@.len() != "market"@.len());
        assert("chat"@.len() != "slots"@.len());
        assert("chat"@.len() != "tabgroups"@.len());
        assert("chat"@.len() != "search_history"@.len());
        assert("chat"@.len() != "windows"@.len());
        assert("chat"@.len() != "neocom"@.len());
    }
    if g == "infopanels"@ {
        assert("infopanels"@.len() != "overview"@.len());
        assert("infopanels"@.len() != "probes"@.len());
        assert("infopanels"@.len() != "suppress"@.len());
        assert("infopanels"@.len() != "audio"@.len());
        assert("infopanels"@.len() != "camera_graphics"@.len());
        assert("infopanels"@.len() != "market"@.len());
        assert("infopanels"@.len() != "slots"@.len());
        assert("infopanels"@.len() != "tabgroups"@.len());
        assert("infopanels"@.len() != "search_history"@.len());
        assert("infopanels"@.len() != "windows"@.len());
        assert("infopanels"@.len() != "neocom"@.len());
        assert("infopanels"@.len() != "chat"@.len());
    }
    if g == "dockpanels"@ {
        assert("dockpanels"@.len() != "overview"@.len());
        assert("dockpanels"@.len() != "probes"@.len());
        assert("dockpanels"@.len() != "suppress"@.len());
        assert("dockpanels"@.len() != "audio"@.len());
        assert("dockpanels"@.len() != "camera_graphics"@.len());
        assert("dockpanels"@.len() != "market"@.len());
        assert("dockpanels"@.len() != "slots"@.len());
        assert("dockpanels"@.len() != "tabgroups"@.len());
        assert("dockpanels"@.len() != "search_history"@.len());
        assert("dockpanels"@.len() != "windows"@.len());
        assert("dockpanels"@.len() != "neocom"@.len());
        assert("dockpanels"@.len() != "chat"@.len());
        assert("dockpanels"@[0] != "infopanels"@[0]);
    }
}

/// Law: the market group covers the market quickbar: a `ui` key named
/// `quickbar...` (after its type prefix) is copied with the market group.
pub proof fn lemma_market_covers_quickbar(k: Seq<char>)
    requires
        starts_with(strip_type_prefix_spec(k), "quickbar"@),
    ensures
        group_rule_spec("market"@) matches Some(GroupRuleSpec::UiPrefixes(p)) && key_matches_spec(k, p),
{
    lemma_copy_group_table("market"@);
    let p = seq![
        "market_"@,
        "minEdit_market"@,
        "maxEdit_market"@,
        "quickbar"@,
        "contracts_search_"@,
        "mycontracts_"@,
        "pricehistorytype"@,
    ];
    assert(p[3] == "quickbar"@);
}

} // verus!
