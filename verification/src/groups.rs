//! Selective copying of settings between two files of the same kind.
//!
//! A copy group is either a set of whole top-level sections, or a set of key
//! prefixes inside the `ui` section. Keys in the JSON form carry a type
//! prefix (`bytes:overview`); matching ignores it.
use vstd::prelude::*;
use crate::json::{
    entries_of, find_key, get, obj_find, obj_get, obj_insert, obj_insert_exec, obj_swap_remove,
    obj_swap_remove_exec, view_entries, lemma_view_entries, Json, JsonValue,
};
use crate::text::{chars_of, split_once, starts_with, str_eq, vec_first_index, vec_starts_with};
use crate::names::{backup_name_parts, core_name_parts, opt_str_view, parse_backup_file_name, parse_core_filename};
use crate::server::{kind_for_name, SettingsKind};

verus! {

/// A key without its type prefix: everything after the first `:`, or the
/// whole key where there is no `:`.
pub open spec fn strip_type_prefix_spec(s: Seq<char>) -> Seq<char> {
    match split_once(s, ':') {
        Some((_, rest)) => rest,
        None => s,
    }
}

/// Strips the JSON form's type prefix (`utf8:lol` becomes `lol`).
pub fn strip_type_prefix(s: &str) -> (r: &str)
    ensures
        r@ == strip_type_prefix_spec(s@),
{
    let v = chars_of(s);
    let n = v.len();
    match vec_first_index(&v, ':') {
        Some(i) => s.substring_char(i + 1, n),
        None => s,
    }
}

/// Whether a key, without its type prefix, starts with one of `prefixes`.
pub open spec fn key_matches_spec(k: Seq<char>, prefixes: Seq<Seq<char>>) -> bool {
    exists|i: int| 0 <= i < prefixes.len() && starts_with(strip_type_prefix_spec(k), #[trigger] prefixes[i])
}

/// The views of a slice of string slices.
pub open spec fn strs_view(s: Seq<&str>) -> Seq<Seq<char>> {
    s.map_values(|x: &str| x@)
}

/// Decides [`key_matches_spec`].
pub fn key_matches(key: &str, prefixes: &[&str]) -> (r: bool)
    ensures
        r == key_matches_spec(key@, strs_view(prefixes@)),
{
    let stripped = chars_of(strip_type_prefix(key));
    let mut i: usize = 0;
    while i < prefixes.len()
        invariant
            i <= prefixes@.len(),
            stripped@ == strip_type_prefix_spec(key@),
            forall|j: int| 0 <= j < i ==> !starts_with(stripped@, #[trigger] strs_view(prefixes@)[j]),
        decreases prefixes@.len() - i,
    {
        let p = chars_of(prefixes[i]);
        if vec_starts_with(&stripped, &p) {
            assert(starts_with(strip_type_prefix_spec(key@), strs_view(prefixes@)[i as int]));
            return true;
        }
        i = i + 1;
    }
    false
}

/// What a copy group covers.
pub enum GroupRuleSpec {
    Sections(Seq<Seq<char>>),
    UiPrefixes(Seq<Seq<char>>),
}

/// A copy group: whole top-level sections, or key prefixes inside `ui`.
#[derive(Debug, Clone, Copy)]
pub enum GroupRule {
    Sections(&'static [&'static str]),
    UiPrefixes(&'static [&'static str]),
}

impl GroupRule {
    pub open spec fn spec(self) -> GroupRuleSpec {
        match self {
            GroupRule::Sections(s) => GroupRuleSpec::Sections(strs_view(s@)),
            GroupRule::UiPrefixes(p) => GroupRuleSpec::UiPrefixes(strs_view(p@)),
        }
    }
}

/// The groups offered for account files and what each covers.
pub open spec fn group_rule_spec(g: Seq<char>) -> Option<GroupRuleSpec> {
    if g == "overview"@ {
        Some(GroupRuleSpec::Sections(seq!["overview"@, "defaultoverview"@]))
    } else if g == "probes"@ {
        Some(GroupRuleSpec::UiPrefixes(seq!["probescanning."@]))
    } else if g == "suppress"@ {
        Some(GroupRuleSpec::Sections(seq!["suppress"@]))
    } else if g == "audio"@ {
        Some(GroupRuleSpec::Sections(seq!["audio"@]))
    } else if g == "camera_graphics"@ {
        Some(
            GroupRuleSpec::UiPrefixes(
                seq![
                    "camera"@,
                    "spaceMouse"@,
                    "offsetUIwithCamera"@,
                    "invertCameraZoom"@,
                    "advancedCamera"@,
                    "missilesEnabled"@,
                    "turretsEnabled"@,
                    "trailsEnabled"@,
                    "effectsEnabled"@,
                    "explosionEffectsEnabled"@,
                    "gpuParticlesEnabled"@,
                    "droneModelsEnabled"@,
                    "modelSkinsInSpaceEnabled"@,
                    "UI_ASTEROID_"@,
                ],
            ),
        )
    } else if g == "market"@ {
        Some(
            GroupRuleSpec::UiPrefixes(
                seq![
                    "market_"@,
                    "minEdit_market"@,
                    "maxEdit_market"@,
                    "quickbar"@,
                    "contracts_search_"@,
                    "mycontracts_"@,
                    "pricehistorytype"@,
                ],
            ),
        )
    } else if g == "slots"@ {
        Some(GroupRuleSpec::UiPrefixes(seq!["slotOrder"@, "linkedWeapons_"@]))
    } else if g == "tabgroups"@ {
        Some(GroupRuleSpec::Sections(seq!["tabgroups"@]))
    } else if g == "search_history"@ {
        Some(
            GroupRuleSpec::UiPrefixes(
                seq!["editHistory"@, "contracts_history"@, "market_searchText"@, "assetsSearch"@],
            ),
        )
    } else if g == "windows"@ {
        Some(GroupRuleSpec::Sections(seq!["windows"@]))
    } else if g == "neocom"@ {
        Some(GroupRuleSpec::UiPrefixes(seq!["neocomButtonRawData"@]))
    } else if g == "chat"@ {
        Some(GroupRuleSpec::UiPrefixes(seq!["chatchannels"@]))
    } else if g == "infopanels"@ {
        Some(GroupRuleSpec::UiPrefixes(seq!["InfoPanelModes_"@]))
    } else if g == "dockpanels"@ {
        Some(GroupRuleSpec::Sections(seq!["dockPanels"@]))
    } else {
        None
    }
}

/// What the copy group `group` covers, or `None` for an unknown group.
pub fn group_rule(group: &str) -> (r: Option<GroupRule>)
    ensures
        match r {
            Some(rule) => group_rule_spec(group@) == Some(rule.spec()),
            None => group_rule_spec(group@) is None,
        },
{
    let r = if str_eq(group, "overview") {
        let lits: &'static [&'static str] = &["overview", "defaultoverview"];
        assert(strs_view(lits@) =~= seq!["overview"@, "defaultoverview"@]);
        Some(GroupRule::Sections(lits))
    } else if str_eq(group, "probes") {
        let lits: &'static [&'static str] = &["probescanning."];
        assert(strs_view(lits@) =~= seq!["probescanning."@]);
        Some(GroupRule::UiPrefixes(lits))
    } else if str_eq(group, "suppress") {
        let lits: &'static [&'static str] = &["suppress"];
        assert(strs_view(lits@) =~= seq!["suppress"@]);
        Some(GroupRule::Sections(lits))
    } else if str_eq(group, "audio") {
        let lits: &'static [&'static str] = &["audio"];
        assert(strs_view(lits@) =~= seq!["audio"@]);
        Some(GroupRule::Sections(lits))
    } else if str_eq(group, "camera_graphics") {
        let lits: &'static [&'static str] = &["camera", "spaceMouse", "offsetUIwithCamera", "invertCameraZoom", "advancedCamera", "missilesEnabled", "turretsEnabled", "trailsEnabled", "effectsEnabled", "explosionEffectsEnabled", "gpuParticlesEnabled", "droneModelsEnabled", "modelSkinsInSpaceEnabled", "UI_ASTEROID_"];
        assert(strs_view(lits@) =~= seq!["camera"@, "spaceMouse"@, "offsetUIwithCamera"@, "invertCameraZoom"@, "advancedCamera"@, "missilesEnabled"@, "turretsEnabled"@, "trailsEnabled"@, "effectsEnabled"@, "explosionEffectsEnabled"@, "gpuParticlesEnabled"@, "droneModelsEnabled"@, "modelSkinsInSpaceEnabled"@, "UI_ASTEROID_"@]);
        Some(GroupRule::UiPrefixes(lits))
    } else if str_eq(group, "market") {
        let lits: &'static [&'static str] = &["market_", "minEdit_market", "maxEdit_market", "quickbar", "contracts_search_", "mycontracts_", "pricehistorytype"];
        assert(strs_view(lits@) =~= seq!["market_"@, "minEdit_market"@, "maxEdit_market"@, "quickbar"@, "contracts_search_"@, "mycontracts_"@, "pricehistorytype"@]);
        Some(GroupRule::UiPrefixes(lits))
    } else if str_eq(group, "slots") {
        let lits: &'static [&'static str] = &["slotOrder", "linkedWeapons_"];
        assert(strs_view(lits@) =~= seq!["slotOrder"@, "linkedWeapons_"@]);
        Some(GroupRule::UiPrefixes(lits))
    } else if str_eq(group, "tabgroups") {
        let lits: &'static [&'static str] = &["tabgroups"];
        assert(strs_view(lits@) =~= seq!["tabgroups"@]);
        Some(GroupRule::Sections(lits))
    } else if str_eq(group, "search_history") {
        let lits: &'static [&'static str] = &["editHistory", "contracts_history", "market_searchText", "assetsSearch"];
        assert(strs_view(lits@) =~= seq!["editHistory"@, "contracts_history"@, "market_searchText"@, "assetsSearch"@]);
        Some(GroupRule::UiPrefixes(lits))
    } else if str_eq(group, "windows") {
        let lits: &'static [&'static str] = &["windows"];
        assert(strs_view(lits@) =~= seq!["windows"@]);
        Some(GroupRule::Sections(lits))
    } else if str_eq(group, "neocom") {
        let lits: &'static [&'static str] = &["neocomButtonRawData"];
        assert(strs_view(lits@) =~= seq!["neocomButtonRawData"@]);
        Some(GroupRule::UiPrefixes(lits))
    } else if str_eq(group, "chat") {
        let lits: &'static [&'static str] = &["chatchannels"];
        assert(strs_view(lits@) =~= seq!["chatchannels"@]);
        Some(GroupRule::UiPrefixes(lits))
    } else if str_eq(group, "infopanels") {
        let lits: &'static [&'static str] = &["InfoPanelModes_"];
        assert(strs_view(lits@) =~= seq!["InfoPanelModes_"@]);
        Some(GroupRule::UiPrefixes(lits))
    } else if str_eq(group, "dockpanels") {
        let lits: &'static [&'static str] = &["dockPanels"];
        assert(strs_view(lits@) =~= seq!["dockPanels"@]);
        Some(GroupRule::Sections(lits))
    } else {
        None
    };
    r
}

/// Index of the first top-level entry whose key, without its type prefix,
/// is `section`; -1 where there is none.
pub open spec fn section_index(e: Seq<(Seq<char>, Json)>, section: Seq<char>) -> int
    decreases e.len(),
{
    if e.len() == 0 {
        -1
    } else if strip_type_prefix_spec(e[0].0) == section {
        0
    } else {
        let r = section_index(e.drop_first(), section);
        if r < 0 {
            -1
        } else {
            r + 1
        }
    }
}

/// The key a section is stored under: the first key naming it, or
/// `bytes:{section}` where none does.
pub open spec fn section_key(e: Seq<(Seq<char>, Json)>, section: Seq<char>) -> Seq<char> {
    let i = section_index(e, section);
    if i < 0 {
        "bytes:"@ + section
    } else {
        e[i].0
    }
}

pub proof fn lemma_section_index_at(e: Seq<(Seq<char>, Json)>, section: Seq<char>, i: int)
    requires
        0 <= i < e.len(),
        strip_type_prefix_spec(e[i].0) == section,
        forall|j: int| 0 <= j < i ==> strip_type_prefix_spec(#[trigger] e[j].0) != section,
    ensures
        section_index(e, section) == i,
    decreases e.len(),
{
    if i > 0 {
        assert(forall|j: int| 0 <= j < i - 1 ==> e.drop_first()[j] == e[j + 1]);
        lemma_section_index_at(e.drop_first(), section, i - 1);
    }
}

pub proof fn lemma_section_index_absent(e: Seq<(Seq<char>, Json)>, section: Seq<char>)
    requires
        forall|j: int| 0 <= j < e.len() ==> strip_type_prefix_spec(#[trigger] e[j].0) != section,
    ensures
        section_index(e, section) == -1,
    decreases e.len(),
{
    if e.len() > 0 {
        assert(forall|j: int| 0 <= j < e.len() - 1 ==> e.drop_first()[j] == e[j + 1]);
        lemma_section_index_absent(e.drop_first(), section);
    }
}

/// Computes [`section_key`].
pub fn find_section_key(e: &Vec<(String, JsonValue)>, section: &str) -> (r: String)
    ensures
        r@ == section_key(view_entries(e@), section@),
{
    proof {
        lemma_view_entries(e@);
    }
    let ghost ve = view_entries(e@);
    let mut i: usize = 0;
    while i < e.len()
        invariant
            ve == view_entries(e@),
            ve.len() == e@.len(),
            forall|j: int| 0 <= j < e@.len() ==> #[trigger] ve[j] == (e@[j].0@, crate::json::view_value(e@[j].1)),
            i <= e@.len(),
            forall|j: int| 0 <= j < i ==> strip_type_prefix_spec(#[trigger] ve[j].0) != section@,
        decreases e@.len() - i,
    {
        let k = strip_type_prefix(e[i].0.as_str());
        if str_eq(k, section) {
            proof {
                lemma_section_index_at(ve, section@, i as int);
            }
            return e[i].0.clone();
        }
        i = i + 1;
    }
    proof {
        lemma_section_index_absent(ve, section@);
    }
    let mut out = "bytes:".to_owned();
    crate::text::push_str(&mut out, section);
    out
}

/// Copies one whole section: the target's entry naming it is removed and
/// the source's entry naming it, if any, is inserted.
pub open spec fn copy_one_section(
    res: Seq<(Seq<char>, Json)>,
    src: Seq<(Seq<char>, Json)>,
    sec: Seq<char>,
) -> Seq<(Seq<char>, Json)> {
    let r1 = obj_swap_remove(res, section_key(res, sec));
    let sk = section_key(src, sec);
    match get(src, sk) {
        Some(v) => obj_insert(r1, sk, v),
        None => r1,
    }
}

/// Copies whole sections, one after the other.
pub open spec fn copy_sections(
    res: Seq<(Seq<char>, Json)>,
    src: Seq<(Seq<char>, Json)>,
    secs: Seq<Seq<char>>,
) -> Seq<(Seq<char>, Json)>
    decreases secs.len(),
{
    if secs.len() == 0 {
        res
    } else {
        copy_sections(copy_one_section(res, src, secs[0]), src, secs.drop_first())
    }
}

/// The entries of `e` whose keys match none of `prefixes`, in order.
pub open spec fn retain_unmatched(e: Seq<(Seq<char>, Json)>, prefixes: Seq<Seq<char>>) -> Seq<(Seq<char>, Json)> {
    e.filter(|p: (Seq<char>, Json)| !key_matches_spec(p.0, prefixes))
}

/// Inserts, in order, the entries of `src` whose keys match `prefixes`.
pub open spec fn insert_matched(
    e: Seq<(Seq<char>, Json)>,
    src: Seq<(Seq<char>, Json)>,
    prefixes: Seq<Seq<char>>,
) -> Seq<(Seq<char>, Json)>
    decreases src.len(),
{
    if src.len() == 0 {
        e
    } else {
        let r = insert_matched(e, src.drop_last(), prefixes);
        if key_matches_spec(src.last().0, prefixes) {
            obj_insert(r, src.last().0, src.last().1)
        } else {
            r
        }
    }
}

/// The `ui` section after copying the keys that match `prefixes` from the
/// source's `ui` section.
pub open spec fn copy_prefixed(
    ui: Seq<(Seq<char>, Json)>,
    src_ui: Seq<(Seq<char>, Json)>,
    prefixes: Seq<Seq<char>>,
) -> Seq<(Seq<char>, Json)> {
    insert_matched(retain_unmatched(ui, prefixes), src_ui, prefixes)
}

/// The source's `ui` entries (none where it has no `ui` object).
pub open spec fn source_ui(src: Seq<(Seq<char>, Json)>) -> Seq<(Seq<char>, Json)> {
    match get(src, section_key(src, "ui"@)) {
        Some(v) => entries_of(v),
        None => Seq::empty(),
    }
}

/// Copies `ui` keys by prefix. A missing target `ui` section is created; one
/// that is not an object is left alone.
pub open spec fn copy_ui(
    res: Seq<(Seq<char>, Json)>,
    src: Seq<(Seq<char>, Json)>,
    prefixes: Seq<Seq<char>>,
) -> Seq<(Seq<char>, Json)> {
    let uk = section_key(res, "ui"@);
    let i = find_key(res, uk);
    if i < 0 {
        res.push((uk, Json::Object(copy_prefixed(Seq::empty(), source_ui(src), prefixes))))
    } else {
        match res[i].1 {
            Json::Object(o) => res.update(
                i,
                (uk, Json::Object(copy_prefixed(o, source_ui(src), prefixes))),
            ),
            _ => res,
        }
    }
}

/// Applies one copy group; unknown groups change nothing.
pub open spec fn copy_group(res: Seq<(Seq<char>, Json)>, src: Seq<(Seq<char>, Json)>, g: Seq<char>) -> Seq<(Seq<char>, Json)> {
    match group_rule_spec(g) {
        None => res,
        Some(GroupRuleSpec::Sections(secs)) => copy_sections(res, src, secs),
        Some(GroupRuleSpec::UiPrefixes(p)) => copy_ui(res, src, p),
    }
}

/// Applies the copy groups in order.
pub open spec fn copy_groups(
    res: Seq<(Seq<char>, Json)>,
    src: Seq<(Seq<char>, Json)>,
    groups: Seq<Seq<char>>,
) -> Seq<(Seq<char>, Json)>
    decreases groups.len(),
{
    if groups.len() == 0 {
        res
    } else {
        copy_groups(copy_group(res, src, groups[0]), src, groups.drop_first())
    }
}

fn copy_sections_exec(
    entries: Vec<(String, JsonValue)>,
    src: &Vec<(String, JsonValue)>,
    secs: &[&str],
) -> (r: Vec<(String, JsonValue)>)
    ensures
        view_entries(r@) == copy_sections(view_entries(entries@), view_entries(src@), strs_view(secs@)),
{
    let mut cur = entries;
    let mut i: usize = 0;
    let ghost all = strs_view(secs@);
    assert(all.skip(0) == all);
    while i < secs.len()
        invariant
            i <= secs@.len(),
            all == strs_view(secs@),
            copy_sections(view_entries(cur@), view_entries(src@), all.skip(i as int))
                == copy_sections(view_entries(entries@), view_entries(src@), all),
        decreases secs@.len() - i,
    {
        let sec = secs[i];
        let ghost before = view_entries(cur@);
        let key = find_section_key(&cur, sec);
        obj_swap_remove_exec(&mut cur, key.as_str());
        let sk = find_section_key(src, sec);
        match obj_get(src, sk.as_str()) {
            Some(v) => {
                let c = v.deep_copy();
                obj_insert_exec(&mut cur, sk, c);
            },
            None => {},
        }
        proof {
            assert(all.skip(i as int)[0] == sec@);
            assert(all.skip(i as int).drop_first() == all.skip(i + 1));
        }
        i = i + 1;
    }
    assert(all.skip(0) == all);
    cur
}

fn copy_prefixed_exec(
    ui: &Vec<(String, JsonValue)>,
    src_ui: &Vec<(String, JsonValue)>,
    prefixes: &[&str],
) -> (r: Vec<(String, JsonValue)>)
    ensures
        view_entries(r@) == copy_prefixed(view_entries(ui@), view_entries(src_ui@), strs_view(prefixes@)),
{
    let ghost pv = strs_view(prefixes@);
    let ghost pred = |p: (Seq<char>, Json)| !key_matches_spec(p.0, pv);
    proof {
        lemma_view_entries(ui@);
        lemma_view_entries(src_ui@);
    }
    let ghost vu = view_entries(ui@);
    let ghost vs = view_entries(src_ui@);
    let mut out: Vec<(String, JsonValue)> = Vec::new();
    let mut i: usize = 0;
    while i < ui.len()
        invariant
            i <= ui@.len(),
            vu == view_entries(ui@),
            vu.len() == ui@.len(),
            forall|j: int| 0 <= j < ui@.len() ==> #[trigger] vu[j] == (ui@[j].0@, crate::json::view_value(ui@[j].1)),
            pv == strs_view(prefixes@),
            pred == (|p: (Seq<char>, Json)| !key_matches_spec(p.0, pv)),
            view_entries(out@) == vu.take(i as int).filter(pred),
        decreases ui@.len() - i,
    {
        let ghost before = out@;
        assert(vu.take(i + 1).drop_last() == vu.take(i as int));
        proof {
            reveal(Seq::filter);
            assert(vu.take(i + 1).last() == vu[i as int]);
        }
        if !key_matches(ui[i].0.as_str(), prefixes) {
            let k = ui[i].0.clone();
            let v = ui[i].1.deep_copy();
            out.push((k, v));
            proof {
                assert(out@.drop_last() == before);
            }
        }
        i = i + 1;
    }
    assert(vu.take(ui@.len() as int) == vu);
    let mut j: usize = 0;
    while j < src_ui.len()
        invariant
            j <= src_ui@.len(),
            vs == view_entries(src_ui@),
            vs.len() == src_ui@.len(),
            forall|m: int| 0 <= m < src_ui@.len() ==> #[trigger] vs[m] == (src_ui@[m].0@, crate::json::view_value(src_ui@[m].1)),
            pv == strs_view(prefixes@),
            view_entries(out@) == insert_matched(retain_unmatched(vu, pv), vs.take(j as int), pv),
        decreases src_ui@.len() - j,
    {
        assert(vs.take(j + 1).drop_last() == vs.take(j as int));
        if key_matches(src_ui[j].0.as_str(), prefixes) {
            let k = src_ui[j].0.clone();
            let v = src_ui[j].1.deep_copy();
            obj_insert_exec(&mut out, k, v);
        }
        j = j + 1;
    }
    assert(vs.take(src_ui@.len() as int) == vs);
    out
}

fn copy_ui_exec(
    entries: Vec<(String, JsonValue)>,
    src: &Vec<(String, JsonValue)>,
    prefixes: &[&str],
) -> (r: Vec<(String, JsonValue)>)
    ensures
        view_entries(r@) == copy_ui(view_entries(entries@), view_entries(src@), strs_view(prefixes@)),
{
    proof {
        lemma_view_entries(entries@);
    }
    let mut cur = entries;
    let uk = find_section_key(&cur, "ui");
    let sk = find_section_key(src, "ui");
    let empty: Vec<(String, JsonValue)> = Vec::new();
    let src_ui: &Vec<(String, JsonValue)> = match obj_get(src, sk.as_str()) {
        Some(JsonValue::Object(o)) => o,
        _ => &empty,
    };
    assert(view_entries(src_ui@) == source_ui(view_entries(src@)));
    match obj_find(&cur, uk.as_str()) {
        None => {
            let ghost uv = uk@;
            let new_ui = copy_prefixed_exec(&empty, src_ui, prefixes);
            assert(view_entries(empty@) == Seq::<(Seq<char>, Json)>::empty());
            cur.push((uk, JsonValue::Object(new_ui)));
            proof {
                lemma_view_entries(cur@);
                assert(view_entries(cur@) =~= view_entries(entries@).push(
                    (uv, Json::Object(copy_prefixed(Seq::empty(), source_ui(view_entries(src@)), strs_view(prefixes@)))),
                ));
            }
            cur
        },
        Some(i) => {
            let updated = match &cur[i].1 {
                JsonValue::Object(o) => Some(copy_prefixed_exec(o, src_ui, prefixes)),
                _ => None,
            };
            match updated {
                Some(new_ui) => {
                    let ghost uv = uk@;
                    let ghost old_ui = view_entries(cur@)[i as int].1;
                    cur.set(i, (uk, JsonValue::Object(new_ui)));
                    proof {
                        lemma_view_entries(cur@);
                        assert(view_entries(cur@) =~= view_entries(entries@).update(
                            i as int,
                            (uv, Json::Object(copy_prefixed(entries_of(old_ui), source_ui(view_entries(src@)), strs_view(prefixes@)))),
                        ));
                    }
                    cur
                },
                None => cur,
            }
        },
    }
}

/// Copies the `included_groups` of `source` into `result`; everything the
/// groups do not cover keeps the target's value.
///
/// Both values must be JSON objects: the target is checked first, then the
/// source, and neither is changed on error.
pub fn copy_selected_groups(result: &mut JsonValue, source: &JsonValue, included_groups: &[&str]) -> (r: Result<(), String>)
    ensures
        match (old(result)@, source@) {
            (Json::Object(t), Json::Object(s)) => r is Ok && final(result)@ == Json::Object(
                copy_groups(t, s, strs_view(included_groups@)),
            ),
            (Json::Object(_), _) => r matches Err(e) && e@ == "Source file has an unexpected structure"@
                && final(result)@ == old(result)@,
            _ => r matches Err(e) && e@ == "Target file has an unexpected structure"@
                && final(result)@ == old(result)@,
        },
{
    let mut taken = JsonValue::Null;
    std::mem::swap(result, &mut taken);
    let entries = match taken {
        JsonValue::Object(e) => e,
        other => {
            *result = other;
            return Err("Target file has an unexpected structure".to_owned());
        },
    };
    let src = match source {
        JsonValue::Object(s) => s,
        _ => {
            *result = JsonValue::Object(entries);
            return Err("Source file has an unexpected structure".to_owned());
        },
    };
    let ghost t = view_entries(entries@);
    let ghost s = view_entries(src@);
    let ghost gs = strs_view(included_groups@);
    let mut cur = entries;
    let mut i: usize = 0;
    assert(gs.skip(0) == gs);
    while i < included_groups.len()
        invariant
            i <= included_groups@.len(),
            gs == strs_view(included_groups@),
            s == view_entries(src@),
            copy_groups(view_entries(cur@), s, gs.skip(i as int)) == copy_groups(t, s, gs),
        decreases included_groups@.len() - i,
    {
        let g = included_groups[i];
        proof {
            assert(gs.skip(i as int)[0] == g@);
            assert(gs.skip(i as int).drop_first() == gs.skip(i + 1));
        }
        match group_rule(g) {
            None => {},
            Some(GroupRule::Sections(secs)) => {
                cur = copy_sections_exec(cur, src, secs);
            },
            Some(GroupRule::UiPrefixes(p)) => {
                cur = copy_ui_exec(cur, src, p);
            },
        }
        i = i + 1;
    }
    assert(gs.skip(0) == gs);
    *result = JsonValue::Object(cur);
    Ok(())
}

/// The copy groups offered for account (`user`) files, in order.
pub open spec fn user_copy_groups() -> Seq<Seq<char>> {
    seq![
        "overview"@,
        "probes"@,
        "suppress"@,
        "audio"@,
        "camera_graphics"@,
        "market"@,
        "slots"@,
        "tabgroups"@,
        "search_history"@,
    ]
}

/// The copy groups offered for character (`char`) files, in order.
pub open spec fn char_copy_groups() -> Seq<Seq<char>> {
    seq!["windows"@, "neocom"@, "chat"@, "infopanels"@, "dockpanels"@, "search_history"@]
}

/// The copy groups offered for a kind of settings file.
pub open spec fn available_groups(kind: Seq<char>) -> Option<Seq<Seq<char>>> {
    if kind == "user"@ {
        Some(user_copy_groups())
    } else if kind == "char"@ {
        Some(char_copy_groups())
    } else {
        None
    }
}

/// Whether a group is not among the excluded ones.
pub open spec fn not_excluded(excluded: Seq<Seq<char>>) -> spec_fn(Seq<char>) -> bool {
    |g: Seq<char>| !excluded.contains(g)
}

proof fn lemma_filter_push_groups(s: Seq<Seq<char>>, g: Seq<char>, pr: spec_fn(Seq<char>) -> bool)
    ensures
        s.push(g).filter(pr) == if pr(g) {
            s.filter(pr).push(g)
        } else {
            s.filter(pr)
        },
{
    reveal(Seq::filter);
    assert(s.push(g).drop_last() == s);
}

fn offered_groups(user: bool) -> (r: Vec<&'static str>)
    ensures
        strs_view(r@) == if user {
            user_copy_groups()
        } else {
            char_copy_groups()
        },
{
    let mut v: Vec<&'static str> = Vec::new();
    if user {
        v.push("overview");
        v.push("probes");
        v.push("suppress");
        v.push("audio");
        v.push("camera_graphics");
        v.push("market");
        v.push("slots");
        v.push("tabgroups");
        v.push("search_history");
        assert(strs_view(v@) =~= user_copy_groups());
    } else {
        v.push("windows");
        v.push("neocom");
        v.push("chat");
        v.push("infopanels");
        v.push("dockpanels");
        v.push("search_history");
        assert(strs_view(v@) =~= char_copy_groups());
    }
    v
}

/// The groups a selective copy between files of `kind` copies: those
/// offered for the kind, in order, without the ones the user excluded.
pub fn included_copy_groups(kind: &str, excluded: &[String]) -> (r: Result<Vec<&'static str>, String>)
    ensures
        match available_groups(kind@) {
            None => r matches Err(e) && e@ == "Unsupported settings file kind"@,
            Some(a) => r matches Ok(v) && strs_view(v@) == a.filter(
                not_excluded(excluded@.map_values(|x: String| x@)),
            ),
        },
{
    let offered = if str_eq(kind, "user") {
        offered_groups(true)
    } else if str_eq(kind, "char") {
        offered_groups(false)
    } else {
        return Err("Unsupported settings file kind".to_owned());
    };
    let ghost ev = excluded@.map_values(|x: String| x@);
    let ghost ov = strs_view(offered@);
    let ghost pr = not_excluded(ev);
    let mut out: Vec<&'static str> = Vec::new();
    let mut i: usize = 0;
    assert(ov.take(0).filter(pr) =~= Seq::<Seq<char>>::empty()) by {
        reveal(Seq::filter);
    }
    while i < offered.len()
        invariant
            ov == strs_view(offered@),
            ev == excluded@.map_values(|x: String| x@),
            pr == not_excluded(ev),
            i <= offered@.len(),
            strs_view(out@) == ov.take(i as int).filter(pr),
        decreases offered@.len() - i,
    {
        let g = offered[i];
        let mut hit = false;
        let mut j: usize = 0;
        while j < excluded.len()
            invariant
                ev == excluded@.map_values(|x: String| x@),
                j <= excluded@.len(),
                hit == exists|k: int| 0 <= k < j && ev[k] == g@,
            decreases excluded@.len() - j,
        {
            assert(ev[j as int] == excluded@[j as int]@);
            if str_eq(excluded[j].as_str(), g) {
                hit = true;
            }
            j = j + 1;
        }
        assert(hit == ev.contains(g@));
        assert(ov.take(i + 1) == ov.take(i as int).push(g@));
        proof {
            lemma_filter_push_groups(ov.take(i as int), g@, pr);
        }
        if !hit {
            let ghost before = out@;
            out.push(g);
            assert(strs_view(out@) == strs_view(before).push(g@));
        }
        i = i + 1;
    }
    assert(ov.take(offered@.len() as int) == ov);
    Ok(out)
}

/// A file is never copied onto itself.
pub fn check_copy_target(source: &str, target: &str) -> (r: Result<(), String>)
    ensures
        source@ == target@ ==> (r matches Err(e) && e@ == "Source and target are the same file"@),
        source@ != target@ ==> r is Ok,
{
    if str_eq(source, target) {
        Err("Source and target are the same file".to_owned())
    } else {
        Ok(())
    }
}

/// The kind of settings a file holds, read from its name: that of a
/// settings file `core_{kind}_{id}.dat` of a known kind, or of a backup of
/// one. `None` where the name tells no kind.
pub open spec fn settings_kind_of(f: Option<Seq<char>>) -> Option<SettingsKind> {
    match core_name_parts(f) {
        Ok((k, _)) => kind_for_name(k),
        Err(_) => match f {
            Some(n) => match backup_name_parts(n) {
                Some((_, k, _, _)) => Some(k),
                None => None,
            },
            None => None,
        },
    }
}

/// Computes [`settings_kind_of`].
fn kind_of_file(file_name: Option<&str>) -> (r: Option<SettingsKind>)
    ensures
        r == settings_kind_of(opt_str_view(file_name)),
{
    match parse_core_filename(file_name) {
        Ok((k, _)) => SettingsKind::from_name(k.as_str()),
        Err(_) => match file_name {
            Some(n) => match parse_backup_file_name(n) {
                Some(b) => Some(b.kind),
                None => None,
            },
            None => None,
        },
    }
}

/// Account settings only go to accounts and character settings only to
/// characters: a copy between files whose names both tell a kind is
/// refused where the kinds differ.
pub fn check_copy_kind(source_file_name: Option<&str>, target_file_name: Option<&str>) -> (r: Result<(), String>)
    ensures
        match (settings_kind_of(opt_str_view(source_file_name)), settings_kind_of(opt_str_view(target_file_name))) {
            (Some(a), Some(b)) => if a == b {
                r is Ok
            } else {
                r matches Err(e) && e@ == "Account settings only copy to accounts and character settings only to characters"@
            },
            _ => r is Ok,
        },
{
    match (kind_of_file(source_file_name), kind_of_file(target_file_name)) {
        (Some(a), Some(b)) => if a == b {
            Ok(())
        } else {
            Err("Account settings only copy to accounts and character settings only to characters".to_owned())
        },
        _ => Ok(()),
    }
}

} // verus!
