use eve_wrench::app_info::is_preview_version;
use eve_wrench::formations::{formations_from_settings, formations_into_settings, StoredFormation, StoredProbe};
use eve_wrench::groups::copy_selected_groups;
use eve_wrench::json::{JsonNumber, JsonValue};
use eve_wrench::names::backup_entry_id;

fn s(x: &str) -> JsonValue {
    JsonValue::Str(x.to_string())
}

fn obj(entries: Vec<(&str, JsonValue)>) -> JsonValue {
    JsonValue::Object(entries.into_iter().map(|(k, v)| (k.to_string(), v)).collect())
}

fn tuple(items: Vec<JsonValue>) -> JsonValue {
    obj(vec![("tuple", JsonValue::Array(items))])
}

fn get<'a>(v: &'a JsonValue, k: &str) -> &'a JsonValue {
    match v {
        JsonValue::Object(e) => &e.iter().find(|(key, _)| key == k).expect("key").1,
        _ => panic!("not an object"),
    }
}

fn has(v: &JsonValue, k: &str) -> bool {
    match v {
        JsonValue::Object(e) => e.iter().any(|(key, _)| key == k),
        _ => false,
    }
}

fn at(v: &JsonValue, i: usize) -> &JsonValue {
    match v {
        JsonValue::Array(a) => &a[i],
        _ => panic!("not an array"),
    }
}

fn text(v: &JsonValue) -> &str {
    match v {
        JsonValue::Str(x) => x.as_str(),
        _ => panic!("not a string"),
    }
}

fn float(x: f64) -> JsonNumber {
    JsonNumber::Float(x.to_bits())
}

#[test]
fn backup_identity_uses_the_unique_file_path() {
    let first = "server/settings_Default/backups/pre_user_1_10.bak";
    let second = "server/settings_Default/backups/pre_user_2_10.bak";
    assert_ne!(backup_entry_id(first), backup_entry_id(second));
}

#[test]
fn preview_detection() {
    assert!(is_preview_version("0.3.0-preview.1"));
    assert!(is_preview_version("1.0.0-rc.2"));
    assert!(!is_preview_version("0.2.1"));
}

#[test]
fn selective_copy_copies_only_selected_groups() {
    let source = obj(vec![
        ("bytes:overview", obj(vec![("bytes:shipLabels", tuple(vec![s("long:1"), s("utf8:source-labels")]))])),
        (
            "bytes:ui",
            obj(vec![
                (
                    "bytes:probescanning.customFormations",
                    tuple(vec![s("long:1"), obj(vec![("int:0", tuple(vec![s("utf8:src"), JsonValue::Array(vec![])]))])]),
                ),
                ("bytes:slotOrder", tuple(vec![s("long:1"), s("utf8:source-slots")])),
                ("bytes:someUnmappedKey", tuple(vec![s("long:1"), s("utf8:source-unmapped")])),
            ]),
        ),
    ]);
    let target = obj(vec![
        ("bytes:overview", obj(vec![("bytes:shipLabels", tuple(vec![s("long:2"), s("utf8:target-labels")]))])),
        (
            "bytes:ui",
            obj(vec![
                ("bytes:probescanning.customFormations", tuple(vec![s("long:2"), obj(vec![])])),
                ("bytes:slotOrder", tuple(vec![s("long:2"), s("utf8:target-slots")])),
                ("bytes:linkedWeapons_groupsDict", tuple(vec![s("long:2"), s("utf8:target-links")])),
                ("bytes:someUnmappedKey", tuple(vec![s("long:2"), s("utf8:target-unmapped")])),
            ]),
        ),
    ]);

    let mut result = target.clone();
    copy_selected_groups(&mut result, &source, &["overview", "probes"]).unwrap();

    let ui = get(&result, "bytes:ui");
    // Not excluded: mapped and unmapped keys alike come from source
    assert_eq!(
        text(at(get(get(get(&result, "bytes:overview"), "bytes:shipLabels"), "tuple"), 1)),
        "utf8:source-labels"
    );
    assert!(has(at(get(get(ui, "bytes:probescanning.customFormations"), "tuple"), 1), "int:0"));
    assert_eq!(text(at(get(get(ui, "bytes:someUnmappedKey"), "tuple"), 1)), "utf8:target-unmapped");
    // Excluded: slot layout keeps exactly what the target had, including
    // keys the source does not have at all
    assert_eq!(text(at(get(get(ui, "bytes:slotOrder"), "tuple"), 1)), "utf8:target-slots");
    assert_eq!(text(at(get(get(ui, "bytes:linkedWeapons_groupsDict"), "tuple"), 1)), "utf8:target-links");
}

fn sample_formations() -> Vec<StoredFormation> {
    let range = float(37_399_467_675.0);
    vec![StoredFormation {
        id: 0,
        name: "pinpoint".to_string(),
        probes: vec![
            StoredProbe { x: float(250_000.0), y: float(0.0), z: float(0.0), range },
            StoredProbe { x: float(0.0), y: float(-500_000.0), z: float(0.0), range },
        ],
    }]
}

#[test]
fn formations_round_trip_through_marshal() {
    // The settings file's JSON form: an unrelated key that must survive and a
    // client-internal temp formation that must be hidden but preserved
    let mut settings = obj(vec![(
        "bytes:ui",
        obj(vec![
            ("bytes:missilesEnabled", tuple(vec![s("long:134280801871504062"), JsonValue::Bool(true)])),
            (
                "bytes:probescanning.selectedFormationID",
                tuple(vec![s("long:134280801860500867"), JsonValue::Number(JsonNumber::PosInt(7))]),
            ),
            (
                "bytes:probescanning.customFormations",
                tuple(vec![
                    s("long:134280801871504062"),
                    obj(vec![("int:-4", tuple(vec![s("bytes:tempFormation"), JsonValue::Array(vec![])]))]),
                ]),
            ),
        ]),
    )]);

    assert!(formations_from_settings(&settings).is_empty());

    formations_into_settings(&mut settings, &sample_formations()).unwrap();

    let read_back = formations_from_settings(&settings);
    assert_eq!(read_back.len(), 1);
    assert_eq!(read_back[0].name, "pinpoint");
    assert_eq!(read_back[0].probes.len(), 2);
    assert_eq!(read_back[0].probes[0].x, float(250_000.0));
    assert_eq!(read_back[0].probes[1].y, float(-500_000.0));

    // Unrelated key untouched, selected id repaired to a valid one
    let ui = get(&settings, "bytes:ui");
    assert!(matches!(at(get(get(ui, "bytes:missilesEnabled"), "tuple"), 1), JsonValue::Bool(true)));
    assert!(matches!(
        at(get(get(ui, "bytes:probescanning.selectedFormationID"), "tuple"), 1),
        JsonValue::Number(JsonNumber::PosInt(0))
    ));

    // Client-internal temp formation preserved alongside user formations
    let stored = at(get(get(ui, "bytes:probescanning.customFormations"), "tuple"), 1);
    assert!(has(stored, "int:-4"));
    assert!(has(stored, "int:0"));
}
