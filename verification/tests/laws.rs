use eve_wrench::aliases::Aliases;
use eve_wrench::backups::{backups_to_prune, first_free_backup_name};
use eve_wrench::formations::{formations_from_settings, formations_into_settings_at, StoredFormation, StoredProbe};
use eve_wrench::groups::copy_selected_groups;
use eve_wrench::json::{JsonNumber, JsonValue};
use eve_wrench::manifest::{
    analyze_manifest, manifest_entry, normalize_manifest_path, plan_import, validate_manifest,
    verify_archive_payload, ExportManifest, LocalFile, ManifestFileEntry,
};
use eve_wrench::names::{backup_file_name, parse_backup_file_name};
use eve_wrench::prefs::{brackets_enabled, brackets_enabled_in_any, update_brackets_prefs};
use eve_wrench::editor::percent_encode;
use eve_wrench::model::entry_display_name;
use eve_wrench::server::Server;
use eve_wrench::server::SettingsKind;

fn s(x: &str) -> JsonValue {
    JsonValue::Str(x.to_string())
}

fn obj(entries: Vec<(&str, JsonValue)>) -> JsonValue {
    JsonValue::Object(entries.into_iter().map(|(k, v)| (k.to_string(), v)).collect())
}

fn tuple(items: Vec<JsonValue>) -> JsonValue {
    obj(vec![("tuple", JsonValue::Array(items))])
}

fn keys(v: &JsonValue) -> Vec<String> {
    match v {
        JsonValue::Object(e) => e.iter().map(|(k, _)| k.clone()).collect(),
        _ => panic!("not an object"),
    }
}

fn get<'a>(v: &'a JsonValue, k: &str) -> &'a JsonValue {
    match v {
        JsonValue::Object(e) => &e.iter().find(|(key, _)| key == k).expect("key").1,
        _ => panic!("not an object"),
    }
}

#[test]
fn brackets_setting_reads_back_what_was_written() {
    let before = "a=1\r\nbracketsAlwaysShowShipText=1\r\nb=2\n";
    let off = update_brackets_prefs(Some(before), false);
    assert_eq!(off, "a=1\nbracketsAlwaysShowShipText=0\nb=2");
    assert!(!brackets_enabled(&off));
    let on = update_brackets_prefs(Some(&off), true);
    assert!(brackets_enabled(&on));
    assert_eq!(update_brackets_prefs(None, true), "bracketsAlwaysShowShipText=1");
    assert!(brackets_enabled(&update_brackets_prefs(None, true)));
    assert!(!brackets_enabled(&update_brackets_prefs(Some(""), false)));
}

#[test]
fn brackets_line_with_space_before_equals_is_not_the_setting() {
    let before = "x=1\r\n  bracketsAlwaysShowShipText = 1\n";
    assert!(!brackets_enabled(before));
    let after = update_brackets_prefs(Some(before), true);
    assert_eq!(after, "x=1\n  bracketsAlwaysShowShipText = 1\nbracketsAlwaysShowShipText=1");
    assert!(brackets_enabled("  bracketsAlwaysShowShipText= 1 \r\n"));
}

#[test]
fn alias_set_then_shown() {
    let mut aliases = Aliases::from_pairs(vec![("1".to_string(), "old".to_string()), ("2".to_string(), "two".to_string())]);
    aliases.set("1".to_string(), Some("  Main  ".to_string()));
    assert_eq!(aliases.display_name("1"), "Main");
    assert_eq!(aliases.display_name("2"), "two");
    aliases.set("1".to_string(), Some("   ".to_string()));
    assert_eq!(aliases.display_name("1"), "1");
    aliases.set("2".to_string(), None);
    assert_eq!(aliases.get("2"), None);
    assert!(aliases.to_pairs().is_empty());
}

#[test]
fn later_alias_wins_when_read() {
    let aliases = Aliases::from_pairs(vec![("7".to_string(), "a".to_string()), ("7".to_string(), "b".to_string())]);
    assert_eq!(aliases.get("7"), Some("b".to_string()));
    assert_eq!(aliases.to_pairs().len(), 1);
}

#[test]
fn backup_is_listed_as_made() {
    let name = backup_file_name("pre-restore", 1, "user", "123", 1_700_000_000);
    assert_eq!(name, "pre-restore (2)_user_123_1700000000.bak");
    let parsed = parse_backup_file_name(&name).unwrap();
    assert_eq!(parsed.name, "pre-restore (2)");
    assert_eq!(parsed.kind, SettingsKind::User);
    assert_eq!(parsed.original_id, "123");
    assert_eq!(parsed.timestamp, 1_700_000_000);
}

#[test]
fn free_backup_name_skips_taken_ones() {
    let existing = vec!["Main_char_9_5.bak".to_string(), "Main (2)_char_9_5.bak".to_string()];
    assert_eq!(first_free_backup_name("Main", "char", "9", 5, &existing), Some("Main (3)_char_9_5.bak".to_string()));
    assert_eq!(first_free_backup_name("Main", "char", "9", 6, &existing), Some("Main_char_9_6.bak".to_string()));
}

#[test]
fn pruning_keeps_the_newest_automatic_backups() {
    let files: Vec<String> = vec![
        "pre-restore_user_1_100.bak",
        "pre-import_user_1_300.bak",
        "manual_user_1_50.bak",
        "pre-restore_user_2_10.bak",
        "pre-restore_char_1_10.bak",
        "pre-restore_user_1_200.bak",
        "pre-restore (2)_user_1_200.bak",
        "notes.txt",
    ]
    .into_iter()
    .map(String::from)
    .collect();
    let doomed = backups_to_prune(&files, "user", "1", 2);
    assert_eq!(doomed, vec!["pre-restore (2)_user_1_200.bak".to_string(), "pre-restore_user_1_100.bak".to_string()]);
    assert!(backups_to_prune(&files, "user", "1", 25).is_empty());
}

#[test]
fn normalized_manifest_path_reads_the_same_again() {
    let (n, parts) = normalize_manifest_path("TQ\\settings_Default\\.\\core_user_1.dat", false).unwrap();
    assert_eq!(n, "TQ/settings_Default/core_user_1.dat");
    assert_eq!(parts, vec!["TQ", "settings_Default", "core_user_1.dat"]);
    let (again, parts_again) = normalize_manifest_path(&n, false).unwrap();
    assert_eq!(again, n);
    assert_eq!(parts_again, parts);
}

#[test]
fn exported_checksum_verifies_on_import() {
    let data = b"settings bytes".to_vec();
    let entry = manifest_entry("TQ/settings_Default/prefs.ini".to_string(), &data);
    assert!(verify_archive_payload(&entry.relative_path, &entry.sha256, &data).is_ok());
    assert!(verify_archive_payload(&entry.relative_path, &entry.sha256.to_uppercase(), &data).is_ok());
    let manifest = ExportManifest { app_version: "1.0.0".to_string(), timestamp: 1, files: vec![entry] };
    assert!(validate_manifest(&manifest, false).is_ok());
}

#[test]
fn import_follows_the_analysis() {
    let sum = |c: char| std::iter::repeat(c).take(64).collect::<String>();
    let files = vec![
        ManifestFileEntry { relative_path: "TQ/settings_A/core_user_1.dat".to_string(), sha256: sum('a') },
        ManifestFileEntry { relative_path: "TQ/settings_A/core_user_2.dat".to_string(), sha256: sum('b') },
        ManifestFileEntry { relative_path: "TQ/settings_A/core_user_3.dat".to_string(), sha256: sum('c') },
        ManifestFileEntry { relative_path: "aliases.json".to_string(), sha256: sum('d') },
    ];
    let manifest = ExportManifest { app_version: "1".to_string(), timestamp: 0, files };
    let locals = vec![
        None,
        Some(LocalFile { checksum: sum('B'), modified: 5 }),
        Some(LocalFile { checksum: sum('0'), modified: 6 }),
        Some(LocalFile { checksum: sum('0'), modified: 7 }),
    ];
    let analysis = analyze_manifest(&manifest, &locals, false).unwrap();
    assert_eq!(analysis.total_files, 4);
    assert_eq!(analysis.new_files.len(), 1);
    assert_eq!(analysis.new_files[0].relative_path, "TQ/settings_A/core_user_1.dat");
    assert_eq!(analysis.unchanged.len(), 1);
    assert_eq!(analysis.unchanged[0].relative_path, "TQ/settings_A/core_user_2.dat");
    assert_eq!(analysis.conflicts.len(), 2);
    assert_eq!(analysis.conflicts[0].local_modified, 6);
    assert_eq!(analysis.conflicts[1].relative_path, "aliases.json");
    assert!(analysis.aliases_conflict);

    let sums: Vec<Option<String>> = locals.iter().map(|l| l.as_ref().map(|f| f.checksum.clone())).collect();
    let chosen = vec!["TQ\\settings_A\\core_user_3.dat".to_string(), "../nope".to_string()];
    let plan = plan_import(&manifest, &chosen, &sums, false).unwrap();
    assert_eq!(plan.skipped_count, 2);
    assert_eq!(plan.writes.len(), 2);
    assert_eq!(plan.writes[0].index, 0);
    assert!(!plan.writes[0].existed);
    assert_eq!(plan.writes[1].relative_path, "TQ/settings_A/core_user_3.dat");
    assert!(plan.writes[1].existed);
}

fn float(x: f64) -> JsonNumber {
    JsonNumber::Float(x.to_bits())
}

#[test]
fn stored_formations_read_back() {
    let probe = StoredProbe { x: float(1.5), y: JsonNumber::NegInt(-2), z: JsonNumber::PosInt(3), range: float(0.25) };
    let formations = vec![
        StoredFormation { id: 4, name: "Four".to_string(), probes: vec![probe] },
        StoredFormation { id: 1, name: "One".to_string(), probes: vec![] },
    ];
    let mut settings = obj(vec![("bytes:audio", JsonValue::Null)]);
    formations_into_settings_at(&mut settings, &formations, 42).unwrap();
    let back = formations_from_settings(&settings);
    assert_eq!(back.len(), 2);
    assert_eq!(back[0].id, 1);
    assert_eq!(back[0].name, "One");
    assert_eq!(back[1].id, 4);
    assert_eq!(back[1].probes, vec![probe]);
    let stored = get(get(&settings, "bytes:ui"), "bytes:probescanning.customFormations");
    match get(stored, "tuple") {
        JsonValue::Array(items) => assert!(matches!(&items[0], JsonValue::Str(t) if t == "long:42")),
        _ => panic!("not a tuple"),
    }
    assert_eq!(keys(&settings), vec!["bytes:audio", "bytes:ui"]);
}

#[test]
fn formations_need_an_object() {
    let mut settings = JsonValue::Array(vec![]);
    let err = formations_into_settings_at(&mut settings, &[], 1).unwrap_err();
    assert_eq!(err, "Settings file has an unexpected structure");
    let mut settings = obj(vec![("bytes:ui", JsonValue::Null)]);
    let err = formations_into_settings_at(&mut settings, &[], 1).unwrap_err();
    assert_eq!(err, "Settings 'ui' section has an unexpected structure");
}

#[test]
fn selective_copy_of_one_group_touches_nothing_else() {
    let source = obj(vec![(
        "bytes:ui",
        obj(vec![("bytes:slotOrder", s("src")), ("bytes:camera", s("src-cam"))]),
    )]);
    let mut result = obj(vec![
        ("bytes:windows", s("keep")),
        (
            "bytes:ui",
            obj(vec![("bytes:linkedWeapons_x", s("old")), ("bytes:camera", s("cam")), ("bytes:slotOrder", s("old"))]),
        ),
    ]);
    copy_selected_groups(&mut result, &source, &["slots", "no-such-group"]).unwrap();
    let ui = get(&result, "bytes:ui");
    assert_eq!(keys(ui), vec!["bytes:camera", "bytes:slotOrder"]);
    assert!(matches!(get(ui, "bytes:slotOrder"), JsonValue::Str(t) if t == "src"));
    assert!(matches!(get(ui, "bytes:camera"), JsonValue::Str(t) if t == "cam"));
    assert!(matches!(get(&result, "bytes:windows"), JsonValue::Str(t) if t == "keep"));
}

#[test]
fn reimport_into_the_exported_state_changes_nothing() {
    let a = b"first".to_vec();
    let b = b"second".to_vec();
    let ea = manifest_entry("TQ/settings_A/core_user_1.dat".to_string(), &a);
    let eb = manifest_entry("TQ/settings_A/backups/x_user_1_5.bak".to_string(), &b);
    let locals = vec![
        Some(LocalFile { checksum: ea.sha256.clone(), modified: 1 }),
        Some(LocalFile { checksum: eb.sha256.to_uppercase(), modified: 2 }),
    ];
    let manifest = ExportManifest { app_version: "1".to_string(), timestamp: 0, files: vec![ea, eb] };
    let analysis = analyze_manifest(&manifest, &locals, false).unwrap();
    assert!(analysis.new_files.is_empty() && analysis.conflicts.is_empty());
    assert_eq!(analysis.unchanged.len(), 2);
    let sums: Vec<Option<String>> = locals.iter().map(|l| l.as_ref().map(|f| f.checksum.clone())).collect();
    let everything: Vec<String> = manifest.files.iter().map(|f| f.relative_path.clone()).collect();
    let plan = plan_import(&manifest, &everything, &sums, false).unwrap();
    assert!(plan.writes.is_empty());
    assert_eq!(plan.skipped_count, 2);
}

#[test]
fn brackets_setting_of_every_profile_reads_back() {
    let before = vec![Some("bracketsAlwaysShowShipText=1\n".to_string()), None, Some("a=1".to_string())];
    assert!(brackets_enabled_in_any(&before));
    for enabled in [false, true] {
        let after: Vec<Option<String>> =
            before.iter().map(|e| Some(update_brackets_prefs(e.as_deref(), enabled))).collect();
        assert_eq!(brackets_enabled_in_any(&after), enabled);
    }
    assert!(!brackets_enabled_in_any(&[None, Some("bracketsAlwaysShowShipText=0".to_string())]));
    assert!(!brackets_enabled_in_any(&[]));
}

#[test]
fn stale_selection_is_repaired_when_storing() {
    let formations = vec![StoredFormation { id: 4, name: "Four".to_string(), probes: vec![] }];
    let sel = |id: u64| tuple(vec![s("long:7"), JsonValue::Number(JsonNumber::PosInt(id))]);
    let mut settings = obj(vec![("bytes:ui", obj(vec![("bytes:probescanning.selectedFormationID", sel(9))]))]);
    formations_into_settings_at(&mut settings, &formations, 1).unwrap();
    let t = get(get(get(&settings, "bytes:ui"), "bytes:probescanning.selectedFormationID"), "tuple");
    assert!(matches!(t, JsonValue::Array(a) if matches!(&a[1], JsonValue::Number(JsonNumber::PosInt(4)))
        && matches!(&a[0], JsonValue::Str(x) if x == "long:7")));
    let mut settings = obj(vec![("bytes:ui", obj(vec![("bytes:probescanning.selectedFormationID", sel(4))]))]);
    formations_into_settings_at(&mut settings, &formations, 1).unwrap();
    let t = get(get(get(&settings, "bytes:ui"), "bytes:probescanning.selectedFormationID"), "tuple");
    assert!(matches!(t, JsonValue::Array(a) if matches!(&a[1], JsonValue::Number(JsonNumber::PosInt(4)))));
    let mut settings = obj(vec![("bytes:ui", obj(vec![("bytes:probescanning.selectedFormationID", sel(4))]))]);
    formations_into_settings_at(&mut settings, &[], 1).unwrap();
    let t = get(get(get(&settings, "bytes:ui"), "bytes:probescanning.selectedFormationID"), "tuple");
    assert!(matches!(t, JsonValue::Array(a) if matches!(&a[1], JsonValue::Number(JsonNumber::PosInt(0)))));
}

#[test]
fn settings_file_is_shown_with_its_alias() {
    let mut aliases = Aliases::new();
    aliases.set("123".to_string(), Some("  Main ".to_string()));
    assert_eq!(entry_display_name(Some("core_char_123.dat"), &aliases).unwrap(), "Main");
    aliases.set("123".to_string(), Some(" ".to_string()));
    assert_eq!(entry_display_name(Some("core_char_123.dat"), &aliases).unwrap(), "123");
    aliases.set("123".to_string(), None);
    assert_eq!(entry_display_name(Some("core_user_123.dat"), &aliases).unwrap(), "123");
}

fn percent_decode(s: &str) -> Vec<u8> {
    let b = s.as_bytes();
    let mut out = Vec::new();
    let mut i = 0;
    while i < b.len() {
        if b[i] == b'%' && i + 3 <= b.len() {
            out.push(u8::from_str_radix(&s[i + 1..i + 3], 16).unwrap());
            i += 3;
        } else {
            out.push(b[i]);
            i += 1;
        }
    }
    out
}

#[test]
fn percent_encoding_decodes_back() {
    for text in ["a b/é~", "", "100%", "Ωmega-_.~", "%41"] {
        let e = percent_encode(text);
        assert!(e.chars().all(|c| c.is_ascii_alphanumeric() || "-_.~%".contains(c)));
        assert_eq!(percent_decode(&e), text.as_bytes());
    }
    assert_eq!(percent_encode("a b/é~"), "a%20b%2F%C3%A9~");
}

#[test]
fn accepted_archive_paths_are_plain_names() {
    for raw in ["TQ\\settings_Default\\.\\core_user_1.dat", "C:/settings_A/prefs.ini", "tq//settings_A/backups/x.bak", "aliases.json"] {
        let (n, parts) = normalize_manifest_path(raw, false).unwrap();
        assert!(parts.iter().all(|p| !p.is_empty() && p != "." && p != ".." && !p.contains('/') && !p.contains('\\')));
        assert_eq!(n, parts.join("/"));
    }
    assert!(normalize_manifest_path("C:/settings_A/prefs.ini", true).is_err());
}

#[test]
fn server_folder_names_in_any_case() {
    for sv in [Server::Tranquility, Server::Singularity, Server::Thunderdome, Server::Serenity] {
        assert_eq!(Server::from_folder_name(&sv.display_name().to_lowercase()), Some(sv));
        assert_eq!(Server::from_folder_name(&sv.display_name().to_uppercase()), Some(sv));
    }
}
