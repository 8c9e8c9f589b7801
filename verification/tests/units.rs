use eve_wrench::manifest::{import_copy_name, import_safety_copies, ImportPlan, PlannedWrite, SafetyCopy};
use eve_wrench::aliases::Aliases;
use eve_wrench::app_info::app_info;
use eve_wrench::model::{apply_alias, apply_character, created_backup_entry, entry_display_name, settings_entry, sort_profiles};
use eve_wrench::names::scanned_profile_name;
use eve_wrench::backups::first_free_backup_name;
use eve_wrench::client::{ensure_eve_closed, is_eve_client_running};
use eve_wrench::clock::{filetime_from_unix, filetime_now, format_relative_time, format_relative_time_at};
use eve_wrench::digest::sha256_of_bytes;
use eve_wrench::editor::{formation_editor_label, formation_editor_title, formation_editor_url, percent_encode};
use eve_wrench::formation_files::{
    check_formation_schema, check_manifest_size, check_pack_schema, expect_checksum,
    expect_unchanged_while_saving, formation_write_result,
};
use eve_wrench::formation_limits::{validate_formations, FormationShape, ProbeCheck};
use eve_wrench::groups::{check_copy_kind, check_copy_target, group_rule, included_copy_groups, key_matches, strip_type_prefix, GroupRule};
use eve_wrench::manifest::{
    check_archive_entry_size, import_failure_message, is_exportable_backup_file,
    is_exportable_profile_file, normalize_manifest_path, validate_manifest, verify_archive_payload,
    ExportManifest, ManifestFileEntry,
};
use eve_wrench::model::{
    backup_entry, backup_kind, backup_source, character_details, character_lookup_id, enrich_backup_names,
    profile_data, server_data, sort_backups_newest_first, BatchMutationResult, SettingsFile,
};
use eve_wrench::names::{backup_safe_name_of, parse_core_filename, parse_settings_file_name, settings_path_context};
use eve_wrench::server::{Server, SettingsKind};

#[test]
fn server_from_folder_name_lowercases() {
    assert_eq!(Server::from_folder_name("c_eve_sharedcache_TRANQUILITY"), Some(Server::Tranquility));
    assert_eq!(Server::from_folder_name("x_Singularity"), Some(Server::Singularity));
    assert_eq!(Server::from_folder_name("thunderdome"), Some(Server::Thunderdome));
    assert_eq!(Server::from_folder_name("SERENITY"), Some(Server::Serenity));
    assert_eq!(Server::from_folder_name("duality"), None);
    assert_eq!(Server::from_folder_name("settings_Default"), None);
    assert_eq!(Server::from_folder_name("serenity_tranquility"), Some(Server::Tranquility));
    assert_eq!(Server::from_folder_name("c_eve_sharedcache_tq_tranquility"), Some(Server::Tranquility));
    for s in [Server::Tranquility, Server::Singularity, Server::Thunderdome, Server::Serenity] {
        assert_eq!(Server::from_folder_name(s.display_name()), Some(s));
        assert_eq!(Server::from_folder_name(&s.display_name().to_uppercase()), Some(s));
    }
    assert!(Server::Tranquility.supports_esi());
    assert!(!Server::Singularity.supports_esi());
    assert_eq!(Server::Serenity.display_name(), "Serenity");
    assert_eq!(Server::Singularity.short_name(), "SISI");
    assert_eq!(Server::Thunderdome.color(), "#f85149");
}

#[test]
fn core_file_names() {
    assert_eq!(parse_core_filename(None).unwrap_err(), "Invalid filename");
    assert_eq!(parse_core_filename(Some("prefs.ini")).unwrap_err(), "Invalid settings file");
    assert_eq!(parse_core_filename(Some("core_user.dat")).unwrap_err(), "Invalid settings file format");
    assert_eq!(
        parse_core_filename(Some("core_char_90000001.dat")).unwrap(),
        ("char".to_string(), "90000001".to_string())
    );
    assert_eq!(parse_settings_file_name("core_user_12.dat"), Some((SettingsKind::User, "12".to_string())));
    assert_eq!(parse_settings_file_name("core_user_x.dat"), None);
    assert_eq!(parse_settings_file_name("core_public_12.dat"), None);
}

#[test]
fn settings_path_context_errors() {
    assert_eq!(settings_path_context(None, None).unwrap_err(), "Could not determine settings profile");
    assert_eq!(
        settings_path_context(Some(Some("profile")), Some("tranquility")).unwrap_err(),
        "Settings file is not inside a settings profile"
    );
    assert_eq!(
        settings_path_context(Some(Some("settings_")), Some("tranquility")).unwrap_err(),
        "Settings file is not inside a settings profile"
    );
    assert_eq!(
        settings_path_context(Some(Some("settings_Default")), None).unwrap_err(),
        "Could not determine settings server"
    );
    assert_eq!(
        settings_path_context(Some(Some("settings_Default")), Some("somewhere")).unwrap_err(),
        "Unrecognized EVE server folder: somewhere"
    );
    assert_eq!(
        settings_path_context(Some(Some("settings_Default")), Some("eve_tranquility")).unwrap(),
        (Server::Tranquility, "Default".to_string())
    );
}

#[test]
fn relative_times() {
    assert_eq!(format_relative_time_at(100, 159), "just now");
    assert_eq!(format_relative_time_at(100, 160), "1m ago");
    assert_eq!(format_relative_time_at(0, 3599), "59m ago");
    assert_eq!(format_relative_time_at(0, 7200), "2h ago");
    assert_eq!(format_relative_time_at(0, 3 * 86400 + 5), "3d ago");
    assert_eq!(format_relative_time_at(500, 10), "just now");
    assert!(format_relative_time(0).ends_with("d ago"));
}

#[test]
fn filetime_stamps() {
    assert_eq!(filetime_from_unix(0), 116_444_736_000_000_000);
    assert_eq!(filetime_from_unix(1), 116_444_736_010_000_000);
    assert!(filetime_now() > 116_444_736_000_000_000 + 50 * 365 * 86400 * 10_000_000);
}

#[test]
fn checksums_and_editor_window() {
    assert_eq!(sha256_of_bytes(b"abc"), "ba7816bf8f01cfea414140de5dae2223b00361a396177a9cb410ff61f20015ad");
    assert_eq!(formation_editor_label("x"), "formations-2d711642b726");
    assert_eq!(percent_encode("a b/é~-_."), "a%20b%2F%C3%A9~-_.");
    assert_eq!(
        formation_editor_url("/p/core_user_1.dat", "Main & Alt"),
        "index.html#/formations?path=%2Fp%2Fcore_user_1.dat&name=Main%20%26%20Alt"
    );
    assert_eq!(formation_editor_title("Main"), "Probe Formations \u{2014} Main");
}

#[test]
fn client_running_blocks_changes() {
    let names = vec!["explorer.exe".to_string(), "ExeFile.EXE".to_string()];
    assert!(is_eve_client_running(&names));
    assert!(!is_eve_client_running(&["eve.exe.bak".to_string()]));
    assert!(is_eve_client_running(&["EVE.exe".to_string()]));
    assert_eq!(
        ensure_eve_closed(true).unwrap_err(),
        "EVE Online is running. Close every EVE client before changing settings so the client cannot overwrite your changes."
    );
    assert!(ensure_eve_closed(false).is_ok());
}

#[test]
fn keys_and_groups() {
    assert_eq!(strip_type_prefix("utf8:lol"), "lol");
    assert_eq!(strip_type_prefix("plain"), "plain");
    assert_eq!(strip_type_prefix("a:b:c"), "b:c");
    assert!(key_matches("bytes:market_filters", &["market_"]));
    assert!(!key_matches("bytes:marketfilters", &["market_"]));
    assert!(matches!(group_rule("overview"), Some(GroupRule::Sections(s)) if s == ["overview", "defaultoverview"]));
    assert!(matches!(group_rule("neocom"), Some(GroupRule::UiPrefixes(p)) if p == ["neocomButtonRawData"]));
    assert!(group_rule("everything").is_none());
    assert_eq!(
        included_copy_groups("char", &["chat".to_string(), "overview".to_string()]).unwrap(),
        vec!["windows", "neocom", "infopanels", "dockpanels", "search_history"]
    );
    assert_eq!(included_copy_groups("user", &[]).unwrap().len(), 9);
    assert_eq!(included_copy_groups("misc", &[]).unwrap_err(), "Unsupported settings file kind");
    assert_eq!(check_copy_target("a.dat", "a.dat").unwrap_err(), "Source and target are the same file");
    assert!(check_copy_target("a.dat", "b.dat").is_ok());
}

fn shape(id: i64, name: &str, probes: Vec<ProbeCheck>) -> FormationShape {
    FormationShape { id, name: name.to_string(), probes }
}

#[test]
fn formation_limits() {
    assert!(validate_formations(&[shape(0, " ok ", vec![ProbeCheck::Valid; 8])]).is_ok());
    let many: Vec<FormationShape> = (0..11).map(|i| shape(i, "f", vec![])).collect();
    assert_eq!(validate_formations(&many).unwrap_err(), "EVE supports at most 10 custom probe formations");
    assert_eq!(
        validate_formations(&[shape(1, "a", vec![]), shape(1, "b", vec![])]).unwrap_err(),
        "Formation 2 has an invalid or duplicate id"
    );
    assert_eq!(validate_formations(&[shape(-1, "a", vec![])]).unwrap_err(), "Formation 1 has an invalid or duplicate id");
    assert_eq!(
        validate_formations(&[shape(0, "   ", vec![])]).unwrap_err(),
        "Formation 1 needs a name between 1 and 64 characters"
    );
    let long: String = std::iter::repeat('é').take(65).collect();
    assert_eq!(
        validate_formations(&[shape(0, &long, vec![])]).unwrap_err(),
        "Formation 1 needs a name between 1 and 64 characters"
    );
    let sixty_four: String = std::iter::repeat('é').take(64).collect();
    assert!(validate_formations(&[shape(0, &sixty_four, vec![])]).is_ok());
    assert_eq!(
        validate_formations(&[shape(0, " Wide ", vec![ProbeCheck::Valid; 9])]).unwrap_err(),
        "Formation 'Wide' has more than 8 probes"
    );
    assert_eq!(
        validate_formations(&[shape(0, "P", vec![ProbeCheck::Valid, ProbeCheck::NonFinite])]).unwrap_err(),
        "Probe 2 in 'P' contains a non-finite value"
    );
    assert_eq!(
        validate_formations(&[shape(0, "P", vec![ProbeCheck::UnsupportedRange, ProbeCheck::NonFinite])]).unwrap_err(),
        "Probe 1 in 'P' has an unsupported scan range"
    );
}

#[test]
fn manifest_paths() {
    assert_eq!(normalize_manifest_path("aliases.json", false).unwrap(), ("aliases.json".to_string(), vec!["aliases.json".to_string()]));
    assert_eq!(
        normalize_manifest_path("tq//settings_A/backups/x.bak", false).unwrap().0,
        "tq/settings_A/backups/x.bak"
    );
    assert_eq!(normalize_manifest_path("tq/./settings_A/prefs.ini/", false).unwrap().0, "tq/settings_A/prefs.ini");
    assert_eq!(normalize_manifest_path("/tq/settings_A/prefs.ini", false).unwrap_err(), "Unsafe archive path: /tq/settings_A/prefs.ini");
    assert_eq!(normalize_manifest_path("tq/../settings_A/prefs.ini", false).unwrap_err(), "Unsafe archive path: tq/../settings_A/prefs.ini");
    assert_eq!(normalize_manifest_path("./tq/settings_A/prefs.ini", false).unwrap_err(), "Unsafe archive path: ./tq/settings_A/prefs.ini");
    assert_eq!(normalize_manifest_path("tq/settings_A/notes.txt", false).unwrap_err(), "Unsupported archive path: tq/settings_A/notes.txt");
    assert_eq!(normalize_manifest_path("tq/profile/prefs.ini", false).unwrap_err(), "Unsupported archive path: tq/profile/prefs.ini");
    assert_eq!(normalize_manifest_path("", false).unwrap_err(), "Unsupported archive path: ");
    assert_eq!(
        normalize_manifest_path("C:\\settings_A\\prefs.ini", true).unwrap_err(),
        "Unsafe archive path: C:\\settings_A\\prefs.ini"
    );
    assert_eq!(
        normalize_manifest_path("C:\\settings_A\\prefs.ini", false).unwrap(),
        ("C:/settings_A/prefs.ini".to_string(), vec!["C:".to_string(), "settings_A".to_string(), "prefs.ini".to_string()])
    );
    assert_eq!(normalize_manifest_path("tq/settings_A/prefs.ini", true).unwrap().0, "tq/settings_A/prefs.ini");
    assert_eq!(normalize_manifest_path("C/settings_A/prefs.ini", false).unwrap().0, "C/settings_A/prefs.ini");
    assert!(is_exportable_profile_file("core_char_1.dat"));
    assert!(is_exportable_profile_file("prefs.ini"));
    assert!(!is_exportable_profile_file("core_char_1.dat.tmp"));
    assert!(is_exportable_backup_file("x.bak"));
}

fn entry(path: &str, sum: &str) -> ManifestFileEntry {
    ManifestFileEntry { relative_path: path.to_string(), sha256: sum.to_string() }
}

#[test]
fn manifest_problems() {
    let good: String = std::iter::repeat('F').take(64).collect();
    let manifest = |files: Vec<ManifestFileEntry>| ExportManifest { app_version: "v".to_string(), timestamp: 0, files };
    let too_many: Vec<ManifestFileEntry> = (0..10_001).map(|_| entry("aliases.json", &good)).collect();
    assert_eq!(validate_manifest(&manifest(too_many), false).unwrap_err(), "Archive contains more than 10000 files");
    assert_eq!(
        validate_manifest(&manifest(vec![entry("t/settings_A/prefs.ini", &good), entry("t\\settings_A\\prefs.ini", &good)]), false).unwrap_err(),
        "Archive manifest contains duplicate path t\\settings_A\\prefs.ini"
    );
    assert_eq!(
        validate_manifest(&manifest(vec![entry("t/settings_A/prefs.ini", "abc")]), false).unwrap_err(),
        "Archive manifest has an invalid checksum for t/settings_A/prefs.ini"
    );
    let bad: String = std::iter::repeat('g').take(64).collect();
    assert_eq!(
        validate_manifest(&manifest(vec![entry("t/settings_A/prefs.ini", &bad)]), false).unwrap_err(),
        "Archive manifest has an invalid checksum for t/settings_A/prefs.ini"
    );
    assert_eq!(validate_manifest(&manifest(vec![entry("../x", &good)]), false).unwrap_err(), "Unsafe archive path: ../x");
    assert!(validate_manifest(&manifest(vec![]), false).is_ok());
}

#[test]
fn archive_members() {
    assert!(check_archive_entry_size("a", 32 * 1024 * 1024).is_ok());
    assert_eq!(check_archive_entry_size("a", 32 * 1024 * 1024 + 1).unwrap_err(), "a is larger than the 32 MiB import limit");
    assert_eq!(
        verify_archive_payload("a", &"0".repeat(64), b"data").unwrap_err(),
        "Checksum mismatch for a. The archive may be damaged or modified."
    );
    assert_eq!(import_failure_message("Failed to write x: disk full", &[]), "Failed to write x: disk full All earlier writes were rolled back.");
    assert_eq!(
        import_failure_message("E", &["one".to_string(), "two".to_string()]),
        "E Rollback also reported: one; two"
    );
}

#[test]
fn formation_saves() {
    let sum = sha256_of_bytes(b"file");
    assert_eq!(expect_checksum(Some(&sum), b"file").unwrap(), sum);
    assert_eq!(expect_checksum(None, b"file").unwrap(), sum);
    assert_eq!(
        expect_checksum(Some("0"), b"file").unwrap_err(),
        "Settings file changed on disk. Reload it before saving your formations."
    );
    assert!(expect_unchanged_while_saving(b"file", &sum).is_ok());
    assert_eq!(
        expect_unchanged_while_saving(b"other", &sum).unwrap_err(),
        "Settings file changed on disk while saving. Reload it before trying again."
    );
    assert_eq!(formation_write_result(b"file").file_sha256, sum);
    assert_eq!(check_pack_schema(2).unwrap_err(), "Unsupported formation pack schema version 2");
    assert_eq!(check_formation_schema(0).unwrap_err(), "Unsupported formation schema version 0");
    assert!(check_pack_schema(1).is_ok() && check_formation_schema(1).is_ok());
    assert_eq!(check_manifest_size(2 * 1024 * 1024 + 1).unwrap_err(), "Archive manifest is larger than 2 MiB");
}

#[test]
fn backup_names() {
    assert_eq!(backup_safe_name_of("  My/Backup..  "), "My_Backup");
    assert_eq!(backup_safe_name_of(" . "), "backup");
    assert_eq!(backup_safe_name_of("pre-restore"), "pre-restore");
    let long: String = std::iter::repeat('a').take(100).collect();
    assert_eq!(backup_safe_name_of(&long).len(), 80);
    let taken: Vec<String> = (0..1000)
        .map(|i| if i == 0 { "b_user_1_2.bak".to_string() } else { format!("b ({})_user_1_2.bak", i + 1) })
        .collect();
    assert_eq!(first_free_backup_name("b", "user", "1", 2, &taken), None);
    assert_eq!(backup_kind("char").unwrap(), SettingsKind::Char);
    assert_eq!(backup_kind("other").unwrap_err(), "Unknown settings type");
    assert_eq!(
        backup_source(Some("core_user_7.dat"), Some(Some("settings_Main")), Some("tq_tranquility")).unwrap(),
        (SettingsKind::User, "7".to_string(), Server::Tranquility, "Main".to_string())
    );
    assert_eq!(
        backup_source(Some("core_misc_7.dat"), Some(Some("settings_Main")), Some("tq_tranquility")).unwrap_err(),
        "Unknown settings type"
    );
    assert_eq!(
        backup_source(Some("core_char_7.dat"), Some(Some("Main")), Some("tq_tranquility")).unwrap_err(),
        "Settings file is not inside a settings profile"
    );
    assert_eq!(backup_source(Some("notes.txt"), None, None).unwrap_err(), "Invalid settings file");
}

fn file(id: &str, kind: SettingsKind) -> SettingsFile {
    SettingsFile {
        path: format!("/s/core_{}.dat", id),
        id: id.to_string(),
        kind,
        server: Server::Tranquility,
        profile: "Default".to_string(),
        modified_time: 100,
    }
}

#[test]
fn profiles_list_files_by_id() {
    let files = vec![
        file("2", SettingsKind::User),
        file("90000002", SettingsKind::Char),
        file("10", SettingsKind::User),
        file("1", SettingsKind::User),
    ];
    let p = profile_data("Default".to_string(), "/s".to_string(), files, 160);
    let ids: Vec<&str> = p.accounts.iter().map(|e| e.id.as_str()).collect();
    assert_eq!(ids, vec!["1", "10", "2"]);
    assert_eq!(p.characters.len(), 1);
    assert_eq!(p.accounts[0].display_name, "1");
    assert_eq!(p.accounts[0].relative_time, "1m ago");
    assert!(server_data(Server::Serenity, vec![], false, "/s".to_string()).is_none());
    let d = server_data(Server::Singularity, vec![p], true, "/srv".to_string()).unwrap();
    assert_eq!(d.info.short_name, "SISI");
    assert!(d.info.brackets_always_show && !d.info.supports_esi);
}

#[test]
fn characters_and_backups() {
    assert_eq!(character_lookup_id(Server::Tranquility, "90000001"), Some(90_000_001));
    assert_eq!(character_lookup_id(Server::Tranquility, "89999999"), None);
    assert_eq!(character_lookup_id(Server::Thunderdome, "90000001"), None);
    assert_eq!(
        character_details(90_000_001, "Pilot".to_string(), None).portrait_url,
        "https://images.evetech.net/characters/90000001/portrait?size=64"
    );
    assert!(backup_entry("/b/x.txt".to_string(), "x.txt", Server::Tranquility, "D".to_string(), 0).is_none());
    let old = backup_entry("/b/a_user_1_10.bak".to_string(), "a_user_1_10.bak", Server::Tranquility, "D".to_string(), 70)
        .unwrap();
    assert_eq!(old.name, "a");
    assert_eq!(old.relative_time, "1m ago");
    let new = backup_entry("/b/n_user_2_20.bak".to_string(), "n_user_2_20.bak", Server::Tranquility, "D".to_string(), 70)
        .unwrap();
    let odd = backup_entry("/b/o_char_3_x.bak".to_string(), "o_char_3_x.bak", Server::Tranquility, "D".to_string(), 70)
        .unwrap();
    assert_eq!(odd.timestamp, 0);
    let mut sorted = sort_backups_newest_first(vec![old, odd, new]);
    let names: Vec<&str> = sorted.iter().map(|b| b.name.as_str()).collect();
    assert_eq!(names, vec!["n", "a", "o"]);
    let profile = profile_data(
        "D".to_string(),
        "/s".to_string(),
        vec![file("1", SettingsKind::User), file("2", SettingsKind::User)],
        0,
    );
    let servers = vec![server_data(Server::Tranquility, vec![profile], false, "/t".to_string()).unwrap()];
    enrich_backup_names(&mut sorted, &servers);
    assert_eq!(sorted[0].original_name.as_deref(), Some("2"));
    assert_eq!(sorted[1].original_name.as_deref(), Some("1"));
    assert_eq!(sorted[2].original_name, None);
}

#[test]
fn batches_and_app_info() {
    let mut batch = BatchMutationResult::new();
    batch.record("a".to_string(), Ok(()));
    batch.record("b".to_string(), Err("no".to_string()));
    assert_eq!(batch.succeeded, vec!["a".to_string()]);
    assert_eq!(batch.failed[0].path, "b");
    assert_eq!(batch.failed[0].error, "no");
    let info = app_info("0.3.0-preview.1".to_string());
    assert!(info.preview);
    assert!(!app_info("0.2.1".to_string()).preview);
}

#[test]
fn profiles_aliases_and_characters() {
    assert_eq!(scanned_profile_name("settings_settings_Main"), Some("Main".to_string()));
    assert_eq!(scanned_profile_name("settings_"), Some(String::new()));
    assert_eq!(scanned_profile_name("cache"), None);

    let mut entry = settings_entry(file("90000001", SettingsKind::Char), 100);
    let aliases = Aliases::from_pairs(vec![("90000001".to_string(), "Scout".to_string())]);
    apply_alias(&mut entry, &aliases);
    assert_eq!(entry.display_name, "Scout");
    assert_eq!(entry.alias.as_deref(), Some("Scout"));
    apply_character(&mut entry, character_details(90_000_001, "Pilot".to_string(), Some("Corp".to_string())));
    assert_eq!(entry.display_name, "Pilot");
    assert_eq!(entry.character.as_ref().unwrap().corporation.as_deref(), Some("Corp"));

    let mut untouched = settings_entry(file("5", SettingsKind::User), 100);
    apply_alias(&mut untouched, &aliases);
    assert_eq!(untouched.display_name, "5");
    assert!(untouched.alias.is_none());

    let b = profile_data("b".to_string(), "/b".to_string(), vec![], 0);
    let a = profile_data("a".to_string(), "/a".to_string(), vec![], 0);
    let b2 = profile_data("b".to_string(), "/b2".to_string(), vec![], 0);
    let sorted = sort_profiles(vec![b, a, b2]);
    let paths: Vec<&str> = sorted.iter().map(|p| p.path.as_str()).collect();
    assert_eq!(paths, vec!["/a", "/b", "/b2"]);

    let made = created_backup_entry(
        "Before raid".to_string(),
        "/s/backups/Before raid_user_1_50.bak".to_string(),
        50,
        SettingsKind::User,
        "1".to_string(),
        Server::Tranquility,
        "Default".to_string(),
        50 + 2 * 3600,
    );
    assert_eq!(made.id, "/s/backups/Before raid_user_1_50.bak");
    assert_eq!(made.display_name, "Before raid");
    assert_eq!(made.relative_time, "2h ago");

    assert_eq!(entry_display_name(Some("core_char_90000001.dat"), &aliases).unwrap(), "Scout");
    assert_eq!(entry_display_name(Some("core_user_5.dat"), &aliases).unwrap(), "5");
    assert_eq!(entry_display_name(Some("core_user.dat"), &aliases).unwrap_err(), "Invalid settings file format");
    assert_eq!(entry_display_name(None, &aliases).unwrap_err(), "Invalid filename");
}

#[test]
fn import_backs_up_everything_it_replaces() {
    let plan = ImportPlan {
        writes: vec![
            PlannedWrite { index: 0, relative_path: "t/settings_A/core_user_1.dat".to_string(), existed: true },
            PlannedWrite { index: 1, relative_path: "t/settings_A/prefs.ini".to_string(), existed: true },
            PlannedWrite { index: 2, relative_path: "t/settings_A/core_char_2.dat".to_string(), existed: false },
            PlannedWrite { index: 3, relative_path: "aliases.json".to_string(), existed: true },
        ],
        skipped_count: 0,
    };
    let names = vec![
        Some("core_user_1.dat".to_string()),
        Some("prefs.ini".to_string()),
        Some("core_char_2.dat".to_string()),
        Some("aliases.json".to_string()),
    ];
    assert_eq!(
        import_safety_copies(&plan, &names),
        vec![Some(SafetyCopy::Backup), Some(SafetyCopy::Copy), None, Some(SafetyCopy::Copy)]
    );
    assert_eq!(import_copy_name("prefs.ini", 1700000000), "prefs.ini.pre-import-1700000000");
}

#[test]
fn settings_copy_only_between_files_of_one_kind() {
    let refused = "Account settings only copy to accounts and character settings only to characters";
    assert!(check_copy_kind(Some("core_user_1.dat"), Some("core_user_2.dat")).is_ok());
    assert!(check_copy_kind(Some("core_char_1.dat"), Some("core_char_2.dat")).is_ok());
    assert_eq!(check_copy_kind(Some("core_user_1.dat"), Some("core_char_2.dat")).unwrap_err(), refused);
    assert_eq!(check_copy_kind(Some("core_char_1.dat"), Some("core_user_2.dat")).unwrap_err(), refused);
    assert!(check_copy_kind(Some("manual_char_1_1700000000.bak"), Some("core_char_2.dat")).is_ok());
    assert_eq!(check_copy_kind(Some("manual_user_1_1700000000.bak"), Some("core_char_2.dat")).unwrap_err(), refused);
    assert!(check_copy_kind(Some("notes.txt"), Some("core_char_2.dat")).is_ok());
    assert!(check_copy_kind(None, Some("core_char_2.dat")).is_ok());
}

/// A 64 AU range is one of the combat probe's steps; the app checks the
/// range itself (a floating-point comparison), and the library's limits
/// accept a formation whose probe passed that check.
#[test]
fn accepts_combat_probe_64_au_range() {
    let formation = FormationShape { id: 0, name: "combat deep spread".to_string(), probes: vec![ProbeCheck::Valid] };
    assert!(validate_formations(&[formation]).is_ok());
}
