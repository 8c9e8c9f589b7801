//! The file names EVE and this library use for settings files and backups.
//!
//! * Settings files are named `core_{kind}_{id}.dat` and live in a profile
//!   folder `settings_{profile}` inside a server folder.
//! * Backups are named `{name}_{kind}_{id}_{timestamp}.bak` and live in the
//!   profile's `backups` folder.
//!
//! Paths are taken apart by the caller; these functions see the names of the
//! individual path components.
use vstd::prelude::*;
use crate::server::{kind_for_name, server_for_lowercase, unicode_lowercase, Server, SettingsKind};
use crate::text::{chars_of, decimal, ends_with, parse_u64, parse_u64_str, rsplitn,
    split_once, starts_with, string_of, strip_prefix, strip_suffix, trim_end_str, trim_start_str,
    vec_ends_with, vec_rsplitn, vec_split_once, vec_starts_with, vec_strip_prefix,
    vec_strip_suffix, vec_trim_end_str, vec_trim_start_str, push_str, push_decimal,
};

verus! {

/// The `{kind}_{id}` stem of a `core_{kind}_{id}.dat` file name.
pub open spec fn core_stem(f: Seq<char>) -> Option<Seq<char>> {
    match strip_prefix(f, "core_"@) {
        Some(rest) => strip_suffix(rest, ".dat"@),
        None => None,
    }
}

/// How a settings file's name splits into its kind and id text, or why it
/// does not; `None` stands for a path without a UTF-8 final component.
pub open spec fn core_name_parts(file_name: Option<Seq<char>>) -> Result<(Seq<char>, Seq<char>), Seq<char>> {
    match file_name {
        None => Err("Invalid filename"@),
        Some(f) => match core_stem(f) {
            None => Err("Invalid settings file"@),
            Some(stem) => match split_once(stem, '_') {
                None => Err("Invalid settings file format"@),
                Some((kind, id)) => Ok((kind, id)),
            },
        },
    }
}

/// The view of an optional string slice.
pub open spec fn opt_str_view(o: Option<&str>) -> Option<Seq<char>> {
    match o {
        Some(s) => Some(s@),
        None => None,
    }
}

/// Splits a `core_{kind}_{id}.dat` file name into its kind and id text
/// (see [`core_name_parts`]).
///
/// `file_name` is the UTF-8 final component of the path, or `None` where
/// the path has none.
pub fn parse_core_filename(file_name: Option<&str>) -> (r: Result<(String, String), String>)
    ensures
        match core_name_parts(opt_str_view(file_name)) {
            Err(e) => r matches Err(m) && m@ == e,
            Ok((kind, id)) => r matches Ok((k, i)) && k@ == kind && i@ == id,
        },
{
    let f = match file_name {
        None => return Err("Invalid filename".to_owned()),
        Some(f) => f,
    };
    let fv = chars_of(f);
    let stem = match vec_strip_prefix(&fv, "core_") {
        Some(rest) => match vec_strip_suffix(&rest, ".dat") {
            Some(stem) => stem,
            None => return Err("Invalid settings file".to_owned()),
        },
        None => return Err("Invalid settings file".to_owned()),
    };
    match vec_split_once(&stem, '_') {
        Some((kind, id)) => Ok((string_of(&kind), string_of(&id))),
        None => Err("Invalid settings file format".to_owned()),
    }
}

/// The profile name of a `settings_{profile}` folder name, if it is one
/// with a non-empty profile.
pub open spec fn profile_of_dir(name: Seq<char>) -> Option<Seq<char>> {
    match strip_prefix(name, "settings_"@) {
        Some(p) => if p.len() > 0 {
            Some(p)
        } else {
            None
        },
        None => None,
    }
}

/// The server and profile of a settings file, from the names of the
/// folders that hold it, or why they cannot be told: `profile_dir` is
/// `None` where the file has no parent folder and `Some(None)` where that
/// folder has no UTF-8 name; `server_dir` is the UTF-8 name of the folder
/// above it, if there is one.
pub open spec fn path_context(profile_dir: Option<Option<Seq<char>>>, server_dir: Option<Seq<char>>) -> Result<
    (Server, Seq<char>),
    Seq<char>,
> {
    match profile_dir {
        None => Err("Could not determine settings profile"@),
        Some(pd) => {
            let profile = match pd {
                Some(n) => profile_of_dir(n),
                None => None,
            };
            match profile {
                None => Err("Settings file is not inside a settings profile"@),
                Some(p) => match server_dir {
                    None => Err("Could not determine settings server"@),
                    Some(sd) => match server_for_lowercase(unicode_lowercase(sd)) {
                        None => Err("Unrecognized EVE server folder: "@ + sd),
                        Some(server) => Ok((server, p)),
                    },
                },
            }
        },
    }
}

/// The server and profile of a settings file (see [`path_context`]).
pub fn settings_path_context(profile_dir: Option<Option<&str>>, server_dir: Option<&str>) -> (r:
    Result<(Server, String), String>)
    ensures
        match path_context(
            match profile_dir {
                Some(pd) => Some(opt_str_view(pd)),
                None => None,
            },
            opt_str_view(server_dir),
        ) {
            Err(e) => r matches Err(m) && m@ == e,
            Ok((server, p)) => r matches Ok((s, name)) && s == server && name@ == p,
        },
{
    let pd = match profile_dir {
        None => return Err("Could not determine settings profile".to_owned()),
        Some(pd) => pd,
    };
    let profile = match pd {
        Some(n) => {
            let nv = chars_of(n);
            match vec_strip_prefix(&nv, "settings_") {
                Some(p) => if p.len() > 0 {
                    p
                } else {
                    return Err("Settings file is not inside a settings profile".to_owned());
                },
                None => return Err("Settings file is not inside a settings profile".to_owned()),
            }
        },
        None => return Err("Settings file is not inside a settings profile".to_owned()),
    };
    let sd = match server_dir {
        None => return Err("Could not determine settings server".to_owned()),
        Some(sd) => sd,
    };
    match Server::from_folder_name(sd) {
        Some(server) => Ok((server, string_of(&profile))),
        None => {
            let mut msg = "Unrecognized EVE server folder: ".to_owned();
            push_str(&mut msg, sd);
            Err(msg)
        },
    }
}

/// The profile a folder holds when scanning a server folder: a folder
/// named `settings_...` holds the profile named by the rest, with every
/// leading `settings_` removed.
pub open spec fn scanned_profile(name: Seq<char>) -> Option<Seq<char>> {
    if starts_with(name, "settings_"@) {
        Some(trim_start_str(name, "settings_"@))
    } else {
        None
    }
}

/// Computes [`scanned_profile`].
pub fn scanned_profile_name(dir_name: &str) -> (r: Option<String>)
    ensures
        match scanned_profile(dir_name@) {
            Some(p) => r matches Some(s) && s@ == p,
            None => r is None,
        },
{
    let v = chars_of(dir_name);
    if vec_starts_with(&v, &chars_of("settings_")) {
        Some(string_of(&vec_trim_start_str(&v, "settings_")))
    } else {
        None
    }
}

/// The identity of a backup in the backup list: its full path, which is
/// unique where a name alone is not.
pub fn backup_entry_id(path: &str) -> (r: String)
    ensures
        r@ == path@,
{
    path.to_owned()
}

/// What a settings file found while scanning a profile folder is: its kind
/// and numeric id, where its name is `core_{user|char}_{digits}.dat`.
pub open spec fn settings_file_identity(f: Seq<char>) -> Option<(SettingsKind, Seq<char>)> {
    if !starts_with(f, "core_"@) || !ends_with(f, ".dat"@) {
        None
    } else {
        let stem = trim_end_str(trim_start_str(f, "core_"@), ".dat"@);
        match split_once(stem, '_') {
            None => None,
            Some((kind, id)) => if id.len() == 0 || parse_u64(id) is None {
                None
            } else {
                match kind_for_name(kind) {
                    Some(k) => Some((k, id)),
                    None => None,
                }
            },
        }
    }
}

/// Recognises a settings file by its name (see [`settings_file_identity`]).
pub fn parse_settings_file_name(file_name: &str) -> (r: Option<(SettingsKind, String)>)
    ensures
        match r {
            Some((k, id)) => settings_file_identity(file_name@) == Some((k, id@)),
            None => settings_file_identity(file_name@) is None,
        },
{
    let fv = chars_of(file_name);
    if !vec_starts_with(&fv, &chars_of("core_")) || !vec_ends_with(&fv, &chars_of(".dat")) {
        return None;
    }
    let stem = vec_trim_end_str(&vec_trim_start_str(&fv, "core_"), ".dat");
    let (kind, id) = match vec_split_once(&stem, '_') {
        Some(p) => p,
        None => return None,
    };
    if id.len() == 0 || parse_u64_str(&id).is_none() {
        return None;
    }
    let kind_s = string_of(&kind);
    match SettingsKind::from_name(kind_s.as_str()) {
        Some(k) => Some((k, string_of(&id))),
        None => None,
    }
}

/// The parts of a backup file name.
#[derive(Debug, Clone, PartialEq, Eq)]
pub struct BackupFileName {
    pub name: String,
    pub kind: SettingsKind,
    pub original_id: String,
    pub timestamp: u64,
}

/// How the backup list reads a file in a `backups` folder: a name ending in
/// `.bak`, whose stem splits from the right at `_` into four parts
/// `{name}_{kind}_{id}_{timestamp}` with a known kind. A timestamp that is
/// not a number reads as 0.
pub open spec fn backup_name_parts(f: Seq<char>) -> Option<(Seq<char>, SettingsKind, Seq<char>, u64)> {
    if !ends_with(f, ".bak"@) {
        None
    } else {
        let parts = rsplitn(trim_end_str(f, ".bak"@), '_', 4);
        if parts.len() < 4 {
            None
        } else {
            match kind_for_name(parts[2]) {
                None => None,
                Some(k) => Some(
                    (
                        parts[3],
                        k,
                        parts[1],
                        match parse_u64(parts[0]) {
                            Some(t) => t,
                            None => 0,
                        },
                    ),
                ),
            }
        }
    }
}

/// Reads a backup file name (see [`backup_name_parts`]).
pub fn parse_backup_file_name(file_name: &str) -> (r: Option<BackupFileName>)
    ensures
        match r {
            Some(b) => backup_name_parts(file_name@) == Some(
                (b.name@, b.kind, b.original_id@, b.timestamp),
            ),
            None => backup_name_parts(file_name@) is None,
        },
{
    let fv = chars_of(file_name);
    if !vec_ends_with(&fv, &chars_of(".bak")) {
        return None;
    }
    let stem = vec_trim_end_str(&fv, ".bak");
    let parts = vec_rsplitn(&stem, '_', 4);
    if parts.len() < 4 {
        return None;
    }
    let kind_s = string_of(&parts[2]);
    let kind = match SettingsKind::from_name(kind_s.as_str()) {
        Some(k) => k,
        None => return None,
    };
    let timestamp = match parse_u64_str(&parts[0]) {
        Some(t) => t,
        None => 0,
    };
    Some(
        BackupFileName {
            name: string_of(&parts[3]),
            kind,
            original_id: string_of(&parts[1]),
            timestamp,
        },
    )
}

/// Characters kept as they are in a backup's name: ASCII letters and
/// digits, space, `-`, `_`, `.`, `(` and `)`; others become `_`.
pub open spec fn backup_name_char(c: char) -> char {
    if ('a' <= c && c <= 'z') || ('A' <= c && c <= 'Z') || ('0' <= c && c <= '9') || c == ' '
        || c == '-' || c == '_' || c == '.' || c == '(' || c == ')' {
        c
    } else {
        '_'
    }
}

/// Space and dot, which are trimmed from both ends of a backup name.
pub open spec fn is_space_or_dot(c: char) -> bool {
    c == ' ' || c == '.'
}

pub open spec fn trim_start_space_dot(s: Seq<char>) -> Seq<char>
    decreases s.len(),
{
    if s.len() > 0 && is_space_or_dot(s[0]) {
        trim_start_space_dot(s.drop_first())
    } else {
        s
    }
}

pub open spec fn trim_end_space_dot(s: Seq<char>) -> Seq<char>
    decreases s.len(),
{
    if s.len() > 0 && is_space_or_dot(s.last()) {
        trim_end_space_dot(s.drop_last())
    } else {
        s
    }
}

/// The name a backup is filed under: the first 80 characters of the
/// requested name, with unsafe characters replaced by `_` and spaces and
/// dots trimmed from both ends; `backup` where nothing is left.
pub open spec fn backup_safe_name(name: Seq<char>) -> Seq<char> {
    let head = if name.len() <= 80 {
        name
    } else {
        name.take(80)
    };
    let t = trim_end_space_dot(trim_start_space_dot(head.map_values(|c: char| backup_name_char(c))));
    if t.len() == 0 {
        "backup"@
    } else {
        t
    }
}

/// The label of the `suffix`-th candidate name for a backup: the safe name
/// itself, then `{safe} (2)`, `{safe} (3)`, ...
pub open spec fn backup_label(safe: Seq<char>, suffix: nat) -> Seq<char> {
    if suffix == 0 {
        safe
    } else {
        safe + " ("@ + decimal(suffix + 1) + ")"@
    }
}

/// `{label}_{kind}_{id}_{timestamp}.bak`.
pub open spec fn backup_file_name_spec(label: Seq<char>, kind: Seq<char>, id: Seq<char>, timestamp: u64) -> Seq<char> {
    label + "_"@ + kind + "_"@ + id + "_"@ + decimal(timestamp as nat) + ".bak"@
}

/// Computes [`backup_safe_name`].
pub fn backup_safe_name_of(name: &str) -> (r: String)
    ensures
        r@ == backup_safe_name(name@),
{
    let v = chars_of(name);
    let n: usize = if v.len() <= 80 { v.len() } else { 80 };
    let ghost head = if name@.len() <= 80 { name@ } else { name@.take(80) };
    assert(head == v@.take(n as int));
    let mut mapped: Vec<char> = Vec::new();
    let mut i: usize = 0;
    while i < n
        invariant
            n <= v@.len(),
            i <= n,
            head == v@.take(n as int),
            mapped@ == head.take(i as int).map_values(|c: char| backup_name_char(c)),
        decreases n - i,
    {
        let c = v[i];
        let d = if (c >= 'a' && c <= 'z') || (c >= 'A' && c <= 'Z') || (c >= '0' && c <= '9')
            || c == ' ' || c == '-' || c == '_' || c == '.' || c == '(' || c == ')' {
            c
        } else {
            '_'
        };
        mapped.push(d);
        assert(head.take(i + 1).map_values(|c: char| backup_name_char(c)) == head.take(
            i as int,
        ).map_values(|c: char| backup_name_char(c)).push(backup_name_char(head[i as int])));
        i = i + 1;
    }
    assert(head.take(n as int) == head);
    let mut lo: usize = 0;
    let ghost m = mapped@;
    assert(m.skip(0) == m);
    while lo < mapped.len() && (mapped[lo] == ' ' || mapped[lo] == '.')
        invariant
            m == mapped@,
            lo <= m.len(),
            trim_start_space_dot(m.skip(lo as int)) == trim_start_space_dot(m),
        decreases m.len() - lo,
    {
        assert(m.skip(lo as int).drop_first() == m.skip(lo + 1));
        lo = lo + 1;
    }
    assert(trim_start_space_dot(m.skip(lo as int)) == m.skip(lo as int));
    let mut hi: usize = mapped.len();
    while hi > lo && (mapped[hi - 1] == ' ' || mapped[hi - 1] == '.')
        invariant
            m == mapped@,
            lo <= hi <= m.len(),
            trim_end_space_dot(m.subrange(lo as int, hi as int)) == trim_end_space_dot(
                m.skip(lo as int),
            ),
        decreases hi,
    {
        assert(m.subrange(lo as int, hi as int).drop_last() == m.subrange(lo as int, hi - 1));
        hi = hi - 1;
    }
    assert(m.skip(lo as int) == m.subrange(lo as int, m.len() as int));
    assert(trim_end_space_dot(m.subrange(lo as int, hi as int)) == m.subrange(lo as int, hi as int));
    if hi == lo {
        "backup".to_owned()
    } else {
        crate::text::string_from_chars(&mapped, lo, hi)
    }
}

/// The file name of the `suffix`-th candidate for a backup of a
/// `{kind}_{id}` settings file taken at `timestamp`.
pub fn backup_file_name(safe: &str, suffix: u32, kind: &str, id: &str, timestamp: u64) -> (r: String)
    ensures
        r@ == backup_file_name_spec(backup_label(safe@, suffix as nat), kind@, id@, timestamp),
{
    let mut out = safe.to_owned();
    if suffix != 0 {
        push_str(&mut out, " (");
        push_decimal(&mut out, suffix as u64 + 1);
        push_str(&mut out, ")");
    }
    push_str(&mut out, "_");
    push_str(&mut out, kind);
    push_str(&mut out, "_");
    push_str(&mut out, id);
    push_str(&mut out, "_");
    push_decimal(&mut out, timestamp);
    push_str(&mut out, ".bak");
    out
}

/// Backups whose safe name starts with `pre-` are the automatic ones taken
/// before a change; only those are pruned.
pub fn is_automatic_backup_name(safe: &str) -> (r: bool)
    ensures
        r == starts_with(safe@, "pre-"@),
{
    vec_starts_with(&chars_of(safe), &chars_of("pre-"))
}

} // verus!
