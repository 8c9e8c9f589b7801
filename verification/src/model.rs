//! The records the app lists: servers, their settings profiles, the
//! account and character settings files in them, and backups.
use vstd::prelude::*;
use crate::aliases::Aliases;
use crate::clock::{format_relative_time_at, relative_time};
use crate::names::{backup_name_parts, parse_backup_file_name};
use crate::server::{Server, SettingsKind};
use crate::sorting::{sort_by_key, stable_sorted, SortKey};
use crate::text::{decimal_int, i64_to_string, parse_i64, parse_i64_str, chars_of, push_str, str_eq};

verus! {

// ----------------------------------------------------------------------
// Batch results
// ----------------------------------------------------------------------

/// A file a batch operation could not change, and why.
#[derive(Debug, Clone, PartialEq, Eq)]
pub struct MutationFailure {
    pub path: String,
    pub error: String,
}

/// The files a batch operation changed and those it could not.
#[derive(Debug, Clone, PartialEq, Eq)]
pub struct BatchMutationResult {
    pub succeeded: Vec<String>,
    pub failed: Vec<MutationFailure>,
}

impl BatchMutationResult {
    /// Nothing done yet.
    pub fn new() -> (r: BatchMutationResult)
        ensures
            r.succeeded@.len() == 0,
            r.failed@.len() == 0,
    {
        BatchMutationResult { succeeded: Vec::new(), failed: Vec::new() }
    }

    /// Records the outcome for one file: a success lists its path, a
    /// failure its path and error.
    pub fn record(&mut self, path: String, outcome: Result<(), String>)
        ensures
            match outcome {
                Ok(()) => final(self).succeeded@ == old(self).succeeded@.push(path) && final(self).failed@
                    == old(self).failed@,
                Err(e) => final(self).failed@ == old(self).failed@.push(
                    MutationFailure { path: path, error: e },
                ) && final(self).succeeded@ == old(self).succeeded@,
            },
    {
        match outcome {
            Ok(()) => self.succeeded.push(path),
            Err(error) => self.failed.push(MutationFailure { path, error }),
        }
    }
}

// ----------------------------------------------------------------------
// Servers and characters
// ----------------------------------------------------------------------

/// How a server is presented.
#[derive(Debug, Clone)]
pub struct ServerInfo {
    pub id: Server,
    pub name: String,
    pub short_name: String,
    pub color: String,
    pub supports_esi: bool,
    pub brackets_always_show: bool,
    pub server_path: String,
}

/// The presentation of `server`, whose folder is `server_path`.
pub fn server_info(server: Server, brackets_always_show: bool, server_path: String) -> (r: ServerInfo)
    ensures
        r.id == server,
        r.name@ == server.spec_display_name(),
        r.short_name@ == server.spec_short_name(),
        r.color@ == server.spec_color(),
        r.supports_esi == (server == Server::Tranquility),
        r.brackets_always_show == brackets_always_show,
        r.server_path@ == server_path@,
{
    ServerInfo {
        id: server,
        name: server.display_name().to_owned(),
        short_name: server.short_name().to_owned(),
        color: server.color().to_owned(),
        supports_esi: server.supports_esi(),
        brackets_always_show,
        server_path,
    }
}

/// A character's public details.
#[derive(Debug, Clone)]
pub struct CharacterDetails {
    pub name: String,
    pub corporation: Option<String>,
    pub portrait_url: String,
}

/// The 64-pixel portrait of a character on EVE's image server.
pub open spec fn portrait_url(char_id: i64) -> Seq<char> {
    "https://images.evetech.net/characters/"@ + decimal_int(char_id as int) + "/portrait?size=64"@
}

/// A character's details as EVE's public API gives them.
pub fn character_details(char_id: i64, name: String, corporation: Option<String>) -> (r: CharacterDetails)
    ensures
        r.name@ == name@,
        r.corporation == corporation,
        r.portrait_url@ == portrait_url(char_id),
{
    let mut url = "https://images.evetech.net/characters/".to_owned();
    let id = i64_to_string(char_id);
    push_str(&mut url, id.as_str());
    push_str(&mut url, "/portrait?size=64");
    CharacterDetails { name, corporation, portrait_url: url }
}

/// The id to look a character up by on EVE's public API: only on
/// Tranquility and Singularity, and only for player characters (ids from
/// 90,000,000 on).
pub open spec fn character_lookup(server: Server, id: Seq<char>) -> Option<i64> {
    if server == Server::Tranquility || server == Server::Singularity {
        match parse_i64(id) {
            Some(c) => if c >= 90_000_000 {
                Some(c)
            } else {
                None
            },
            None => None,
        }
    } else {
        None
    }
}

/// Computes [`character_lookup`].
pub fn character_lookup_id(server: Server, id: &str) -> (r: Option<i64>)
    ensures
        r == character_lookup(server, id@),
{
    if server == Server::Tranquility || server == Server::Singularity {
        match parse_i64_str(&chars_of(id)) {
            Some(c) => if c >= 90_000_000 {
                Some(c)
            } else {
                None
            },
            None => None,
        }
    } else {
        None
    }
}

// ----------------------------------------------------------------------
// Settings files
// ----------------------------------------------------------------------

/// A settings file found in a profile folder.
#[derive(Debug, Clone)]
pub struct SettingsFile {
    pub path: String,
    pub id: String,
    pub kind: SettingsKind,
    pub server: Server,
    pub profile: String,
    pub modified_time: u64,
}

/// A settings file as the app lists it.
#[derive(Debug, Clone)]
pub struct SettingsEntry {
    pub path: String,
    pub id: String,
    pub kind: SettingsKind,
    pub server: Server,
    pub profile: String,
    pub display_name: String,
    pub character: Option<CharacterDetails>,
    pub alias: Option<String>,
    pub modified_time: u64,
    pub relative_time: String,
}

impl SortKey for SettingsFile {
    open spec fn sort_key(&self) -> Seq<char> {
        self.id@
    }

    fn key_str(&self) -> (r: &str) {
        self.id.as_str()
    }
}

impl SortKey for SettingsEntry {
    open spec fn sort_key(&self) -> Seq<char> {
        self.id@
    }

    fn key_str(&self) -> (r: &str) {
        self.id.as_str()
    }
}

/// `e` lists the file `f`, seen at `now`: its fields, the id as its name,
/// how long ago it changed, and no character or alias yet.
pub open spec fn lists_file(e: SettingsEntry, f: SettingsFile, now: u64) -> bool {
    &&& e.path@ == f.path@
    &&& e.id@ == f.id@
    &&& e.kind == f.kind
    &&& e.server == f.server
    &&& e.profile@ == f.profile@
    &&& e.display_name@ == f.id@
    &&& e.character is None
    &&& e.alias is None
    &&& e.modified_time == f.modified_time
    &&& e.relative_time@ == relative_time(f.modified_time, now)
}

/// The listing of a settings file, seen at `now` (Unix seconds).
pub fn settings_entry(f: SettingsFile, now: u64) -> (r: SettingsEntry)
    ensures
        lists_file(r, f, now),
{
    let ghost fv = f;
    let display_name = f.id.clone();
    let relative_time = format_relative_time_at(f.modified_time, now);
    SettingsEntry {
        path: f.path,
        id: f.id,
        kind: f.kind,
        server: f.server,
        profile: f.profile,
        display_name,
        character: None,
        alias: None,
        modified_time: f.modified_time,
        relative_time,
    }
}

/// The name a settings file is shown with, from its file name: the alias
/// of its id, or the id itself.
pub fn entry_display_name(file_name: Option<&str>, aliases: &Aliases) -> (r: Result<String, String>)
    ensures
        match file_name {
            None => r matches Err(e) && e@ == "Invalid filename"@,
            Some(f) => match crate::names::core_stem(f@) {
                None => r matches Err(e) && e@ == "Invalid settings file"@,
                Some(stem) => match crate::text::split_once(stem, '_') {
                    None => r matches Err(e) && e@ == "Invalid settings file format"@,
                    Some((_, id)) => r matches Ok(n) && n@ == crate::aliases::display_name_of(aliases@, id),
                },
            },
        },
{
    let (_, id) = crate::names::parse_core_filename(file_name)?;
    Ok(aliases.display_name(id.as_str()))
}

/// Law: after the user sets an alias for an id, a settings file
/// `core_{kind}_{id}.dat` (with a kind free of `_`) is read as that id, so
/// [`entry_display_name`] shows it with the trimmed alias, or with the id
/// itself where the alias was cleared or blank.
pub proof fn lemma_entry_name_after_alias(
    aliases: Map<Seq<char>, Seq<char>>,
    kind: Seq<char>,
    id: Seq<char>,
    alias: Option<Seq<char>>,
)
    requires
        crate::text::lacks(kind, '_'),
    ensures
        crate::names::core_stem("core_"@ + kind + "_"@ + id + ".dat"@) == Some(kind + "_"@ + id),
        crate::text::split_once(kind + "_"@ + id, '_') == Some((kind, id)),
        crate::aliases::display_name_of(crate::aliases::with_alias(aliases, id, alias), id) == match alias {
            Some(a) => if crate::text::trim_ws(a).len() > 0 {
                crate::text::trim_ws(a)
            } else {
                id
            },
            None => id,
        },
{
    reveal_strlit("core_");
    reveal_strlit("_");
    reveal_strlit(".dat");
    let stem = kind + "_"@ + id;
    let f = "core_"@ + kind + "_"@ + id + ".dat"@;
    assert(f.subrange(0, 5) =~= "core_"@);
    let rest = f.skip(5);
    assert(rest =~= stem + ".dat"@);
    assert(rest.subrange(rest.len() - 4, rest.len() as int) =~= ".dat"@);
    assert(rest.take(rest.len() - 4) =~= stem);
    assert(stem[kind.len() as int] == '_');
    assert forall|j: int| 0 <= j < kind.len() implies stem[j] != '_' by {
        assert(stem[j] == kind[j]);
    }
    crate::text::lemma_first_index_found(stem, '_', kind.len() as int);
    assert(stem.take(kind.len() as int) =~= kind);
    assert(stem.skip(kind.len() + 1int) =~= id);
    crate::aliases::lemma_alias_then_display(aliases, id, alias, id + "_"@);
}

/// Shows an entry by its alias, where its id has one.
pub fn apply_alias(entry: &mut SettingsEntry, aliases: &Aliases)
    ensures
        aliases@.contains_key(old(entry).id@) ==> (final(entry).alias matches Some(a) && a@ == aliases@[old(
            entry,
        ).id@] && final(entry).display_name@ == aliases@[old(entry).id@]),
        !aliases@.contains_key(old(entry).id@) ==> *final(entry) == *old(entry),
        final(entry).id == old(entry).id,
        final(entry).path == old(entry).path,
        final(entry).kind == old(entry).kind,
        final(entry).server == old(entry).server,
        final(entry).profile == old(entry).profile,
        final(entry).character == old(entry).character,
        final(entry).modified_time == old(entry).modified_time,
        final(entry).relative_time == old(entry).relative_time,
{
    match aliases.get(entry.id.as_str()) {
        Some(a) => {
            entry.display_name = a.clone();
            entry.alias = Some(a);
        },
        None => {},
    }
}

/// Shows a character entry with the details EVE's public API gave for it.
pub fn apply_character(entry: &mut SettingsEntry, details: CharacterDetails)
    ensures
        final(entry).display_name@ == details.name@,
        final(entry).character == Some(details),
        final(entry).id == old(entry).id,
        final(entry).path == old(entry).path,
        final(entry).kind == old(entry).kind,
        final(entry).server == old(entry).server,
        final(entry).profile == old(entry).profile,
        final(entry).alias == old(entry).alias,
        final(entry).modified_time == old(entry).modified_time,
        final(entry).relative_time == old(entry).relative_time,
{
    entry.display_name = details.name.clone();
    entry.character = Some(details);
}

// ----------------------------------------------------------------------
// Profiles
// ----------------------------------------------------------------------

/// A settings profile (`settings_{name}` folder) and the settings files in
/// it: accounts and characters, each sorted by id.
#[derive(Debug, Clone)]
pub struct ProfileData {
    pub name: String,
    pub path: String,
    pub accounts: Vec<SettingsEntry>,
    pub characters: Vec<SettingsEntry>,
}

impl SortKey for ProfileData {
    open spec fn sort_key(&self) -> Seq<char> {
        self.name@
    }

    fn key_str(&self) -> (r: &str) {
        self.name.as_str()
    }
}

/// The files of one kind, in order.
pub open spec fn files_of_kind(files: Seq<SettingsFile>, kind: SettingsKind) -> Seq<SettingsFile> {
    files.filter(is_kind(kind))
}

/// Whether a file is of `kind`.
pub open spec fn is_kind(kind: SettingsKind) -> spec_fn(SettingsFile) -> bool {
    |f: SettingsFile| f.kind == kind
}

/// `entries` lists the files `files`, one by one, seen at `now`.
pub open spec fn lists_files(entries: Seq<SettingsEntry>, files: Seq<SettingsFile>, now: u64) -> bool {
    entries.len() == files.len() && forall|i: int| 0 <= i < files.len() ==> lists_file(
        #[trigger] entries[i],
        files[i],
        now,
    )
}

proof fn lemma_filter_push(s: Seq<SettingsFile>, f: SettingsFile, kind: SettingsKind)
    ensures
        files_of_kind(s.push(f), kind) == if f.kind == kind {
            files_of_kind(s, kind).push(f)
        } else {
            files_of_kind(s, kind)
        },
{
    reveal(Seq::filter);
    assert(s.push(f).drop_last() == s);
}

fn split_by_kind(files: Vec<SettingsFile>) -> (r: (Vec<SettingsFile>, Vec<SettingsFile>))
    ensures
        r.0@ == files_of_kind(files@, SettingsKind::User),
        r.1@ == files_of_kind(files@, SettingsKind::Char),
{
    let ghost fv = files@;
    let mut users: Vec<SettingsFile> = Vec::new();
    let mut chars: Vec<SettingsFile> = Vec::new();
    let mut rest = files;
    let n = rest.len();
    let mut i: usize = 0;
    assert(fv.take(0) =~= Seq::<SettingsFile>::empty());
    assert(files_of_kind(Seq::<SettingsFile>::empty(), SettingsKind::User) =~= Seq::<SettingsFile>::empty())
        by {
        reveal(Seq::filter);
    }
    assert(files_of_kind(Seq::<SettingsFile>::empty(), SettingsKind::Char) =~= Seq::<SettingsFile>::empty())
        by {
        reveal(Seq::filter);
    }
    while i < n
        invariant
            n == fv.len(),
            i <= n,
            rest@.len() == n - i,
            forall|j: int| 0 <= j < n - i ==> #[trigger] rest@[j] == fv[i + j],
            users@ == files_of_kind(fv.take(i as int), SettingsKind::User),
            chars@ == files_of_kind(fv.take(i as int), SettingsKind::Char),
        decreases n - i,
    {
        let f = rest.remove(0);
        assert(f == fv[i as int]);
        assert(fv.take(i + 1) == fv.take(i as int).push(f));
        proof {
            lemma_filter_push(fv.take(i as int), f, SettingsKind::User);
            lemma_filter_push(fv.take(i as int), f, SettingsKind::Char);
        }
        match f.kind {
            SettingsKind::User => users.push(f),
            SettingsKind::Char => chars.push(f),
        }
        i = i + 1;
    }
    assert(fv.take(n as int) == fv);
    (users, chars)
}

fn list_files(files: Vec<SettingsFile>, now: u64) -> (r: Vec<SettingsEntry>)
    ensures
        lists_files(r@, files@, now),
{
    let ghost fv = files@;
    let mut out: Vec<SettingsEntry> = Vec::new();
    let mut rest = files;
    let n = rest.len();
    let mut i: usize = 0;
    while i < n
        invariant
            n == fv.len(),
            i <= n,
            rest@.len() == n - i,
            forall|j: int| 0 <= j < n - i ==> #[trigger] rest@[j] == fv[i + j],
            out@.len() == i,
            forall|j: int| 0 <= j < i ==> lists_file(#[trigger] out@[j], fv[j], now),
        decreases n - i,
    {
        let f = rest.remove(0);
        assert(f == fv[i as int]);
        out.push(settings_entry(f, now));
        i = i + 1;
    }
    out
}

/// A profile and its settings files, seen at `now`: accounts and
/// characters each listed in order of id (files with equal ids keep their
/// order).
pub fn profile_data(name: String, path: String, files: Vec<SettingsFile>, now: u64) -> (r: ProfileData)
    ensures
        r.name@ == name@,
        r.path@ == path@,
        exists|users: Seq<SettingsFile>|
            stable_sorted(users, files_of_kind(files@, SettingsKind::User)) && lists_files(
                r.accounts@,
                users,
                now,
            ),
        exists|chars: Seq<SettingsFile>|
            stable_sorted(chars, files_of_kind(files@, SettingsKind::Char)) && lists_files(
                r.characters@,
                chars,
                now,
            ),
{
    let (users, chars) = split_by_kind(files);
    let users = sort_by_key(users);
    let chars = sort_by_key(chars);
    let ghost uv = users@;
    let ghost cv = chars@;
    let accounts = list_files(users, now);
    let characters = list_files(chars, now);
    ProfileData { name, path, accounts, characters }
}

/// Profiles in order of name (equal names keep their order).
pub fn sort_profiles(profiles: Vec<ProfileData>) -> (r: Vec<ProfileData>)
    ensures
        stable_sorted(r@, profiles@),
{
    sort_by_key(profiles)
}

/// A server and its profiles, as listed.
#[derive(Debug, Clone)]
pub struct ServerData {
    pub info: ServerInfo,
    pub profiles: Vec<ProfileData>,
}

/// The listing of a server with its profiles; a server without profiles is
/// not listed.
pub fn server_data(server: Server, profiles: Vec<ProfileData>, brackets_always_show: bool, server_path: String) -> (r: Option<ServerData>)
    ensures
        profiles@.len() == 0 ==> r is None,
        profiles@.len() > 0 ==> (r matches Some(d) && d.profiles@ == profiles@ && d.info.id == server
            && d.info.name@ == server.spec_display_name() && d.info.short_name@ == server.spec_short_name()
            && d.info.color@ == server.spec_color() && d.info.supports_esi == (server == Server::Tranquility)
            && d.info.brackets_always_show == brackets_always_show && d.info.server_path@ == server_path@),
{
    if profiles.len() == 0 {
        None
    } else {
        Some(ServerData { info: server_info(server, brackets_always_show, server_path), profiles })
    }
}

/// The servers in the order the app lists them.
pub fn all_servers() -> (r: Vec<Server>)
    ensures
        r@ == seq![Server::Tranquility, Server::Singularity, Server::Thunderdome, Server::Serenity],
{
    let mut r: Vec<Server> = Vec::new();
    r.push(Server::Tranquility);
    r.push(Server::Singularity);
    r.push(Server::Thunderdome);
    r.push(Server::Serenity);
    r
}

// ----------------------------------------------------------------------
// Backups
// ----------------------------------------------------------------------

/// A backup as the app lists it.
#[derive(Debug, Clone)]
pub struct BackupEntry {
    pub id: String,
    pub name: String,
    pub path: String,
    pub timestamp: u64,
    pub kind: SettingsKind,
    pub original_id: String,
    pub original_name: Option<String>,
    pub server: Server,
    pub profile: String,
    pub display_name: String,
    pub relative_time: String,
}

/// The listing of the backup file at `path`, named `file_name`, in the
/// `backups` folder of `profile` on `server`, seen at `now`; `None` where
/// the name is not a backup's (see [`backup_name_parts`]). Its identity is
/// its path.
pub fn backup_entry(path: String, file_name: &str, server: Server, profile: String, now: u64) -> (r: Option<BackupEntry>)
    ensures
        match backup_name_parts(file_name@) {
            None => r is None,
            Some((name, kind, original_id, timestamp)) => r matches Some(b) && b.id@ == path@ && b.path@
                == path@ && b.name@ == name && b.display_name@ == name && b.kind == kind && b.original_id@
                == original_id && b.timestamp == timestamp && b.original_name is None && b.server == server
                && b.profile@ == profile@ && b.relative_time@ == relative_time(timestamp, now),
        },
{
    let parsed = match parse_backup_file_name(file_name) {
        Some(p) => p,
        None => return None,
    };
    let id = crate::names::backup_entry_id(path.as_str());
    Some(
        BackupEntry {
            id,
            display_name: parsed.name.clone(),
            name: parsed.name,
            path,
            timestamp: parsed.timestamp,
            kind: parsed.kind,
            original_id: parsed.original_id,
            original_name: None,
            server,
            profile,
            relative_time: format_relative_time_at(parsed.timestamp, now),
        },
    )
}

/// The kind of a settings file from the `{kind}` part of its name, for a
/// backup of it.
pub fn backup_kind(kind: &str) -> (r: Result<SettingsKind, String>)
    ensures
        match crate::server::kind_for_name(kind@) {
            Some(k) => r == Ok::<SettingsKind, String>(k),
            None => r matches Err(e) && e@ == "Unknown settings type"@,
        },
{
    match SettingsKind::from_name(kind) {
        Some(k) => Ok(k),
        None => Err("Unknown settings type".to_owned()),
    }
}

/// What a named backup of a settings file needs to know before the copy:
/// the file's kind and id (from its name) and its server and profile (from
/// the folders holding it), checked in that order.
pub fn backup_source(file_name: Option<&str>, profile_dir: Option<Option<&str>>, server_dir: Option<&str>) -> (r:
    Result<(SettingsKind, String, Server, String), String>)
    ensures
        match crate::names::core_name_parts(crate::names::opt_str_view(file_name)) {
            Err(e) => r matches Err(m) && m@ == e,
            Ok((kind, id)) => match crate::server::kind_for_name(kind) {
                None => r matches Err(m) && m@ == "Unknown settings type"@,
                Some(k) => match crate::names::path_context(
                    match profile_dir {
                        Some(pd) => Some(crate::names::opt_str_view(pd)),
                        None => None,
                    },
                    crate::names::opt_str_view(server_dir),
                ) {
                    Err(e) => r matches Err(m) && m@ == e,
                    Ok((server, profile)) => r matches Ok((rk, ri, rs, rp)) && rk == k && ri@ == id && rs
                        == server && rp@ == profile,
                },
            },
        },
{
    let (kind_str, id) = crate::names::parse_core_filename(file_name)?;
    let kind = backup_kind(kind_str.as_str())?;
    let (server, profile) = crate::names::settings_path_context(profile_dir, server_dir)?;
    Ok((kind, id, server, profile))
}

/// The listing of a backup just made: the name the user gave it, the file
/// it went to (which is also its identity), and the settings file it
/// copies.
pub fn created_backup_entry(
    backup_name: String,
    dest: String,
    timestamp: u64,
    kind: SettingsKind,
    original_id: String,
    server: Server,
    profile: String,
    now: u64,
) -> (r: BackupEntry)
    ensures
        r.id@ == dest@,
        r.path@ == dest@,
        r.name@ == backup_name@,
        r.display_name@ == backup_name@,
        r.timestamp == timestamp,
        r.kind == kind,
        r.original_id@ == original_id@,
        r.original_name is None,
        r.server == server,
        r.profile@ == profile@,
        r.relative_time@ == relative_time(timestamp, now),
{
    BackupEntry {
        id: crate::names::backup_entry_id(dest.as_str()),
        display_name: backup_name.clone(),
        name: backup_name,
        path: dest,
        timestamp,
        kind,
        original_id,
        original_name: None,
        server,
        profile,
        relative_time: format_relative_time_at(timestamp, now),
    }
}

/// Timestamps never increase along the sequence.
pub open spec fn newest_first(s: Seq<BackupEntry>) -> bool {
    forall|i: int, j: int| 0 <= i < j < s.len() ==> (#[trigger] s[i]).timestamp >= (#[trigger] s[j]).timestamp
}

/// Whether a backup was taken at `t`.
pub open spec fn taken_at(t: u64) -> spec_fn(BackupEntry) -> bool {
    |b: BackupEntry| b.timestamp == t
}

/// The backups taken at `t`, in order.
pub open spec fn with_timestamp(s: Seq<BackupEntry>, t: u64) -> Seq<BackupEntry> {
    s.filter(taken_at(t))
}

proof fn lemma_with_timestamp_push(s: Seq<BackupEntry>, b: BackupEntry, t: u64)
    ensures
        with_timestamp(s.push(b), t) == if b.timestamp == t {
            with_timestamp(s, t).push(b)
        } else {
            with_timestamp(s, t)
        },
{
    reveal(Seq::filter);
    assert(s.push(b).drop_last() == s);
}

proof fn lemma_no_match(s: Seq<BackupEntry>, t: u64)
    requires
        forall|j: int| 0 <= j < s.len() ==> (#[trigger] s[j]).timestamp != t,
    ensures
        with_timestamp(s, t) == Seq::<BackupEntry>::empty(),
    decreases s.len(),
{
    reveal(Seq::filter);
    if s.len() > 0 {
        lemma_no_match(s.drop_last(), t);
        assert(s[s.len() - 1].timestamp != t);
    }
}

proof fn lemma_with_timestamp_insert(ov: Seq<BackupEntry>, p: int, b: BackupEntry, t: u64)
    requires
        0 <= p <= ov.len(),
        forall|j: int| p <= j < ov.len() ==> (#[trigger] ov[j]).timestamp != b.timestamp,
    ensures
        with_timestamp(ov.take(p) + seq![b] + ov.skip(p), t) == if t == b.timestamp {
            with_timestamp(ov, t).push(b)
        } else {
            with_timestamp(ov, t)
        },
{
    let pr = taken_at(t);
    let x = ov.take(p);
    let y = ov.skip(p);
    Seq::filter_distributes_over_add(x + seq![b], y, pr);
    Seq::filter_distributes_over_add(x, seq![b], pr);
    Seq::filter_distributes_over_add(x, y, pr);
    assert(ov == x + y);
    lemma_with_timestamp_push(Seq::<BackupEntry>::empty(), b, t);
    assert(Seq::<BackupEntry>::empty().push(b) == seq![b]);
    assert(with_timestamp(Seq::<BackupEntry>::empty(), t) == Seq::<BackupEntry>::empty()) by {
        reveal(Seq::filter);
    }
    if t == b.timestamp {
        assert forall|j: int| 0 <= j < y.len() implies (#[trigger] y[j]).timestamp != t by {
            assert(y[j] == ov[p + j]);
        }
        lemma_no_match(y, t);
        assert(with_timestamp(x + seq![b] + y, t) =~= with_timestamp(ov, t).push(b));
    } else {
        assert(with_timestamp(x + seq![b] + y, t) =~= with_timestamp(ov, t));
    }
}

/// Backups newest first; those taken at the same second keep their order
/// (`sort_by_key` on the reversed timestamp).
pub fn sort_backups_newest_first(v: Vec<BackupEntry>) -> (r: Vec<BackupEntry>)
    ensures
        newest_first(r@),
        forall|t: u64| #[trigger] with_timestamp(r@, t) == with_timestamp(v@, t),
{
    let ghost input = v@;
    let mut out: Vec<BackupEntry> = Vec::new();
    let mut rest = v;
    let mut i: usize = 0;
    let n = rest.len();
    assert(input.take(0) =~= Seq::<BackupEntry>::empty());
    assert forall|t: u64| #[trigger] with_timestamp(out@, t) == with_timestamp(input.take(0), t) by {
        reveal(Seq::filter);
        assert(out@ =~= Seq::<BackupEntry>::empty());
    }
    while i < n
        invariant
            n == input.len(),
            i <= n,
            rest@.len() == n - i,
            forall|j: int| 0 <= j < n - i ==> #[trigger] rest@[j] == input[i + j],
            newest_first(out@),
            forall|t: u64| #[trigger] with_timestamp(out@, t) == with_timestamp(input.take(i as int), t),
        decreases n - i,
    {
        let b = rest.remove(0);
        assert(b == input[i as int]);
        let d = b.timestamp;
        let mut p: usize = 0;
        let ghost ov = out@;
        while p < out.len() && out[p].timestamp >= d
            invariant
                ov == out@,
                p <= out@.len(),
                forall|j: int| 0 <= j < p ==> (#[trigger] ov[j]).timestamp >= d,
            decreases out@.len() - p,
        {
            p = p + 1;
        }
        assert forall|j: int| p <= j < ov.len() implies (#[trigger] ov[j]).timestamp < d by {
            if p < ov.len() {
                assert(ov[p as int].timestamp < d);
                assert(ov[p as int].timestamp >= ov[j].timestamp);
            }
        }
        let ghost bv = b;
        out.insert(p, b);
        proof {
            let nv = out@;
            assert(nv =~= ov.take(p as int) + seq![bv] + ov.skip(p as int));
            assert(ov =~= ov.take(p as int) + ov.skip(p as int));
            assert forall|a: int, c: int| 0 <= a < c < nv.len() implies (#[trigger] nv[a]).timestamp >= (
            #[trigger] nv[c]).timestamp by {
                if c < p {
                } else if c == p {
                    assert(nv[a] == ov[a]);
                } else if a == p {
                    assert(nv[c] == ov[c - 1]);
                } else if a < p {
                    assert(nv[a] == ov[a]);
                    assert(nv[c] == ov[c - 1]);
                } else {
                    assert(nv[a] == ov[a - 1]);
                    assert(nv[c] == ov[c - 1]);
                }
            }
            assert(input.take(i + 1) =~= input.take(i as int).push(bv));
            assert forall|t: u64| #[trigger] with_timestamp(nv, t) == with_timestamp(input.take(i + 1), t) by {
                lemma_with_timestamp_insert(ov, p as int, bv, t);
                lemma_with_timestamp_push(input.take(i as int), bv, t);
            }
        }
        i = i + 1;
    }
    assert(input.take(n as int) == input);
    out
}

/// The entries in a profile that a backup of `kind` can be of.
pub open spec fn profile_entries(p: ProfileData, kind: SettingsKind) -> Seq<SettingsEntry> {
    if kind == SettingsKind::User {
        p.accounts@
    } else {
        p.characters@
    }
}

/// The name of the first entry with id `id`.
pub open spec fn name_in_entries(es: Seq<SettingsEntry>, id: Seq<char>) -> Option<Seq<char>>
    decreases es.len(),
{
    if es.len() == 0 {
        None
    } else if es[0].id@ == id {
        Some(es[0].display_name@)
    } else {
        name_in_entries(es.drop_first(), id)
    }
}

/// The name of the first entry of `kind` with id `id` in the profiles, in
/// order.
pub open spec fn name_in_profiles(ps: Seq<ProfileData>, kind: SettingsKind, id: Seq<char>) -> Option<Seq<char>>
    decreases ps.len(),
{
    if ps.len() == 0 {
        None
    } else {
        match name_in_entries(profile_entries(ps[0], kind), id) {
            Some(n) => Some(n),
            None => name_in_profiles(ps.drop_first(), kind, id),
        }
    }
}

/// The name of the first entry of `kind` with id `id` on the servers, in
/// order.
pub open spec fn name_in_servers(ss: Seq<ServerData>, kind: SettingsKind, id: Seq<char>) -> Option<Seq<char>>
    decreases ss.len(),
{
    if ss.len() == 0 {
        None
    } else {
        match name_in_profiles(ss[0].profiles@, kind, id) {
            Some(n) => Some(n),
            None => name_in_servers(ss.drop_first(), kind, id),
        }
    }
}

/// The view of an optional string.
pub open spec fn opt_view(o: Option<String>) -> Option<Seq<char>> {
    match o {
        Some(s) => Some(s@),
        None => None,
    }
}

fn find_in_entries(es: &Vec<SettingsEntry>, id: &str) -> (r: Option<String>)
    ensures
        opt_view(r) == name_in_entries(es@, id@),
{
    let mut i: usize = 0;
    assert(es@.skip(0) == es@);
    while i < es.len()
        invariant
            i <= es@.len(),
            name_in_entries(es@, id@) == name_in_entries(es@.skip(i as int), id@),
        decreases es@.len() - i,
    {
        assert(es@.skip(i as int)[0] == es@[i as int]);
        assert(es@.skip(i as int).drop_first() == es@.skip(i + 1));
        if str_eq(es[i].id.as_str(), id) {
            return Some(es[i].display_name.clone());
        }
        i = i + 1;
    }
    None
}

fn find_in_profiles(ps: &Vec<ProfileData>, kind: SettingsKind, id: &str) -> (r: Option<String>)
    ensures
        opt_view(r) == name_in_profiles(ps@, kind, id@),
{
    let mut i: usize = 0;
    assert(ps@.skip(0) == ps@);
    while i < ps.len()
        invariant
            i <= ps@.len(),
            name_in_profiles(ps@, kind, id@) == name_in_profiles(ps@.skip(i as int), kind, id@),
        decreases ps@.len() - i,
    {
        assert(ps@.skip(i as int)[0] == ps@[i as int]);
        assert(ps@.skip(i as int).drop_first() == ps@.skip(i + 1));
        let entries = match kind {
            SettingsKind::User => &ps[i].accounts,
            SettingsKind::Char => &ps[i].characters,
        };
        match find_in_entries(entries, id) {
            Some(n) => return Some(n),
            None => {},
        }
        i = i + 1;
    }
    None
}

fn find_in_servers(ss: &[ServerData], kind: SettingsKind, id: &str) -> (r: Option<String>)
    ensures
        opt_view(r) == name_in_servers(ss@, kind, id@),
{
    let mut i: usize = 0;
    assert(ss@.skip(0) == ss@);
    while i < ss.len()
        invariant
            i <= ss@.len(),
            name_in_servers(ss@, kind, id@) == name_in_servers(ss@.skip(i as int), kind, id@),
        decreases ss@.len() - i,
    {
        assert(ss@.skip(i as int)[0] == ss@[i as int]);
        assert(ss@.skip(i as int).drop_first() == ss@.skip(i + 1));
        match find_in_profiles(&ss[i].profiles, kind, id) {
            Some(n) => return Some(n),
            None => {},
        }
        i = i + 1;
    }
    None
}

/// `after` is `before` with the name of the settings file it copies, where
/// the listed servers hold that file.
pub open spec fn enriched(before: BackupEntry, after: BackupEntry, servers: Seq<ServerData>) -> bool {
    match name_in_servers(servers, before.kind, before.original_id@) {
        Some(n) => after == BackupEntry { original_name: after.original_name, ..before } && opt_view(
            after.original_name,
        ) == Some(n),
        None => after == before,
    }
}

/// Names each backup after the settings file it copies: the display name
/// of the first entry of its kind with its original id, looking through
/// the servers and their profiles in order.
pub fn enrich_backup_names(backups: &mut Vec<BackupEntry>, servers: &[ServerData])
    ensures
        final(backups)@.len() == old(backups)@.len(),
        forall|i: int| 0 <= i < old(backups)@.len() ==> enriched(old(backups)@[i], #[trigger] final(backups)@[i], servers@),
{
    let ghost input = backups@;
    let mut rest: Vec<BackupEntry> = Vec::new();
    std::mem::swap(&mut rest, backups);
    let n = rest.len();
    let mut out: Vec<BackupEntry> = Vec::new();
    let mut i: usize = 0;
    while i < n
        invariant
            n == input.len(),
            i <= n,
            rest@.len() == n - i,
            forall|j: int| 0 <= j < n - i ==> #[trigger] rest@[j] == input[i + j],
            out@.len() == i,
            forall|j: int| 0 <= j < i ==> enriched(input[j], #[trigger] out@[j], servers@),
        decreases n - i,
    {
        let mut b = rest.remove(0);
        assert(b == input[i as int]);
        match find_in_servers(servers, b.kind, b.original_id.as_str()) {
            Some(name) => {
                b.original_name = Some(name);
            },
            None => {},
        }
        out.push(b);
        i = i + 1;
    }
    *backups = out;
}

/// Everything the app shows: the servers with their profiles and files,
/// and the backups.
#[derive(Debug, Clone)]
pub struct AppData {
    pub servers: Vec<ServerData>,
    pub backups: Vec<BackupEntry>,
}

/// The outcome of saving probe formations: the check sum of the file as
/// written.
#[derive(Debug, Clone)]
pub struct FormationWriteResult {
    pub file_sha256: String,
}

} // verus!
