//! Export archives: the manifest listing an archive's files with their
//! SHA-256 check sums, the paths it may name, and what an import decides
//! from it.
//!
//! An archive holds `aliases.json` and, relative to the EVE settings root,
//! files `{server}/settings_{profile}/core_*.dat`,
//! `{server}/settings_{profile}/prefs.ini` and
//! `{server}/settings_{profile}/backups/*.bak`.
use vstd::prelude::*;
use crate::digest::{hex_digit, hex_lower, lemma_hex_lower_len, sha256_hex, sha256_spec};
use crate::text::{
    ascii_lower, ascii_lowercase, chars_of, decimal, ends_with, eq_ignore_ascii_case, is_hex_digit, join_with, push_char,
    push_str, split_all, starts_with, str_eq, string_of, vec_ends_with, vec_eq, vec_split_all,
    vec_starts_with,
};
use crate::client::str_eq_ignore_ascii_case;

verus! {

/// At most this many files are imported from one archive.
pub const MAX_IMPORT_FILES: usize = 10000;

/// No archive member larger than this (32 MiB) is read.
pub const MAX_IMPORT_FILE_BYTES: u64 = 33554432;

// ----------------------------------------------------------------------
// Archive paths
// ----------------------------------------------------------------------

/// The views of a sequence of strings.
pub open spec fn strings_view(s: Seq<String>) -> Seq<Seq<char>> {
    s.map_values(|x: String| x@)
}

/// A path with every `\` turned into `/`.
pub open spec fn with_forward_slashes(s: Seq<char>) -> Seq<char> {
    s.map_values(|c: char| if c == '\\' { '/' } else { c })
}

/// The components of a relative path, given its `/`-separated pieces, as
/// `Path::components` reads them: empty pieces and `.` pieces other than
/// a leading one are dropped. `None` where a component is not a plain
/// name: a leading `.` (the current directory) or `..` (the parent).
pub open spec fn normal_parts(pieces: Seq<Seq<char>>, first: bool) -> Option<Seq<Seq<char>>>
    decreases pieces.len(),
{
    if pieces.len() == 0 {
        Some(Seq::empty())
    } else {
        let p = pieces[0];
        let rest = normal_parts(pieces.drop_first(), false);
        if p.len() == 0 {
            rest
        } else if p == "."@ {
            if first {
                None
            } else {
                rest
            }
        } else if p == ".."@ {
            None
        } else {
            match rest {
                Some(r) => Some(seq![p] + r),
                None => None,
            }
        }
    }
}

/// A path that starts at a drive (`C:`) where paths are read the Windows
/// way (`windows`): there it does not lie below the folder it is joined
/// to. Elsewhere `C:` is an ordinary name.
pub open spec fn has_drive_prefix(path: Seq<char>, windows: bool) -> bool {
    windows && path.len() >= 2 && (('a' <= path[0] && path[0] <= 'z') || ('A' <= path[0]
        && path[0] <= 'Z')) && path[1] == ':'
}

/// The plain names a `/`-separated path is made of; `None` for an absolute
/// path (from the root or a drive) or one that steps outside with `.` or
/// `..`.
pub open spec fn path_parts(path: Seq<char>, windows: bool) -> Option<Seq<Seq<char>>> {
    if (path.len() > 0 && path[0] == '/') || has_drive_prefix(path, windows) {
        None
    } else {
        normal_parts(split_all(path, '/'), true)
    }
}

/// The files an archive may hold below the settings root:
/// `{server}/settings_{profile}/prefs.ini`,
/// `{server}/settings_{profile}/core_{...}.dat` and
/// `{server}/settings_{profile}/backups/{...}.bak`.
pub open spec fn supported_parts(p: Seq<Seq<char>>) -> bool {
    ||| (p.len() == 3 && starts_with(p[1], "settings_"@) && (p[2] == "prefs.ini"@ || (starts_with(
        p[2],
        "core_"@,
    ) && ends_with(p[2], ".dat"@))))
    ||| (p.len() == 4 && starts_with(p[1], "settings_"@) && p[2] == "backups"@ && ends_with(
        p[3],
        ".bak"@,
    ))
}

/// Names joined with `/`.
pub open spec fn join_slash(p: Seq<Seq<char>>) -> Seq<char> {
    join_with(p, "/"@)
}

/// How an import reads a path named in a manifest: `aliases.json`, or a
/// supported settings file given by its parts; the path as written with
/// `/` separators comes first. Anything else is refused with the message
/// on the right.
pub open spec fn manifest_path(raw: Seq<char>, windows: bool) -> Result<(Seq<char>, Seq<Seq<char>>), Seq<char>> {
    let n = with_forward_slashes(raw);
    if n == "aliases.json"@ {
        Ok((n, seq![n]))
    } else {
        match path_parts(n, windows) {
            None => Err("Unsafe archive path: "@ + raw),
            Some(p) => if supported_parts(p) {
                Ok((join_slash(p), p))
            } else {
                Err("Unsupported archive path: "@ + raw)
            },
        }
    }
}

/// The normalised form of a manifest path, where it is acceptable.
pub open spec fn normalized_of(raw: Seq<char>, windows: bool) -> Option<Seq<char>> {
    match manifest_path(raw, windows) {
        Ok((n, _)) => Some(n),
        Err(_) => None,
    }
}

fn forward_slashes(raw: &str) -> (r: Vec<char>)
    ensures
        r@ == with_forward_slashes(raw@),
{
    let v = chars_of(raw);
    let mut out: Vec<char> = Vec::new();
    let mut i: usize = 0;
    while i < v.len()
        invariant
            v@ == raw@,
            i <= v@.len(),
            out@ == with_forward_slashes(raw@.take(i as int)),
        decreases v@.len() - i,
    {
        let c = v[i];
        out.push(if c == '\\' { '/' } else { c });
        assert(raw@.take(i + 1) == raw@.take(i as int).push(c));
        i = i + 1;
    }
    assert(raw@.take(v@.len() as int) == raw@);
    out
}

/// `Some(acc + r)` for `Some(r)`.
pub open spec fn prepend_parts(acc: Seq<Seq<char>>, o: Option<Seq<Seq<char>>>) -> Option<Seq<Seq<char>>> {
    match o {
        Some(r) => Some(acc + r),
        None => None,
    }
}

fn plain_parts(pieces: &Vec<Vec<char>>) -> (r: Option<Vec<String>>)
    ensures
        match r {
            Some(p) => normal_parts(pieces@.map_values(|x: Vec<char>| x@), true) == Some(strings_view(p@)),
            None => normal_parts(pieces@.map_values(|x: Vec<char>| x@), true) is None,
        },
{
    let ghost pv = pieces@.map_values(|x: Vec<char>| x@);
    let dot = chars_of(".");
    let dotdot = chars_of("..");
    let mut acc: Vec<String> = Vec::new();
    let mut i: usize = 0;
    assert(pv.skip(0) == pv);
    while i < pieces.len()
        invariant
            pv == pieces@.map_values(|x: Vec<char>| x@),
            dot@ == "."@,
            dotdot@ == ".."@,
            i <= pieces@.len(),
            normal_parts(pv, true) == prepend_parts(strings_view(acc@), normal_parts(pv.skip(i as int), i == 0)),
        decreases pieces@.len() - i,
    {
        let p = &pieces[i];
        let ghost s = pv.skip(i as int);
        assert(s[0] == p@);
        assert(s.drop_first() == pv.skip(i + 1));
        if p.len() == 0 {
        } else if vec_eq(p, &dot) {
            if i == 0 {
                return None;
            }
        } else if vec_eq(p, &dotdot) {
            return None;
        } else {
            let ghost before = acc@;
            acc.push(string_of(p));
            proof {
                assert(strings_view(acc@) == strings_view(before).push(p@));
                let rest = normal_parts(pv.skip(i + 1), false);
                if rest is Some {
                    assert(strings_view(before) + (seq![p@] + rest->0) == strings_view(acc@) + rest->0);
                }
            }
        }
        i = i + 1;
    }
    assert(pv.skip(i as int).len() == 0);
    assert(strings_view(acc@) + Seq::<Seq<char>>::empty() == strings_view(acc@));
    Some(acc)
}

fn is_supported(p: &Vec<String>) -> (r: bool)
    ensures
        r == supported_parts(strings_view(p@)),
{
    let ghost v = strings_view(p@);
    if p.len() == 3 {
        assert(v[1] == p@[1]@ && v[2] == p@[2]@);
        let f = chars_of(p[2].as_str());
        vec_starts_with(&chars_of(p[1].as_str()), &chars_of("settings_")) && (str_eq(p[2].as_str(), "prefs.ini")
            || (vec_starts_with(&f, &chars_of("core_")) && vec_ends_with(&f, &chars_of(".dat"))))
    } else if p.len() == 4 {
        assert(v[1] == p@[1]@ && v[2] == p@[2]@ && v[3] == p@[3]@);
        vec_starts_with(&chars_of(p[1].as_str()), &chars_of("settings_")) && str_eq(p[2].as_str(), "backups")
            && vec_ends_with(&chars_of(p[3].as_str()), &chars_of(".bak"))
    } else {
        false
    }
}

fn join_parts(p: &Vec<String>) -> (r: String)
    ensures
        r@ == join_slash(strings_view(p@)),
{
    let ghost v = strings_view(p@);
    if p.len() == 0 {
        return String::new();
    }
    let mut out = String::new();
    push_str(&mut out, p[0].as_str());
    assert(v.take(1).len() == 1 && v.take(1)[0] == v[0]);
    let mut i: usize = 1;
    while i < p.len()
        invariant
            v == strings_view(p@),
            1 <= i <= p@.len(),
            out@ == join_slash(v.take(i as int)),
        decreases p@.len() - i,
    {
        push_str(&mut out, "/");
        push_str(&mut out, p[i].as_str());
        assert(v.take(i + 1).drop_last() == v.take(i as int));
        assert(v.take(i + 1).last() == p@[i as int]@);
        i = i + 1;
    }
    assert(v.take(p@.len() as int) == v);
    out
}

/// Reads a path named in an export manifest (see [`manifest_path`]): the
/// path with `/` separators, and its parts, from which the caller builds
/// the local path. `windows` says whether the platform the files live on
/// reads paths the Windows way, where a leading `C:` is a drive; elsewhere
/// it is an ordinary folder name.
pub fn normalize_manifest_path(raw: &str, windows: bool) -> (r: Result<(String, Vec<String>), String>)
    ensures
        match manifest_path(raw@, windows) {
            Ok((n, p)) => r matches Ok((a, b)) && a@ == n && strings_view(b@) == p,
            Err(e) => r matches Err(m) && m@ == e,
        },
{
    let n = forward_slashes(raw);
    if vec_eq(&n, &chars_of("aliases.json")) {
        let s = string_of(&n);
        let mut parts: Vec<String> = Vec::new();
        parts.push(string_of(&n));
        assert(strings_view(parts@) == seq![n@]);
        return Ok((s, parts));
    }
    let absolute = (n.len() > 0 && n[0] == '/') || (windows && n.len() >= 2 && ((n[0] >= 'a' && n[0] <= 'z')
        || (n[0] >= 'A' && n[0] <= 'Z')) && n[1] == ':');
    let parts = if absolute {
        None
    } else {
        let pieces = vec_split_all(&n, '/');
        plain_parts(&pieces)
    };
    match parts {
        None => {
            let mut m = "Unsafe archive path: ".to_owned();
            push_str(&mut m, raw);
            Err(m)
        },
        Some(p) => if is_supported(&p) {
            let j = join_parts(&p);
            Ok((j, p))
        } else {
            let mut m = "Unsupported archive path: ".to_owned();
            push_str(&mut m, raw);
            Err(m)
        },
    }
}

// ----------------------------------------------------------------------
// The manifest
// ----------------------------------------------------------------------

/// A file of an export archive and the SHA-256 check sum of its bytes, in
/// hexadecimal.
#[derive(Debug, Clone)]
pub struct ManifestFileEntry {
    pub relative_path: String,
    pub sha256: String,
}

/// The table of contents of an export archive, stored in it as JSON.
#[derive(Debug, Clone)]
pub struct ExportManifest {
    pub app_version: String,
    pub timestamp: u64,
    pub files: Vec<ManifestFileEntry>,
}

/// The outcome of an export.
#[derive(Debug, Clone)]
pub struct ExportResult {
    pub file_count: usize,
    pub path: String,
}

/// A manifest entry as (path, check sum).
pub open spec fn entry_view(e: ManifestFileEntry) -> (Seq<char>, Seq<char>) {
    (e.relative_path@, e.sha256@)
}

/// The entries of a manifest as (path, check sum) pairs.
pub open spec fn files_view(s: Seq<ManifestFileEntry>) -> Seq<(Seq<char>, Seq<char>)> {
    s.map_values(|e: ManifestFileEntry| entry_view(e))
}

/// 64 hexadecimal digits (the length of the text is then also its length
/// in bytes).
pub open spec fn valid_checksum(s: Seq<char>) -> bool {
    s.len() == 64 && forall|i: int| 0 <= i < s.len() ==> is_hex_digit(#[trigger] s[i])
}

/// What is wrong with the `i`-th entry of a manifest whose earlier entries
/// are in order: an unacceptable path, a path that an earlier entry names
/// too, or a malformed check sum.
pub open spec fn entry_problem(files: Seq<(Seq<char>, Seq<char>)>, i: int, windows: bool) -> Option<Seq<char>> {
    match manifest_path(files[i].0, windows) {
        Err(e) => Some(e),
        Ok((n, _)) => if exists|j: int| 0 <= j < i && normalized_of(#[trigger] files[j].0, windows) == Some(n) {
            Some("Archive manifest contains duplicate path "@ + files[i].0)
        } else if !valid_checksum(files[i].1) {
            Some("Archive manifest has an invalid checksum for "@ + files[i].0)
        } else {
            None
        },
    }
}

/// The first problem among the first `n` entries.
pub open spec fn first_problem(files: Seq<(Seq<char>, Seq<char>)>, n: nat, windows: bool) -> Option<Seq<char>>
    decreases n,
{
    if n == 0 {
        None
    } else {
        match first_problem(files, (n - 1) as nat, windows) {
            Some(e) => Some(e),
            None => entry_problem(files, n - 1, windows),
        }
    }
}

/// Why a manifest is refused, if it is: too many files, or the first
/// problem of an entry.
pub open spec fn manifest_problem(files: Seq<(Seq<char>, Seq<char>)>, windows: bool) -> Option<Seq<char>> {
    if files.len() > MAX_IMPORT_FILES {
        Some("Archive contains more than 10000 files"@)
    } else {
        first_problem(files, files.len(), windows)
    }
}

/// Every path is acceptable and no two name the same file.
pub open spec fn paths_distinct(files: Seq<(Seq<char>, Seq<char>)>, windows: bool) -> bool {
    &&& forall|i: int| 0 <= i < files.len() ==> (#[trigger] normalized_of(files[i].0, windows)) is Some
    &&& forall|i: int, j: int|
        0 <= i < j < files.len() ==> normalized_of(#[trigger] files[i].0, windows) != normalized_of(
            #[trigger] files[j].0, windows,
        )
}

proof fn lemma_first_problem_stays(files: Seq<(Seq<char>, Seq<char>)>, a: nat, b: nat, windows: bool)
    requires
        a <= b,
        first_problem(files, a, windows) is Some,
    ensures
        first_problem(files, b, windows) == first_problem(files, a, windows),
    decreases b - a,
{
    if a < b {
        lemma_first_problem_stays(files, a, (b - 1) as nat, windows);
    }
}

fn is_valid_checksum(s: &str) -> (r: bool)
    ensures
        r == valid_checksum(s@),
{
    let v = chars_of(s);
    if v.len() != 64 {
        return false;
    }
    let mut i: usize = 0;
    while i < v.len()
        invariant
            v@ == s@,
            i <= v@.len(),
            forall|j: int| 0 <= j < i ==> is_hex_digit(#[trigger] v@[j]),
        decreases v@.len() - i,
    {
        let c = v[i];
        if !((c >= '0' && c <= '9') || (c >= 'a' && c <= 'f') || (c >= 'A' && c <= 'F')) {
            return false;
        }
        i = i + 1;
    }
    true
}

/// Checks a manifest before anything is imported (see
/// [`manifest_problem`]); an accepted manifest names each file once. Paths
/// are read as [`normalize_manifest_path`] reads them for `windows`.
pub fn validate_manifest(manifest: &ExportManifest, windows: bool) -> (r: Result<(), String>)
    ensures
        match manifest_problem(files_view(manifest.files@), windows) {
            None => r is Ok,
            Some(e) => r matches Err(m) && m@ == e,
        },
        r is Ok ==> paths_distinct(files_view(manifest.files@), windows),
{
    let ghost fv = files_view(manifest.files@);
    if manifest.files.len() > MAX_IMPORT_FILES {
        return Err("Archive contains more than 10000 files".to_owned());
    }
    let mut seen: Vec<String> = Vec::new();
    let mut i: usize = 0;
    while i < manifest.files.len()
        invariant
            fv == files_view(manifest.files@),
            i <= fv.len(),
            fv.len() <= MAX_IMPORT_FILES,
            first_problem(fv, i as nat, windows) is None,
            seen@.len() == i,
            forall|j: int| 0 <= j < i ==> normalized_of(#[trigger] fv[j].0, windows) == Some(seen@[j]@),
            forall|j: int, k: int| 0 <= j < k < i ==> seen@[j]@ != seen@[k]@,
        decreases fv.len() - i,
    {
        let entry = &manifest.files[i];
        assert(fv[i as int] == (entry.relative_path@, entry.sha256@));
        let n = match normalize_manifest_path(entry.relative_path.as_str(), windows) {
            Err(e) => {
                proof {
                    lemma_first_problem_stays(fv, (i + 1) as nat, fv.len(), windows);
                }
                return Err(e);
            },
            Ok((n, _)) => n,
        };
        let mut k: usize = 0;
        while k < seen.len()
            invariant
                k <= seen@.len(),
                seen@.len() == i,
                i < fv.len(),
                first_problem(fv, i as nat, windows) is None,
                fv == files_view(manifest.files@),
                fv.len() <= MAX_IMPORT_FILES,
                normalized_of(fv[i as int].0, windows) == Some(n@),
                fv[i as int].0 == entry.relative_path@,
                forall|j: int| 0 <= j < i ==> normalized_of(#[trigger] fv[j].0, windows) == Some(seen@[j]@),
                forall|j: int| 0 <= j < k ==> seen@[j]@ != n@,
            decreases seen@.len() - k,
        {
            if str_eq(seen[k].as_str(), n.as_str()) {
                assert(normalized_of(fv[k as int].0, windows) == Some(n@));
                assert(exists|j: int| 0 <= j < i && normalized_of(#[trigger] fv[j].0, windows) == Some(n@));
                let mut m = "Archive manifest contains duplicate path ".to_owned();
                push_str(&mut m, entry.relative_path.as_str());
                proof {
                    lemma_first_problem_stays(fv, (i + 1) as nat, fv.len(), windows);
                }
                return Err(m);
            }
            k = k + 1;
        }
        assert(!exists|j: int| 0 <= j < i && normalized_of(#[trigger] fv[j].0, windows) == Some(n@));
        if !is_valid_checksum(entry.sha256.as_str()) {
            let mut m = "Archive manifest has an invalid checksum for ".to_owned();
            push_str(&mut m, entry.relative_path.as_str());
            proof {
                lemma_first_problem_stays(fv, (i + 1) as nat, fv.len(), windows);
            }
            return Err(m);
        }
        seen.push(n);
        i = i + 1;
    }
    proof {
        assert forall|a: int, b: int| 0 <= a < b < fv.len() implies normalized_of(#[trigger] fv[a].0, windows)
            != normalized_of(#[trigger] fv[b].0, windows) by {
            assert(seen@[a]@ != seen@[b]@);
        }
    }
    Ok(())
}

// ----------------------------------------------------------------------
// Archive members
// ----------------------------------------------------------------------

/// Computes [`ascii_lowercase`].
pub fn to_ascii_lowercase(s: &str) -> (r: String)
    ensures
        r@ == ascii_lowercase(s@),
{
    let v = chars_of(s);
    let mut out = String::new();
    let mut i: usize = 0;
    while i < v.len()
        invariant
            v@ == s@,
            i <= v@.len(),
            out@ == ascii_lowercase(s@.take(i as int)),
        decreases v@.len() - i,
    {
        let c = v[i];
        let l = if c >= 'A' && c <= 'Z' {
            ((c as u32) + 32) as u8 as char
        } else {
            c
        };
        assert(l == ascii_lower(c));
        push_char(&mut out, l);
        assert(s@.take(i + 1) == s@.take(i as int).push(c));
        i = i + 1;
    }
    assert(s@.take(v@.len() as int) == s@);
    out
}

/// Refuses an archive member larger than the import limit, before it is
/// read.
pub fn check_archive_entry_size(relative_path: &str, size: u64) -> (r: Result<(), String>)
    ensures
        size <= MAX_IMPORT_FILE_BYTES ==> r is Ok,
        size > MAX_IMPORT_FILE_BYTES ==> (r matches Err(e) && e@ == relative_path@
            + " is larger than the 32 MiB import limit"@),
{
    if size > MAX_IMPORT_FILE_BYTES {
        let mut m = relative_path.to_owned();
        push_str(&mut m, " is larger than the 32 MiB import limit");
        Err(m)
    } else {
        Ok(())
    }
}

/// Checks the bytes read for an archive member against the check sum its
/// manifest entry records, compared in lower case.
pub fn verify_archive_payload(relative_path: &str, expected_sha256: &str, data: &[u8]) -> (r: Result<(), String>)
    ensures
        hex_lower(sha256_spec(data@)) == ascii_lowercase(expected_sha256@) ==> r is Ok,
        hex_lower(sha256_spec(data@)) != ascii_lowercase(expected_sha256@) ==> (r matches Err(e) && e@
            == "Checksum mismatch for "@ + relative_path@ + ". The archive may be damaged or modified."@),
{
    let actual = sha256_hex(data);
    let expected = to_ascii_lowercase(expected_sha256);
    if str_eq(actual.as_str(), expected.as_str()) {
        Ok(())
    } else {
        let mut m = "Checksum mismatch for ".to_owned();
        push_str(&mut m, relative_path);
        push_str(&mut m, ". The archive may be damaged or modified.");
        Err(m)
    }
}

/// Law: lower-case hexadecimal stays as it is when lower-cased, and that
/// of 32 bytes is a well-formed check sum. So the check sum an export
/// records for a file is accepted by [`validate_manifest`], and the bytes
/// it was computed from pass [`verify_archive_payload`].
pub proof fn lemma_exported_checksum(d: Seq<u8>)
    ensures
        ascii_lowercase(hex_lower(d)) == hex_lower(d),
        forall|i: int| 0 <= i < hex_lower(d).len() ==> is_hex_digit(#[trigger] hex_lower(d)[i]),
        d.len() == 32 ==> valid_checksum(hex_lower(d)),
    decreases d.len(),
{
    lemma_hex_lower_len(d);
    if d.len() > 0 {
        let p = d.drop_last();
        lemma_exported_checksum(p);
        lemma_hex_lower_len(p);
        let h = hex_lower(d);
        let hp = hex_lower(p);
        let a = d.last() / 16;
        let b = d.last() % 16;
        assert(h == hp + seq![hex_digit(a), hex_digit(b)]);
        assert forall|i: int| 0 <= i < h.len() implies is_hex_digit(#[trigger] h[i]) by {
            if i < hp.len() {
                assert(h[i] == hp[i]);
            } else if i == hp.len() {
                assert(h[i] == hex_digit(a));
            } else {
                assert(h[i] == hex_digit(b));
            }
        }
        assert forall|i: int| 0 <= i < h.len() implies #[trigger] ascii_lowercase(h)[i] == h[i] by {
            if i < hp.len() {
                assert(h[i] == hp[i]);
                assert(ascii_lowercase(hp)[i] == hp[i]);
            }
        }
        assert(ascii_lowercase(h) =~= h);
    } else {
        assert(ascii_lowercase(hex_lower(d)) =~= hex_lower(d));
    }
}

/// The manifest entry of a file put into an archive: its path and the
/// check sum of its bytes, which is well-formed and lower-case.
pub fn manifest_entry(relative_path: String, data: &[u8]) -> (r: ManifestFileEntry)
    ensures
        r.relative_path@ == relative_path@,
        r.sha256@ == hex_lower(sha256_spec(data@)),
        valid_checksum(r.sha256@),
        ascii_lowercase(r.sha256@) == r.sha256@,
{
    let sha256 = crate::digest::sha256_of_bytes(data);
    proof {
        lemma_exported_checksum(sha256_spec(data@));
        lemma_hex_lower_len(sha256_spec(data@));
    }
    ManifestFileEntry { relative_path, sha256 }
}

/// A file of a profile folder that an export takes: a `core_*.dat`
/// settings file or `prefs.ini`.
pub fn is_exportable_profile_file(file_name: &str) -> (r: bool)
    ensures
        r == ((ends_with(file_name@, ".dat"@) && starts_with(file_name@, "core_"@)) || file_name@
            == "prefs.ini"@),
{
    let v = chars_of(file_name);
    (vec_ends_with(&v, &chars_of(".dat")) && vec_starts_with(&v, &chars_of("core_"))) || str_eq(
        file_name,
        "prefs.ini",
    )
}

/// A file of a `backups` folder that an export takes.
pub fn is_exportable_backup_file(file_name: &str) -> (r: bool)
    ensures
        r == ends_with(file_name@, ".bak"@),
{
    vec_ends_with(&chars_of(file_name), &chars_of(".bak"))
}

// ----------------------------------------------------------------------
// Import analysis
// ----------------------------------------------------------------------

/// An archive file the import would add.
#[derive(Debug, Clone)]
pub struct ImportFileInfo {
    pub relative_path: String,
}

/// An archive file that differs from the local file it would replace.
#[derive(Debug, Clone)]
pub struct ImportConflictInfo {
    pub relative_path: String,
    pub local_modified: u64,
    pub archive_checksum: String,
}

/// What importing an archive would do, file by file.
#[derive(Debug, Clone)]
pub struct ImportAnalysis {
    pub new_files: Vec<ImportFileInfo>,
    pub conflicts: Vec<ImportConflictInfo>,
    pub unchanged: Vec<ImportFileInfo>,
    pub aliases_conflict: bool,
    pub total_files: usize,
}

/// What an import did.
#[derive(Debug, Clone)]
pub struct ImportResultInfo {
    pub imported_count: usize,
    pub skipped_count: usize,
    pub backed_up_count: usize,
}

/// The local file an archive file would replace: the check sum of its
/// bytes and when it was last changed (Unix seconds).
#[derive(Debug, Clone)]
pub struct LocalFile {
    pub checksum: String,
    pub modified: u64,
}

/// The view of an [`ImportAnalysis`]: paths, and conflicts as (path, local
/// modification time, archive check sum).
pub struct AnalysisSpec {
    pub new_files: Seq<Seq<char>>,
    pub conflicts: Seq<(Seq<char>, u64, Seq<char>)>,
    pub unchanged: Seq<Seq<char>>,
    pub aliases_conflict: bool,
}

/// The view of a local file.
pub open spec fn local_view(l: Option<LocalFile>) -> Option<(Seq<char>, u64)> {
    match l {
        Some(f) => Some((f.checksum@, f.modified)),
        None => None,
    }
}

/// The analysis of the first `n` files of a manifest, given the state of
/// the local file each would replace: a file with no local counterpart is
/// new; one whose local check sum equals the archive's (ignoring ASCII
/// case) is unchanged; any other is a conflict, and a conflicting
/// `aliases.json` is flagged.
pub open spec fn analysis_upto(
    files: Seq<(Seq<char>, Seq<char>)>,
    locals: Seq<Option<(Seq<char>, u64)>>,
    n: nat, windows: bool,
) -> AnalysisSpec
    decreases n,
{
    if n == 0 {
        AnalysisSpec {
            new_files: Seq::empty(),
            conflicts: Seq::empty(),
            unchanged: Seq::empty(),
            aliases_conflict: false,
        }
    } else {
        let a = analysis_upto(files, locals, (n - 1) as nat, windows);
        let i = n - 1;
        let rel = normalized_of(files[i].0, windows)->0;
        match locals[i] {
            None => AnalysisSpec { new_files: a.new_files.push(rel), ..a },
            Some((c, m)) => if eq_ignore_ascii_case(c, files[i].1) {
                AnalysisSpec { unchanged: a.unchanged.push(rel), ..a }
            } else {
                AnalysisSpec {
                    conflicts: a.conflicts.push((rel, m, files[i].1)),
                    aliases_conflict: a.aliases_conflict || rel == "aliases.json"@,
                    ..a
                }
            },
        }
    }
}

/// The view of an [`ImportAnalysis`] (all but its file count).
pub open spec fn analysis_view(a: ImportAnalysis) -> AnalysisSpec {
    AnalysisSpec {
        new_files: a.new_files@.map_values(|f: ImportFileInfo| f.relative_path@),
        conflicts: a.conflicts@.map_values(
            |c: ImportConflictInfo| (c.relative_path@, c.local_modified, c.archive_checksum@),
        ),
        unchanged: a.unchanged@.map_values(|f: ImportFileInfo| f.relative_path@),
        aliases_conflict: a.aliases_conflict,
    }
}

/// Analyses an import: checks the manifest (see [`validate_manifest`]) and
/// sorts its files into new, unchanged and conflicting ones (see
/// [`analysis_upto`]). `locals[i]` is the local file that the manifest's
/// `i`-th file would replace, if there is one. Paths are read as
/// [`normalize_manifest_path`] reads them for `windows`.
pub fn analyze_manifest(manifest: &ExportManifest, locals: &[Option<LocalFile>], windows: bool) -> (r: Result<ImportAnalysis, String>)
    requires
        locals@.len() == manifest.files@.len(),
    ensures
        match manifest_problem(files_view(manifest.files@), windows) {
            Some(e) => r matches Err(m) && m@ == e,
            None => r matches Ok(a) && analysis_view(a) == analysis_upto(
                files_view(manifest.files@),
                locals@.map_values(|l: Option<LocalFile>| local_view(l)),
                manifest.files@.len(), windows,
            ) && a.total_files == manifest.files@.len(),
        },
{
    validate_manifest(manifest, windows)?;
    let ghost fv = files_view(manifest.files@);
    let ghost lv = locals@.map_values(|l: Option<LocalFile>| local_view(l));
    let mut new_files: Vec<ImportFileInfo> = Vec::new();
    let mut conflicts: Vec<ImportConflictInfo> = Vec::new();
    let mut unchanged: Vec<ImportFileInfo> = Vec::new();
    let mut aliases_conflict = false;
    let mut i: usize = 0;
    assert(new_files@.map_values(|f: ImportFileInfo| f.relative_path@) =~= Seq::empty());
    assert(unchanged@.map_values(|f: ImportFileInfo| f.relative_path@) =~= Seq::empty());
    assert(conflicts@.map_values(
        |c: ImportConflictInfo| (c.relative_path@, c.local_modified, c.archive_checksum@),
    ) =~= Seq::empty());
    while i < manifest.files.len()
        invariant
            fv == files_view(manifest.files@),
            lv == locals@.map_values(|l: Option<LocalFile>| local_view(l)),
            locals@.len() == fv.len(),
            paths_distinct(fv, windows),
            i <= fv.len(),
            analysis_view(
                ImportAnalysis { new_files, conflicts, unchanged, aliases_conflict, total_files: 0 },
            ) == analysis_upto(fv, lv, i as nat, windows),
        decreases fv.len() - i,
    {
        let entry = &manifest.files[i];
        assert(fv[i as int] == (entry.relative_path@, entry.sha256@));
        assert(normalized_of(fv[i as int].0, windows) is Some);
        let rel = match normalize_manifest_path(entry.relative_path.as_str(), windows) {
            Ok((n, _)) => n,
            Err(_) => {
                assert(false);
                String::new()
            },
        };
        assert(lv[i as int] == local_view(locals@[i as int]));
        match &locals[i] {
            None => {
                let ghost b = new_files@;
                new_files.push(ImportFileInfo { relative_path: rel });
                assert(new_files@.map_values(|f: ImportFileInfo| f.relative_path@) == b.map_values(
                    |f: ImportFileInfo| f.relative_path@,
                ).push(normalized_of(fv[i as int].0, windows)->0));
            },
            Some(local) => {
                if str_eq_ignore_ascii_case(local.checksum.as_str(), entry.sha256.as_str()) {
                    let ghost b = unchanged@;
                    unchanged.push(ImportFileInfo { relative_path: rel });
                    assert(unchanged@.map_values(|f: ImportFileInfo| f.relative_path@) == b.map_values(
                        |f: ImportFileInfo| f.relative_path@,
                    ).push(normalized_of(fv[i as int].0, windows)->0));
                } else {
                    let is_aliases = str_eq(rel.as_str(), "aliases.json");
                    let ghost b = conflicts@;
                    let ghost relv = rel@;
                    conflicts.push(
                        ImportConflictInfo {
                            relative_path: rel,
                            local_modified: local.modified,
                            archive_checksum: entry.sha256.clone(),
                        },
                    );
                    assert(conflicts@.map_values(
                        |c: ImportConflictInfo| (c.relative_path@, c.local_modified, c.archive_checksum@),
                    ) == b.map_values(
                        |c: ImportConflictInfo| (c.relative_path@, c.local_modified, c.archive_checksum@),
                    ).push((relv, local.modified, entry.sha256@)));
                    aliases_conflict = aliases_conflict || is_aliases;
                }
            },
        }
        i = i + 1;
    }
    Ok(ImportAnalysis { new_files, conflicts, unchanged, aliases_conflict, total_files: manifest.files.len() })
}

// ----------------------------------------------------------------------
// Import plan
// ----------------------------------------------------------------------

/// A file an import writes: the position of its manifest entry, its
/// normalised path, and whether a local file was there before.
#[derive(Debug, Clone)]
pub struct PlannedWrite {
    pub index: usize,
    pub relative_path: String,
    pub existed: bool,
}

/// The files an import writes, in manifest order, and how many it leaves
/// alone.
#[derive(Debug, Clone)]
pub struct ImportPlan {
    pub writes: Vec<PlannedWrite>,
    pub skipped_count: usize,
}

/// The user chose to overwrite the file at normalised path `rel`: one of
/// the chosen paths normalises to it.
pub open spec fn overwrite_selected(chosen: Seq<Seq<char>>, rel: Seq<char>, windows: bool) -> bool {
    exists|k: int| 0 <= k < chosen.len() && normalized_of(#[trigger] chosen[k], windows) == Some(rel)
}

/// An existing local file is left alone when it already holds the
/// archive's bytes (equal check sums, ignoring ASCII case) or the user did
/// not choose to overwrite it; a missing one is always written.
pub open spec fn import_skips(rel: Seq<char>, archive_sum: Seq<char>, local: Option<Seq<char>>, chosen: Seq<Seq<char>>, windows: bool) -> bool {
    match local {
        None => false,
        Some(c) => eq_ignore_ascii_case(c, archive_sum) || !overwrite_selected(chosen, rel, windows),
    }
}

/// The plan for the first `n` manifest files: the writes as (index, path,
/// existed) and the number skipped.
pub open spec fn plan_upto(
    files: Seq<(Seq<char>, Seq<char>)>,
    locals: Seq<Option<Seq<char>>>,
    chosen: Seq<Seq<char>>,
    n: nat, windows: bool,
) -> (Seq<(int, Seq<char>, bool)>, nat)
    decreases n,
{
    if n == 0 {
        (Seq::empty(), 0)
    } else {
        let (w, k) = plan_upto(files, locals, chosen, (n - 1) as nat, windows);
        let i = n - 1;
        let rel = normalized_of(files[i].0, windows)->0;
        if import_skips(rel, files[i].1, locals[i], chosen, windows) {
            (w, k + 1)
        } else {
            (w.push((i, rel, locals[i] is Some)), k)
        }
    }
}

/// The view of a plan.
pub open spec fn plan_view(p: ImportPlan) -> (Seq<(int, Seq<char>, bool)>, nat) {
    (
        p.writes@.map_values(|w: PlannedWrite| (w.index as int, w.relative_path@, w.existed)),
        p.skipped_count as nat,
    )
}

/// The views of optional strings.
pub open spec fn opt_strings_view(s: Seq<Option<String>>) -> Seq<Option<Seq<char>>> {
    s.map_values(|o: Option<String>| match o {
        Some(x) => Some(x@),
        None => None,
    })
}

/// Plans an import: checks the manifest (see [`validate_manifest`]), then
/// decides file by file whether it is written (see [`import_skips`]).
/// `local_checksums[i]` is the check sum of the local file that the
/// manifest's `i`-th file would replace, if there is one; `overwrite_paths`
/// are the paths the user chose to overwrite, in any form the manifest
/// accepts. Paths are read as [`normalize_manifest_path`] reads them for
/// `windows`.
pub fn plan_import(manifest: &ExportManifest, overwrite_paths: &[String], local_checksums: &[Option<String>], windows: bool) -> (r: Result<ImportPlan, String>)
    requires
        local_checksums@.len() == manifest.files@.len(),
    ensures
        match manifest_problem(files_view(manifest.files@), windows) {
            Some(e) => r matches Err(m) && m@ == e,
            None => r matches Ok(p) && plan_view(p) == plan_upto(
                files_view(manifest.files@),
                opt_strings_view(local_checksums@),
                strings_view(overwrite_paths@),
                manifest.files@.len(), windows,
            ),
        },
{
    validate_manifest(manifest, windows)?;
    let ghost fv = files_view(manifest.files@);
    let ghost lv = opt_strings_view(local_checksums@);
    let ghost cv = strings_view(overwrite_paths@);
    let mut chosen: Vec<Option<String>> = Vec::new();
    let mut j: usize = 0;
    while j < overwrite_paths.len()
        invariant
            cv == strings_view(overwrite_paths@),
            j <= cv.len(),
            chosen@.len() == j,
            forall|k: int| 0 <= k < j ==> #[trigger] opt_strings_view(chosen@)[k] == normalized_of(cv[k], windows),
        decreases cv.len() - j,
    {
        let n = match normalize_manifest_path(overwrite_paths[j].as_str(), windows) {
            Ok((n, _)) => Some(n),
            Err(_) => None,
        };
        let ghost before = chosen@;
        chosen.push(n);
        proof {
            assert forall|k: int| 0 <= k < j + 1 implies #[trigger] opt_strings_view(chosen@)[k] == normalized_of(
                cv[k], windows,
            ) by {
                if k < j {
                    assert(chosen@[k] == before[k]);
                    assert(opt_strings_view(before)[k] == normalized_of(cv[k], windows));
                }
            }
        }
        j = j + 1;
    }
    let mut writes: Vec<PlannedWrite> = Vec::new();
    let mut skipped: usize = 0;
    let mut i: usize = 0;
    assert(writes@.map_values(|w: PlannedWrite| (w.index as int, w.relative_path@, w.existed)) =~= Seq::empty());
    while i < manifest.files.len()
        invariant
            fv == files_view(manifest.files@),
            lv == opt_strings_view(local_checksums@),
            cv == strings_view(overwrite_paths@),
            chosen@.len() == cv.len(),
            forall|k: int| 0 <= k < cv.len() ==> #[trigger] opt_strings_view(chosen@)[k] == normalized_of(cv[k], windows),
            local_checksums@.len() == fv.len(),
            paths_distinct(fv, windows),
            i <= fv.len(),
            skipped <= i,
            plan_view(ImportPlan { writes, skipped_count: skipped }) == plan_upto(fv, lv, cv, i as nat, windows),
        decreases fv.len() - i,
    {
        let entry = &manifest.files[i];
        assert(fv[i as int] == (entry.relative_path@, entry.sha256@));
        assert(normalized_of(fv[i as int].0, windows) is Some);
        let rel = match normalize_manifest_path(entry.relative_path.as_str(), windows) {
            Ok((n, _)) => n,
            Err(_) => {
                assert(false);
                String::new()
            },
        };
        let skip = match &local_checksums[i] {
            None => false,
            Some(c) => {
                if str_eq_ignore_ascii_case(c.as_str(), entry.sha256.as_str()) {
                    true
                } else {
                    let mut found = false;
                    let mut k: usize = 0;
                    while k < chosen.len()
                        invariant
                            k <= chosen@.len(),
                            chosen@.len() == cv.len(),
                            forall|q: int| 0 <= q < cv.len() ==> #[trigger] opt_strings_view(chosen@)[q]
                                == normalized_of(cv[q], windows),
                            found == exists|q: int| 0 <= q < k && normalized_of(#[trigger] cv[q], windows) == Some(rel@),
                        decreases chosen@.len() - k,
                    {
                        assert(opt_strings_view(chosen@)[k as int] == normalized_of(cv[k as int], windows));
                        match &chosen[k] {
                            Some(x) => {
                                if str_eq(x.as_str(), rel.as_str()) {
                                    found = true;
                                }
                            },
                            None => {},
                        }
                        k = k + 1;
                    }
                    !found
                }
            },
        };
        assert(lv[i as int] == match local_checksums@[i as int] {
            Some(x) => Some(x@),
            None => None,
        });
        if skip {
            skipped = skipped + 1;
        } else {
            let ghost b = writes@;
            writes.push(PlannedWrite { index: i, relative_path: rel, existed: local_checksums[i].is_some() });
            assert(writes@.map_values(|w: PlannedWrite| (w.index as int, w.relative_path@, w.existed)) == b.map_values(
                |w: PlannedWrite| (w.index as int, w.relative_path@, w.existed),
            ).push((i as int, normalized_of(fv[i as int].0, windows)->0, lv[i as int] is Some)));
        }
        i = i + 1;
    }
    Ok(ImportPlan { writes, skipped_count: skipped })
}

/// How an import secures a file it replaces before anything is written.
/// Either copy is kept once the import succeeds.
#[derive(Debug, Clone, Copy, PartialEq, Eq, Structural)]
pub enum SafetyCopy {
    /// A `pre-import` backup in the profile's `backups` folder, named as
    /// every backup of a settings file (`core_{kind}_{id}.dat`) is.
    Backup,
    /// A copy beside the file, named by [`import_copy_name`], for any other
    /// file (`prefs.ini`, a `.bak` file, `aliases.json`).
    Copy,
}

/// How a write secures the file it replaces: every replaced file gets a
/// copy that stays after the import (the import backs up anything it
/// replaces); a write that creates a file needs none. `file_names[i]` is
/// the file name of the local file the manifest's `i`-th file goes to.
pub open spec fn safety_copy(w: PlannedWrite, file_names: Seq<Option<Seq<char>>>) -> Option<SafetyCopy> {
    if w.existed {
        if crate::names::core_name_parts(file_names[w.index as int]) is Ok {
            Some(SafetyCopy::Backup)
        } else {
            Some(SafetyCopy::Copy)
        }
    } else {
        None
    }
}

/// Decides, write by write, how an import secures what it replaces (see
/// [`safety_copy`]).
pub fn import_safety_copies(plan: &ImportPlan, file_names: &[Option<String>]) -> (r: Vec<Option<SafetyCopy>>)
    requires
        forall|k: int| 0 <= k < plan.writes@.len() ==> (#[trigger] plan.writes@[k]).index < file_names@.len(),
    ensures
        r@.len() == plan.writes@.len(),
        forall|k: int| 0 <= k < r@.len() ==> #[trigger] r@[k] == safety_copy(plan.writes@[k], opt_strings_view(file_names@)),
{
    let ghost nv = opt_strings_view(file_names@);
    let mut out: Vec<Option<SafetyCopy>> = Vec::new();
    let mut k: usize = 0;
    while k < plan.writes.len()
        invariant
            nv == opt_strings_view(file_names@),
            k <= plan.writes@.len(),
            out@.len() == k,
            forall|q: int| 0 <= q < plan.writes@.len() ==> (#[trigger] plan.writes@[q]).index < file_names@.len(),
            forall|q: int| 0 <= q < k ==> #[trigger] out@[q] == safety_copy(plan.writes@[q], nv),
        decreases plan.writes@.len() - k,
    {
        let w = &plan.writes[k];
        if w.existed {
            let name = match &file_names[w.index] {
                Some(n) => Some(n.as_str()),
                None => None,
            };
            assert(crate::names::opt_str_view(name) == nv[w.index as int]);
            if crate::names::parse_core_filename(name).is_ok() {
                out.push(Some(SafetyCopy::Backup));
            } else {
                out.push(Some(SafetyCopy::Copy));
            }
        } else {
            out.push(None);
        }
        k = k + 1;
    }
    out
}

/// The name of the copy an import keeps of a replaced file that is not a
/// settings file: the file's name, `.pre-import-` and the time of the
/// import in Unix seconds.
pub open spec fn import_copy_name_spec(file_name: Seq<char>, timestamp: u64) -> Seq<char> {
    file_name + ".pre-import-"@ + decimal(timestamp as nat)
}

/// Builds [`import_copy_name_spec`].
pub fn import_copy_name(file_name: &str, timestamp: u64) -> (r: String)
    ensures
        r@ == import_copy_name_spec(file_name@, timestamp),
{
    let mut out = String::new();
    push_str(&mut out, file_name);
    push_str(&mut out, ".pre-import-");
    crate::text::push_decimal(&mut out, timestamp);
    out
}

/// The error an import reports when a write fails: the write's error, then
/// either that every earlier write was rolled back or what the rollback
/// itself reported.
pub open spec fn import_failure(error: Seq<char>, rollback_failures: Seq<Seq<char>>) -> Seq<char> {
    error + " "@ + if rollback_failures.len() == 0 {
        "All earlier writes were rolled back."@
    } else {
        "Rollback also reported: "@ + join_with(rollback_failures, "; "@)
    }
}

/// Builds [`import_failure`].
pub fn import_failure_message(error: &str, rollback_failures: &[String]) -> (r: String)
    ensures
        r@ == import_failure(error@, strings_view(rollback_failures@)),
{
    let ghost fv = strings_view(rollback_failures@);
    let mut out = error.to_owned();
    push_str(&mut out, " ");
    if rollback_failures.len() == 0 {
        push_str(&mut out, "All earlier writes were rolled back.");
        return out;
    }
    push_str(&mut out, "Rollback also reported: ");
    let ghost head = out@;
    push_str(&mut out, rollback_failures[0].as_str());
    assert(fv.take(1).len() == 1 && fv.take(1)[0] == fv[0]);
    let mut i: usize = 1;
    while i < rollback_failures.len()
        invariant
            fv == strings_view(rollback_failures@),
            1 <= i <= fv.len(),
            out@ == head + join_with(fv.take(i as int), "; "@),
        decreases fv.len() - i,
    {
        push_str(&mut out, "; ");
        push_str(&mut out, rollback_failures[i].as_str());
        assert(fv.take(i + 1).drop_last() == fv.take(i as int));
        assert(fv.take(i + 1).last() == rollback_failures@[i as int]@);
        i = i + 1;
    }
    assert(fv.take(fv.len() as int) == fv);
    out
}

} // verus!
