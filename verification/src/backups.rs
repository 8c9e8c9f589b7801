//! Choosing a backup's file name, and which automatic backups to prune.
//!
//! Backups of `core_{kind}_{id}.dat` are named
//! `{label}_{kind}_{id}_{timestamp}.bak`; the automatic ones, taken before
//! a change, have a label starting with `pre-`, and only the newest of
//! those are kept.
use vstd::prelude::*;
use crate::names::{backup_file_name, backup_file_name_spec, backup_label, backup_name_parts};
use crate::server::kind_for_name;
use crate::text::{
    all_digits, chars_of, decimal, digit_char, digits_value, ends_with, is_digit, lacks, lemma_last_index_found, lemma_seq_le_total, lemma_seq_le_trans, parse_u64,
    parse_u64_str, rsplitn, seq_le, starts_with, str_eq, str_le, string_of, trim_end_str,
    vec_ends_with, vec_rsplitn, vec_starts_with, vec_sub,
};

verus! {

/// How many automatic backups of a settings file are kept.
pub const AUTOMATIC_BACKUPS_KEPT: usize = 25;

/// How many numbered names are tried for one backup.
pub const BACKUP_NAME_ATTEMPTS: u32 = 1000;

/// The `suffix`-th name tried for a backup.
pub open spec fn candidate_name(safe: Seq<char>, kind: Seq<char>, id: Seq<char>, timestamp: u64, suffix: nat) -> Seq<char> {
    backup_file_name_spec(backup_label(safe, suffix), kind, id, timestamp)
}

/// A name already used in the folder.
pub open spec fn name_taken(existing: Seq<String>, name: Seq<char>) -> bool {
    exists|i: int| 0 <= i < existing.len() && (#[trigger] existing[i])@ == name
}

fn is_taken(existing: &[String], name: &str) -> (r: bool)
    ensures
        r == name_taken(existing@, name@),
{
    let mut i: usize = 0;
    while i < existing.len()
        invariant
            i <= existing@.len(),
            forall|j: int| 0 <= j < i ==> (#[trigger] existing@[j])@ != name@,
        decreases existing@.len() - i,
    {
        if str_eq(existing[i].as_str(), name) {
            return true;
        }
        i = i + 1;
    }
    false
}

/// The name for a new backup of a `{kind}_{id}` settings file taken at
/// `timestamp`, in a folder that holds the files `existing`: the first of
/// `{safe}`, `{safe} (2)`, `{safe} (3)`, ... (a thousand tries) not yet
/// used; `None` where all are.
pub fn first_free_backup_name(safe: &str, kind: &str, id: &str, timestamp: u64, existing: &[String]) -> (r: Option<String>)
    ensures
        match r {
            Some(n) => exists|s: nat|
                s < BACKUP_NAME_ATTEMPTS && n@ == candidate_name(safe@, kind@, id@, timestamp, s) && !name_taken(
                    existing@,
                    n@,
                ) && forall|t: nat| t < s ==> name_taken(
                    existing@,
                    #[trigger] candidate_name(safe@, kind@, id@, timestamp, t),
                ),
            None => forall|t: nat| t < BACKUP_NAME_ATTEMPTS ==> name_taken(
                existing@,
                #[trigger] candidate_name(safe@, kind@, id@, timestamp, t),
            ),
        },
{
    let mut s: u32 = 0;
    while s < BACKUP_NAME_ATTEMPTS
        invariant
            s <= BACKUP_NAME_ATTEMPTS,
            forall|t: nat| t < s ==> name_taken(existing@, #[trigger] candidate_name(safe@, kind@, id@, timestamp, t)),
        decreases BACKUP_NAME_ATTEMPTS - s,
    {
        let name = backup_file_name(safe, s, kind, id, timestamp);
        if !is_taken(existing, name.as_str()) {
            assert(name@ == candidate_name(safe@, kind@, id@, timestamp, s as nat));
            return Some(name);
        }
        s = s + 1;
    }
    None
}

// ----------------------------------------------------------------------
// Pruning
// ----------------------------------------------------------------------

/// Whether a file in a `backups` folder is an automatic backup of the
/// `{kind}_{id}` settings file, and if so its timestamp (0 where that part
/// is not a number): its name ends in `.bak` and splits from the right at
/// `_` into `{label}_{kind}_{id}_{timestamp}` with a label starting with
/// `pre-`.
pub open spec fn automatic_backup_time(f: Seq<char>, kind: Seq<char>, id: Seq<char>) -> Option<u64> {
    if !ends_with(f, ".bak"@) {
        None
    } else {
        let parts = rsplitn(f.take(f.len() - 4), '_', 4);
        if parts.len() == 4 && parts[2] == kind && parts[1] == id && starts_with(parts[3], "pre-"@) {
            Some(
                match parse_u64(parts[0]) {
                    Some(t) => t,
                    None => 0,
                },
            )
        } else {
            None
        }
    }
}

/// The automatic backups among the files, as (timestamp, name), in order.
pub open spec fn automatic_backups(files: Seq<Seq<char>>, kind: Seq<char>, id: Seq<char>) -> Seq<(u64, Seq<char>)>
    decreases files.len(),
{
    if files.len() == 0 {
        Seq::empty()
    } else {
        let rest = automatic_backups(files.drop_last(), kind, id);
        match automatic_backup_time(files.last(), kind, id) {
            Some(t) => rest.push((t, files.last())),
            None => rest,
        }
    }
}

/// `a` is at least as new as `b`: a later timestamp, or the same one and a
/// name that sorts no earlier.
pub open spec fn newer_or_same(a: (u64, Seq<char>), b: (u64, Seq<char>)) -> bool {
    a.0 > b.0 || (a.0 == b.0 && seq_le(b.1, a.1))
}

/// Newest first.
pub open spec fn newest_first(s: Seq<(u64, Seq<char>)>) -> bool {
    forall|i: int, j: int| 0 <= i < j < s.len() ==> newer_or_same(#[trigger] s[i], #[trigger] s[j])
}

/// Whether an element is `x`.
pub open spec fn is_elem(x: (u64, Seq<char>)) -> spec_fn((u64, Seq<char>)) -> bool {
    |y: (u64, Seq<char>)| y == x
}

/// The copies of `x` in `s`.
pub open spec fn copies(s: Seq<(u64, Seq<char>)>, x: (u64, Seq<char>)) -> Seq<(u64, Seq<char>)> {
    s.filter(is_elem(x))
}

/// `r` holds the elements of `s`, newest first.
pub open spec fn sorted_newest_first(r: Seq<(u64, Seq<char>)>, s: Seq<(u64, Seq<char>)>) -> bool {
    newest_first(r) && forall|x: (u64, Seq<char>)| #[trigger] copies(r, x) == copies(s, x)
}

proof fn lemma_newer_total(a: (u64, Seq<char>), b: (u64, Seq<char>))
    ensures
        newer_or_same(a, b) || newer_or_same(b, a),
        newer_or_same(a, a),
{
    lemma_seq_le_total(a.1, b.1);
    lemma_seq_le_total(b.1, a.1);
}

proof fn lemma_newer_trans(a: (u64, Seq<char>), b: (u64, Seq<char>), c: (u64, Seq<char>))
    requires
        newer_or_same(a, b),
        newer_or_same(b, c),
    ensures
        newer_or_same(a, c),
{
    if a.0 == b.0 && b.0 == c.0 {
        lemma_seq_le_trans(c.1, b.1, a.1);
    }
}

proof fn lemma_copies_push(s: Seq<(u64, Seq<char>)>, y: (u64, Seq<char>), x: (u64, Seq<char>))
    ensures
        copies(s.push(y), x) == if y == x {
            copies(s, x).push(y)
        } else {
            copies(s, x)
        },
{
    reveal(Seq::filter);
    assert(s.push(y).drop_last() == s);
}

proof fn lemma_copies_none(s: Seq<(u64, Seq<char>)>, x: (u64, Seq<char>))
    requires
        forall|j: int| 0 <= j < s.len() ==> s[j] != x,
    ensures
        copies(s, x) == Seq::<(u64, Seq<char>)>::empty(),
    decreases s.len(),
{
    reveal(Seq::filter);
    if s.len() > 0 {
        lemma_copies_none(s.drop_last(), x);
        assert(s[s.len() - 1] != x);
    }
}

proof fn lemma_copies_insert(ov: Seq<(u64, Seq<char>)>, p: int, y: (u64, Seq<char>), x: (u64, Seq<char>))
    requires
        0 <= p <= ov.len(),
        forall|j: int| p <= j < ov.len() ==> #[trigger] ov[j] != y,
    ensures
        copies(ov.take(p) + seq![y] + ov.skip(p), x) == if x == y {
            copies(ov, x).push(y)
        } else {
            copies(ov, x)
        },
{
    let pr = is_elem(x);
    let a = ov.take(p);
    let b = ov.skip(p);
    Seq::filter_distributes_over_add(a + seq![y], b, pr);
    Seq::filter_distributes_over_add(a, seq![y], pr);
    Seq::filter_distributes_over_add(a, b, pr);
    assert(ov == a + b);
    lemma_copies_push(Seq::<(u64, Seq<char>)>::empty(), y, x);
    assert(Seq::<(u64, Seq<char>)>::empty().push(y) == seq![y]);
    assert(copies(Seq::<(u64, Seq<char>)>::empty(), x) == Seq::<(u64, Seq<char>)>::empty()) by {
        reveal(Seq::filter);
    }
    if x == y {
        assert forall|j: int| 0 <= j < b.len() implies b[j] != x by {
            assert(b[j] == ov[p + j]);
        }
        lemma_copies_none(b, x);
        assert(copies(a + seq![y] + b, x) =~= copies(ov, x).push(y));
    } else {
        assert(copies(a + seq![y] + b, x) =~= copies(ov, x));
    }
}

/// The view of a list of (timestamp, name) pairs.
pub open spec fn stamped_view(s: Seq<(u64, String)>) -> Seq<(u64, Seq<char>)> {
    s.map_values(|p: (u64, String)| (p.0, p.1@))
}

fn automatic_time(f: &str, kind: &str, id: &str) -> (r: Option<u64>)
    ensures
        r == automatic_backup_time(f@, kind@, id@),
{
    let v = chars_of(f);
    if !vec_ends_with(&v, &chars_of(".bak")) {
        return None;
    }
    proof {
        reveal_strlit(".bak");
    }
    let stem = vec_sub(&v, 0, v.len() - 4);
    let parts = vec_rsplitn(&stem, '_', 4);
    if parts.len() != 4 {
        return None;
    }
    let k = string_of(&parts[2]);
    let i = string_of(&parts[1]);
    if !str_eq(k.as_str(), kind) || !str_eq(i.as_str(), id) || !vec_starts_with(&parts[3], &chars_of("pre-")) {
        return None;
    }
    match parse_u64_str(&parts[0]) {
        Some(t) => Some(t),
        None => Some(0),
    }
}

fn newer_or_same_exec(a: &(u64, String), b: &(u64, String)) -> (r: bool)
    ensures
        r == newer_or_same((a.0, a.1@), (b.0, b.1@)),
{
    a.0 > b.0 || (a.0 == b.0 && str_le(b.1.as_str(), a.1.as_str()))
}

/// What is left of `s` after its first `n` elements.
pub open spec fn beyond<T>(s: Seq<T>, n: int) -> Seq<T> {
    if n >= s.len() {
        Seq::empty()
    } else {
        s.skip(n)
    }
}

/// The automatic backups of the `{kind}_{id}` settings file to delete from
/// a folder holding the files `files`: all but the `keep` newest (by
/// timestamp, then by name).
pub fn backups_to_prune(files: &[String], kind: &str, id: &str, keep: usize) -> (r: Vec<String>)
    ensures
        exists|sorted: Seq<(u64, Seq<char>)>|
            sorted_newest_first(
                sorted,
                automatic_backups(files@.map_values(|f: String| f@), kind@, id@),
            ) && r@.map_values(|f: String| f@) == beyond(sorted, keep as int).map_values(
                |p: (u64, Seq<char>)| p.1,
            ),
{
    let ghost fv = files@.map_values(|f: String| f@);
    // collect the candidates
    let mut cands: Vec<(u64, String)> = Vec::new();
    let mut i: usize = 0;
    while i < files.len()
        invariant
            fv == files@.map_values(|f: String| f@),
            i <= files@.len(),
            stamped_view(cands@) == automatic_backups(fv.take(i as int), kind@, id@),
        decreases files@.len() - i,
    {
        let ghost before = cands@;
        assert(fv.take(i + 1).drop_last() == fv.take(i as int));
        assert(fv.take(i + 1).last() == files@[i as int]@);
        match automatic_time(files[i].as_str(), kind, id) {
            Some(t) => {
                cands.push((t, files[i].clone()));
                assert(stamped_view(cands@) == stamped_view(before).push((t, files@[i as int]@)));
            },
            None => {},
        }
        i = i + 1;
    }
    assert(fv.take(files@.len() as int) == fv);
    let ghost input = stamped_view(cands@);
    // sort them newest first
    let mut out: Vec<(u64, String)> = Vec::new();
    let mut rest = cands;
    let n = rest.len();
    let mut k: usize = 0;
    assert(input.take(0) =~= Seq::<(u64, Seq<char>)>::empty());
    assert forall|x: (u64, Seq<char>)| #[trigger] copies(stamped_view(out@), x) == copies(input.take(0), x) by {
        reveal(Seq::filter);
        assert(stamped_view(out@) =~= Seq::<(u64, Seq<char>)>::empty());
    }
    while k < n
        invariant
            n == input.len(),
            k <= n,
            rest@.len() == n - k,
            forall|j: int| 0 <= j < n - k ==> ((#[trigger] rest@[j]).0, rest@[j].1@) == input[k + j],
            newest_first(stamped_view(out@)),
            forall|x: (u64, Seq<char>)| #[trigger] copies(stamped_view(out@), x) == copies(input.take(k as int), x),
        decreases n - k,
    {
        let y = rest.remove(0);
        let ghost yv = (y.0, y.1@);
        assert(yv == input[k as int]);
        let ghost ov = stamped_view(out@);
        let mut p: usize = 0;
        while p < out.len() && newer_or_same_exec(&out[p], &y)
            invariant
                ov == stamped_view(out@),
                yv == (y.0, y.1@),
                p <= out@.len(),
                forall|j: int| 0 <= j < p ==> newer_or_same(#[trigger] ov[j], yv),
            decreases out@.len() - p,
        {
            assert(ov[p as int] == (out@[p as int].0, out@[p as int].1@));
            p = p + 1;
        }
        proof {
            if p < ov.len() {
                assert(ov[p as int] == (out@[p as int].0, out@[p as int].1@));
            }
        }
        assert forall|j: int| p <= j < ov.len() implies !newer_or_same(#[trigger] ov[j], yv) by {
            if newer_or_same(ov[j], yv) && j > p {
                lemma_newer_trans(ov[p as int], ov[j], yv);
            }
        }
        assert forall|j: int| p <= j < ov.len() implies #[trigger] ov[j] != yv by {
            lemma_newer_total(yv, yv);
        }
        out.insert(p, y);
        proof {
            let nv = stamped_view(out@);
            assert(nv =~= ov.take(p as int) + seq![yv] + ov.skip(p as int));
            assert(ov =~= ov.take(p as int) + ov.skip(p as int));
            assert forall|a: int, b: int| 0 <= a < b < nv.len() implies newer_or_same(#[trigger] nv[a], #[trigger] nv[b]) by {
                if b < p {
                    assert(nv[a] == ov[a] && nv[b] == ov[b]);
                } else if b == p {
                    assert(nv[a] == ov[a]);
                } else if a == p {
                    assert(nv[b] == ov[b - 1]);
                    lemma_newer_total(ov[b - 1], yv);
                } else if a < p {
                    assert(nv[a] == ov[a]);
                    assert(nv[b] == ov[b - 1]);
                } else {
                    assert(nv[a] == ov[a - 1]);
                    assert(nv[b] == ov[b - 1]);
                }
            }
            assert(input.take(k + 1) =~= input.take(k as int).push(yv));
            assert forall|x: (u64, Seq<char>)| #[trigger] copies(nv, x) == copies(input.take(k + 1), x) by {
                lemma_copies_insert(ov, p as int, yv, x);
                lemma_copies_push(input.take(k as int), yv, x);
            }
        }
        k = k + 1;
    }
    assert(input.take(n as int) == input);
    let ghost sorted = stamped_view(out@);
    assert(sorted_newest_first(sorted, automatic_backups(fv, kind@, id@)));
    // everything after the first `keep`
    let mut doomed: Vec<String> = Vec::new();
    if keep >= out.len() {
        assert(doomed@.map_values(|f: String| f@) =~= beyond(sorted, keep as int).map_values(
            |p: (u64, Seq<char>)| p.1,
        ));
        return doomed;
    }
    let mut j: usize = keep;
    assert(doomed@.map_values(|f: String| f@) =~= sorted.skip(keep as int).take(0).map_values(
        |p: (u64, Seq<char>)| p.1,
    ));
    while j < out.len()
        invariant
            sorted == stamped_view(out@),
            keep <= j <= out@.len(),
            doomed@.map_values(|f: String| f@) == sorted.skip(keep as int).take(j - keep).map_values(
                |p: (u64, Seq<char>)| p.1,
            ),
        decreases out@.len() - j,
    {
        let ghost before = doomed@;
        doomed.push(out[j].1.clone());
        assert(sorted.skip(keep as int).take(j + 1 - keep) == sorted.skip(keep as int).take(j - keep).push(
            sorted[j as int],
        ));
        assert(doomed@.map_values(|f: String| f@) == before.map_values(|f: String| f@).push(out@[j as int].1@));
        j = j + 1;
    }
    assert(sorted.skip(keep as int).take(j - keep) == sorted.skip(keep as int));
    assert(beyond(sorted, keep as int) == sorted.skip(keep as int));
    assert(sorted_newest_first(sorted, automatic_backups(fv, kind@, id@)));
    doomed
}

// ----------------------------------------------------------------------
// Backups are found again under the name they were made with
// ----------------------------------------------------------------------

proof fn lemma_digit_char(d: nat)
    requires
        d < 10,
    ensures
        is_digit(digit_char(d)),
        (digit_char(d) as int) - 48 == d,
{
    if d == 0 {
        assert(digit_char(0) == '0');
    } else if d == 1 {
        assert(digit_char(1) == '1');
    } else if d == 2 {
        assert(digit_char(2) == '2');
    } else if d == 3 {
        assert(digit_char(3) == '3');
    } else if d == 4 {
        assert(digit_char(4) == '4');
    } else if d == 5 {
        assert(digit_char(5) == '5');
    } else if d == 6 {
        assert(digit_char(6) == '6');
    } else if d == 7 {
        assert(digit_char(7) == '7');
    } else if d == 8 {
        assert(digit_char(8) == '8');
    } else {
        assert(digit_char(9) == '9');
    }
}

/// A number's decimal form is a run of digits worth the number.
proof fn lemma_decimal(n: nat)
    ensures
        decimal(n).len() > 0,
        all_digits(decimal(n)),
        digits_value(decimal(n)) == n,
    decreases n,
{
    if n < 10 {
        lemma_digit_char(n);
        assert(decimal(n) == seq![digit_char(n)]);
        assert(decimal(n).drop_last() =~= Seq::<char>::empty());
        assert(digits_value(Seq::<char>::empty()) == 0);
        assert(decimal(n).last() == digit_char(n));
    } else {
        lemma_decimal(n / 10);
        lemma_digit_char(n % 10);
        let d = decimal(n);
        assert(d == decimal(n / 10).push(digit_char(n % 10)));
        assert(d.drop_last() == decimal(n / 10));
        assert(d.last() == digit_char(n % 10));
        assert(digits_value(d) == digits_value(decimal(n / 10)) * 10 + ((d.last() as int) - 48) as nat);
        assert((n / 10) * 10 + n % 10 == n);
        assert forall|i: int| 0 <= i < d.len() implies is_digit(#[trigger] d[i]) by {
            if i < d.len() - 1 {
                assert(d[i] == decimal(n / 10)[i]);
            }
        }
    }
}

/// Splitting at the last `_` takes off a piece without one.
proof fn lemma_rsplitn_last(a: Seq<char>, b: Seq<char>, n: nat)
    requires
        n >= 2,
        lacks(b, '_'),
    ensures
        rsplitn(a + seq!['_'] + b, '_', n) == seq![b] + rsplitn(a, '_', (n - 1) as nat),
{
    let s = a + seq!['_'] + b;
    assert(s[a.len() as int] == '_');
    assert forall|j: int| a.len() < j < s.len() implies s[j] != '_' by {
        assert(s[j] == b[j - a.len() - 1]);
    }
    lemma_last_index_found(s, '_', a.len() as int);
    assert(s.skip(a.len() as int + 1) == b);
    assert(s.take(a.len() as int) == a);
}

/// `_` is not a digit.
proof fn lemma_digits_lack_underscore(s: Seq<char>)
    requires
        all_digits(s),
    ensures
        lacks(s, '_'),
{
    assert forall|k: int| 0 <= k < s.len() implies s[k] != '_' by {
        assert(is_digit(s[k]));
    }
}

/// The parts a backup's file name splits into: `[timestamp, id, kind, label]`.
proof fn lemma_backup_name_split(label: Seq<char>, kind: Seq<char>, id: Seq<char>, timestamp: u64)
    requires
        kind_for_name(kind) is Some,
        lacks(id, '_'),
    ensures
        ({
            let f = backup_file_name_spec(label, kind, id, timestamp);
            let stem = label + "_"@ + kind + "_"@ + id + "_"@ + decimal(timestamp as nat);
            &&& ends_with(f, ".bak"@)
            &&& f.take(f.len() - 4) == stem
            &&& trim_end_str(f, ".bak"@) == stem
            &&& rsplitn(stem, '_', 4) == seq![decimal(timestamp as nat), id, kind, label]
            &&& parse_u64(decimal(timestamp as nat)) == Some(timestamp)
        }),
{
    reveal_strlit(".bak");
    reveal_strlit("_");
    reveal_strlit("user");
    reveal_strlit("char");
    let dec = decimal(timestamp as nat);
    lemma_decimal(timestamp as nat);
    lemma_digits_lack_underscore(dec);
    let f = backup_file_name_spec(label, kind, id, timestamp);
    let stem = label + "_"@ + kind + "_"@ + id + "_"@ + dec;
    assert(f == stem + ".bak"@);
    assert(f.subrange(f.len() - 4, f.len() as int) =~= ".bak"@);
    assert(f.take(f.len() - 4) =~= stem);
    // the stem ends in a digit, so `.bak` is taken off once
    assert(stem.last() == dec.last());
    assert(is_digit(dec[dec.len() - 1]));
    assert(!ends_with(stem, ".bak"@)) by {
        if ends_with(stem, ".bak"@) {
            assert(stem.subrange(stem.len() - 4, stem.len() as int)[3] == stem.last());
            assert(".bak"@[3] == 'k');
        }
    }
    assert(trim_end_str(stem, ".bak"@) == stem);
    assert(trim_end_str(f, ".bak"@) == trim_end_str(f.take(f.len() - 4), ".bak"@));
    // split from the right
    let lk = label + "_"@ + kind;
    let lki = lk + "_"@ + id;
    assert(stem =~= lki + seq!['_'] + dec);
    assert(lki =~= lk + seq!['_'] + id);
    assert(lk =~= label + seq!['_'] + kind);
    assert(lacks(kind, '_')) by {
        assert forall|k: int| 0 <= k < kind.len() implies kind[k] != '_' by {}
    }
    lemma_rsplitn_last(lki, dec, 4);
    lemma_rsplitn_last(lk, id, 3);
    lemma_rsplitn_last(label, kind, 2);
    assert(rsplitn(label, '_', 1) == seq![label]);
    assert(rsplitn(stem, '_', 4) =~= seq![dec, id, kind, label]);
    assert(dec[0] != '+') by {
        assert(is_digit(dec[0]));
    }
}

/// Law: a backup is listed under the label, kind, settings file id and
/// timestamp it was made with, whichever numbered name was free. (Where
/// the id holds `_`, the name cannot be split back; such ids are left
/// out.)
pub proof fn lemma_backup_listed_as_made(safe: Seq<char>, suffix: nat, kind: Seq<char>, id: Seq<char>, timestamp: u64)
    requires
        kind_for_name(kind) is Some,
        lacks(id, '_'),
    ensures
        backup_name_parts(candidate_name(safe, kind, id, timestamp, suffix)) == Some(
            (backup_label(safe, suffix), kind_for_name(kind)->0, id, timestamp),
        ),
{
    lemma_backup_name_split(backup_label(safe, suffix), kind, id, timestamp);
}

/// Law: an automatic backup (its name starts with `pre-`) is recognised by
/// the pruning under the file and the timestamp it was made for, so the
/// newest ones are kept.
pub proof fn lemma_automatic_backup_pruned_by_time(safe: Seq<char>, suffix: nat, kind: Seq<char>, id: Seq<char>, timestamp: u64)
    requires
        kind_for_name(kind) is Some,
        lacks(id, '_'),
        starts_with(safe, "pre-"@),
    ensures
        automatic_backup_time(candidate_name(safe, kind, id, timestamp, suffix), kind, id) == Some(timestamp),
{
    let label = backup_label(safe, suffix);
    lemma_backup_name_split(label, kind, id, timestamp);
    reveal_strlit("pre-");
    assert(starts_with(label, "pre-"@)) by {
        if suffix != 0 {
            let extra = " ("@ + decimal(suffix + 1) + ")"@;
            assert(label == safe + extra);
            assert(label.subrange(0, 4) =~= safe.subrange(0, 4));
        }
    }
}

} // verus!
