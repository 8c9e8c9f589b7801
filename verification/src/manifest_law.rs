//! Archive paths read the same way twice: the form an import reports a path
//! in is accepted again and names the same file. The user's choices of
//! conflicts to overwrite are handed back in that form.
use vstd::prelude::*;
use crate::manifest::{
    analysis_upto, has_drive_prefix, import_skips, join_slash, manifest_path, normal_parts,
    normalized_of, overwrite_selected, path_parts, plan_upto, with_forward_slashes,
};
use crate::text::eq_ignore_ascii_case;
use crate::text::{
    first_index, join_with, lacks, lemma_first_index_props, lemma_split_all_step, lemma_split_join,
    split_all,
};

verus! {

/// A plain path component: not empty, not `.`, not `..`.
pub open spec fn plain_part(p: Seq<char>) -> bool {
    p.len() > 0 && p != "."@ && p != ".."@
}

/// What `normal_parts` keeps are plain pieces it was given.
proof fn lemma_normal_parts_from(pieces: Seq<Seq<char>>, first: bool, x: char)
    requires
        normal_parts(pieces, first) is Some,
        forall|i: int| 0 <= i < pieces.len() ==> lacks(#[trigger] pieces[i], x),
    ensures
        forall|i: int| 0 <= i < normal_parts(pieces, first)->0.len() ==> plain_part(
            #[trigger] normal_parts(pieces, first)->0[i],
        ) && lacks(normal_parts(pieces, first)->0[i], x),
    decreases pieces.len(),
{
    if pieces.len() > 0 {
        let rest = pieces.drop_first();
        assert forall|i: int| 0 <= i < rest.len() implies lacks(#[trigger] rest[i], x) by {
            assert(rest[i] == pieces[i + 1]);
        }
        if normal_parts(rest, false) is Some {
            lemma_normal_parts_from(rest, false, x);
        }
        let p = pieces[0];
        if p.len() > 0 && p != "."@ && p != ".."@ {
            let r = normal_parts(rest, false)->0;
            let all = normal_parts(pieces, first)->0;
            assert(all == seq![p] + r);
            assert forall|i: int| 0 <= i < all.len() implies plain_part(#[trigger] all[i]) && lacks(all[i], x) by {
                if i > 0 {
                    assert(all[i] == r[i - 1]);
                }
            }
        }
    }
}

/// Plain parts are kept as they are.
proof fn lemma_normal_parts_plain(q: Seq<Seq<char>>, first: bool)
    requires
        forall|i: int| 0 <= i < q.len() ==> plain_part(#[trigger] q[i]),
    ensures
        normal_parts(q, first) == Some(q),
    decreases q.len(),
{
    if q.len() > 0 {
        let rest = q.drop_first();
        assert forall|i: int| 0 <= i < rest.len() implies plain_part(#[trigger] rest[i]) by {
            assert(rest[i] == q[i + 1]);
        }
        lemma_normal_parts_plain(rest, false);
        assert(plain_part(q[0]));
        assert(seq![q[0]] + rest == q);
    }
}

/// The pieces of a split lack what the text lacks.
proof fn lemma_split_all_keeps_lack(s: Seq<char>, c: char, x: char)
    requires
        lacks(s, x),
    ensures
        forall|i: int| 0 <= i < split_all(s, c).len() ==> lacks(#[trigger] split_all(s, c)[i], x),
    decreases s.len(),
{
    lemma_first_index_props(s, c);
    lemma_split_all_step(s, c);
    let i = first_index(s, c);
    if i < 0 {
        assert(split_all(s, c) == seq![s]);
    } else {
        let t = s.skip(i + 1);
        assert(lacks(t, x)) by {
            assert forall|k: int| 0 <= k < t.len() implies t[k] != x by {
                assert(t[k] == s[i + 1 + k]);
            }
        }
        lemma_split_all_keeps_lack(t, c, x);
        let r = split_all(s, c);
        assert(lacks(s.take(i), x)) by {
            assert forall|k: int| 0 <= k < i implies s.take(i)[k] != x by {
                assert(s.take(i)[k] == s[k]);
            }
        }
        assert forall|k: int| 0 <= k < r.len() implies lacks(#[trigger] r[k], x) by {
            if k > 0 {
                assert(r[k] == split_all(t, c)[k - 1]);
            }
        }
    }
}

/// Forward slashes leave no backslash.
proof fn lemma_no_backslash(raw: Seq<char>)
    ensures
        lacks(with_forward_slashes(raw), '\\'),
        with_forward_slashes(with_forward_slashes(raw)) == with_forward_slashes(raw),
{
    let w = with_forward_slashes(raw);
    assert forall|k: int| 0 <= k < w.len() implies w[k] != '\\' by {
        assert(w[k] == if raw[k] == '\\' { '/' } else { raw[k] });
    }
    assert(with_forward_slashes(w) =~= w);
}

/// Joining keeps a character out, where the separator and every piece lack it.
proof fn lemma_join_lacks(p: Seq<Seq<char>>, sep: Seq<char>, x: char)
    requires
        lacks(sep, x),
        forall|i: int| 0 <= i < p.len() ==> lacks(#[trigger] p[i], x),
    ensures
        lacks(join_with(p, sep), x),
    decreases p.len(),
{
    if p.len() > 1 {
        let q = p.drop_last();
        assert forall|i: int| 0 <= i < q.len() implies lacks(#[trigger] q[i], x) by {
            assert(q[i] == p[i]);
        }
        lemma_join_lacks(q, sep, x);
        let a = join_with(q, sep);
        let l = p.last();
        assert(lacks(l, x));
        let j = a + sep + l;
        assert forall|k: int| 0 <= k < j.len() implies j[k] != x by {
            if k < a.len() {
                assert(j[k] == a[k]);
            } else if k < a.len() + sep.len() {
                assert(j[k] == sep[k - a.len()]);
            } else {
                assert(j[k] == l[k - a.len() - sep.len()]);
            }
        }
    } else if p.len() == 1 {
        assert(lacks(p[0], x));
    }
}

/// Joined non-empty pieces start with the first piece's first character,
/// and two or more of them hold the separator.
proof fn lemma_join_shape(p: Seq<Seq<char>>, c: char)
    requires
        p.len() > 0,
        forall|i: int| 0 <= i < p.len() ==> (#[trigger] p[i]).len() > 0,
    ensures
        join_with(p, seq![c]).len() > 0,
        join_with(p, seq![c])[0] == p[0][0],
        p.len() >= 2 ==> !lacks(join_with(p, seq![c]), c),
    decreases p.len(),
{
    if p.len() > 1 {
        let q = p.drop_last();
        assert forall|i: int| 0 <= i < q.len() implies (#[trigger] q[i]).len() > 0 by {
            assert(q[i] == p[i]);
        }
        lemma_join_shape(q, c);
        let a = join_with(q, seq![c]);
        let j = a + seq![c] + p.last();
        assert(j[0] == a[0]);
        assert(q[0] == p[0]);
        assert(j[a.len() as int] == c);
    }
}

/// Joined pieces begin with the first piece, then the separator.
proof fn lemma_join_prefix(p: Seq<Seq<char>>, c: char)
    requires
        p.len() > 0,
    ensures
        join_with(p, seq![c]).len() >= p[0].len(),
        forall|k: int| 0 <= k < p[0].len() ==> #[trigger] join_with(p, seq![c])[k] == p[0][k],
        p.len() >= 2 ==> join_with(p, seq![c]).len() > p[0].len() && join_with(p, seq![c])[p[0].len() as int] == c,
    decreases p.len(),
{
    if p.len() > 1 {
        let q = p.drop_last();
        lemma_join_prefix(q, c);
        assert(q[0] == p[0]);
        let a = join_with(q, seq![c]);
        let j = a + seq![c] + p.last();
        assert forall|k: int| 0 <= k < p[0].len() implies #[trigger] j[k] == p[0][k] by {
            assert(j[k] == a[k]);
        }
        if q.len() >= 2 {
            assert(j[p[0].len() as int] == a[p[0].len() as int]);
        } else {
            assert(a == p[0]);
            assert(j[a.len() as int] == c);
        }
    }
}

/// The first piece of a split is where the text begins.
proof fn lemma_split_first(s: Seq<char>, c: char)
    ensures
        split_all(s, c).len() > 0,
        split_all(s, c)[0].len() <= s.len(),
        forall|k: int| 0 <= k < split_all(s, c)[0].len() ==> #[trigger] split_all(s, c)[0][k] == s[k],
{
    lemma_first_index_props(s, c);
    lemma_split_all_step(s, c);
}

/// What `normal_parts` keeps first is the first piece, where that is a
/// plain name.
proof fn lemma_normal_parts_first(pieces: Seq<Seq<char>>)
    requires
        pieces.len() > 0,
        plain_part(pieces[0]),
        normal_parts(pieces, true) is Some,
    ensures
        normal_parts(pieces, true)->0.len() > 0,
        normal_parts(pieces, true)->0[0] == pieces[0],
{
}

/// Law: the path an import reads a manifest entry as is read the same way
/// when given again: same form, same parts.
pub proof fn lemma_manifest_path_idempotent(raw: Seq<char>, windows: bool)
    ensures
        manifest_path(raw, windows) matches Ok((n, p)) ==> manifest_path(n, windows) == manifest_path(raw, windows),
{
    reveal_strlit("aliases.json");
    reveal_strlit("/");
    let w = with_forward_slashes(raw);
    lemma_no_backslash(raw);
    if manifest_path(raw, windows) is Ok && w != "aliases.json"@ {
        let p = path_parts(w, windows)->0;
        let n = join_slash(p);
        assert(!(w.len() > 0 && w[0] == '/'));
        lemma_split_all_keeps_lack(w, '/', '\\');
        lemma_normal_parts_from(split_all(w, '/'), true, '\\');
        crate::text::lemma_split_all_lacks(w, '/');
        lemma_normal_parts_from(split_all(w, '/'), true, '/');
        assert("/"@ == seq!['/']);
        assert(p.len() >= 3);
        assert(lacks(seq!['/'], '\\'));
        lemma_join_lacks(p, seq!['/'], '\\');
        assert(with_forward_slashes(n) =~= n) by {
            assert forall|k: int| 0 <= k < n.len() implies with_forward_slashes(n)[k] == n[k] by {
                assert(n[k] != '\\');
            }
        }
        lemma_join_shape(p, '/');
        assert(n != "aliases.json"@) by {
            let aj = "aliases.json"@;
            if n == aj {
                assert(lacks(aj, '/')) by {
                    assert forall|k: int| 0 <= k < aj.len() implies aj[k] != '/' by {}
                }
            }
        }
        assert(n[0] == p[0][0]);
        assert(n[0] != '/') by {
            assert(lacks(p[0], '/'));
        }
        lemma_split_join(p, '/');
        lemma_normal_parts_plain(p, true);
        // the first part is where `w` begins, so `n` starts at no drive either
        let pieces = split_all(w, '/');
        lemma_split_first(w, '/');
        assert(pieces[0].len() > 0) by {
            lemma_first_index_props(w, '/');
            lemma_split_all_step(w, '/');
            let fi = first_index(w, '/');
            if fi < 0 {
                assert(pieces == seq![w]);
                if w.len() == 0 {
                    assert(pieces.drop_first().len() == 0);
                    assert(normal_parts(pieces.drop_first(), false) == Some(Seq::<Seq<char>>::empty()));
                    assert(p.len() == 0);
                }
            } else {
                assert(pieces[0] == w.take(fi));
                if fi == 0 {
                    assert(w[0] == '/');
                }
            }
        }
        assert(pieces[0] != "."@ && pieces[0] != ".."@) by {
            if pieces[0] == "."@ || pieces[0] == ".."@ {
                assert(normal_parts(pieces, true) is None);
            }
        }
        lemma_normal_parts_first(pieces);
        assert(p[0] == pieces[0]);
        lemma_join_prefix(p, '/');
        assert(!has_drive_prefix(n, windows)) by {
            if has_drive_prefix(n, windows) {
                assert(n[0] == p[0][0] && p[0][0] == w[0]);
                if p[0].len() >= 2 {
                    assert(n[1] == p[0][1] && p[0][1] == w[1]);
                    assert(has_drive_prefix(w, windows));
                } else {
                    assert(n[1] == '/');
                }
            }
        }
        assert(path_parts(n, windows) == Some(p));
    }
}

/// Law: a path an import accepts is made of plain names only (none empty,
/// `.` or `..`, none holding a separator, the first no drive where paths
/// are read the Windows way), so joining it to a folder stays below that
/// folder; its form is those names joined with `/`.
pub proof fn lemma_manifest_parts_plain(raw: Seq<char>, windows: bool)
    ensures
        manifest_path(raw, windows) matches Ok((n, p)) ==> {
            &&& p.len() > 0
            &&& n == join_slash(p)
            &&& !has_drive_prefix(p[0], windows)
            &&& forall|i: int|
                0 <= i < p.len() ==> plain_part(#[trigger] p[i]) && lacks(p[i], '/') && lacks(p[i], '\\')
        },
{
    reveal_strlit("aliases.json");
    reveal_strlit("/");
    reveal_strlit(".");
    reveal_strlit("..");
    let w = with_forward_slashes(raw);
    lemma_no_backslash(raw);
    if manifest_path(raw, windows) is Ok {
        if w == "aliases.json"@ {
            let p = seq![w];
            assert(join_slash(p) == w);
            assert(w.len() == 12 && w[1] == 'l');
            assert(w != "."@ && w != ".."@);
            assert(lacks(w, '/')) by {
                assert forall|k: int| 0 <= k < w.len() implies w[k] != '/' by {}
            }
            assert(p[0] == w);
        } else {
            let p = path_parts(w, windows)->0;
            let pieces = split_all(w, '/');
            assert(!(w.len() > 0 && w[0] == '/'));
            lemma_split_all_keeps_lack(w, '/', '\\');
            lemma_normal_parts_from(pieces, true, '\\');
            crate::text::lemma_split_all_lacks(w, '/');
            lemma_normal_parts_from(pieces, true, '/');
            assert(p.len() >= 3);
            lemma_split_first(w, '/');
            assert(pieces[0].len() > 0) by {
                lemma_first_index_props(w, '/');
                lemma_split_all_step(w, '/');
                let fi = first_index(w, '/');
                if fi < 0 {
                    assert(pieces == seq![w]);
                    if w.len() == 0 {
                        assert(pieces.drop_first().len() == 0);
                        assert(normal_parts(pieces.drop_first(), false) == Some(Seq::<Seq<char>>::empty()));
                        assert(p.len() == 0);
                    }
                } else {
                    assert(pieces[0] == w.take(fi));
                    if fi == 0 {
                        assert(w[0] == '/');
                    }
                }
            }
            assert(pieces[0] != "."@ && pieces[0] != ".."@) by {
                if pieces[0] == "."@ || pieces[0] == ".."@ {
                    assert(normal_parts(pieces, true) is None);
                }
            }
            lemma_normal_parts_first(pieces);
            assert(p[0] == pieces[0]);
            assert(!has_drive_prefix(p[0], windows)) by {
                if has_drive_prefix(p[0], windows) {
                    assert(p[0][0] == w[0] && p[0][1] == w[1]);
                    assert(has_drive_prefix(w, windows));
                }
            }
        }
    }
}

/// Whether a conflict is one the user chose to overwrite.
pub open spec fn chosen_conflict(chosen: Seq<Seq<char>>, windows: bool) -> spec_fn((Seq<char>, u64, Seq<char>)) -> bool {
    |c: (Seq<char>, u64, Seq<char>)| overwrite_selected(chosen, c.0, windows)
}

/// Whether a conflict is one the user did not choose.
pub open spec fn kept_conflict(chosen: Seq<Seq<char>>, windows: bool) -> spec_fn((Seq<char>, u64, Seq<char>)) -> bool {
    |c: (Seq<char>, u64, Seq<char>)| !overwrite_selected(chosen, c.0, windows)
}

/// Whether a planned write creates a file.
pub open spec fn creates() -> spec_fn((int, Seq<char>, bool)) -> bool {
    |w: (int, Seq<char>, bool)| !w.2
}

/// Whether a planned write replaces a file.
pub open spec fn replaces() -> spec_fn((int, Seq<char>, bool)) -> bool {
    |w: (int, Seq<char>, bool)| w.2
}

/// The local check sums of local files.
pub open spec fn local_sums(locals: Seq<Option<(Seq<char>, u64)>>) -> Seq<Option<Seq<char>>> {
    locals.map_values(|l: Option<(Seq<char>, u64)>| match l {
        Some((c, _)) => Some(c),
        None => None,
    })
}

proof fn lemma_filter_push<T>(s: Seq<T>, x: T, pr: spec_fn(T) -> bool)
    ensures
        s.push(x).filter(pr) == if pr(x) {
            s.filter(pr).push(x)
        } else {
            s.filter(pr)
        },
{
    reveal(Seq::filter);
    assert(s.push(x).drop_last() == s);
}

/// Law: an import writes exactly what its analysis showed: the new files
/// are created, in order; the conflicts the user chose are overwritten, in
/// order; the unchanged files and the other conflicts are left alone and
/// counted as skipped.
pub proof fn lemma_import_follows_analysis(
    files: Seq<(Seq<char>, Seq<char>)>,
    locals: Seq<Option<(Seq<char>, u64)>>,
    chosen: Seq<Seq<char>>,
    n: nat,
    windows: bool,
)
    requires
        n <= files.len(),
        n <= locals.len(),
    ensures
        ({
            let a = analysis_upto(files, locals, n, windows);
            let pl = plan_upto(files, local_sums(locals), chosen, n, windows);
            &&& pl.0.filter(creates()).map_values(|w: (int, Seq<char>, bool)| w.1) == a.new_files
            &&& pl.0.filter(replaces()).map_values(|w: (int, Seq<char>, bool)| w.1) == a.conflicts.filter(
                chosen_conflict(chosen, windows),
            ).map_values(|c: (Seq<char>, u64, Seq<char>)| c.0)
            &&& pl.1 == a.unchanged.len() + a.conflicts.filter(kept_conflict(chosen, windows)).len()
        }),
    decreases n,
{
    if n == 0 {
        reveal(Seq::filter);
        let pl = plan_upto(files, local_sums(locals), chosen, n, windows);
        assert(pl.0.filter(creates()) =~= Seq::<(int, Seq<char>, bool)>::empty());
        assert(pl.0.filter(replaces()) =~= Seq::<(int, Seq<char>, bool)>::empty());
        assert(pl.0.filter(creates()).map_values(|w: (int, Seq<char>, bool)| w.1) =~= Seq::<Seq<char>>::empty());
        assert(pl.0.filter(replaces()).map_values(|w: (int, Seq<char>, bool)| w.1) =~= Seq::<Seq<char>>::empty());
        let a = analysis_upto(files, locals, n, windows);
        assert(a.conflicts.filter(chosen_conflict(chosen, windows)) =~= Seq::<(Seq<char>, u64, Seq<char>)>::empty());
        assert(a.conflicts.filter(chosen_conflict(chosen, windows)).map_values(|c: (Seq<char>, u64, Seq<char>)| c.0)
            =~= Seq::<Seq<char>>::empty());
        assert(a.conflicts.filter(kept_conflict(chosen, windows)) =~= Seq::<(Seq<char>, u64, Seq<char>)>::empty());
    } else {
        let m = (n - 1) as nat;
        lemma_import_follows_analysis(files, locals, chosen, m, windows);
        let a0 = analysis_upto(files, locals, m, windows);
        let p0 = plan_upto(files, local_sums(locals), chosen, m, windows);
        let a = analysis_upto(files, locals, n, windows);
        let pl = plan_upto(files, local_sums(locals), chosen, n, windows);
        let i = m as int;
        let rel = normalized_of(files[i].0, windows)->0;
        assert(local_sums(locals)[i] == match locals[i] {
            Some((c, _)) => Some(c),
            None => None::<Seq<char>>,
        });
        match locals[i] {
            None => {
                let w = (i, rel, false);
                assert(pl.0 == p0.0.push(w));
                lemma_filter_push(p0.0, w, creates());
                lemma_filter_push(p0.0, w, replaces());
                assert(pl.0.filter(creates()).map_values(|w: (int, Seq<char>, bool)| w.1) =~= p0.0.filter(
                    creates(),
                ).map_values(|w: (int, Seq<char>, bool)| w.1).push(rel));
            },
            Some((c, mt)) => {
                if eq_ignore_ascii_case(c, files[i].1) {
                    assert(import_skips(rel, files[i].1, Some(c), chosen, windows));
                } else {
                    let cf = (rel, mt, files[i].1);
                    assert(a.conflicts == a0.conflicts.push(cf));
                    lemma_filter_push(a0.conflicts, cf, chosen_conflict(chosen, windows));
                    lemma_filter_push(a0.conflicts, cf, kept_conflict(chosen, windows));
                    if overwrite_selected(chosen, rel, windows) {
                        let w = (i, rel, true);
                        assert(pl.0 == p0.0.push(w));
                        lemma_filter_push(p0.0, w, creates());
                        lemma_filter_push(p0.0, w, replaces());
                        assert(pl.0.filter(replaces()).map_values(|w: (int, Seq<char>, bool)| w.1) =~= p0.0.filter(
                            replaces(),
                        ).map_values(|w: (int, Seq<char>, bool)| w.1).push(rel));
                        assert(a.conflicts.filter(chosen_conflict(chosen, windows)).map_values(
                            |c: (Seq<char>, u64, Seq<char>)| c.0,
                        ) =~= a0.conflicts.filter(chosen_conflict(chosen, windows)).map_values(
                            |c: (Seq<char>, u64, Seq<char>)| c.0,
                        ).push(rel));
                    }
                }
            },
        }
    }
}

/// Law: importing an archive into the state it was made from changes
/// nothing: where every local file still has the check sum the manifest
/// records, the analysis finds every file unchanged (nothing new, no
/// conflict), and the import writes nothing and skips every file.
pub proof fn lemma_reimport_changes_nothing(
    files: Seq<(Seq<char>, Seq<char>)>,
    locals: Seq<Option<(Seq<char>, u64)>>,
    chosen: Seq<Seq<char>>,
    n: nat,
    windows: bool,
)
    requires
        n <= files.len(),
        n <= locals.len(),
        forall|i: int| 0 <= i < n ==> (#[trigger] locals[i] matches Some((c, _)) && c == files[i].1),
    ensures
        analysis_upto(files, locals, n, windows).new_files.len() == 0,
        analysis_upto(files, locals, n, windows).conflicts.len() == 0,
        analysis_upto(files, locals, n, windows).unchanged.len() == n,
        plan_upto(files, local_sums(locals), chosen, n, windows).0.len() == 0,
        plan_upto(files, local_sums(locals), chosen, n, windows).1 == n,
    decreases n,
{
    if n > 0 {
        let m = (n - 1) as nat;
        lemma_reimport_changes_nothing(files, locals, chosen, m, windows);
        let i = m as int;
        assert(locals[i] matches Some((c, _)) && c == files[i].1);
        assert(locals[i] is Some);
        let c = (locals[i]->0).0;
        assert(eq_ignore_ascii_case(c, files[i].1));
        assert(local_sums(locals)[i] == Some(c));
    }
}

/// Law: every write an import plans names the manifest entry it writes:
/// its index is that entry's (below the files planned so far), its path is
/// that entry's normalised path, and it records whether a local file was
/// there. Writes follow the manifest's order, each entry at most once.
pub proof fn lemma_plan_writes_name_their_entries(
    files: Seq<(Seq<char>, Seq<char>)>,
    locals: Seq<Option<Seq<char>>>,
    chosen: Seq<Seq<char>>,
    n: nat,
    windows: bool,
)
    requires
        n <= files.len(),
        n <= locals.len(),
    ensures
        ({
            let w = plan_upto(files, locals, chosen, n, windows).0;
            &&& forall|k: int|
                0 <= k < w.len() ==> {
                    &&& 0 <= (#[trigger] w[k]).0 < n
                    &&& w[k].1 == normalized_of(files[w[k].0].0, windows)->0
                    &&& w[k].2 == (locals[w[k].0] is Some)
                }
            &&& forall|a: int, b: int| 0 <= a < b < w.len() ==> (#[trigger] w[a]).0 < (#[trigger] w[b]).0
        }),
    decreases n,
{
    if n > 0 {
        lemma_plan_writes_name_their_entries(files, locals, chosen, (n - 1) as nat, windows);
    }
}

/// Law: the analysis flags an `aliases.json` conflict exactly when one of
/// its conflicts is the `aliases.json` file: an unchanged or new aliases
/// file raises no flag.
pub proof fn lemma_aliases_flag_means_conflict(
    files: Seq<(Seq<char>, Seq<char>)>,
    locals: Seq<Option<(Seq<char>, u64)>>,
    n: nat,
    windows: bool,
)
    ensures
        analysis_upto(files, locals, n, windows).aliases_conflict <==> exists|k: int|
            0 <= k < analysis_upto(files, locals, n, windows).conflicts.len() && (#[trigger] analysis_upto(
                files,
                locals,
                n,
                windows,
            ).conflicts[k]).0 == "aliases.json"@,
    decreases n,
{
    if n > 0 {
        let m = (n - 1) as nat;
        lemma_aliases_flag_means_conflict(files, locals, m, windows);
        let a = analysis_upto(files, locals, m, windows);
        let b = analysis_upto(files, locals, n, windows);
        if b.conflicts.len() > a.conflicts.len() {
            assert forall|k: int| 0 <= k < a.conflicts.len() implies #[trigger] b.conflicts[k] == a.conflicts[k] by {}
            let last = b.conflicts.len() - 1;
            if b.conflicts[last].0 == "aliases.json"@ {
                assert(b.aliases_conflict);
            }
            if a.aliases_conflict {
                let k = choose|k: int| 0 <= k < a.conflicts.len() && (#[trigger] a.conflicts[k]).0 == "aliases.json"@;
                assert(b.conflicts[k] == a.conflicts[k]);
            }
        }
    }
}

} // verus!
