//! The `bracketsAlwaysShowShipText` switch in a profile's `prefs.ini`,
//! which makes the client show ship names on every bracket in space.
use vstd::prelude::*;
use crate::text::{
    chars_of, is_whitespace, join_with, lacks, lemma_split_all_lacks, lemma_split_join, push_str,
    split_all, starts_with, string_of, trim_end_ws, trim_start_ws, trim_ws, vec_eq, vec_split_all,
    vec_starts_with, vec_sub, vec_trim_ws,
};

verus! {

/// A line without a trailing carriage return.
pub open spec fn strip_cr(s: Seq<char>) -> Seq<char> {
    if s.len() > 0 && s.last() == '\r' {
        s.drop_last()
    } else {
        s
    }
}

/// `str::lines`: the text split at `\n`, a `\r` before a `\n` removed, and
/// no empty last line for a text that ends with `\n` (or is empty).
pub open spec fn lines_of(s: Seq<char>) -> Seq<Seq<char>> {
    let p = split_all(s, '\n');
    let n = if p.len() > 0 && p.last().len() == 0 {
        p.len() - 1
    } else {
        p.len() as int
    };
    Seq::new(n as nat, |i: int| line_at(p, i))
}

/// The `i`-th line of a text split at `\n` into `p`: a `\r` is removed
/// where a `\n` follows.
pub open spec fn line_at(p: Seq<Seq<char>>, i: int) -> Seq<char> {
    if i < p.len() - 1 {
        strip_cr(p[i])
    } else {
        p[i]
    }
}

/// The start of the setting's line.
pub open spec fn brackets_key() -> Seq<char> {
    "bracketsAlwaysShowShipText="@
}

/// A line that holds the setting: after trimming, it starts with the key.
pub open spec fn is_brackets_line(l: Seq<char>) -> bool {
    starts_with(trim_ws(l), brackets_key())
}

/// A line that switches the setting on: its trimmed value is `1`.
pub open spec fn line_enables(l: Seq<char>) -> bool {
    is_brackets_line(l) && trim_ws(trim_ws(l).skip(brackets_key().len() as int)) == "1"@
}

/// Whether a `prefs.ini` text switches the setting on: some line does.
pub open spec fn brackets_setting(content: Seq<char>) -> bool {
    exists|i: int| 0 <= i < lines_of(content).len() && line_enables(#[trigger] lines_of(content)[i])
}

/// The line that sets the switch.
pub open spec fn setting_line(enabled: bool) -> Seq<char> {
    brackets_key() + if enabled {
        "1"@
    } else {
        "0"@
    }
}

/// The lines of a `prefs.ini` with every line of the setting replaced.
pub open spec fn replaced_lines(ls: Seq<Seq<char>>, enabled: bool) -> Seq<Seq<char>> {
    ls.map_values(|l: Seq<char>| if is_brackets_line(l) { setting_line(enabled) } else { l })
}

/// The `prefs.ini` text after setting the switch: every line of the
/// setting is replaced and, where there is none, the line is appended;
/// lines are joined with `\n`. A profile without the file gets the line
/// alone.
pub open spec fn updated_prefs(existing: Option<Seq<char>>, enabled: bool) -> Seq<char> {
    match existing {
        None => setting_line(enabled),
        Some(c) => {
            let ls = lines_of(c);
            let found = exists|i: int| 0 <= i < ls.len() && is_brackets_line(#[trigger] ls[i]);
            let out = replaced_lines(ls, enabled);
            join_with(
                if found {
                    out
                } else {
                    out.push(setting_line(enabled))
                },
                "\n"@,
            )
        },
    }
}

fn strip_cr_vec(v: &Vec<char>) -> (r: Vec<char>)
    ensures
        r@ == strip_cr(v@),
{
    if v.len() > 0 && v[v.len() - 1] == '\r' {
        vec_sub(v, 0, v.len() - 1)
    } else {
        vec_sub(v, 0, v.len())
    }
}

/// The lines of a text (see [`lines_of`]).
pub fn text_lines(text: &str) -> (r: Vec<Vec<char>>)
    ensures
        r@.map_values(|x: Vec<char>| x@) == lines_of(text@),
{
    let v = chars_of(text);
    let pieces = vec_split_all(&v, '\n');
    let ghost p = split_all(text@, '\n');
    assert(pieces@.len() == p.len());
    let n = if pieces.len() > 0 && pieces[pieces.len() - 1].len() == 0 {
        assert(pieces@[pieces@.len() - 1]@ == p.last());
        pieces.len() - 1
    } else {
        proof {
            if pieces@.len() > 0 {
                assert(pieces@[pieces@.len() - 1]@ == p.last());
            }
        }
        pieces.len()
    };
    let mut out: Vec<Vec<char>> = Vec::new();
    let mut i: usize = 0;
    while i < n
        invariant
            n <= pieces@.len(),
            pieces@.map_values(|x: Vec<char>| x@) == p,
            p == split_all(text@, '\n'),
            n == lines_of(text@).len(),
            i <= n,
            out@.len() == i,
            forall|j: int| 0 <= j < i ==> (#[trigger] out@[j])@ == lines_of(text@)[j],
        decreases n - i,
    {
        assert(pieces@[i as int]@ == p[i as int]);
        let l = if i + 1 < pieces.len() {
            strip_cr_vec(&pieces[i])
        } else {
            vec_sub(&pieces[i], 0, pieces[i].len())
        };
        let ghost before = out@;
        out.push(l);
        proof {
            assert(lines_of(text@)[i as int] == line_at(p, i as int));
            assert(pieces@[i as int]@.subrange(0, pieces@[i as int]@.len() as int) == pieces@[i as int]@);
            assert forall|j: int| 0 <= j < i + 1 implies (#[trigger] out@[j])@ == lines_of(text@)[j] by {
                if j < i {
                    assert(out@[j] == before[j]);
                }
            }
        }
        i = i + 1;
    }
    assert(out@.map_values(|x: Vec<char>| x@) =~= lines_of(text@));
    out
}

fn brackets_line_vec(l: &Vec<char>, key: &Vec<char>) -> (r: bool)
    requires
        key@ == brackets_key(),
    ensures
        r == is_brackets_line(l@),
{
    vec_starts_with(&vec_trim_ws(l), key)
}

/// Whether a `prefs.ini` text switches ship names on every bracket on
/// (see [`brackets_setting`]).
pub fn brackets_enabled(content: &str) -> (r: bool)
    ensures
        r == brackets_setting(content@),
{
    let ls = text_lines(content);
    let ghost lv = lines_of(content@);
    let key = chars_of("bracketsAlwaysShowShipText=");
    let one = chars_of("1");
    let mut i: usize = 0;
    while i < ls.len()
        invariant
            ls@.map_values(|x: Vec<char>| x@) == lv,
            lv == lines_of(content@),
            key@ == brackets_key(),
            one@ == "1"@,
            i <= ls@.len(),
            forall|j: int| 0 <= j < i ==> !line_enables(#[trigger] lv[j]),
        decreases ls@.len() - i,
    {
        assert(ls@[i as int]@ == lv[i as int]);
        let t = vec_trim_ws(&ls[i]);
        if vec_starts_with(&t, &key) {
            let value = vec_trim_ws(&vec_sub(&t, key.len(), t.len()));
            assert(t@.skip(key@.len() as int) == t@.subrange(key@.len() as int, t@.len() as int));
            if vec_eq(&value, &one) {
                assert(line_enables(lv[i as int]));
                return true;
            }
        }
        i = i + 1;
    }
    false
}

/// The `prefs.ini` text after setting the switch (see [`updated_prefs`]);
/// `existing` is the current text, `None` where the profile has none.
pub fn update_brackets_prefs(existing: Option<&str>, enabled: bool) -> (r: String)
    ensures
        r@ == updated_prefs(
            match existing {
                Some(c) => Some(c@),
                None => None,
            },
            enabled,
        ),
{
    let mut line = "bracketsAlwaysShowShipText=".to_owned();
    push_str(&mut line, if enabled { "1" } else { "0" });
    assert(line@ == setting_line(enabled));
    let content = match existing {
        None => return line,
        Some(c) => c,
    };
    let ls = text_lines(content);
    let ghost lv = lines_of(content@);
    let key = chars_of("bracketsAlwaysShowShipText=");
    let mut out: Vec<String> = Vec::new();
    let mut found = false;
    let mut i: usize = 0;
    while i < ls.len()
        invariant
            ls@.map_values(|x: Vec<char>| x@) == lv,
            lv == lines_of(content@),
            key@ == brackets_key(),
            line@ == setting_line(enabled),
            i <= ls@.len(),
            out@.len() == i,
            forall|j: int| 0 <= j < i ==> (#[trigger] out@[j])@ == replaced_lines(lv, enabled)[j],
            found == exists|j: int| 0 <= j < i && is_brackets_line(#[trigger] lv[j]),
        decreases ls@.len() - i,
    {
        assert(ls@[i as int]@ == lv[i as int]);
        if brackets_line_vec(&ls[i], &key) {
            out.push(line.clone());
            found = true;
        } else {
            out.push(string_of(&ls[i]));
        }
        i = i + 1;
    }
    if !found {
        out.push(line);
    }
    let ghost ov = out@.map_values(|x: String| x@);
    assert(ov =~= if found {
        replaced_lines(lv, enabled)
    } else {
        replaced_lines(lv, enabled).push(setting_line(enabled))
    });
    join_lines(&out)
}

fn join_lines(p: &Vec<String>) -> (r: String)
    ensures
        r@ == join_with(p@.map_values(|x: String| x@), "\n"@),
{
    let ghost v = p@.map_values(|x: String| x@);
    if p.len() == 0 {
        return String::new();
    }
    let mut out = String::new();
    push_str(&mut out, p[0].as_str());
    assert(v.take(1).len() == 1 && v.take(1)[0] == v[0]);
    let mut i: usize = 1;
    while i < p.len()
        invariant
            v == p@.map_values(|x: String| x@),
            1 <= i <= p@.len(),
            out@ == join_with(v.take(i as int), "\n"@),
        decreases p@.len() - i,
    {
        push_str(&mut out, "\n");
        push_str(&mut out, p[i].as_str());
        assert(v.take(i + 1).drop_last() == v.take(i as int));
        assert(v.take(i + 1).last() == p@[i as int]@);
        i = i + 1;
    }
    assert(v.take(p@.len() as int) == v);
    out
}

// ----------------------------------------------------------------------
// Reading back what was written
// ----------------------------------------------------------------------

/// Dropping trailing whitespace before trimming changes nothing.
proof fn lemma_trim_drop_ws(s: Seq<char>)
    requires
        s.len() > 0,
        is_whitespace(s.last()),
    ensures
        trim_ws(s.drop_last()) == trim_ws(s),
    decreases s.len(),
{
    if is_whitespace(s[0]) {
        if s.len() == 1 {
            assert(s.drop_first() =~= Seq::<char>::empty());
            assert(s.drop_last() =~= Seq::<char>::empty());
            assert(trim_start_ws(s) == trim_start_ws(Seq::<char>::empty()));
            assert(trim_start_ws(Seq::<char>::empty()) == Seq::<char>::empty());
        } else {
            let t = s.drop_first();
            assert(t.last() == s.last());
            lemma_trim_drop_ws(t);
            assert(s.drop_last()[0] == s[0]);
            assert(s.drop_last().drop_first() == t.drop_last());
            assert(trim_start_ws(s) == trim_start_ws(t));
            assert(trim_start_ws(s.drop_last()) == trim_start_ws(t.drop_last()));
        }
    } else {
        assert(s.len() >= 2);
        assert(s.drop_last()[0] == s[0]);
        assert(trim_start_ws(s) == s);
        assert(trim_start_ws(s.drop_last()) == s.drop_last());
        assert(trim_end_ws(s) == trim_end_ws(s.drop_last()));
    }
}

/// A carriage return at the end of a line does not change its trimmed
/// form.
proof fn lemma_strip_cr_trim(l: Seq<char>)
    ensures
        trim_ws(strip_cr(l)) == trim_ws(l),
{
    if l.len() > 0 && l.last() == '\r' {
        assert(is_whitespace('\r'));
        lemma_trim_drop_ws(l);
    }
}

/// The setting's own line: it holds the setting, reads as `enabled`, and
/// has no line break or trailing carriage return.
proof fn lemma_setting_line(enabled: bool)
    ensures
        setting_line(enabled).len() > 0,
        lacks(setting_line(enabled), '\n'),
        strip_cr(setting_line(enabled)) == setting_line(enabled),
        is_brackets_line(setting_line(enabled)),
        line_enables(setting_line(enabled)) == enabled,
{
    reveal_strlit("bracketsAlwaysShowShipText=");
    reveal_strlit("1");
    reveal_strlit("0");
    let k = brackets_key();
    let v: Seq<char> = if enabled {
        "1"@
    } else {
        "0"@
    };
    let l = setting_line(enabled);
    assert(l == k + v);
    assert(l.len() == 28);
    assert(l[0] == 'b');
    assert(l.last() == v[0]);
    assert(trim_start_ws(l) == l);
    assert(trim_end_ws(l) == l);
    assert(l.subrange(0, k.len() as int) == k);
    assert(l.skip(k.len() as int) == v);
    assert(trim_start_ws(v) == v);
    assert(trim_end_ws(v) == v);
    assert(lacks(l, '\n')) by {
        assert forall|i: int| 0 <= i < l.len() implies l[i] != '\n' by {
            if i < k.len() {
                assert(l[i] == k[i]);
            } else {
                assert(l[i] == v[i - k.len()]);
            }
        }
    }
}

/// No line of a text holds a line break.
proof fn lemma_lines_lack_newline(c: Seq<char>)
    ensures
        forall|i: int| 0 <= i < lines_of(c).len() ==> lacks(#[trigger] lines_of(c)[i], '\n'),
{
    let p = split_all(c, '\n');
    lemma_split_all_lacks(c, '\n');
    assert forall|i: int| 0 <= i < lines_of(c).len() implies lacks(#[trigger] lines_of(c)[i], '\n') by {
        assert(lines_of(c)[i] == line_at(p, i));
        assert(lacks(p[i], '\n'));
        if p[i].len() > 0 && p[i].last() == '\r' {
            assert forall|k: int| 0 <= k < p[i].drop_last().len() implies p[i].drop_last()[k] != '\n' by {
                assert(p[i].drop_last()[k] == p[i][k]);
            }
        }
    }
}

/// Reading a text made of lines that either are the setting's own line or
/// do not hold the setting, with the setting's line among them.
proof fn lemma_read_joined(ls: Seq<Seq<char>>, enabled: bool)
    requires
        ls.len() > 0,
        forall|i: int| 0 <= i < ls.len() ==> lacks(#[trigger] ls[i], '\n'),
        forall|i: int|
            0 <= i < ls.len() ==> #[trigger] ls[i] == setting_line(enabled) || !is_brackets_line(ls[i]),
        exists|j: int| 0 <= j < ls.len() && #[trigger] ls[j] == setting_line(enabled),
    ensures
        brackets_setting(join_with(ls, "\n"@)) == enabled,
{
    reveal_strlit("\n");
    assert("\n"@ == seq!['\n']);
    lemma_split_join(ls, '\n');
    lemma_setting_line(enabled);
    let t = join_with(ls, "\n"@);
    let lines = lines_of(t);
    assert(split_all(t, '\n') == ls);
    if enabled {
        let j = choose|j: int| 0 <= j < ls.len() && #[trigger] ls[j] == setting_line(enabled);
        assert(j < lines.len());
        assert(lines[j] == line_at(ls, j));
        assert(line_enables(lines[j]));
    } else {
        assert forall|i: int| 0 <= i < lines.len() implies !line_enables(#[trigger] lines[i]) by {
            assert(lines[i] == line_at(ls, i));
            lemma_strip_cr_trim(ls[i]);
            if ls[i] != setting_line(enabled) {
                assert(!is_brackets_line(ls[i]));
            }
        }
    }
}

/// Law: after the switch is set, reading the file gives back the value
/// that was set, whatever the file held before (or if there was none).
pub proof fn lemma_brackets_round_trip(existing: Option<Seq<char>>, enabled: bool)
    ensures
        brackets_setting(updated_prefs(existing, enabled)) == enabled,
{
    lemma_setting_line(enabled);
    match existing {
        None => {
            let ls = seq![setting_line(enabled)];
            assert(ls[0] == setting_line(enabled));
            lemma_read_joined(ls, enabled);
        },
        Some(c) => {
            let lines = lines_of(c);
            lemma_lines_lack_newline(c);
            let found = exists|i: int| 0 <= i < lines.len() && is_brackets_line(#[trigger] lines[i]);
            let out = replaced_lines(lines, enabled);
            let ls = if found {
                out
            } else {
                out.push(setting_line(enabled))
            };
            assert forall|i: int| 0 <= i < ls.len() implies lacks(#[trigger] ls[i], '\n') && (ls[i]
                == setting_line(enabled) || !is_brackets_line(ls[i])) by {
                if i < lines.len() {
                    assert(ls[i] == out[i]);
                }
            }
            if found {
                let j = choose|j: int| 0 <= j < lines.len() && is_brackets_line(#[trigger] lines[j]);
                assert(ls[j] == setting_line(enabled));
            } else {
                assert(ls[out.len() as int] == setting_line(enabled));
            }
            lemma_read_joined(ls, enabled);
        },
    }
}

/// Whether a server's setting is on, given the `prefs.ini` texts of its
/// profile folders (`None` for one that has none or cannot be read): on
/// where any of them switches it on.
pub open spec fn any_brackets_setting(contents: Seq<Option<Seq<char>>>) -> bool {
    exists|i: int| 0 <= i < contents.len() && (#[trigger] contents[i] matches Some(c) && brackets_setting(c))
}

/// Reads a server's setting from the `prefs.ini` texts of its profile
/// folders (see [`any_brackets_setting`]).
pub fn brackets_enabled_in_any(contents: &[Option<String>]) -> (r: bool)
    ensures
        r == any_brackets_setting(crate::manifest::opt_strings_view(contents@)),
{
    let ghost cv = crate::manifest::opt_strings_view(contents@);
    let mut i: usize = 0;
    while i < contents.len()
        invariant
            cv == crate::manifest::opt_strings_view(contents@),
            i <= contents@.len(),
            forall|j: int| 0 <= j < i ==> !(#[trigger] cv[j] matches Some(c) && brackets_setting(c)),
        decreases contents@.len() - i,
    {
        match &contents[i] {
            Some(t) => {
                if brackets_enabled(t.as_str()) {
                    assert(cv[i as int] == Some(t@));
                    return true;
                }
            },
            None => {},
        }
        assert(cv[i as int] == match contents@[i as int] {
            Some(t) => Some(t@),
            None => None::<Seq<char>>,
        });
        i = i + 1;
    }
    false
}

/// Law: after the switch is set in every profile folder of a server (one
/// at least), reading the server's setting gives back the value set.
pub proof fn lemma_brackets_round_trip_all(existing: Seq<Option<Seq<char>>>, enabled: bool)
    requires
        existing.len() > 0,
    ensures
        any_brackets_setting(existing.map_values(|e: Option<Seq<char>>| Some(updated_prefs(e, enabled)))) == enabled,
{
    let w = existing.map_values(|e: Option<Seq<char>>| Some(updated_prefs(e, enabled)));
    assert forall|i: int| 0 <= i < w.len() implies (#[trigger] w[i] matches Some(c) && brackets_setting(c)) == enabled by {
        lemma_brackets_round_trip(existing[i], enabled);
    }
    if enabled {
        assert(w[0] matches Some(c) && brackets_setting(c));
    }
}

} // verus!
