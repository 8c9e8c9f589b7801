//! Aliases: names the user gives to account and character ids, since EVE
//! stores only the numbers.
use vstd::prelude::*;
use crate::text::{chars_of, str_eq, string_of, trim_ws, vec_trim_ws};

verus! {

/// The id → alias map as pairs, each id once.
pub struct Aliases {
    entries: Vec<(String, String)>,
}

/// No id occurs twice.
pub open spec fn keys_unique(s: Seq<(String, String)>) -> bool {
    forall|i: int, j: int| 0 <= i < j < s.len() ==> (#[trigger] s[i]).0@ != (#[trigger] s[j]).0@
}

/// The map the pairs stand for.
pub open spec fn pairs_view(s: Seq<(String, String)>) -> Map<Seq<char>, Seq<char>> {
    Map::new(
        |k: Seq<char>| exists|i: int| 0 <= i < s.len() && (#[trigger] s[i]).0@ == k,
        |k: Seq<char>| s[choose|i: int| 0 <= i < s.len() && (#[trigger] s[i]).0@ == k].1@,
    )
}

/// The value stored for `k` where the pairs hold it at `i`.
proof fn lemma_pairs_view_at(s: Seq<(String, String)>, i: int)
    requires
        keys_unique(s),
        0 <= i < s.len(),
    ensures
        pairs_view(s).contains_key(s[i].0@),
        pairs_view(s)[s[i].0@] == s[i].1@,
{
    let k = s[i].0@;
    assert(exists|j: int| 0 <= j < s.len() && (#[trigger] s[j]).0@ == k);
    let j = choose|j: int| 0 <= j < s.len() && (#[trigger] s[j]).0@ == k;
    if j != i {
        if j < i {
            assert(s[j].0@ != s[i].0@);
        } else {
            assert(s[i].0@ != s[j].0@);
        }
    }
}

/// The alias an id is shown with where it has none: the id itself.
pub open spec fn display_name_of(aliases: Map<Seq<char>, Seq<char>>, id: Seq<char>) -> Seq<char> {
    if aliases.contains_key(id) {
        aliases[id]
    } else {
        id
    }
}

/// The aliases after the user sets one: a name that is blank once trimmed
/// removes the id's alias, any other is stored trimmed.
pub open spec fn with_alias(aliases: Map<Seq<char>, Seq<char>>, id: Seq<char>, alias: Option<Seq<char>>) -> Map<
    Seq<char>,
    Seq<char>,
> {
    match alias {
        Some(a) => if trim_ws(a).len() > 0 {
            aliases.insert(id, trim_ws(a))
        } else {
            aliases.remove(id)
        },
        None => aliases.remove(id),
    }
}

impl View for Aliases {
    type V = Map<Seq<char>, Seq<char>>;

    closed spec fn view(&self) -> Map<Seq<char>, Seq<char>> {
        pairs_view(self.entries@)
    }
}

impl Aliases {
    #[verifier::type_invariant]
    spec fn inv(self) -> bool {
        keys_unique(self.entries@)
    }

    /// No aliases.
    pub fn new() -> (r: Aliases)
        ensures
            r@ == Map::<Seq<char>, Seq<char>>::empty(),
    {
        let r = Aliases { entries: Vec::new() };
        assert(r@ =~= Map::<Seq<char>, Seq<char>>::empty());
        r
    }

    fn find(&self, id: &str) -> (r: Option<usize>)
        ensures
            match r {
                Some(i) => i < self.entries@.len() && self.entries@[i as int].0@ == id@,
                None => forall|i: int| 0 <= i < self.entries@.len() ==> (#[trigger] self.entries@[i]).0@ != id@,
            },
    {
        let mut i: usize = 0;
        while i < self.entries.len()
            invariant
                i <= self.entries@.len(),
                forall|j: int| 0 <= j < i ==> (#[trigger] self.entries@[j]).0@ != id@,
            decreases self.entries@.len() - i,
        {
            if str_eq(self.entries[i].0.as_str(), id) {
                return Some(i);
            }
            i = i + 1;
        }
        None
    }

    /// The alias of an id, if it has one.
    pub fn get(&self, id: &str) -> (r: Option<String>)
        ensures
            match r {
                Some(a) => self@.contains_key(id@) && self@[id@] == a@,
                None => !self@.contains_key(id@),
            },
    {
        proof {
            use_type_invariant(self);
        }
        match self.find(id) {
            Some(i) => {
                proof {
                    lemma_pairs_view_at(self.entries@, i as int);
                }
                Some(self.entries[i].1.clone())
            },
            None => None,
        }
    }

    /// Stores an alias for an id, replacing any it had.
    pub fn insert(&mut self, id: String, alias: String)
        ensures
            final(self)@ == old(self)@.insert(id@, alias@),
    {
        proof {
            use_type_invariant(&*self);
        }
        let ghost before = self.entries@;
        let mut entries = Vec::new();
        std::mem::swap(&mut entries, &mut self.entries);
        let found = {
            let mut i: usize = 0;
            let mut found: Option<usize> = None;
            while i < entries.len()
                invariant
                    entries@ == before,
                    i <= before.len(),
                    found is None ==> forall|j: int| 0 <= j < i ==> (#[trigger] before[j]).0@ != id@,
                    found matches Some(f) ==> f < before.len() && before[f as int].0@ == id@,
                decreases before.len() - i,
            {
                if found.is_none() && str_eq(entries[i].0.as_str(), id.as_str()) {
                    found = Some(i);
                }
                i = i + 1;
            }
            found
        };
        let ghost idv = id@;
        let ghost av = alias@;
        match found {
            Some(i) => {
                entries.set(i, (id, alias));
            },
            None => {
                entries.push((id, alias));
            },
        }
        proof {
            let after = entries@;
            assert(keys_unique(after)) by {
                assert forall|a: int, b: int| 0 <= a < b < after.len() implies (#[trigger] after[a]).0@
                    != (#[trigger] after[b]).0@ by {
                    if found is None {
                        if b == before.len() {
                            assert(after[a] == before[a]);
                        } else {
                            assert(after[a] == before[a] && after[b] == before[b]);
                        }
                    } else {
                        let f = found->0 as int;
                        if a == f {
                            assert(after[b] == before[b]);
                            assert(before[f].0@ != before[b].0@);
                        } else if b == f {
                            assert(after[a] == before[a]);
                            assert(before[a].0@ != before[f].0@);
                        } else {
                            assert(after[a] == before[a] && after[b] == before[b]);
                        }
                    }
                }
            }
            let m = pairs_view(after);
            let want = pairs_view(before).insert(idv, av);
            assert forall|k: Seq<char>| #[trigger] m.contains_key(k) == want.contains_key(k) by {
                if k != idv {
                    if m.contains_key(k) {
                        let j = choose|j: int| 0 <= j < after.len() && (#[trigger] after[j]).0@ == k;
                        assert(after[j] == before[j]);
                    }
                    if pairs_view(before).contains_key(k) {
                        let j = choose|j: int| 0 <= j < before.len() && (#[trigger] before[j]).0@ == k;
                        assert(after[j] == before[j]);
                    }
                } else {
                    match found {
                        Some(f) => assert(after[f as int].0@ == idv),
                        None => assert(after[before.len() as int].0@ == idv),
                    }
                }
            }
            assert forall|k: Seq<char>| #[trigger] m.contains_key(k) implies m[k] == want[k] by {
                let j = choose|j: int| 0 <= j < after.len() && (#[trigger] after[j]).0@ == k;
                lemma_pairs_view_at(after, j);
                if k != idv {
                    assert(after[j] == before[j]);
                    lemma_pairs_view_at(before, j);
                } else {
                    assert(after[j].1@ == av);
                }
            }
            assert(m =~= want);
        }
        self.entries = entries;
    }

    /// Removes an id's alias, if it has one.
    pub fn remove(&mut self, id: &str)
        ensures
            final(self)@ == old(self)@.remove(id@),
    {
        proof {
            use_type_invariant(&*self);
        }
        let ghost before = self.entries@;
        match self.find(id) {
            None => {
                assert(self@ =~= old(self)@.remove(id@));
            },
            Some(i) => {
                let mut entries = Vec::new();
                std::mem::swap(&mut entries, &mut self.entries);
                entries.remove(i);
                proof {
                    let after = entries@;
                    assert(after =~= before.take(i as int) + before.skip(i + 1));
                    assert forall|a: int| 0 <= a < after.len() implies #[trigger] after[a] == if a < i {
                        before[a]
                    } else {
                        before[a + 1]
                    } by {}
                    assert(keys_unique(after)) by {
                        assert forall|a: int, b: int| 0 <= a < b < after.len() implies (
                        #[trigger] after[a]).0@ != (#[trigger] after[b]).0@ by {
                            let a2 = if a < i { a } else { a + 1 };
                            let b2 = if b < i { b } else { b + 1 };
                            assert(after[a] == before[a2] && after[b] == before[b2]);
                        }
                    }
                    let m = pairs_view(after);
                    let want = pairs_view(before).remove(id@);
                    assert forall|k: Seq<char>| #[trigger] m.contains_key(k) == want.contains_key(k) by {
                        if m.contains_key(k) {
                            let j = choose|j: int| 0 <= j < after.len() && (#[trigger] after[j]).0@ == k;
                            let j2 = if j < i { j } else { j + 1 };
                            assert(after[j] == before[j2]);
                            assert(k != id@);
                        }
                        if want.contains_key(k) {
                            let j = choose|j: int| 0 <= j < before.len() && (#[trigger] before[j]).0@ == k;
                            assert(j != i);
                            let j2 = if j < i { j } else { j - 1 };
                            assert(after[j2] == before[j]);
                        }
                    }
                    assert forall|k: Seq<char>| #[trigger] m.contains_key(k) implies m[k] == want[k] by {
                        let j = choose|j: int| 0 <= j < after.len() && (#[trigger] after[j]).0@ == k;
                        let j2 = if j < i { j } else { j + 1 };
                        lemma_pairs_view_at(after, j);
                        lemma_pairs_view_at(before, j2);
                    }
                    assert(m =~= want);
                }
                self.entries = entries;
            },
        }
    }

    /// The aliases read from a stored id → alias list; where an id occurs
    /// twice the later alias wins.
    pub fn from_pairs(pairs: Vec<(String, String)>) -> (r: Aliases)
        ensures
            forall|k: Seq<char>| #[trigger] r@.contains_key(k) <==> exists|i: int| 0 <= i < pairs@.len() && (
            #[trigger] pairs@[i]).0@ == k,
            forall|i: int|
                0 <= i < pairs@.len() && (forall|j: int| i < j < pairs@.len() ==> (#[trigger] pairs@[j]).0@
                    != pairs@[i].0@) ==> r@[(#[trigger] pairs@[i]).0@] == pairs@[i].1@,
    {
        let mut r = Aliases::new();
        let mut i: usize = 0;
        let ghost pv = pairs@;
        let n = pairs.len();
        let mut rest = pairs;
        while rest.len() > 0
            invariant
                n == pv.len(),
                i + rest@.len() == n,
                forall|j: int| 0 <= j < rest@.len() ==> #[trigger] rest@[j] == pv[i + j],
                forall|k: Seq<char>| #[trigger] r@.contains_key(k) <==> exists|j: int| 0 <= j < i && (
                #[trigger] pv[j]).0@ == k,
                forall|a: int|
                    0 <= a < i && (forall|j: int| a < j < i ==> (#[trigger] pv[j]).0@ != pv[a].0@) ==> r@[(
                    #[trigger] pv[a]).0@] == pv[a].1@,
            decreases rest@.len(),
        {
            let (k, v) = rest.remove(0);
            assert(k@ == pv[i as int].0@);
            assert(v@ == pv[i as int].1@);
            let ghost before = r@;
            r.insert(k, v);
            proof {
                assert forall|a: int|
                    0 <= a < i + 1 && (forall|j: int| a < j < i + 1 ==> (#[trigger] pv[j]).0@ != pv[a].0@) implies r@[(
                    #[trigger] pv[a]).0@] == pv[a].1@ by {
                    if a < i {
                        assert(pv[i as int].0@ != pv[a].0@);
                        assert(before[pv[a].0@] == pv[a].1@);
                    }
                }
            }
            proof {
                assert forall|q: Seq<char>| #[trigger] r@.contains_key(q) <==> exists|j: int| 0 <= j < i + 1 && (
                #[trigger] pv[j]).0@ == q by {
                    if q == pv[i as int].0@ {
                        assert(r@.contains_key(q));
                    }
                }
            }
            i = i + 1;
        }
        r
    }

    /// The aliases as an id → alias list, each id once.
    pub fn to_pairs(&self) -> (r: Vec<(String, String)>)
        ensures
            pairs_view(r@) == self@,
            keys_unique(r@),
    {
        proof {
            use_type_invariant(self);
        }
        let mut out: Vec<(String, String)> = Vec::new();
        let mut i: usize = 0;
        while i < self.entries.len()
            invariant
                i <= self.entries@.len(),
                out@ == self.entries@.take(i as int),
            decreases self.entries@.len() - i,
        {
            let k = self.entries[i].0.clone();
            let v = self.entries[i].1.clone();
            out.push((k, v));
            assert(self.entries@.take(i + 1) == self.entries@.take(i as int).push(self.entries@[i as int]));
            i = i + 1;
        }
        assert(self.entries@.take(self.entries@.len() as int) == self.entries@);
        out
    }

    /// Sets an id's alias as the user asked (see [`with_alias`]).
    pub fn set(&mut self, id: String, alias: Option<String>)
        ensures
            final(self)@ == with_alias(
                old(self)@,
                id@,
                match alias {
                    Some(a) => Some(a@),
                    None => None,
                },
            ),
    {
        match alias {
            Some(a) => {
                let t = vec_trim_ws(&chars_of(a.as_str()));
                if t.len() > 0 {
                    self.insert(id, string_of(&t));
                } else {
                    self.remove(id.as_str());
                }
            },
            None => self.remove(id.as_str()),
        }
    }

    /// The name an id is shown with (see [`display_name_of`]).
    pub fn display_name(&self, id: &str) -> (r: String)
        ensures
            r@ == display_name_of(self@, id@),
    {
        match self.get(id) {
            Some(a) => a,
            None => id.to_owned(),
        }
    }
}

/// Law: after the user sets an alias for an id, the id is shown with that
/// alias, trimmed; after the user clears it (or gives a blank one), the id
/// is shown as itself. Other ids keep their names.
pub proof fn lemma_alias_then_display(
    aliases: Map<Seq<char>, Seq<char>>,
    id: Seq<char>,
    alias: Option<Seq<char>>,
    other: Seq<char>,
)
    requires
        other != id,
    ensures
        display_name_of(with_alias(aliases, id, alias), id) == match alias {
            Some(a) => if trim_ws(a).len() > 0 {
                trim_ws(a)
            } else {
                id
            },
            None => id,
        },
        display_name_of(with_alias(aliases, id, alias), other) == display_name_of(aliases, other),
{
}

} // verus!
