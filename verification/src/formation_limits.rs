//! The limits the client puts on custom probe formations, checked before
//! any are stored, exported or imported.
//!
//! Whether a probe's numbers are finite and its range one the scanner
//! offers is decided on its floating-point values; what reaches this module
//! is the outcome of that check for each probe.
use vstd::prelude::*;
use crate::formations::{formations_in_map, store_formations, FormationSpec};
use crate::formations_law::lemma_store_then_read;
use crate::json::Json;
use crate::text::{chars_of, decimal, push_decimal, push_str, string_of, trim_ws, vec_trim_ws};

verus! {

/// At most this many custom formations.
pub const MAX_CUSTOM_FORMATIONS: usize = 10;

/// At most this many probes in a formation.
pub const MAX_PROBES_PER_FORMATION: usize = 8;

/// At most this many characters in a formation's name.
pub const MAX_FORMATION_NAME_CHARS: usize = 64;

/// The outcome of checking one probe's position and range.
#[derive(Debug, Clone, Copy, PartialEq, Eq, Structural)]
pub enum ProbeCheck {
    /// Finite numbers and a range the scanner offers.
    Valid,
    /// A coordinate or the range is not a finite number.
    NonFinite,
    /// The range is not one of the scanner's steps.
    UnsupportedRange,
}

/// What the limits look at in a formation: its id, its name, and the
/// outcome of checking each probe.
#[derive(Debug, Clone)]
pub struct FormationShape {
    pub id: i64,
    pub name: String,
    pub probes: Vec<ProbeCheck>,
}

/// The first probe problem among the first `n` probes of the formation
/// named `name`.
pub open spec fn probe_problem(probes: Seq<ProbeCheck>, name: Seq<char>, n: nat) -> Option<Seq<char>>
    decreases n,
{
    if n == 0 {
        None
    } else {
        match probe_problem(probes, name, (n - 1) as nat) {
            Some(e) => Some(e),
            None => match probes[n - 1] {
                ProbeCheck::Valid => None,
                ProbeCheck::NonFinite => Some(
                    "Probe "@ + decimal(n) + " in '"@ + name + "' contains a non-finite value"@,
                ),
                ProbeCheck::UnsupportedRange => Some(
                    "Probe "@ + decimal(n) + " in '"@ + name + "' has an unsupported scan range"@,
                ),
            },
        }
    }
}

/// What is wrong with the `i`-th formation, given that the earlier ones are
/// fine: a negative id or one an earlier formation has; a name that,
/// trimmed, is empty or longer than 64 characters; more than 8 probes; or
/// a probe problem. Formations are numbered from 1 in the messages and
/// named by their trimmed name.
pub open spec fn formation_problem(fs: Seq<FormationShape>, i: int) -> Option<Seq<char>> {
    let f = fs[i];
    let name = trim_ws(f.name@);
    if f.id < 0 || exists|j: int| 0 <= j < i && (#[trigger] fs[j]).id == f.id {
        Some("Formation "@ + decimal((i + 1) as nat) + " has an invalid or duplicate id"@)
    } else if name.len() == 0 || name.len() > MAX_FORMATION_NAME_CHARS {
        Some("Formation "@ + decimal((i + 1) as nat) + " needs a name between 1 and 64 characters"@)
    } else if f.probes@.len() > MAX_PROBES_PER_FORMATION {
        Some("Formation '"@ + name + "' has more than 8 probes"@)
    } else {
        probe_problem(f.probes@, name, f.probes@.len())
    }
}

/// The first problem among the first `n` formations.
pub open spec fn first_formation_problem(fs: Seq<FormationShape>, n: nat) -> Option<Seq<char>>
    decreases n,
{
    if n == 0 {
        None
    } else {
        match first_formation_problem(fs, (n - 1) as nat) {
            Some(e) => Some(e),
            None => formation_problem(fs, n - 1),
        }
    }
}

/// Why a set of formations is refused, if it is: more than 10, or the
/// first problem of a formation.
pub open spec fn formations_problem(fs: Seq<FormationShape>) -> Option<Seq<char>> {
    if fs.len() > MAX_CUSTOM_FORMATIONS {
        Some("EVE supports at most 10 custom probe formations"@)
    } else {
        first_formation_problem(fs, fs.len())
    }
}

proof fn lemma_first_formation_problem_stays(fs: Seq<FormationShape>, a: nat, b: nat)
    requires
        a <= b,
        first_formation_problem(fs, a) is Some,
    ensures
        first_formation_problem(fs, b) == first_formation_problem(fs, a),
    decreases b - a,
{
    if a < b {
        lemma_first_formation_problem_stays(fs, a, (b - 1) as nat);
    }
}

proof fn lemma_probe_problem_stays(ps: Seq<ProbeCheck>, name: Seq<char>, a: nat, b: nat)
    requires
        a <= b,
        probe_problem(ps, name, a) is Some,
    ensures
        probe_problem(ps, name, b) == probe_problem(ps, name, a),
    decreases b - a,
{
    if a < b {
        lemma_probe_problem_stays(ps, name, a, (b - 1) as nat);
    }
}

fn check_probes(probes: &Vec<ProbeCheck>, name: &str) -> (r: Result<(), String>)
    ensures
        match probe_problem(probes@, name@, probes@.len()) {
            None => r is Ok,
            Some(e) => r matches Err(m) && m@ == e,
        },
{
    let mut i: usize = 0;
    while i < probes.len()
        invariant
            i <= probes@.len(),
            probe_problem(probes@, name@, i as nat) is None,
        decreases probes@.len() - i,
    {
        match probes[i] {
            ProbeCheck::Valid => {},
            ProbeCheck::NonFinite => {
                let mut m = "Probe ".to_owned();
                push_decimal(&mut m, i as u64 + 1);
                push_str(&mut m, " in '");
                push_str(&mut m, name);
                push_str(&mut m, "' contains a non-finite value");
                proof {
                    lemma_probe_problem_stays(probes@, name@, (i + 1) as nat, probes@.len());
                }
                return Err(m);
            },
            ProbeCheck::UnsupportedRange => {
                let mut m = "Probe ".to_owned();
                push_decimal(&mut m, i as u64 + 1);
                push_str(&mut m, " in '");
                push_str(&mut m, name);
                push_str(&mut m, "' has an unsupported scan range");
                proof {
                    lemma_probe_problem_stays(probes@, name@, (i + 1) as nat, probes@.len());
                }
                return Err(m);
            },
        }
        i = i + 1;
    }
    Ok(())
}

/// Checks formations against the client's limits (see
/// [`formations_problem`]).
pub fn validate_formations(formations: &[FormationShape]) -> (r: Result<(), String>)
    ensures
        match formations_problem(formations@) {
            None => r is Ok,
            Some(e) => r matches Err(m) && m@ == e,
        },
{
    let ghost fs = formations@;
    if formations.len() > MAX_CUSTOM_FORMATIONS {
        return Err("EVE supports at most 10 custom probe formations".to_owned());
    }
    let mut i: usize = 0;
    while i < formations.len()
        invariant
            fs == formations@,
            fs.len() <= MAX_CUSTOM_FORMATIONS,
            i <= fs.len(),
            first_formation_problem(fs, i as nat) is None,
        decreases fs.len() - i,
    {
        let f = &formations[i];
        // the id: not negative, and no earlier formation's
        let mut dup = f.id < 0;
        let mut j: usize = 0;
        while j < i
            invariant
                fs == formations@,
                i < fs.len(),
                j <= i,
                f == fs[i as int],
                dup == (f.id < 0 || exists|k: int| 0 <= k < j && (#[trigger] fs[k]).id == f.id),
            decreases i - j,
        {
            if formations[j].id == f.id {
                dup = true;
            }
            j = j + 1;
        }
        if dup {
            let mut m = "Formation ".to_owned();
            push_decimal(&mut m, i as u64 + 1);
            push_str(&mut m, " has an invalid or duplicate id");
            proof {
                lemma_first_formation_problem_stays(fs, (i + 1) as nat, fs.len());
            }
            return Err(m);
        }
        let name = vec_trim_ws(&chars_of(f.name.as_str()));
        if name.len() == 0 || name.len() > MAX_FORMATION_NAME_CHARS {
            let mut m = "Formation ".to_owned();
            push_decimal(&mut m, i as u64 + 1);
            push_str(&mut m, " needs a name between 1 and 64 characters");
            proof {
                lemma_first_formation_problem_stays(fs, (i + 1) as nat, fs.len());
            }
            return Err(m);
        }
        let name_s = string_of(&name);
        if f.probes.len() > MAX_PROBES_PER_FORMATION {
            let mut m = "Formation '".to_owned();
            push_str(&mut m, name_s.as_str());
            push_str(&mut m, "' has more than 8 probes");
            proof {
                lemma_first_formation_problem_stays(fs, (i + 1) as nat, fs.len());
            }
            return Err(m);
        }
        match check_probes(&f.probes, name_s.as_str()) {
            Ok(()) => {},
            Err(m) => {
                proof {
                    lemma_first_formation_problem_stays(fs, (i + 1) as nat, fs.len());
                }
                return Err(m);
            },
        }
        i = i + 1;
    }
    Ok(())
}

/// Formations within the limits have ids that are not negative and
/// differ.
proof fn lemma_accepted_ids(fs: Seq<FormationShape>, n: nat)
    requires
        n <= fs.len(),
        first_formation_problem(fs, n) is None,
    ensures
        forall|i: int| 0 <= i < n ==> (#[trigger] fs[i]).id >= 0,
        forall|i: int, j: int| 0 <= i < j < n ==> (#[trigger] fs[i]).id != (#[trigger] fs[j]).id,
    decreases n,
{
    if n > 0 {
        lemma_accepted_ids(fs, (n - 1) as nat);
        let k = n - 1;
        assert(formation_problem(fs, k) is None);
        assert(!exists|j: int| 0 <= j < k && (#[trigger] fs[j]).id == fs[k].id);
    }
}

/// Law: formations the client's limits accept are stored in a settings
/// file and read back from it exactly as they were (their ids are not
/// negative and differ, which is what storing them needs).
pub proof fn lemma_accepted_formations_read_back(
    root: Json,
    fs: Seq<FormationSpec>,
    shapes: Seq<FormationShape>,
    ts: u64,
)
    requires
        store_formations(root, fs, ts) is Some,
        shapes.len() == fs.len(),
        forall|i: int| 0 <= i < fs.len() ==> (#[trigger] shapes[i]).id == fs[i].id,
        formations_problem(shapes) is None,
    ensures
        formations_in_map(store_formations(root, fs, ts).unwrap()) == fs,
{
    lemma_accepted_ids(shapes, shapes.len());
    assert forall|i: int| 0 <= i < fs.len() implies (#[trigger] fs[i]).id >= 0 by {
        assert(shapes[i].id == fs[i].id);
    }
    assert forall|i: int, j: int| 0 <= i < j < fs.len() implies (#[trigger] fs[i]).id != (#[trigger] fs[j]).id by {
        assert(shapes[i].id == fs[i].id && shapes[j].id == fs[j].id);
    }
    lemma_store_then_read(root, fs, ts);
}

} // verus!
