//! Whether the EVE client is running, which blocks every change to settings.
use vstd::prelude::*;
use crate::text::{ascii_lower, chars_of, eq_ignore_ascii_case};

verus! {

/// The executable names of the EVE client.
pub open spec fn is_eve_process_name(name: Seq<char>) -> bool {
    eq_ignore_ascii_case(name, "exefile.exe"@) || eq_ignore_ascii_case(name, "eve.exe"@)
}

/// `str::eq_ignore_ascii_case`.
pub fn str_eq_ignore_ascii_case(a: &str, b: &str) -> (r: bool)
    ensures
        r == eq_ignore_ascii_case(a@, b@),
{
    let av = chars_of(a);
    let bv = chars_of(b);
    if av.len() != bv.len() {
        return false;
    }
    let mut i: usize = 0;
    while i < av.len()
        invariant
            av@ == a@,
            bv@ == b@,
            av@.len() == bv@.len(),
            i <= av@.len(),
            forall|j: int| 0 <= j < i ==> ascii_lower(av@[j]) == ascii_lower(bv@[j]),
        decreases av@.len() - i,
    {
        let x = av[i];
        let y = bv[i];
        let lx = if x >= 'A' && x <= 'Z' {
            ((x as u32) + 32) as u8 as char
        } else {
            x
        };
        let ly = if y >= 'A' && y <= 'Z' {
            ((y as u32) + 32) as u8 as char
        } else {
            y
        };
        assert(lx == ascii_lower(x));
        assert(ly == ascii_lower(y));
        if lx != ly {
            return false;
        }
        i = i + 1;
    }
    true
}

/// Whether any of the running processes (by executable name) is an EVE
/// client, matched without regard to ASCII case.
pub fn is_eve_client_running(process_names: &[String]) -> (r: bool)
    ensures
        r == exists|i: int| 0 <= i < process_names@.len() && is_eve_process_name(#[trigger] process_names@[i]@),
{
    let mut i: usize = 0;
    while i < process_names.len()
        invariant
            i <= process_names@.len(),
            forall|j: int| 0 <= j < i ==> !is_eve_process_name(#[trigger] process_names@[j]@),
        decreases process_names@.len() - i,
    {
        let n = process_names[i].as_str();
        if str_eq_ignore_ascii_case(n, "exefile.exe") || str_eq_ignore_ascii_case(n, "eve.exe") {
            assert(is_eve_process_name(process_names@[i as int]@));
            return true;
        }
        i = i + 1;
    }
    false
}

/// Refuses a change while the client runs, since it would overwrite it.
pub fn ensure_eve_closed(client_running: bool) -> (r: Result<(), String>)
    ensures
        client_running ==> (r matches Err(e) && e@
            == "EVE Online is running. Close every EVE client before changing settings so the client cannot overwrite your changes."@),
        !client_running ==> r is Ok,
{
    if client_running {
        Err("EVE Online is running. Close every EVE client before changing settings so the client cannot overwrite your changes.".to_owned())
    } else {
        Ok(())
    }
}

} // verus!
