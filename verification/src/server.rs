//! The EVE servers and the two kinds of settings files.
use vstd::prelude::*;
use crate::text::{all_ascii, ascii_lowercase, ascii_uppercase, lemma_lower_of_upper, chars_of, contains_seq, str_eq, vec_contains_seq};

verus! {

/// An EVE Online server cluster.
#[derive(Debug, Clone, Copy, PartialEq, Eq, Hash, Structural)]
pub enum Server {
    Tranquility,
    Singularity,
    Thunderdome,
    Serenity,
}

/// Whether a settings file belongs to an account (`core_user_*`) or to a
/// character (`core_char_*`).
#[derive(Debug, Clone, Copy, PartialEq, Eq, Structural)]
pub enum SettingsKind {
    User,
    Char,
}

/// What `str::to_lowercase` returns for a string: the Unicode lower-case
/// mapping of each character, which depends on the string alone.
pub uninterp spec fn unicode_lowercase(s: Seq<char>) -> Seq<char>;

/// `str::to_lowercase`. Claimed: the result is the (named) Unicode lower-case
/// mapping of the argument, and on a text of ASCII characters alone it is
/// the ASCII lower-casing (`A`-`Z` become `a`-`z`, every other character
/// stays), as Unicode maps those characters; nothing more is stated of it.
#[verifier::external_body]
fn to_lowercase(s: &str) -> (r: String)
    ensures
        r@ == unicode_lowercase(s@),
        all_ascii(s@) ==> r@ == ascii_lowercase(s@),
{
    s.to_lowercase()
}

/// The server a lower-cased folder name stands for: the first server name
/// that occurs in it, in the order Tranquility, Singularity, Thunderdome,
/// Serenity.
pub open spec fn server_for_lowercase(l: Seq<char>) -> Option<Server> {
    if contains_seq(l, "tranquility"@) {
        Some(Server::Tranquility)
    } else if contains_seq(l, "singularity"@) {
        Some(Server::Singularity)
    } else if contains_seq(l, "thunderdome"@) {
        Some(Server::Thunderdome)
    } else if contains_seq(l, "serenity"@) {
        Some(Server::Serenity)
    } else {
        None
    }
}

/// The kind named by the `{kind}` part of a settings file name.
pub open spec fn kind_for_name(s: Seq<char>) -> Option<SettingsKind> {
    if s == "user"@ {
        Some(SettingsKind::User)
    } else if s == "char"@ {
        Some(SettingsKind::Char)
    } else {
        None
    }
}

impl Server {
    pub open spec fn spec_display_name(self) -> Seq<char> {
        match self {
            Server::Tranquility => "Tranquility"@,
            Server::Singularity => "Singularity"@,
            Server::Thunderdome => "Thunderdome"@,
            Server::Serenity => "Serenity"@,
        }
    }

    pub open spec fn spec_short_name(self) -> Seq<char> {
        match self {
            Server::Tranquility => "TQ"@,
            Server::Singularity => "SISI"@,
            Server::Thunderdome => "TD"@,
            Server::Serenity => "CN"@,
        }
    }

    pub open spec fn spec_color(self) -> Seq<char> {
        match self {
            Server::Tranquility => "#00d4aa"@,
            Server::Singularity => "#f0b429"@,
            Server::Thunderdome => "#f85149"@,
            Server::Serenity => "#a78bfa"@,
        }
    }

    /// The server an already lower-cased folder name stands for.
    pub fn from_lowercase_name(lower: &str) -> (r: Option<Server>)
        ensures
            r == server_for_lowercase(lower@),
    {
        let l = chars_of(lower);
        if vec_contains_seq(&l, &chars_of("tranquility")) {
            Some(Server::Tranquility)
        } else if vec_contains_seq(&l, &chars_of("singularity")) {
            Some(Server::Singularity)
        } else if vec_contains_seq(&l, &chars_of("thunderdome")) {
            Some(Server::Thunderdome)
        } else if vec_contains_seq(&l, &chars_of("serenity")) {
            Some(Server::Serenity)
        } else {
            None
        }
    }

    /// The server a folder under the EVE settings root belongs to, matched
    /// case-insensitively.
    pub fn from_folder_name(name: &str) -> (r: Option<Server>)
        ensures
            r == server_for_lowercase(unicode_lowercase(name@)),
            all_ascii(name@) ==> r == server_for_lowercase(ascii_lowercase(name@)),
    {
        let lower = to_lowercase(name);
        Server::from_lowercase_name(lower.as_str())
    }

    /// Only Tranquility has character data on ESI.
    pub fn supports_esi(&self) -> (r: bool)
        ensures
            r == (*self == Server::Tranquility),
    {
        match self {
            Server::Tranquility => true,
            _ => false,
        }
    }

    pub fn display_name(&self) -> (r: &'static str)
        ensures
            r@ == self.spec_display_name(),
    {
        match self {
            Server::Tranquility => "Tranquility",
            Server::Singularity => "Singularity",
            Server::Thunderdome => "Thunderdome",
            Server::Serenity => "Serenity",
        }
    }

    pub fn short_name(&self) -> (r: &'static str)
        ensures
            r@ == self.spec_short_name(),
    {
        match self {
            Server::Tranquility => "TQ",
            Server::Singularity => "SISI",
            Server::Thunderdome => "TD",
            Server::Serenity => "CN",
        }
    }

    pub fn color(&self) -> (r: &'static str)
        ensures
            r@ == self.spec_color(),
    {
        match self {
            Server::Tranquility => "#00d4aa",
            Server::Singularity => "#f0b429",
            Server::Thunderdome => "#f85149",
            Server::Serenity => "#a78bfa",
        }
    }
}

/// A server's display name, lower-cased, names that server.
proof fn lemma_lowercase_display_name(s: Server)
    ensures
        server_for_lowercase(ascii_lowercase(s.spec_display_name())) == Some(s),
{
    let t = "tranquility"@;
    let g = "singularity"@;
    let d = "thunderdome"@;
    let e = "serenity"@;
    reveal_strlit("tranquility");
    reveal_strlit("singularity");
    reveal_strlit("thunderdome");
    reveal_strlit("serenity");
    match s {
        Server::Tranquility => {
            reveal_strlit("Tranquility");
            let l = ascii_lowercase("Tranquility"@);
            assert(l =~= t);
            assert(l.subrange(0int, 0int + t.len()) =~= t);
        },
        Server::Singularity => {
            reveal_strlit("Singularity");
            let l = ascii_lowercase("Singularity"@);
            assert(l =~= g);
            assert(l.subrange(0int, 0int + g.len()) =~= g);
            assert(l[0] != t[0]);
        },
        Server::Thunderdome => {
            reveal_strlit("Thunderdome");
            let l = ascii_lowercase("Thunderdome"@);
            assert(l =~= d);
            assert(l.subrange(0int, 0int + d.len()) =~= d);
            assert(l[1] != t[1]);
            assert(l[1] != g[1]);
        },
        Server::Serenity => {
            reveal_strlit("Serenity");
            let l = ascii_lowercase("Serenity"@);
            assert(l =~= e);
            assert(l.subrange(0int, 0int + e.len()) =~= e);
        },
    }
}

/// Law: a folder named after a server, in any mix of ASCII case, is
/// recognised as that server.
pub proof fn lemma_display_name_recognised(s: Server, name: Seq<char>)
    requires
        ascii_lowercase(name) == ascii_lowercase(s.spec_display_name()),
    ensures
        server_for_lowercase(ascii_lowercase(name)) == Some(s),
{
    lemma_lowercase_display_name(s);
}

/// Law: a folder named after a server in capitals is recognised as that
/// server (the name is ASCII, so [`Server::from_folder_name`] reads it by
/// its ASCII lower-casing).
pub proof fn lemma_upper_display_name_recognised(s: Server)
    ensures
        all_ascii(ascii_uppercase(s.spec_display_name())),
        server_for_lowercase(ascii_lowercase(ascii_uppercase(s.spec_display_name()))) == Some(s),
{
    let d = s.spec_display_name();
    reveal_strlit("Tranquility");
    reveal_strlit("Singularity");
    reveal_strlit("Thunderdome");
    reveal_strlit("Serenity");
    assert(all_ascii(d));
    lemma_lower_of_upper(d);
    lemma_lowercase_display_name(s);
}

impl SettingsKind {
    /// The kind named `user` or `char`.
    pub fn from_name(s: &str) -> (r: Option<SettingsKind>)
        ensures
            r == kind_for_name(s@),
    {
        if str_eq(s, "user") {
            Some(SettingsKind::User)
        } else if str_eq(s, "char") {
            Some(SettingsKind::Char)
        } else {
            None
        }
    }
}

} // verus!
