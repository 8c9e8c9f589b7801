//! The window in which a settings file's probe formations are edited: one
//! window per file, opened on a page whose address names the file.
use vstd::prelude::*;
use vstd::utf8::encode_utf8;
use crate::digest::{hex_lower, lemma_hex_lower_len, sha256_hex, sha256_spec};
use crate::text::{push_char, push_str, vec_sub, chars_of, string_of};

verus! {

/// A byte that stands for itself in a URL component: an ASCII letter or
/// digit, `-`, `_`, `.` or `~`.
pub open spec fn unreserved(b: u8) -> bool {
    (65 <= b <= 90) || (97 <= b <= 122) || (48 <= b <= 57) || b == 45 || b == 95 || b == 46 || b == 126
}

/// An upper-case hexadecimal digit.
pub open spec fn hex_upper(d: u8) -> char
    recommends
        d < 16,
{
    if d < 10 {
        ((d + 48) as u32) as char
    } else {
        ((d + 55) as u32) as char
    }
}

/// How one byte is written: itself, or `%` and two upper-case hexadecimal
/// digits.
pub open spec fn percent_byte(b: u8) -> Seq<char> {
    if unreserved(b) {
        seq![(b as u32) as char]
    } else {
        seq!['%', hex_upper(b / 16), hex_upper(b % 16)]
    }
}

/// Percent-encoding of a byte string, byte by byte.
pub open spec fn percent_encoded(bytes: Seq<u8>) -> Seq<char>
    decreases bytes.len(),
{
    if bytes.len() == 0 {
        Seq::empty()
    } else {
        percent_encoded(bytes.drop_last()) + percent_byte(bytes.last())
    }
}

/// The value of an upper-case hexadecimal digit.
pub open spec fn hex_upper_value(c: char) -> int {
    if '0' <= c && c <= '9' {
        c as int - 48
    } else {
        c as int - 55
    }
}

/// Percent-decoding: `%` and the two digits after it stand for the byte
/// they write; any other character for its own code.
pub open spec fn percent_decoded(s: Seq<char>) -> Seq<u8>
    decreases s.len(),
{
    if s.len() == 0 {
        Seq::empty()
    } else if s[0] == '%' && s.len() >= 3 {
        seq![(hex_upper_value(s[1]) * 16 + hex_upper_value(s[2])) as u8] + percent_decoded(s.skip(3))
    } else {
        seq![(s[0] as u32) as u8] + percent_decoded(s.skip(1))
    }
}

/// The characters a percent-encoded text is made of: the unreserved ones
/// and `%` (whose digits are among the letters and digits).
pub open spec fn url_char(c: char) -> bool {
    ||| 'A' <= c && c <= 'Z'
    ||| 'a' <= c && c <= 'z'
    ||| '0' <= c && c <= '9'
    ||| c == '-' || c == '_' || c == '.' || c == '~' || c == '%'
}

proof fn lemma_percent_encoded_append(a: Seq<u8>, b: Seq<u8>)
    ensures
        percent_encoded(a + b) == percent_encoded(a) + percent_encoded(b),
    decreases b.len(),
{
    if b.len() == 0 {
        assert(a + b =~= a);
        assert(percent_encoded(a) + percent_encoded(b) =~= percent_encoded(a));
    } else {
        lemma_percent_encoded_append(a, b.drop_last());
        assert((a + b).drop_last() =~= a + b.drop_last());
        assert((a + b).last() == b.last());
        assert(percent_encoded(a) + percent_encoded(b.drop_last()) + percent_byte(b.last()) =~= percent_encoded(a)
            + (percent_encoded(b.drop_last()) + percent_byte(b.last())));
    }
}

proof fn lemma_hex_upper_value(d: u8)
    requires
        d < 16,
    ensures
        hex_upper_value(hex_upper(d)) == d,
        'A' <= hex_upper(d) <= 'F' || '0' <= hex_upper(d) <= '9',
{
}

proof fn lemma_percent_decoded_byte(b: u8, rest: Seq<char>)
    ensures
        percent_decoded(percent_byte(b) + rest) == seq![b] + percent_decoded(rest),
{
    let x = percent_byte(b) + rest;
    if unreserved(b) {
        assert(x[0] == (b as u32) as char);
        assert(x.skip(1) =~= rest);
    } else {
        lemma_hex_upper_value(b / 16);
        lemma_hex_upper_value(b % 16);
        assert(x[0] == '%' && x[1] == hex_upper(b / 16) && x[2] == hex_upper(b % 16));
        assert(x.skip(3) =~= rest);
        assert((b / 16) * 16 + b % 16 == b);
    }
}

/// Law: percent-decoding gives back the bytes that were encoded, and the
/// encoded text holds only unreserved characters and `%`.
pub proof fn lemma_percent_round_trip(bytes: Seq<u8>)
    ensures
        percent_decoded(percent_encoded(bytes)) == bytes,
        forall|i: int| 0 <= i < percent_encoded(bytes).len() ==> url_char(#[trigger] percent_encoded(bytes)[i]),
    decreases bytes.len(),
{
    if bytes.len() > 0 {
        let b = bytes[0];
        let tail = bytes.drop_first();
        lemma_percent_round_trip(tail);
        assert(bytes =~= seq![b] + tail);
        lemma_percent_encoded_append(seq![b], tail);
        assert(seq![b].drop_last() =~= Seq::<u8>::empty());
        assert(seq![b].last() == b);
        assert(percent_encoded(Seq::<u8>::empty()) == Seq::<char>::empty());
        assert(Seq::<char>::empty() + percent_byte(b) =~= percent_byte(b));
        assert(percent_encoded(seq![b]) =~= percent_byte(b));
        lemma_percent_decoded_byte(b, percent_encoded(tail));
        lemma_hex_upper_value(b / 16);
        lemma_hex_upper_value(b % 16);
        let e = percent_encoded(bytes);
        assert forall|i: int| 0 <= i < e.len() implies url_char(#[trigger] e[i]) by {
            if i >= percent_byte(b).len() {
                assert(e[i] == percent_encoded(tail)[i - percent_byte(b).len()]);
            }
        }
    }
}

fn hex_upper_char(d: u8) -> (c: char)
    requires
        d < 16,
    ensures
        c == hex_upper(d),
{
    if d < 10 {
        ((d + 48) as u32) as u8 as char
    } else {
        ((d + 55) as u32) as u8 as char
    }
}

/// Percent-encodes the UTF-8 bytes of a text for use in a URL.
pub fn percent_encode(s: &str) -> (r: String)
    ensures
        r@ == percent_encoded(encode_utf8(s@)),
{
    let bytes = s.as_bytes();
    let ghost bv = bytes@;
    let mut out = String::new();
    let mut i: usize = 0;
    while i < bytes.len()
        invariant
            bv == bytes@,
            i <= bv.len(),
            out@ == percent_encoded(bv.take(i as int)),
        decreases bv.len() - i,
    {
        let b = bytes[i];
        let ghost before = out@;
        if (65 <= b && b <= 90) || (97 <= b && b <= 122) || (48 <= b && b <= 57) || b == 45 || b == 95
            || b == 46 || b == 126 {
            push_char(&mut out, b as char);
            assert(out@ == before + seq![(b as u32) as char]);
        } else {
            push_char(&mut out, '%');
            push_char(&mut out, hex_upper_char(b / 16));
            push_char(&mut out, hex_upper_char(b % 16));
            assert(out@ == before + seq!['%', hex_upper(b / 16), hex_upper(b % 16)]);
        }
        assert(bv.take(i + 1).drop_last() == bv.take(i as int));
        i = i + 1;
    }
    assert(bv.take(bv.len() as int) == bv);
    out
}

/// The label of the editor window of a settings file: `formations-` and
/// the first 12 hexadecimal digits of the SHA-256 of its path.
pub open spec fn editor_label(file_path: Seq<char>) -> Seq<char> {
    "formations-"@ + hex_lower(sha256_spec(encode_utf8(file_path))).take(12)
}

/// The label of the editor window of a settings file (see
/// [`editor_label`]); a second request for the same file finds the open
/// window by it.
pub fn formation_editor_label(file_path: &str) -> (r: String)
    ensures
        r@ == editor_label(file_path@),
{
    let digest = sha256_hex(file_path.as_bytes());
    let d = chars_of(digest.as_str());
    proof {
        lemma_hex_lower_len(sha256_spec(encode_utf8(file_path@)));
    }
    let head = vec_sub(&d, 0, 12);
    let mut label = "formations-".to_owned();
    push_str(&mut label, string_of(&head).as_str());
    label
}

/// The page the editor opens: the formations page with the file's path and
/// the entry's name as query parameters.
pub open spec fn editor_url(file_path: Seq<char>, entry_name: Seq<char>) -> Seq<char> {
    "index.html#/formations?path="@ + percent_encoded(encode_utf8(file_path)) + "&name="@
        + percent_encoded(encode_utf8(entry_name))
}

/// Builds [`editor_url`].
pub fn formation_editor_url(file_path: &str, entry_name: &str) -> (r: String)
    ensures
        r@ == editor_url(file_path@, entry_name@),
{
    let mut url = "index.html#/formations?path=".to_owned();
    push_str(&mut url, percent_encode(file_path).as_str());
    push_str(&mut url, "&name=");
    push_str(&mut url, percent_encode(entry_name).as_str());
    url
}

/// The editor window's title.
pub fn formation_editor_title(entry_name: &str) -> (r: String)
    ensures
        r@ == "Probe Formations \u{2014} "@ + entry_name@,
{
    let mut t = "Probe Formations \u{2014} ".to_owned();
    push_str(&mut t, entry_name);
    t
}

} // verus!
