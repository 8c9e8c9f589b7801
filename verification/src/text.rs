//! Character-sequence specifications and the string routines built on them.
//!
//! Strings are modelled by their view, a `Seq<char>`. The specifications
//! ([`starts_with`], [`first_index`], [`split_all`], [`trim_ws`], ...)
//! describe what the `str` methods of the same names do; the executable
//! routines (mostly on character vectors, `vec_...`) are proved against
//! them.
use vstd::prelude::*;

verus! {

// ----------------------------------------------------------------------
// Specifications
// ----------------------------------------------------------------------

/// `s` begins with `p`.
pub open spec fn starts_with(s: Seq<char>, p: Seq<char>) -> bool {
    p.len() <= s.len() && s.subrange(0, p.len() as int) == p
}

/// `s` ends with `p`.
pub open spec fn ends_with(s: Seq<char>, p: Seq<char>) -> bool {
    p.len() <= s.len() && s.subrange(s.len() - p.len(), s.len() as int) == p
}

/// `n` occurs in `s` as a contiguous run.
pub open spec fn contains_seq(s: Seq<char>, n: Seq<char>) -> bool {
    exists|i: int| 0 <= i && i + n.len() <= s.len() && #[trigger] s.subrange(i, i + n.len()) == n
}

/// Index of the first occurrence of `c` in `s`, or -1.
pub open spec fn first_index(s: Seq<char>, c: char) -> int
    decreases s.len(),
{
    if s.len() == 0 {
        -1
    } else if s[0] == c {
        0
    } else {
        let r = first_index(s.drop_first(), c);
        if r < 0 {
            -1
        } else {
            r + 1
        }
    }
}

/// Index of the last occurrence of `c` in `s`, or -1.
pub open spec fn last_index(s: Seq<char>, c: char) -> int
    decreases s.len(),
{
    if s.len() == 0 {
        -1
    } else if s.last() == c {
        s.len() - 1
    } else {
        last_index(s.drop_last(), c)
    }
}

/// `str::split_once` on a single character.
pub open spec fn split_once(s: Seq<char>, c: char) -> Option<(Seq<char>, Seq<char>)> {
    let i = first_index(s, c);
    if i < 0 {
        None
    } else {
        Some((s.take(i), s.skip(i + 1)))
    }
}

/// `str::rsplitn(n, c)`: at most `n` pieces, taken from the right; the last
/// piece holds whatever is left, separators included.
pub open spec fn rsplitn(s: Seq<char>, c: char, n: nat) -> Seq<Seq<char>>
    decreases n,
{
    if n == 0 {
        Seq::empty()
    } else if n == 1 {
        seq![s]
    } else {
        let i = last_index(s, c);
        if i < 0 {
            seq![s]
        } else {
            seq![s.skip(i + 1)] + rsplitn(s.take(i), c, (n - 1) as nat)
        }
    }
}

/// `str::split(c)`: the pieces between the occurrences of `c`, empty ones
/// included.
pub open spec fn split_all(s: Seq<char>, c: char) -> Seq<Seq<char>>
    decreases s.len(),
{
    let i = first_index(s, c);
    if i < 0 || i >= s.len() {
        seq![s]
    } else {
        seq![s.take(i)] + split_all(s.skip(i + 1), c)
    }
}

/// Pieces joined with `sep` between them (`[T]::join`).
pub open spec fn join_with(p: Seq<Seq<char>>, sep: Seq<char>) -> Seq<char>
    decreases p.len(),
{
    if p.len() == 0 {
        Seq::empty()
    } else if p.len() == 1 {
        p[0]
    } else {
        join_with(p.drop_last(), sep) + sep + p.last()
    }
}

/// `a` sorts before or equal to `b`: the lexicographic order of their
/// characters, which is the order `str`'s `Ord` gives (UTF-8 encodes
/// characters so that their bytes compare as the characters do).
pub open spec fn seq_le(a: Seq<char>, b: Seq<char>) -> bool
    decreases a.len(),
{
    if a.len() == 0 {
        true
    } else if b.len() == 0 {
        false
    } else if a[0] != b[0] {
        a[0] < b[0]
    } else {
        seq_le(a.drop_first(), b.drop_first())
    }
}

/// `str::strip_prefix`.
pub open spec fn strip_prefix(s: Seq<char>, p: Seq<char>) -> Option<Seq<char>> {
    if starts_with(s, p) {
        Some(s.skip(p.len() as int))
    } else {
        None
    }
}

/// `str::strip_suffix`.
pub open spec fn strip_suffix(s: Seq<char>, p: Seq<char>) -> Option<Seq<char>> {
    if ends_with(s, p) {
        Some(s.take(s.len() - p.len()))
    } else {
        None
    }
}

/// `str::trim_start_matches` with a string pattern: removes the pattern
/// from the front for as long as it is there.
pub open spec fn trim_start_str(s: Seq<char>, p: Seq<char>) -> Seq<char>
    decreases s.len(),
{
    if p.len() > 0 && starts_with(s, p) {
        trim_start_str(s.skip(p.len() as int), p)
    } else {
        s
    }
}

/// `str::trim_end_matches` with a string pattern.
pub open spec fn trim_end_str(s: Seq<char>, p: Seq<char>) -> Seq<char>
    decreases s.len(),
{
    if p.len() > 0 && ends_with(s, p) {
        trim_end_str(s.take(s.len() - p.len()), p)
    } else {
        s
    }
}

/// The Unicode `White_Space` property, which `char::is_whitespace` and
/// `str::trim` use.
pub open spec fn is_whitespace(c: char) -> bool {
    let u = c as u32;
    (0x9 <= u && u <= 0xD) || u == 0x20 || u == 0x85 || u == 0xA0 || u == 0x1680 || (0x2000 <= u
        && u <= 0x200A) || u == 0x2028 || u == 0x2029 || u == 0x202F || u == 0x205F || u == 0x3000
}

/// Removes leading whitespace.
pub open spec fn trim_start_ws(s: Seq<char>) -> Seq<char>
    decreases s.len(),
{
    if s.len() > 0 && is_whitespace(s[0]) {
        trim_start_ws(s.drop_first())
    } else {
        s
    }
}

/// Removes trailing whitespace.
pub open spec fn trim_end_ws(s: Seq<char>) -> Seq<char>
    decreases s.len(),
{
    if s.len() > 0 && is_whitespace(s.last()) {
        trim_end_ws(s.drop_last())
    } else {
        s
    }
}

/// `str::trim`.
pub open spec fn trim_ws(s: Seq<char>) -> Seq<char> {
    trim_end_ws(trim_start_ws(s))
}

/// ASCII lower-casing of one character.
pub open spec fn ascii_lower(c: char) -> char {
    if 'A' <= c && c <= 'Z' {
        ((c as u32) + 32) as char
    } else {
        c
    }
}

/// `str::to_ascii_lowercase`.
pub open spec fn ascii_lowercase(s: Seq<char>) -> Seq<char> {
    s.map_values(|c: char| ascii_lower(c))
}

/// ASCII upper-casing of one character.
pub open spec fn ascii_upper(c: char) -> char {
    if 'a' <= c && c <= 'z' {
        ((c as u32) - 32) as char
    } else {
        c
    }
}

/// `str::to_ascii_uppercase`.
pub open spec fn ascii_uppercase(s: Seq<char>) -> Seq<char> {
    s.map_values(|c: char| ascii_upper(c))
}

/// Upper-casing first changes nothing of what lower-casing gives.
pub proof fn lemma_lower_of_upper(s: Seq<char>)
    ensures
        ascii_lowercase(ascii_uppercase(s)) == ascii_lowercase(s),
        all_ascii(s) ==> all_ascii(ascii_uppercase(s)),
{
    assert forall|i: int| 0 <= i < s.len() implies #[trigger] ascii_lower(ascii_upper(s[i])) == ascii_lower(s[i]) by {
        let c = s[i];
        if 'a' <= c && c <= 'z' {
            assert(ascii_upper(c) as u32 == c as u32 - 32);
        }
    }
    assert(ascii_lowercase(ascii_uppercase(s)) =~= ascii_lowercase(s));
}

/// Every character is ASCII.
pub open spec fn all_ascii(s: Seq<char>) -> bool {
    forall|i: int| 0 <= i < s.len() ==> (s[i] as u32) < 128
}

/// `str::eq_ignore_ascii_case`.
pub open spec fn eq_ignore_ascii_case(a: Seq<char>, b: Seq<char>) -> bool {
    a.len() == b.len() && forall|i: int| 0 <= i < a.len() ==> ascii_lower(a[i]) == ascii_lower(b[i])
}

/// `char::is_ascii_digit`.
pub open spec fn is_digit(c: char) -> bool {
    '0' <= c && c <= '9'
}

/// `char::is_ascii_hexdigit`.
pub open spec fn is_hex_digit(c: char) -> bool {
    is_digit(c) || ('a' <= c && c <= 'f') || ('A' <= c && c <= 'F')
}

/// The character of a decimal digit.
pub open spec fn digit_char(d: nat) -> char
    recommends
        d < 10,
{
    ((d + 48) as u32) as char
}

/// Decimal rendering of a natural number, as `u64`'s `Display` writes it.
pub open spec fn decimal(n: nat) -> Seq<char>
    decreases n,
{
    if n < 10 {
        seq![digit_char(n)]
    } else {
        decimal(n / 10).push(digit_char(n % 10))
    }
}

/// Decimal rendering of an integer, as `i64`'s `Display` writes it.
pub open spec fn decimal_int(v: int) -> Seq<char> {
    if v < 0 {
        seq!['-'] + decimal((-v) as nat)
    } else {
        decimal(v as nat)
    }
}

/// Value of a run of decimal digits.
pub open spec fn digits_value(s: Seq<char>) -> nat
    decreases s.len(),
{
    if s.len() == 0 {
        0
    } else {
        digits_value(s.drop_last()) * 10 + ((s.last() as int) - 48) as nat
    }
}

/// Every character of `s` is a decimal digit.
pub open spec fn all_digits(s: Seq<char>) -> bool {
    forall|i: int| 0 <= i < s.len() ==> is_digit(#[trigger] s[i])
}

/// `u64::from_str`: an optional `+`, then at least one digit, no overflow.
pub open spec fn parse_u64(s: Seq<char>) -> Option<u64> {
    let body = if s.len() > 0 && s[0] == '+' {
        s.drop_first()
    } else {
        s
    };
    if body.len() > 0 && all_digits(body) && digits_value(body) <= u64::MAX {
        Some(digits_value(body) as u64)
    } else {
        None
    }
}

/// `i64::from_str`: an optional sign, then at least one digit, in range.
pub open spec fn parse_i64(s: Seq<char>) -> Option<i64> {
    let neg = s.len() > 0 && s[0] == '-';
    let body = if s.len() > 0 && (s[0] == '+' || s[0] == '-') {
        s.drop_first()
    } else {
        s
    };
    if body.len() == 0 || !all_digits(body) {
        None
    } else if neg {
        if digits_value(body) <= 0x8000_0000_0000_0000 {
            Some((-(digits_value(body) as int)) as i64)
        } else {
            None
        }
    } else {
        if digits_value(body) <= i64::MAX {
            Some(digits_value(body) as i64)
        } else {
            None
        }
    }
}

// ----------------------------------------------------------------------
// Lemmas
// ----------------------------------------------------------------------

pub proof fn lemma_first_index_found(s: Seq<char>, c: char, i: int)
    requires
        0 <= i < s.len(),
        s[i] == c,
        forall|j: int| 0 <= j < i ==> s[j] != c,
    ensures
        first_index(s, c) == i,
    decreases s.len(),
{
    if i > 0 {
        lemma_first_index_found(s.drop_first(), c, i - 1);
    }
}

pub proof fn lemma_first_index_absent(s: Seq<char>, c: char)
    requires
        forall|j: int| 0 <= j < s.len() ==> s[j] != c,
    ensures
        first_index(s, c) == -1,
    decreases s.len(),
{
    if s.len() > 0 {
        lemma_first_index_absent(s.drop_first(), c);
    }
}

pub proof fn lemma_first_index_props(s: Seq<char>, c: char)
    ensures
        -1 <= first_index(s, c) < s.len(),
        first_index(s, c) >= 0 ==> s[first_index(s, c)] == c,
        first_index(s, c) >= 0 ==> forall|j: int| 0 <= j < first_index(s, c) ==> s[j] != c,
        first_index(s, c) < 0 ==> forall|j: int| 0 <= j < s.len() ==> s[j] != c,
    decreases s.len(),
{
    if s.len() > 0 {
        lemma_first_index_props(s.drop_first(), c);
        if s[0] != c {
            assert forall|j: int| 0 <= j < s.len() && first_index(s, c) < 0 implies s[j] != c by {
                if j > 0 {
                    assert(s[j] == s.drop_first()[j - 1]);
                }
            }
            assert forall|j: int| 0 <= j < first_index(s, c) implies s[j] != c by {
                if j > 0 {
                    assert(s[j] == s.drop_first()[j - 1]);
                }
            }
        }
    }
}

pub proof fn lemma_split_all_step(s: Seq<char>, c: char)
    ensures
        first_index(s, c) < 0 ==> split_all(s, c) == seq![s],
        first_index(s, c) >= 0 ==> split_all(s, c) == seq![s.take(first_index(s, c))] + split_all(
            s.skip(first_index(s, c) + 1),
            c,
        ),
{
    lemma_first_index_props(s, c);
}

/// `c` does not occur in `s`.
pub open spec fn lacks(s: Seq<char>, c: char) -> bool {
    forall|k: int| 0 <= k < s.len() ==> s[k] != c
}

/// Splitting `a`, a separator and a piece without one splits `a` and adds
/// the piece.
pub proof fn lemma_split_append(a: Seq<char>, c: char, b: Seq<char>)
    requires
        lacks(b, c),
    ensures
        split_all(a + seq![c] + b, c) == split_all(a, c) + seq![b],
    decreases a.len(),
{
    let s = a + seq![c] + b;
    lemma_first_index_props(a, c);
    lemma_first_index_absent(b, c);
    lemma_split_all_step(b, c);
    lemma_split_all_step(a, c);
    lemma_split_all_step(s, c);
    let i = first_index(a, c);
    if i < 0 {
        assert forall|j: int| 0 <= j < a.len() implies s[j] != c by {
            assert(s[j] == a[j]);
        }
        lemma_first_index_found(s, c, a.len() as int);
        assert(s.take(a.len() as int) == a);
        assert(s.skip(a.len() as int + 1) == b);
    } else {
        assert forall|j: int| 0 <= j < i implies s[j] != c by {
            assert(s[j] == a[j]);
        }
        assert(s[i] == a[i]);
        lemma_first_index_found(s, c, i);
        let a2 = a.skip(i + 1);
        lemma_split_append(a2, c, b);
        assert(s.take(i) == a.take(i));
        assert(s.skip(i + 1) == a2 + seq![c] + b);
    }
}

/// Splitting pieces joined with a separator they lack gives them back.
pub proof fn lemma_split_join(p: Seq<Seq<char>>, c: char)
    requires
        p.len() > 0,
        forall|i: int| 0 <= i < p.len() ==> lacks(#[trigger] p[i], c),
    ensures
        split_all(join_with(p, seq![c]), c) == p,
    decreases p.len(),
{
    if p.len() == 1 {
        lemma_first_index_absent(p[0], c);
        lemma_split_all_step(p[0], c);
        assert(split_all(p[0], c) == seq![p[0]]);
        assert(p == seq![p[0]]);
    } else {
        let q = p.drop_last();
        assert forall|i: int| 0 <= i < q.len() implies lacks(#[trigger] q[i], c) by {
            assert(q[i] == p[i]);
        }
        lemma_split_join(q, c);
        assert(lacks(p[p.len() - 1], c));
        lemma_split_append(join_with(q, seq![c]), c, p.last());
        assert(q.push(p.last()) == p);
    }
}

/// The pieces of a split lack the separator.
pub proof fn lemma_split_all_lacks(s: Seq<char>, c: char)
    ensures
        split_all(s, c).len() > 0,
        forall|i: int| 0 <= i < split_all(s, c).len() ==> lacks(#[trigger] split_all(s, c)[i], c),
    decreases s.len(),
{
    lemma_first_index_props(s, c);
    lemma_split_all_step(s, c);
    let i = first_index(s, c);
    if i >= 0 {
        lemma_split_all_lacks(s.skip(i + 1), c);
        let r = split_all(s, c);
        let t = split_all(s.skip(i + 1), c);
        assert forall|k: int| 0 <= k < r.len() implies lacks(#[trigger] r[k], c) by {
            if k > 0 {
                assert(r[k] == t[k - 1]);
            }
        }
    }
}

/// [`seq_le`] is reflexive and total.
pub proof fn lemma_seq_le_total(a: Seq<char>, b: Seq<char>)
    ensures
        seq_le(a, a),
        seq_le(a, b) || seq_le(b, a),
    decreases a.len(),
{
    if a.len() > 0 {
        lemma_seq_le_total(a.drop_first(), a.drop_first());
        if b.len() > 0 {
            lemma_seq_le_total(a.drop_first(), b.drop_first());
        }
    }
}

/// [`seq_le`] is transitive.
pub proof fn lemma_seq_le_trans(a: Seq<char>, b: Seq<char>, c: Seq<char>)
    requires
        seq_le(a, b),
        seq_le(b, c),
    ensures
        seq_le(a, c),
    decreases a.len(),
{
    if a.len() > 0 && b.len() > 0 && c.len() > 0 {
        if a[0] == b[0] && b[0] == c[0] {
            lemma_seq_le_trans(a.drop_first(), b.drop_first(), c.drop_first());
        }
    }
}

/// [`seq_le`] is antisymmetric.
pub proof fn lemma_seq_le_antisym(a: Seq<char>, b: Seq<char>)
    requires
        seq_le(a, b),
        seq_le(b, a),
    ensures
        a == b,
    decreases a.len(),
{
    if a.len() > 0 && b.len() > 0 {
        lemma_seq_le_antisym(a.drop_first(), b.drop_first());
        assert(a == seq![a[0]] + a.drop_first());
        assert(b == seq![b[0]] + b.drop_first());
    }
}

pub proof fn lemma_last_index_found(s: Seq<char>, c: char, i: int)
    requires
        0 <= i < s.len(),
        s[i] == c,
        forall|j: int| i < j < s.len() ==> s[j] != c,
    ensures
        last_index(s, c) == i,
    decreases s.len(),
{
    if i < s.len() - 1 {
        lemma_last_index_found(s.drop_last(), c, i);
    }
}

pub proof fn lemma_last_index_absent(s: Seq<char>, c: char)
    requires
        forall|j: int| 0 <= j < s.len() ==> s[j] != c,
    ensures
        last_index(s, c) == -1,
    decreases s.len(),
{
    if s.len() > 0 {
        lemma_last_index_absent(s.drop_last(), c);
    }
}

pub proof fn lemma_last_index_props(s: Seq<char>, c: char)
    ensures
        -1 <= last_index(s, c) < s.len(),
        last_index(s, c) >= 0 ==> s[last_index(s, c)] == c,
        last_index(s, c) >= 0 ==> forall|j: int| last_index(s, c) < j < s.len() ==> s[j] != c,
        last_index(s, c) < 0 ==> forall|j: int| 0 <= j < s.len() ==> s[j] != c,
    decreases s.len(),
{
    if s.len() > 0 {
        lemma_last_index_props(s.drop_last(), c);
        assert(forall|j: int| 0 <= j < s.len() - 1 ==> s.drop_last()[j] == s[j]);
    }
}

pub proof fn lemma_digits_value_step(s: Seq<char>, i: int)
    requires
        0 <= i < s.len(),
    ensures
        digits_value(s.take(i + 1)) == digits_value(s.take(i)) * 10 + ((s[i] as int) - 48) as nat,
{
    assert(s.take(i + 1).drop_last() == s.take(i));
}

pub proof fn lemma_digits_value_prefix_le(s: Seq<char>, i: int)
    requires
        0 <= i <= s.len(),
        all_digits(s),
    ensures
        digits_value(s.take(i)) <= digits_value(s),
    decreases s.len() - i,
{
    if i < s.len() {
        lemma_digits_value_prefix_le(s, i + 1);
        lemma_digits_value_step(s, i);
        assert(is_digit(s[i]));
    } else {
        assert(s.take(i) == s);
    }
}

// ----------------------------------------------------------------------
// Executable routines
// ----------------------------------------------------------------------

/// Appends one character (`String::push`).
#[verifier::external_body]
pub fn push_char(s: &mut String, c: char)
    ensures
        final(s)@ == old(s)@.push(c),
{
    s.push(c);
}

/// The characters of a string slice.
pub fn chars_of(s: &str) -> (r: Vec<char>)
    ensures
        r@ == s@,
{
    let n = s.unicode_len();
    let mut out: Vec<char> = Vec::new();
    let mut i: usize = 0;
    while i < n
        invariant
            n == s@.len(),
            i <= n,
            out@ == s@.take(i as int),
        decreases n - i,
    {
        let c = s.get_char(i);
        out.push(c);
        assert(s@.take(i + 1) == s@.take(i as int).push(c));
        i = i + 1;
    }
    assert(s@.take(n as int) == s@);
    out
}

/// Builds a string from the characters `v[from..to]`.
pub fn string_from_chars(v: &Vec<char>, from: usize, to: usize) -> (r: String)
    requires
        from <= to <= v@.len(),
    ensures
        r@ == v@.subrange(from as int, to as int),
{
    let mut out = String::new();
    let mut i = from;
    while i < to
        invariant
            from <= i <= to,
            to <= v@.len(),
            out@ == v@.subrange(from as int, i as int),
        decreases to - i,
    {
        push_char(&mut out, v[i]);
        assert(v@.subrange(from as int, i + 1) == v@.subrange(from as int, i as int).push(v@[i as int]));
        i = i + 1;
    }
    out
}

/// The characters `v[from..to]` as a new vector.
pub fn vec_sub(v: &Vec<char>, from: usize, to: usize) -> (r: Vec<char>)
    requires
        from <= to <= v@.len(),
    ensures
        r@ == v@.subrange(from as int, to as int),
{
    let mut out: Vec<char> = Vec::new();
    let mut i = from;
    while i < to
        invariant
            from <= i <= to,
            to <= v@.len(),
            out@ == v@.subrange(from as int, i as int),
        decreases to - i,
    {
        out.push(v[i]);
        assert(v@.subrange(from as int, i + 1) == v@.subrange(from as int, i as int).push(v@[i as int]));
        i = i + 1;
    }
    out
}

/// The string whose characters are `v`.
pub fn string_of(v: &Vec<char>) -> (r: String)
    ensures
        r@ == v@,
{
    let r = string_from_chars(v, 0, v.len());
    assert(v@.subrange(0, v@.len() as int) == v@);
    r
}

/// `str::strip_prefix` on character vectors.
pub fn vec_strip_prefix(v: &Vec<char>, p: &str) -> (r: Option<Vec<char>>)
    ensures
        match r {
            Some(x) => strip_prefix(v@, p@) == Some(x@),
            None => strip_prefix(v@, p@) is None,
        },
{
    let pv = chars_of(p);
    if vec_starts_with(v, &pv) {
        Some(vec_sub(v, pv.len(), v.len()))
    } else {
        None
    }
}

/// `str::strip_suffix` on character vectors.
pub fn vec_strip_suffix(v: &Vec<char>, p: &str) -> (r: Option<Vec<char>>)
    ensures
        match r {
            Some(x) => strip_suffix(v@, p@) == Some(x@),
            None => strip_suffix(v@, p@) is None,
        },
{
    let pv = chars_of(p);
    if vec_ends_with(v, &pv) {
        Some(vec_sub(v, 0, v.len() - pv.len()))
    } else {
        None
    }
}

/// `str::split_once` on a character, for character vectors.
pub fn vec_split_once(v: &Vec<char>, c: char) -> (r: Option<(Vec<char>, Vec<char>)>)
    ensures
        match r {
            Some((a, b)) => split_once(v@, c) == Some((a@, b@)),
            None => split_once(v@, c) is None,
        },
{
    let len = v.len();
    match vec_first_index(v, c) {
        Some(i) => {
            assert(i < len);
            let a = vec_sub(v, 0, i);
            let b = vec_sub(v, i + 1, v.len());
            Some((a, b))
        },
        None => None,
    }
}

/// `str::trim_end_matches` with a string pattern, for character vectors.
pub fn vec_trim_end_str(v: &Vec<char>, p: &str) -> (r: Vec<char>)
    ensures
        r@ == trim_end_str(v@, p@),
{
    let pv = chars_of(p);
    let mut cur = vec_sub(v, 0, v.len());
    assert(v@.subrange(0, v@.len() as int) == v@);
    if pv.len() == 0 {
        return cur;
    }
    while vec_ends_with(&cur, &pv)
        invariant
            pv@ == p@,
            pv@.len() > 0,
            trim_end_str(cur@, p@) == trim_end_str(v@, p@),
        decreases cur@.len(),
    {
        cur = vec_sub(&cur, 0, cur.len() - pv.len());
    }
    cur
}

/// `str::trim_start_matches` with a string pattern, for character vectors.
pub fn vec_trim_start_str(v: &Vec<char>, p: &str) -> (r: Vec<char>)
    ensures
        r@ == trim_start_str(v@, p@),
{
    let pv = chars_of(p);
    let mut cur = vec_sub(v, 0, v.len());
    assert(v@.subrange(0, v@.len() as int) == v@);
    if pv.len() == 0 {
        return cur;
    }
    while vec_starts_with(&cur, &pv)
        invariant
            pv@ == p@,
            pv@.len() > 0,
            trim_start_str(cur@, p@) == trim_start_str(v@, p@),
        decreases cur@.len(),
    {
        cur = vec_sub(&cur, pv.len(), cur.len());
    }
    cur
}

/// `str::rsplitn(n, c)` for character vectors.
pub fn vec_rsplitn(v: &Vec<char>, c: char, n: usize) -> (r: Vec<Vec<char>>)
    ensures
        r@.len() == rsplitn(v@, c, n as nat).len(),
        forall|i: int| 0 <= i < r@.len() ==> #[trigger] r@[i]@ == rsplitn(v@, c, n as nat)[i],
{
    let mut parts: Vec<Vec<char>> = Vec::new();
    if n == 0 {
        return parts;
    }
    let mut end: usize = v.len();
    let mut k: usize = n;
    assert(v@.take(v@.len() as int) == v@);
    while k > 1
        invariant
            1 <= k <= n,
            end <= v@.len(),
            ({
                let rest = rsplitn(v@.take(end as int), c, k as nat);
                let whole = rsplitn(v@, c, n as nat);
                &&& parts@.len() + rest.len() == whole.len()
                &&& forall|i: int| 0 <= i < parts@.len() ==> #[trigger] parts@[i]@ == whole[i]
                &&& forall|i: int| 0 <= i < rest.len() ==> #[trigger] rest[i] == whole[parts@.len() + i]
            }),
        decreases k,
    {
        let ghost t = v@.take(end as int);
        match vec_last_index(v, end, c) {
            Some(i) => {
                let piece = vec_sub(v, i + 1, end);
                proof {
                    assert(piece@ == t.skip(i + 1));
                    assert(t.take(i as int) == v@.take(i as int));
                    let rest = rsplitn(t, c, k as nat);
                    assert(rest == seq![t.skip(i + 1)] + rsplitn(t.take(i as int), c, (k - 1) as nat));
                    assert(rest[0] == piece@);
                    let rest2 = rsplitn(v@.take(i as int), c, (k - 1) as nat);
                    assert forall|j: int| 0 <= j < rest2.len() implies #[trigger] rest2[j] == rest[j + 1] by {
                    }
                }
                parts.push(piece);
                end = i;
                k = k - 1;
            },
            None => {
                let ghost whole = rsplitn(v@, c, n as nat);
                let ghost before = parts@;
                proof {
                    assert(rsplitn(t, c, k as nat) == seq![t]);
                    assert(rsplitn(t, c, k as nat)[0] == t);
                }
                let piece = vec_sub(v, 0, end);
                parts.push(piece);
                assert forall|i: int| 0 <= i < parts@.len() implies #[trigger] parts@[i]@ == whole[i] by {
                    if i < before.len() {
                        assert(parts@[i] == before[i]);
                    }
                }
                return parts;
            },
        }
    }
    let piece = vec_sub(v, 0, end);
    let ghost whole = rsplitn(v@, c, n as nat);
    let ghost before = parts@;
    proof {
        assert(rsplitn(v@.take(end as int), c, 1) == seq![v@.take(end as int)]);
        assert(rsplitn(v@.take(end as int), c, 1)[0] == v@.take(end as int));
    }
    parts.push(piece);
    assert forall|i: int| 0 <= i < parts@.len() implies #[trigger] parts@[i]@ == whole[i] by {
        if i < before.len() {
            assert(parts@[i] == before[i]);
        }
    }
    parts
}

/// Appends the characters of `t` to `s`.
pub fn push_str(s: &mut String, t: &str)
    ensures
        final(s)@ == old(s)@ + t@,
{
    let v = chars_of(t);
    let mut i: usize = 0;
    while i < v.len()
        invariant
            v@ == t@,
            i <= v@.len(),
            s@ == old(s)@ + t@.take(i as int),
        decreases v@.len() - i,
    {
        push_char(s, v[i]);
        assert(t@.take(i + 1) == t@.take(i as int).push(t@[i as int]));
        i = i + 1;
    }
    assert(t@.take(t@.len() as int) == t@);
}

/// Decides `starts_with` on character vectors.
pub fn vec_starts_with(s: &Vec<char>, p: &Vec<char>) -> (r: bool)
    ensures
        r == starts_with(s@, p@),
{
    if p.len() > s.len() {
        return false;
    }
    let mut i: usize = 0;
    while i < p.len()
        invariant
            p@.len() <= s@.len(),
            i <= p@.len(),
            forall|j: int| 0 <= j < i ==> s@[j] == p@[j],
        decreases p@.len() - i,
    {
        if s[i] != p[i] {
            assert(s@.subrange(0, p@.len() as int)[i as int] != p@[i as int]);
            return false;
        }
        i = i + 1;
    }
    assert(s@.subrange(0, p@.len() as int) == p@);
    true
}

/// Decides `ends_with` on character vectors.
pub fn vec_ends_with(s: &Vec<char>, p: &Vec<char>) -> (r: bool)
    ensures
        r == ends_with(s@, p@),
{
    if p.len() > s.len() {
        return false;
    }
    let off = s.len() - p.len();
    let mut i: usize = 0;
    while i < p.len()
        invariant
            p@.len() <= s@.len(),
            off + p@.len() == s@.len(),
            s@.len() <= usize::MAX,
            i <= p@.len(),
            forall|j: int| 0 <= j < i ==> s@[off + j] == p@[j],
        decreases p@.len() - i,
    {
        if s[off + i] != p[i] {
            assert(s@.subrange(off as int, s@.len() as int)[i as int] != p@[i as int]);
            return false;
        }
        i = i + 1;
    }
    assert(s@.subrange(off as int, s@.len() as int) == p@);
    true
}

/// Whether two character vectors are equal.
pub fn vec_eq(a: &Vec<char>, b: &Vec<char>) -> (r: bool)
    ensures
        r == (a@ == b@),
{
    if a.len() != b.len() {
        return false;
    }
    let mut i: usize = 0;
    while i < a.len()
        invariant
            a@.len() == b@.len(),
            i <= a@.len(),
            forall|j: int| 0 <= j < i ==> a@[j] == b@[j],
        decreases a@.len() - i,
    {
        if a[i] != b[i] {
            return false;
        }
        i = i + 1;
    }
    assert(a@ == b@);
    true
}

/// Whether two strings are equal.
pub fn str_eq(a: &str, b: &str) -> (r: bool)
    ensures
        r == (a@ == b@),
{
    vec_eq(&chars_of(a), &chars_of(b))
}

/// Whether `n` occurs in `s` (`str::contains` with a string pattern).
pub fn vec_contains_seq(s: &Vec<char>, n: &Vec<char>) -> (r: bool)
    ensures
        r == contains_seq(s@, n@),
{
    if n.len() > s.len() {
        return false;
    }
    if n.len() == 0 {
        assert(s@.subrange(0int, 0int + n@.len()) == n@);
        return true;
    }
    let last = s.len() - n.len();
    let mut i: usize = 0;
    while i <= last
        invariant
            last + n@.len() == s@.len(),
            s@.len() <= usize::MAX,
            n@.len() >= 1,
            i <= last + 1,
            forall|k: int| 0 <= k < i ==> #[trigger] s@.subrange(k, k + n@.len()) != n@,
        decreases last + 1 - i,
    {
        let mut j: usize = 0;
        let mut ok = true;
        while j < n.len()
            invariant
                last + n@.len() == s@.len(),
                s@.len() <= usize::MAX,
                i <= last,
                j <= n@.len(),
                ok ==> forall|m: int| 0 <= m < j ==> s@[i + m] == n@[m],
                !ok ==> s@.subrange(i as int, i + n@.len()) != n@,
            decreases n@.len() - j,
        {
            if s[i + j] != n[j] {
                assert(s@.subrange(i as int, i + n@.len())[j as int] != n@[j as int]);
                ok = false;
            }
            j = j + 1;
        }
        if ok {
            assert(s@.subrange(i as int, i + n@.len()) == n@);
            return true;
        }
        i = i + 1;
    }
    assert forall|k: int| 0 <= k && k + n@.len() <= s@.len() implies #[trigger] s@.subrange(k, k + n@.len())
        != n@ by {
        assert(k < i);
    }
    false
}

/// Position of the first `c` in `v`, as [`first_index`] gives it.
pub fn vec_first_index(v: &Vec<char>, c: char) -> (r: Option<usize>)
    ensures
        match r {
            Some(i) => i as int == first_index(v@, c) && i < v@.len(),
            None => first_index(v@, c) == -1,
        },
{
    let mut i: usize = 0;
    while i < v.len()
        invariant
            i <= v@.len(),
            forall|j: int| 0 <= j < i ==> v@[j] != c,
        decreases v@.len() - i,
    {
        if v[i] == c {
            proof {
                lemma_first_index_found(v@, c, i as int);
            }
            return Some(i);
        }
        i = i + 1;
    }
    proof {
        lemma_first_index_absent(v@, c);
    }
    None
}

/// Position of the last `c` in `v[..end]`, as [`last_index`] gives it.
pub fn vec_last_index(v: &Vec<char>, end: usize, c: char) -> (r: Option<usize>)
    requires
        end <= v@.len(),
    ensures
        match r {
            Some(i) => i as int == last_index(v@.take(end as int), c) && i < end,
            None => last_index(v@.take(end as int), c) == -1,
        },
{
    let ghost t = v@.take(end as int);
    let mut i: usize = end;
    while i > 0
        invariant
            i <= end,
            end <= v@.len(),
            t == v@.take(end as int),
            forall|j: int| i <= j < end ==> t[j] != c,
        decreases i,
    {
        if v[i - 1] == c {
            proof {
                lemma_last_index_found(t, c, i - 1);
            }
            return Some(i - 1);
        }
        i = i - 1;
    }
    proof {
        lemma_last_index_absent(t, c);
    }
    None
}

/// Appends the decimal rendering of `n`.
pub fn push_decimal(out: &mut String, n: u64)
    ensures
        final(out)@ == old(out)@ + decimal(n as nat),
    decreases n,
{
    if n >= 10 {
        push_decimal(out, n / 10);
    }
    let d = (n % 10) as u32;
    let c = char_from_digit(d);
    push_char(out, c);
    proof {
        if n >= 10 {
            assert(decimal(n as nat) == decimal((n / 10) as nat).push(digit_char((n % 10) as nat)));
        }
    }
}

/// The character of one decimal digit.
pub fn char_from_digit(d: u32) -> (c: char)
    requires
        d < 10,
    ensures
        c == digit_char(d as nat),
{
    if d == 0 { '0' }
    else if d == 1 { '1' }
    else if d == 2 { '2' }
    else if d == 3 { '3' }
    else if d == 4 { '4' }
    else if d == 5 { '5' }
    else if d == 6 { '6' }
    else if d == 7 { '7' }
    else if d == 8 { '8' }
    else { '9' }
}

/// The decimal rendering of `v` (`i64::to_string`).
pub fn i64_to_string(v: i64) -> (r: String)
    ensures
        r@ == decimal_int(v as int),
{
    let mut s = String::new();
    if v < 0 {
        push_char(&mut s, '-');
        let m: u64 = if v == i64::MIN {
            0x8000_0000_0000_0000u64
        } else {
            (-v) as u64
        };
        push_decimal(&mut s, m);
    } else {
        push_decimal(&mut s, v as u64);
    }
    s
}

/// Parses `v[from..to]` as the digits of a number no larger than `limit`.
fn digits_to_u64(v: &Vec<char>, from: usize, to: usize, limit: u64) -> (r: Option<u64>)
    requires
        from <= to <= v@.len(),
        limit >= 9,
    ensures
        ({
            let body = v@.subrange(from as int, to as int);
            match r {
                Some(x) => all_digits(body) && digits_value(body) <= limit && x == digits_value(
                    body,
                ),
                None => !all_digits(body) || digits_value(body) > limit,
            }
        }),
{
    let ghost body = v@.subrange(from as int, to as int);
    let mut acc: u64 = 0;
    let mut i = from;
    // first check that every character is a digit
    while i < to
        invariant
            from <= i <= to,
            to <= v@.len(),
            body == v@.subrange(from as int, to as int),
            forall|j: int| 0 <= j < i - from ==> is_digit(body[j]),
        decreases to - i,
    {
        if !(v[i] >= '0' && v[i] <= '9') {
            assert(!is_digit(body[i - from]));
            return None;
        }
        i = i + 1;
    }
    assert(all_digits(body));
    i = from;
    while i < to
        invariant
            from <= i <= to,
            to <= v@.len(),
            body == v@.subrange(from as int, to as int),
            all_digits(body),
            acc as nat == digits_value(body.take(i - from)),
            acc <= limit,
            limit >= 9,
        decreases to - i,
    {
        proof {
            lemma_digits_value_step(body, i - from);
            assert(is_digit(body[i - from]));
            assert(body.take(i - from + 1) == body.take((i + 1) - from));
        }
        let d = (v[i] as u32 - 48) as u64;
        if acc > (limit - d) / 10 {
            proof {
                assert(acc * 10 + d > limit) by (nonlinear_arith)
                    requires
                        acc > (limit - d) / 10,
                        d <= 9,
                        limit >= 9,
                ;
                lemma_digits_value_prefix_le(body, i - from + 1);
            }
            return None;
        }
        proof {
            assert(acc * 10 + d <= limit) by (nonlinear_arith)
                requires
                    acc <= (limit - d) / 10,
                    d <= 9,
                    limit >= 9,
            ;
        }
        acc = acc * 10 + d;
        i = i + 1;
    }
    assert(body.take(to - from) == body);
    Some(acc)
}

/// `u64::from_str`.
pub fn parse_u64_str(v: &Vec<char>) -> (r: Option<u64>)
    ensures
        r == parse_u64(v@),
{
    let start: usize = if v.len() > 0 && v[0] == '+' {
        1
    } else {
        0
    };
    assert(v@.subrange(start as int, v@.len() as int) == (if v@.len() > 0 && v@[0] == '+' {
        v@.drop_first()
    } else {
        v@
    }));
    if start == v.len() {
        return None;
    }
    digits_to_u64(v, start, v.len(), u64::MAX)
}

/// `i64::from_str`.
pub fn parse_i64_str(v: &Vec<char>) -> (r: Option<i64>)
    ensures
        r == parse_i64(v@),
{
    let neg = v.len() > 0 && v[0] == '-';
    let start: usize = if v.len() > 0 && (v[0] == '+' || v[0] == '-') {
        1
    } else {
        0
    };
    assert(v@.subrange(start as int, v@.len() as int) == (if v@.len() > 0 && (v@[0] == '+'
        || v@[0] == '-') {
        v@.drop_first()
    } else {
        v@
    }));
    if start == v.len() {
        return None;
    }
    if neg {
        match digits_to_u64(v, start, v.len(), 0x8000_0000_0000_0000u64) {
            Some(m) => {
                if m == 0x8000_0000_0000_0000u64 {
                    Some(i64::MIN)
                } else {
                    Some(-(m as i64))
                }
            },
            None => None,
        }
    } else {
        match digits_to_u64(v, start, v.len(), 0x7fff_ffff_ffff_ffffu64) {
            Some(m) => Some(m as i64),
            None => None,
        }
    }
}

/// Splits `v` at every `c` (see [`split_all`]).
pub fn vec_split_all(v: &Vec<char>, c: char) -> (r: Vec<Vec<char>>)
    ensures
        r@.map_values(|x: Vec<char>| x@) == split_all(v@, c),
{
    let mut out: Vec<Vec<char>> = Vec::new();
    let mut rest = vec_sub(v, 0, v.len());
    assert(rest@ == v@);
    loop
        invariant
            out@.map_values(|x: Vec<char>| x@) + split_all(rest@, c) == split_all(v@, c),
        decreases rest@.len(),
    {
        proof {
            lemma_split_all_step(rest@, c);
        }
        match vec_first_index(&rest, c) {
            None => {
                let ghost before = out@;
                out.push(rest);
                assert(out@.map_values(|x: Vec<char>| x@) == before.map_values(|x: Vec<char>| x@).push(
                    rest@,
                ));
                assert(out@.map_values(|x: Vec<char>| x@) == split_all(v@, c));
                return out;
            },
            Some(i) => {
                assert(i < rest@.len());
                let len = rest.len();
                let head = vec_sub(&rest, 0, i);
                let tail = vec_sub(&rest, i + 1, len);
                let ghost before = out@;
                assert(head@ == rest@.take(i as int));
                assert(tail@ == rest@.skip(i + 1));
                out.push(head);
                assert(out@.map_values(|x: Vec<char>| x@) == before.map_values(|x: Vec<char>| x@).push(
                    head@,
                ));
                assert(split_all(rest@, c) == seq![head@] + split_all(tail@, c));
                assert(out@.map_values(|x: Vec<char>| x@) + split_all(tail@, c) == before.map_values(
                    |x: Vec<char>| x@,
                ) + split_all(rest@, c));
                rest = tail;
            },
        }
    }
}

/// `char::is_whitespace`.
pub fn char_is_whitespace(c: char) -> (r: bool)
    ensures
        r == is_whitespace(c),
{
    let u = c as u32;
    (0x9 <= u && u <= 0xD) || u == 0x20 || u == 0x85 || u == 0xA0 || u == 0x1680 || (0x2000 <= u
        && u <= 0x200A) || u == 0x2028 || u == 0x2029 || u == 0x202F || u == 0x205F || u == 0x3000
}

/// `str::trim` on character vectors.
#[verifier::rlimit(40)]
pub fn vec_trim_ws(v: &Vec<char>) -> (r: Vec<char>)
    ensures
        r@ == trim_ws(v@),
{
    let ghost m = v@;
    let mut lo: usize = 0;
    assert(m.skip(0) == m);
    while lo < v.len() && char_is_whitespace(v[lo])
        invariant
            m == v@,
            lo <= m.len(),
            trim_start_ws(m.skip(lo as int)) == trim_start_ws(m),
        decreases m.len() - lo,
    {
        assert(m.skip(lo as int).drop_first() == m.skip(lo + 1));
        lo = lo + 1;
    }
    assert(trim_start_ws(m.skip(lo as int)) == m.skip(lo as int));
    let mut hi: usize = v.len();
    assert(m.skip(lo as int) == m.subrange(lo as int, m.len() as int));
    while hi > lo && char_is_whitespace(v[hi - 1])
        invariant
            m == v@,
            lo <= hi <= m.len(),
            trim_end_ws(m.subrange(lo as int, hi as int)) == trim_end_ws(m.skip(lo as int)),
        decreases hi,
    {
        assert(m.subrange(lo as int, hi as int).drop_last() == m.subrange(lo as int, hi - 1));
        hi = hi - 1;
    }
    assert(trim_end_ws(m.subrange(lo as int, hi as int)) == m.subrange(lo as int, hi as int));
    vec_sub(v, lo, hi)
}

/// Decides [`seq_le`] on strings.
pub fn str_le(a: &str, b: &str) -> (r: bool)
    ensures
        r == seq_le(a@, b@),
{
    let av = chars_of(a);
    let bv = chars_of(b);
    let mut i: usize = 0;
    assert(a@.skip(0) == a@ && b@.skip(0) == b@);
    while i < av.len() && i < bv.len() && av[i] == bv[i]
        invariant
            av@ == a@,
            bv@ == b@,
            i <= av@.len(),
            i <= bv@.len(),
            seq_le(a@, b@) == seq_le(a@.skip(i as int), b@.skip(i as int)),
        decreases av@.len() - i,
    {
        assert(a@.skip(i as int).drop_first() == a@.skip(i + 1));
        assert(b@.skip(i as int).drop_first() == b@.skip(i + 1));
        i = i + 1;
    }
    if i == av.len() {
        true
    } else if i == bv.len() {
        false
    } else {
        av[i] < bv[i]
    }
}

} // verus!
