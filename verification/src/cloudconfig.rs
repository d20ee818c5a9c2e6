//! The cloud-config document: a `cloud` block with default memory and
//! CPUs and a list of platform entries, each either a bare platform
//! name or a name with overrides. Parsing and serialization are defined
//! against specification-level mirrors, and parsing a serialized VM set
//! gives the set back.
use crate::protocol::{Platform, VM};
use crate::text::{dec_digits_of, is_dec_digit, u32_dec_parses, u32_dec_value};
use vstd::prelude::*;

verus! {

/// Whitespace as the document's scalars trim it.
pub open spec fn is_space(c: char) -> bool {
    c == ' ' || c == '\t' || c == '\r' || c == '\n'
}

/// The string without leading whitespace.
pub open spec fn trim_left(s: Seq<char>) -> Seq<char>
    decreases s.len(),
{
    if s.len() > 0 && is_space(s[0]) {
        trim_left(s.drop_first())
    } else {
        s
    }
}

/// The string without trailing whitespace.
pub open spec fn trim_right(s: Seq<char>) -> Seq<char>
    decreases s.len(),
{
    if s.len() > 0 && is_space(s.last()) {
        trim_right(s.drop_last())
    } else {
        s
    }
}

/// The string without surrounding whitespace.
pub open spec fn spec_trim(s: Seq<char>) -> Seq<char> {
    trim_right(trim_left(s))
}

/// ASCII lower case of one character.
pub open spec fn lower_char(c: char) -> char {
    if 'A' <= c && c <= 'Z' {
        (((c as u32) + 32) as u8) as char
    } else {
        c
    }
}

/// ASCII lower case of a string.
pub open spec fn to_lower(s: Seq<char>) -> Seq<char> {
    Seq::new(s.len(), |i: int| lower_char(s[i]))
}

/// Whether `s` ends with `suffix`.
pub open spec fn ends_with(s: Seq<char>, suffix: Seq<char>) -> bool {
    s.len() >= suffix.len() && s.subrange(s.len() - suffix.len(), s.len() as int) == suffix
}

/// The string with every trailing repetition of `suffix` removed.
pub open spec fn strip_repeated_suffix(s: Seq<char>, suffix: Seq<char>) -> Seq<char>
    decreases s.len(),
{
    if suffix.len() > 0 && ends_with(s, suffix) {
        strip_repeated_suffix(s.subrange(0, s.len() - suffix.len()), suffix)
    } else {
        s
    }
}

/// A memory size as the document reads it: a number with an `mb` or
/// `gb` suffix, case-insensitively, one gigabyte counting as 1024
/// megabytes; on failure, the error message. A gigabyte count whose
/// megabyte value exceeds the type is reported as an invalid size.
pub open spec fn spec_parse_memory(s: Seq<char>) -> Result<u32, Seq<char>> {
    let t = to_lower(spec_trim(s));
    if ends_with(t, "gb"@) {
        let num = spec_trim(strip_repeated_suffix(t, "gb"@));
        if u32_dec_parses(num) && u32_dec_value(num) * 1024 <= u32::MAX {
            Ok((u32_dec_value(num) * 1024) as u32)
        } else {
            Err("Invalid memory size: "@ + t)
        }
    } else if ends_with(t, "mb"@) {
        let num = spec_trim(strip_repeated_suffix(t, "mb"@));
        if u32_dec_parses(num) {
            Ok(u32_dec_value(num) as u32)
        } else {
            Err("Invalid memory size: "@ + t)
        }
    } else {
        Err("Memory size must end with 'mb' or 'gb': "@ + t)
    }
}

/// Leading whitespace up to `a`, and no whitespace at `a`, pin down
/// `trim_left`.
proof fn lemma_trim_left_at(s: Seq<char>, a: int)
    requires
        0 <= a <= s.len(),
        forall|k: int| 0 <= k < a ==> is_space(#[trigger] s[k]),
        a < s.len() ==> !is_space(s[a]),
    ensures
        trim_left(s) == s.subrange(a, s.len() as int),
    decreases a,
{
    if a == 0 {
        if s.len() > 0 && is_space(s[0]) {
            assert(false);
        }
        assert(s.subrange(0, s.len() as int) =~= s);
    } else {
        assert(is_space(s[0]));
        lemma_trim_left_at(s.drop_first(), a - 1);
        assert(s.drop_first().subrange(a - 1, s.drop_first().len() as int) =~= s.subrange(
            a,
            s.len() as int,
        ));
    }
}

/// Trailing whitespace from `b` on, and no whitespace at `b - 1`, pin
/// down `trim_right`.
proof fn lemma_trim_right_at(s: Seq<char>, b: int)
    requires
        0 <= b <= s.len(),
        forall|k: int| b <= k < s.len() ==> is_space(#[trigger] s[k]),
        b > 0 ==> !is_space(s[b - 1]),
    ensures
        trim_right(s) == s.subrange(0, b),
    decreases s.len() - b,
{
    if b == s.len() {
        if s.len() > 0 && is_space(s.last()) {
            assert(false);
        }
        assert(s.subrange(0, s.len() as int) =~= s);
    } else {
        assert(is_space(s.last()));
        lemma_trim_right_at(s.drop_last(), b);
        assert(s.drop_last().subrange(0, b) =~= s.subrange(0, b));
    }
}

/// Convert a string slice into its characters.
pub fn str_to_chars(s: &str) -> (r: Vec<char>)
    ensures
        r@ == s@,
{
    let n = s.unicode_len();
    let mut out: Vec<char> = Vec::new();
    let mut i: usize = 0;
    while i < n
        invariant
            n == s@.len(),
            i <= n,
            out@ == s@.subrange(0, i as int),
        decreases n - i,
    {
        out.push(s.get_char(i));
        proof {
            assert(out@ =~= s@.subrange(0, i + 1));
        }
        i = i + 1;
    }
    proof {
        assert(s@.subrange(0, n as int) =~= s@);
    }
    out
}

/// Rebuild a string from its characters.
///
/// Relies on `String::from_iter` via `Iterator::collect`: collecting
/// characters yields the string of exactly those characters in order.
#[verifier::external_body]
pub fn chars_to_string(v: &Vec<char>) -> (r: String)
    ensures
        r@ == v@,
{
    v.iter().collect()
}

/// Trim whitespace from both ends.
fn trim_chars(v: &Vec<char>) -> (r: Vec<char>)
    ensures
        r@ == spec_trim(v@),
{
    let n = v.len();
    let mut a: usize = 0;
    while a < n && is_space_exec(v[a])
        invariant
            n == v@.len(),
            a <= n,
            forall|k: int| 0 <= k < a ==> is_space(#[trigger] v@[k]),
        decreases n - a,
    {
        a = a + 1;
    }
    if a == n {
        proof {
            lemma_trim_left_at(v@, n as int);
            lemma_trim_right_at(v@.subrange(n as int, n as int), 0);
            assert(v@.subrange(n as int, n as int).len() == 0);
        }
        let empty: Vec<char> = Vec::new();
        proof {
            assert(empty@ =~= spec_trim(v@));
        }
        return empty;
    }
    let mut b: usize = n;
    while b > a && is_space_exec(v[b - 1])
        invariant
            n == v@.len(),
            a < n,
            a <= b <= n,
            forall|k: int| b <= k < n ==> is_space(#[trigger] v@[k]),
        decreases b,
    {
        b = b - 1;
    }
    proof {
        lemma_trim_left_at(v@, a as int);
        let t = v@.subrange(a as int, n as int);
        assert(b > a);
        assert(!is_space(v@[b - 1]));
        assert forall|k: int| b - a <= k < t.len() implies is_space(#[trigger] t[k]) by {
            assert(t[k] == v@[k + a]);
        }
        lemma_trim_right_at(t, b - a);
        assert(t.subrange(0, b - a) =~= v@.subrange(a as int, b as int));
    }
    let mut out: Vec<char> = Vec::new();
    let mut i: usize = a;
    while i < b
        invariant
            a <= i <= b <= n,
            n == v@.len(),
            out@ == v@.subrange(a as int, i as int),
        decreases b - i,
    {
        out.push(v[i]);
        proof {
            assert(out@ =~= v@.subrange(a as int, i + 1));
        }
        i = i + 1;
    }
    out
}

/// Whitespace test, usable from executable code.
pub(crate) fn is_space_exec(c: char) -> (r: bool)
    ensures
        r == is_space(c),
{
    c == ' ' || c == '\t' || c == '\r' || c == '\n'
}

/// ASCII lower case of a character vector.
pub fn lower_chars(v: &Vec<char>) -> (r: Vec<char>)
    ensures
        r@ == to_lower(v@),
{
    let n = v.len();
    let mut out: Vec<char> = Vec::new();
    let mut i: usize = 0;
    while i < n
        invariant
            n == v@.len(),
            i <= n,
            out@.len() == i,
            forall|k: int| 0 <= k < i ==> out@[k] == lower_char(v@[k]),
        decreases n - i,
    {
        let c = v[i];
        if 'A' <= c && c <= 'Z' {
            out.push((((c as u32) + 32) as u8) as char);
        } else {
            out.push(c);
        }
        i = i + 1;
    }
    proof {
        assert(out@ =~= to_lower(v@));
    }
    out
}

/// Whether `v` ends with the two characters `c0`, `c1`.
fn ends_with2(v: &Vec<char>, c0: char, c1: char) -> (r: bool)
    ensures
        r == ends_with(v@, seq![c0, c1]),
    {
    if v.len() >= 2 {
        let r = v[v.len() - 2] == c0 && v[v.len() - 1] == c1;
        proof {
            if r {
                assert(v@.subrange(v@.len() - 2, v@.len() as int) =~= seq![c0, c1]);
            } else {
                assert(v@.subrange(v@.len() - 2, v@.len() as int)[0] == v@[v@.len() - 2]);
                assert(v@.subrange(v@.len() - 2, v@.len() as int)[1] == v@[v@.len() - 1]);
            }
        }
        r
    } else {
        false
    }
}

/// Remove every trailing repetition of the two-character suffix.
fn strip_suffix2(v: Vec<char>, c0: char, c1: char) -> (r: Vec<char>)
    ensures
        r@ == strip_repeated_suffix(v@, seq![c0, c1]),
    decreases v@.len(),
{
    let mut v = v;
    if ends_with2(&v, c0, c1) {
        let ghost pre = v@;
        v.pop();
        v.pop();
        proof {
            assert(v@ =~= pre.subrange(0, pre.len() - 2));
        }
        strip_suffix2(v, c0, c1)
    } else {
        v
    }
}

/// Parse a decimal `u32` from a character vector, as
/// `str::parse::<u32>` reads it.
fn parse_u32_chars(v: &Vec<char>) -> (r: Option<u32>)
    ensures
        u32_dec_parses(v@) ==> r == Some(u32_dec_value(v@) as u32),
        !u32_dec_parses(v@) ==> r is None,
{
    let len = v.len();
    let mut start: usize = 0;
    if len > 0 && v[0] == '+' {
        start = 1;
    }
    let ghost digits: Seq<char> = v@.subrange(start as int, v@.len() as int);
    proof {
        if start == 1 {
            assert(digits =~= v@.drop_first());
        } else {
            assert(digits =~= v@);
        }
        assert(digits == dec_digits_of(v@));
    }
    if start >= len {
        assert(digits.len() == 0);
        return None;
    }
    let mut val: u32 = 0;
    let mut i: usize = start;
    while i < len
        invariant
            start <= i <= len,
            len == v@.len(),
            digits == v@.subrange(start as int, v@.len() as int),
            digits == dec_digits_of(v@),
            forall|j: int| start <= j < i ==> is_dec_digit(#[trigger] v@[j]),
            val == crate::text::dec_val(v@.subrange(start as int, i as int)),
            crate::text::dec_val(v@.subrange(start as int, i as int)) <= u32::MAX,
        decreases len - i,
    {
        let c = v[i];
        proof {
            assert(digits[i - start] == v@[i as int]);
        }
        if !('0' <= c && c <= '9') {
            assert(!is_dec_digit(dec_digits_of(v@)[i - start]));
            return None;
        }
        let d: u32 = (c as u32) - ('0' as u32);
        assert(d == crate::text::dec_digit_val(c));
        proof {
            assert(v@.subrange(start as int, i + 1 as int).drop_last() =~= v@.subrange(
                start as int,
                i as int,
            ));
        }
        if val > (u32::MAX - d) / 10 {
            proof {
                crate::text::lemma_dec_val_prefix_bound(digits, i + 1 - start);
                assert(digits.subrange(0, i + 1 - start) =~= v@.subrange(start as int, i + 1));
            }
            assert(!u32_dec_parses(v@));
            return None;
        }
        val = val * 10 + d;
        i = i + 1;
    }
    proof {
        assert(v@.subrange(start as int, len as int) =~= digits);
    }
    Some(val)
}

/// One scanned line of the document: its indent in spaces and what it
/// says. The strings are character vectors in executable code and
/// character sequences in specifications.
pub struct Line<S> {
    pub indent: usize,
    pub kind: LineKind<S>,
}

/// What one line of the document says.
pub enum LineKind<S> {
    /// Empty, comment, or an empty flow mapping.
    Blank,
    /// `key:` introducing a block.
    KeyOnly(S),
    /// `key: value`.
    KeyVal(S, S),
    /// `- value`.
    ItemScalar(S),
    /// `- key: value`.
    ItemKeyVal(S, S),
    /// Anything else.
    Bad,
}

/// The specification view of a scanned line.
pub open spec fn line_view(l: Line<Vec<char>>) -> Line<Seq<char>> {
    Line {
        indent: l.indent,
        kind: match l.kind {
            LineKind::Blank => LineKind::Blank,
            LineKind::KeyOnly(k) => LineKind::KeyOnly(k@),
            LineKind::KeyVal(k, v) => LineKind::KeyVal(k@, v@),
            LineKind::ItemScalar(v) => LineKind::ItemScalar(v@),
            LineKind::ItemKeyVal(k, v) => LineKind::ItemKeyVal(k@, v@),
            LineKind::Bad => LineKind::Bad,
        },
    }
}

/// The specification view of a sequence of scanned lines.
pub open spec fn lines_view(ls: Seq<Line<Vec<char>>>) -> Seq<Line<Seq<char>>> {
    ls.map_values(|l: Line<Vec<char>>| line_view(l))
}

/// The position of the first newline at or after `i`, or the length.
pub open spec fn scan_nl(s: Seq<char>, i: int) -> int
    decreases s.len() - i,
{
    if i < 0 || i >= s.len() {
        s.len() as int
    } else if s[i] == '\n' {
        i
    } else {
        scan_nl(s, i + 1)
    }
}

/// `scan_nl` finds the first newline at or after `i`.
pub proof fn lemma_scan_nl(s: Seq<char>, i: int)
    requires
        0 <= i <= s.len(),
    ensures
        i <= scan_nl(s, i) <= s.len(),
        scan_nl(s, i) < s.len() ==> s[scan_nl(s, i)] == '\n',
        forall|k: int| i <= k < scan_nl(s, i) ==> s[k] != '\n',
    decreases s.len() - i,
{
    if i < s.len() && s[i] != '\n' {
        lemma_scan_nl(s, i + 1);
    }
}

/// The document's lines from position `i` on: text between newlines,
/// the newlines themselves not included. A document always has at
/// least one (possibly empty) line.
pub open spec fn split_lines_from(s: Seq<char>, i: int) -> Seq<Seq<char>>
    recommends
        0 <= i <= s.len(),
    decreases s.len() - i + 1 when 0 <= i <= s.len()
    via split_lines_from_decreases
{
    let k = scan_nl(s, i);
    if k == s.len() {
        seq![s.subrange(i, k)]
    } else {
        seq![s.subrange(i, k)] + split_lines_from(s, k + 1)
    }
}

#[via_fn]
proof fn split_lines_from_decreases(s: Seq<char>, i: int) {
    lemma_scan_nl(s, i);
}

/// The lines of the whole document.
pub open spec fn spec_split_lines(s: Seq<char>) -> Seq<Seq<char>> {
    split_lines_from(s, 0)
}

/// Count of leading spaces.
pub open spec fn spec_indent(s: Seq<char>) -> int
    decreases s.len(),
{
    if s.len() > 0 && s[0] == ' ' {
        1 + spec_indent(s.drop_first())
    } else {
        0
    }
}

/// Leading spaces up to `a` and no space at `a` pin down the indent.
proof fn lemma_indent_at(s: Seq<char>, a: int)
    requires
        0 <= a <= s.len(),
        forall|k: int| 0 <= k < a ==> s[k] == ' ',
        a < s.len() ==> s[a] != ' ',
    ensures
        spec_indent(s) == a,
    decreases a,
{
    if a == 0 {
    } else {
        lemma_indent_at(s.drop_first(), a - 1);
    }
}

/// The position of the first colon, or the length.
pub open spec fn first_colon(s: Seq<char>) -> int
    decreases s.len(),
{
    if s.len() == 0 {
        0
    } else if s[0] == ':' {
        0
    } else {
        1 + first_colon(s.drop_first())
    }
}

/// No colon before `a` and a colon (or the end) at `a` pin down the
/// first colon.
proof fn lemma_first_colon_at(s: Seq<char>, a: int)
    requires
        0 <= a <= s.len(),
        forall|k: int| 0 <= k < a ==> s[k] != ':',
        a < s.len() ==> s[a] == ':',
    ensures
        first_colon(s) == a,
    decreases a,
{
    if a == 0 {
    } else {
        lemma_first_colon_at(s.drop_first(), a - 1);
    }
}

/// Split `key: value` at the first colon, which must be followed by a
/// space or end the line; the key must be non-empty once trimmed.
pub open spec fn split_kv(c: Seq<char>) -> Option<(Seq<char>, Seq<char>)> {
    let k = first_colon(c);
    if k == c.len() {
        None
    } else {
        let key = trim_right(c.subrange(0, k));
        if key.len() == 0 {
            None
        } else if k + 1 == c.len() {
            Some((key, Seq::empty()))
        } else if c[k + 1] == ' ' {
            Some((key, spec_trim(c.subrange(k + 1, c.len() as int))))
        } else {
            None
        }
    }
}

/// Classify one raw line.
pub open spec fn spec_classify(l: Seq<char>) -> Line<Seq<char>> {
    let ind = spec_indent(l);
    let c = trim_right(l.subrange(ind, l.len() as int));
    let kind = if c.len() == 0 {
        LineKind::Blank
    } else if c[0] == '#' {
        LineKind::Blank
    } else if c == seq!['{', '}'] {
        LineKind::Blank
    } else if c[0] == '-' {
        if c.len() >= 2 && c[1] == ' ' {
            let inner = trim_left(c.subrange(2, c.len() as int));
            if inner.len() == 0 {
                LineKind::Bad
            } else {
                match split_kv(inner) {
                    Some((k, v)) => if v.len() == 0 {
                        LineKind::Bad
                    } else {
                        LineKind::ItemKeyVal(k, v)
                    },
                    None => LineKind::ItemScalar(inner),
                }
            }
        } else {
            LineKind::Bad
        }
    } else {
        match split_kv(c) {
            Some((k, v)) => if v.len() == 0 {
                LineKind::KeyOnly(k)
            } else {
                LineKind::KeyVal(k, v)
            },
            None => LineKind::Bad,
        }
    };
    Line { indent: ind as usize, kind }
}

/// The classified lines of a document.
pub open spec fn spec_scan(s: Seq<char>) -> Seq<Line<Seq<char>>> {
    spec_split_lines(s).map_values(|l: Seq<char>| spec_classify(l))
}

/// Trim trailing whitespace only.
fn trim_right_chars(v: &Vec<char>) -> (r: Vec<char>)
    ensures
        r@ == trim_right(v@),
{
    let n = v.len();
    let mut b: usize = n;
    while b > 0 && is_space_exec(v[b - 1])
        invariant
            n == v@.len(),
            b <= n,
            forall|k: int| b <= k < n ==> is_space(#[trigger] v@[k]),
        decreases b,
    {
        b = b - 1;
    }
    proof {
        lemma_trim_right_at(v@, b as int);
    }
    let mut out: Vec<char> = Vec::new();
    let mut i: usize = 0;
    while i < b
        invariant
            i <= b <= n,
            n == v@.len(),
            out@ == v@.subrange(0, i as int),
        decreases b - i,
    {
        out.push(v[i]);
        proof {
            assert(out@ =~= v@.subrange(0, i + 1));
        }
        i = i + 1;
    }
    out
}

/// Trim leading whitespace only.
fn trim_left_chars(v: &Vec<char>) -> (r: Vec<char>)
    ensures
        r@ == trim_left(v@),
{
    let n = v.len();
    let mut a: usize = 0;
    while a < n && is_space_exec(v[a])
        invariant
            n == v@.len(),
            a <= n,
            forall|k: int| 0 <= k < a ==> is_space(#[trigger] v@[k]),
        decreases n - a,
    {
        a = a + 1;
    }
    proof {
        lemma_trim_left_at(v@, a as int);
    }
    let mut out: Vec<char> = Vec::new();
    let mut i: usize = a;
    while i < n
        invariant
            a <= i <= n,
            n == v@.len(),
            out@ == v@.subrange(a as int, i as int),
        decreases n - i,
    {
        out.push(v[i]);
        proof {
            assert(out@ =~= v@.subrange(a as int, i + 1));
        }
        i = i + 1;
    }
    out
}

/// Copy a range of characters.
pub(crate) fn copy_range(v: &Vec<char>, from: usize, to: usize) -> (r: Vec<char>)
    requires
        from <= to <= v@.len(),
    ensures
        r@ == v@.subrange(from as int, to as int),
{
    let mut out: Vec<char> = Vec::new();
    let mut i: usize = from;
    while i < to
        invariant
            from <= i <= to <= v@.len(),
            out@ == v@.subrange(from as int, i as int),
        decreases to - i,
    {
        out.push(v[i]);
        proof {
            assert(out@ =~= v@.subrange(from as int, i + 1));
        }
        i = i + 1;
    }
    out
}

/// Copy a character vector.
fn copy_chars(v: &Vec<char>) -> (r: Vec<char>)
    ensures
        r@ == v@,
{
    let r = copy_range(v, 0, v.len());
    proof {
        assert(v@.subrange(0, v@.len() as int) =~= v@);
    }
    r
}

/// Split `key: value` in executable code.
fn split_kv_exec(c: &Vec<char>) -> (r: Option<(Vec<char>, Vec<char>)>)
    ensures
        match r {
            Some(p) => split_kv(c@) matches Some(q) && p.0@ == q.0 && p.1@ == q.1,
            None => split_kv(c@) is None,
        },
{
    let n = c.len();
    let mut k: usize = 0;
    while k < n && c[k] != ':'
        invariant
            n == c@.len(),
            k <= n,
            forall|j: int| 0 <= j < k ==> c@[j] != ':',
        decreases n - k,
    {
        k = k + 1;
    }
    proof {
        lemma_first_colon_at(c@, k as int);
    }
    if k == n {
        return None;
    }
    let key = trim_right_chars(&copy_range(c, 0, k));
    if key.len() == 0 {
        return None;
    }
    if k + 1 == n {
        let empty: Vec<char> = Vec::new();
        proof {
            assert(empty@ =~= Seq::<char>::empty());
        }
        return Some((key, empty));
    }
    if c[k + 1] == ' ' {
        let value = trim_chars(&copy_range(c, k + 1, n));
        Some((key, value))
    } else {
        None
    }
}

/// Classify one raw line in executable code.
fn classify_line(l: &Vec<char>) -> (r: Line<Vec<char>>)
    ensures
        line_view(r) == spec_classify(l@),
{
    let n = l.len();
    let mut a: usize = 0;
    while a < n && l[a] == ' '
        invariant
            n == l@.len(),
            a <= n,
            forall|k: int| 0 <= k < a ==> l@[k] == ' ',
        decreases n - a,
    {
        a = a + 1;
    }
    proof {
        lemma_indent_at(l@, a as int);
    }
    let c = trim_right_chars(&copy_range(l, a, n));
    if c.len() == 0 {
        return Line { indent: a, kind: LineKind::Blank };
    }
    if c[0] == '#' {
        return Line { indent: a, kind: LineKind::Blank };
    }
    if c.len() == 2 && c[0] == '{' && c[1] == '}' {
        proof {
            assert(c@ =~= seq!['{', '}']);
        }
        return Line { indent: a, kind: LineKind::Blank };
    }
    proof {
        if c@ =~= seq!['{', '}'] {
            assert(c@.len() == 2 && c@[0] == '{' && c@[1] == '}');
        }
    }
    if c[0] == '-' {
        if c.len() >= 2 && c[1] == ' ' {
            let inner = trim_left_chars(&copy_range(&c, 2, c.len()));
            if inner.len() == 0 {
                Line { indent: a, kind: LineKind::Bad }
            } else {
                match split_kv_exec(&inner) {
                    Some((k, v)) => {
                        if v.len() == 0 {
                            Line { indent: a, kind: LineKind::Bad }
                        } else {
                            Line { indent: a, kind: LineKind::ItemKeyVal(k, v) }
                        }
                    },
                    None => Line { indent: a, kind: LineKind::ItemScalar(inner) },
                }
            }
        } else {
            Line { indent: a, kind: LineKind::Bad }
        }
    } else {
        match split_kv_exec(&c) {
            Some((k, v)) => {
                if v.len() == 0 {
                    Line { indent: a, kind: LineKind::KeyOnly(k) }
                } else {
                    Line { indent: a, kind: LineKind::KeyVal(k, v) }
                }
            },
            None => Line { indent: a, kind: LineKind::Bad },
        }
    }
}

/// Scan a document into classified lines.
fn scan_doc(v: &Vec<char>) -> (r: Vec<Line<Vec<char>>>)
    ensures
        lines_view(r@) == spec_scan(v@),
{
    let n = v.len();
    let mut out: Vec<Line<Vec<char>>> = Vec::new();
    let mut start: usize = 0;
    loop
        invariant_except_break
            start <= n,
            n == v@.len(),
            lines_view(out@) + split_lines_from(v@, start as int).map_values(
                |l: Seq<char>| spec_classify(l),
            ) =~= spec_scan(v@),
        ensures
            lines_view(out@) == spec_scan(v@),
        decreases n - start + 1,
    {
        let mut k: usize = start;
        while k < n && v[k] != '\n'
            invariant
                start <= k <= n,
                n == v@.len(),
                forall|j: int| start <= j < k ==> v@[j] != '\n',
            decreases n - k,
        {
            k = k + 1;
        }
        proof {
            lemma_scan_nl_pin(v@, start as int, k as int);
        }
        let line = copy_range(v, start, k);
        out.push(classify_line(&line));
        proof {
            let rest = split_lines_from(v@, start as int);
            assert(rest[0] == v@.subrange(start as int, k as int));
            if k < n {
                assert(rest =~= seq![rest[0]] + split_lines_from(v@, k + 1));
                assert(rest.map_values(|l: Seq<char>| spec_classify(l)) =~= seq![
                    spec_classify(rest[0]),
                ] + split_lines_from(v@, k + 1).map_values(|l: Seq<char>| spec_classify(l)));
            } else {
                assert(rest =~= seq![rest[0]]);
                assert(rest.map_values(|l: Seq<char>| spec_classify(l)) =~= seq![
                    spec_classify(rest[0]),
                ]);
            }
            assert(lines_view(out@) =~= lines_view(out@.drop_last()) + seq![
                line_view(out@.last()),
            ]);
        }
        if k == n {
            break ;
        }
        start = k + 1;
    }
    out
}

/// No newline in `[i, k)` and a newline (or the end) at `k` pin down
/// `scan_nl`.
proof fn lemma_scan_nl_pin(s: Seq<char>, i: int, k: int)
    requires
        0 <= i <= k <= s.len(),
        forall|j: int| i <= j < k ==> s[j] != '\n',
        k < s.len() ==> s[k] == '\n',
    ensures
        scan_nl(s, i) == k,
    decreases k - i,
{
    if i < k {
        lemma_scan_nl_pin(s, i + 1, k);
    }
}

/// A platform entry of the cloud block: a bare name, or a name with
/// optional memory and CPU overrides.
pub enum PlatformConfig<S> {
    Simple(S),
    Detailed { name: S, memory: Option<S>, cpus: Option<u32> },
}

/// The specification view of a platform entry.
pub open spec fn platform_config_view(p: PlatformConfig<Vec<char>>) -> PlatformConfig<Seq<char>> {
    match p {
        PlatformConfig::Simple(n) => PlatformConfig::Simple(n@),
        PlatformConfig::Detailed { name, memory, cpus } => PlatformConfig::Detailed {
            name: name@,
            memory: match memory {
                Some(m) => Some(m@),
                None => None,
            },
            cpus,
        },
    }
}

/// The raw cloud block as the document states it.
pub struct Cloud {
    pub memory: Option<Vec<char>>,
    pub cpus: Option<u32>,
    pub platforms: Option<Vec<PlatformConfig<Vec<char>>>>,
}

/// The specification view of a raw cloud block.
pub struct CloudView {
    pub memory: Option<Seq<char>>,
    pub cpus: Option<u32>,
    pub platforms: Option<Seq<PlatformConfig<Seq<char>>>>,
}

/// The view of a raw cloud block.
pub open spec fn cloud_view(c: Cloud) -> CloudView {
    CloudView {
        memory: match c.memory {
            Some(m) => Some(m@),
            None => None,
        },
        cpus: c.cpus,
        platforms: match c.platforms {
            Some(ps) => Some(
                ps@.map_values(|p: PlatformConfig<Vec<char>>| platform_config_view(p)),
            ),
            None => None,
        },
    }
}

/// A document with no cloud block at all.
pub open spec fn empty_cloud() -> CloudView {
    CloudView { memory: None, cpus: None, platforms: None }
}

/// Why a document was refused before its content was interpreted.
#[derive(Clone, Copy, Debug, PartialEq, Eq, Structural)]
pub enum DocError {
    /// A line that fits no place in the document's structure.
    Syntax,
    /// The same key given twice.
    DuplicateKey,
    /// A count that is not a decimal number.
    InvalidNumber,
}

/// The parser's state between lines (specification side).
pub enum PSt {
    /// At the top level; the cloud block seen so far, and whether an
    /// unknown block is being skipped.
    Top { cloud: Option<CloudView>, skipping: bool },
    /// Inside the cloud block; its entry indent once known, and
    /// whether an unknown entry's block is being skipped.
    InCloud { acc: CloudView, level: Option<usize>, skipping: bool },
    /// Inside the platform list; the item indent once known, the
    /// items so far, and a detailed item still being gathered.
    InItems {
        acc: CloudView,
        level: usize,
        item_level: Option<usize>,
        items: Seq<PlatformConfig<Seq<char>>>,
        cur: Option<(Seq<char>, Option<Seq<char>>, Option<u32>)>,
    },
}

/// How far from finished a state is, for termination of the
/// dispatching steps that do not consume a line.
pub open spec fn pst_rank(st: PSt) -> int {
    match st {
        PSt::Top { .. } => 0,
        PSt::InCloud { .. } => 1,
        PSt::InItems { .. } => 2,
    }
}

/// A gathered detailed item as a platform entry.
pub open spec fn finish_item(cur: (Seq<char>, Option<Seq<char>>, Option<u32>)) -> PlatformConfig<
    Seq<char>,
> {
    PlatformConfig::Detailed { name: cur.0, memory: cur.1, cpus: cur.2 }
}

/// The items gathered so far, with a pending detailed item closed.
pub open spec fn close_items(
    items: Seq<PlatformConfig<Seq<char>>>,
    cur: Option<(Seq<char>, Option<Seq<char>>, Option<u32>)>,
) -> Seq<PlatformConfig<Seq<char>>> {
    match cur {
        Some(c) => items.push(finish_item(c)),
        None => items,
    }
}

/// The cloud block with the platform list written in; an empty list
/// counts as no list, as an empty block does.
pub open spec fn set_platforms(acc: CloudView, items: Seq<PlatformConfig<Seq<char>>>) -> CloudView {
    CloudView {
        memory: acc.memory,
        cpus: acc.cpus,
        platforms: if items.len() > 0 {
            Some(items)
        } else {
            None
        },
    }
}

/// One step of the document parser: read the line at `i` in state
/// `st`, and either finish, fail, or continue. This is the document
/// grammar.
pub open spec fn p_step(ls: Seq<Line<Seq<char>>>, i: int, st: PSt) -> Result<CloudView, DocError>
    recommends
        0 <= i,
    decreases ls.len() - i, pst_rank(st),
{
    if i >= ls.len() || i < 0 {
        match st {
            PSt::Top { cloud, .. } => Ok(
                match cloud {
                    Some(c) => c,
                    None => empty_cloud(),
                },
            ),
            PSt::InCloud { acc, .. } => Ok(acc),
            PSt::InItems { acc, items, cur, .. } => Ok(set_platforms(acc, close_items(items, cur))),
        }
    } else {
        let l = ls[i];
        match st {
            PSt::Top { cloud, skipping } => {
                if l.kind is Blank {
                    p_step(ls, i + 1, st)
                } else if l.indent > 0 {
                    if skipping {
                        p_step(ls, i + 1, st)
                    } else {
                        Err(DocError::Syntax)
                    }
                } else {
                    match l.kind {
                        LineKind::KeyOnly(k) => if k == "cloud"@ {
                            if cloud is Some {
                                Err(DocError::DuplicateKey)
                            } else {
                                p_step(
                                    ls,
                                    i + 1,
                                    PSt::InCloud {
                                        acc: empty_cloud(),
                                        level: None,
                                        skipping: false,
                                    },
                                )
                            }
                        } else {
                            p_step(ls, i + 1, PSt::Top { cloud, skipping: true })
                        },
                        LineKind::KeyVal(k, _v) => if k == "cloud"@ {
                            Err(DocError::Syntax)
                        } else {
                            p_step(ls, i + 1, PSt::Top { cloud, skipping: true })
                        },
                        _ => Err(DocError::Syntax),
                    }
                }
            },
            PSt::InCloud { acc, level, skipping } => {
                if l.kind is Blank {
                    p_step(ls, i + 1, st)
                } else if level is None && l.indent == 0 {
                    p_step(ls, i, PSt::Top { cloud: Some(acc), skipping: false })
                } else if level matches Some(lv) && l.indent > lv {
                    if skipping {
                        p_step(ls, i + 1, st)
                    } else {
                        Err(DocError::Syntax)
                    }
                } else if level matches Some(lv) && l.indent < lv {
                    if l.indent == 0 {
                        p_step(ls, i, PSt::Top { cloud: Some(acc), skipping: false })
                    } else {
                        Err(DocError::Syntax)
                    }
                } else {
                    let lv = match level {
                        Some(lv) => lv,
                        None => l.indent,
                    };
                    match l.kind {
                        LineKind::KeyVal(k, v) => if k == "memory"@ {
                            if acc.memory is Some {
                                Err(DocError::DuplicateKey)
                            } else {
                                p_step(
                                    ls,
                                    i + 1,
                                    PSt::InCloud {
                                        acc: CloudView {
                                            memory: Some(v),
                                            cpus: acc.cpus,
                                            platforms: acc.platforms,
                                        },
                                        level: Some(lv),
                                        skipping: false,
                                    },
                                )
                            }
                        } else if k == "cpus"@ {
                            if acc.cpus is Some {
                                Err(DocError::DuplicateKey)
                            } else if u32_dec_parses(v) {
                                p_step(
                                    ls,
                                    i + 1,
                                    PSt::InCloud {
                                        acc: CloudView {
                                            memory: acc.memory,
                                            cpus: Some(u32_dec_value(v) as u32),
                                            platforms: acc.platforms,
                                        },
                                        level: Some(lv),
                                        skipping: false,
                                    },
                                )
                            } else {
                                Err(DocError::InvalidNumber)
                            }
                        } else if k == "platforms"@ {
                            Err(DocError::Syntax)
                        } else {
                            p_step(ls, i + 1, PSt::InCloud { acc, level: Some(lv), skipping: true })
                        },
                        LineKind::KeyOnly(k) => if k == "platforms"@ {
                            if acc.platforms is Some {
                                Err(DocError::DuplicateKey)
                            } else {
                                p_step(
                                    ls,
                                    i + 1,
                                    PSt::InItems {
                                        acc,
                                        level: lv,
                                        item_level: None,
                                        items: Seq::empty(),
                                        cur: None,
                                    },
                                )
                            }
                        } else if k == "memory"@ || k == "cpus"@ {
                            Err(DocError::Syntax)
                        } else {
                            p_step(ls, i + 1, PSt::InCloud { acc, level: Some(lv), skipping: true })
                        },
                        _ => Err(DocError::Syntax),
                    }
                }
            },
            PSt::InItems { acc, level, item_level, items, cur } => {
                if l.kind is Blank {
                    p_step(ls, i + 1, st)
                } else {
                    match item_level {
                        None => {
                            if l.indent <= level {
                                p_step(
                                    ls,
                                    i,
                                    PSt::InCloud { acc, level: Some(level), skipping: false },
                                )
                            } else {
                                match l.kind {
                                    LineKind::ItemScalar(name) => p_step(
                                        ls,
                                        i + 1,
                                        PSt::InItems {
                                            acc,
                                            level,
                                            item_level: Some(l.indent),
                                            items: items.push(PlatformConfig::Simple(name)),
                                            cur: None,
                                        },
                                    ),
                                    LineKind::ItemKeyVal(k, v) => if k == "name"@ {
                                        p_step(
                                            ls,
                                            i + 1,
                                            PSt::InItems {
                                                acc,
                                                level,
                                                item_level: Some(l.indent),
                                                items,
                                                cur: Some((v, None, None)),
                                            },
                                        )
                                    } else {
                                        Err(DocError::Syntax)
                                    },
                                    _ => Err(DocError::Syntax),
                                }
                            }
                        },
                        Some(ip) => {
                            if l.indent > ip {
                                match cur {
                                    Some((nm, mem, cp)) => {
                                        match l.kind {
                                            LineKind::KeyVal(k, v) => if k == "memory"@ {
                                                if mem is Some {
                                                    Err(DocError::DuplicateKey)
                                                } else {
                                                    p_step(
                                                        ls,
                                                        i + 1,
                                                        PSt::InItems {
                                                            acc,
                                                            level,
                                                            item_level,
                                                            items,
                                                            cur: Some((nm, Some(v), cp)),
                                                        },
                                                    )
                                                }
                                            } else if k == "cpus"@ {
                                                if cp is Some {
                                                    Err(DocError::DuplicateKey)
                                                } else if u32_dec_parses(v) {
                                                    p_step(
                                                        ls,
                                                        i + 1,
                                                        PSt::InItems {
                                                            acc,
                                                            level,
                                                            item_level,
                                                            items,
                                                            cur: Some(
                                                                (
                                                                    nm,
                                                                    mem,
                                                                    Some(u32_dec_value(v) as u32),
                                                                ),
                                                            ),
                                                        },
                                                    )
                                                } else {
                                                    Err(DocError::InvalidNumber)
                                                }
                                            } else {
                                                p_step(ls, i + 1, st)
                                            },
                                            LineKind::KeyOnly(_) => p_step(ls, i + 1, st),
                                            _ => Err(DocError::Syntax),
                                        }
                                    },
                                    None => Err(DocError::Syntax),
                                }
                            } else if l.indent == ip {
                                let closed = close_items(items, cur);
                                match l.kind {
                                    LineKind::ItemScalar(name) => p_step(
                                        ls,
                                        i + 1,
                                        PSt::InItems {
                                            acc,
                                            level,
                                            item_level,
                                            items: closed.push(PlatformConfig::Simple(name)),
                                            cur: None,
                                        },
                                    ),
                                    LineKind::ItemKeyVal(k, v) => if k == "name"@ {
                                        p_step(
                                            ls,
                                            i + 1,
                                            PSt::InItems {
                                                acc,
                                                level,
                                                item_level,
                                                items: closed,
                                                cur: Some((v, None, None)),
                                            },
                                        )
                                    } else {
                                        Err(DocError::Syntax)
                                    },
                                    _ => Err(DocError::Syntax),
                                }
                            } else {
                                p_step(
                                    ls,
                                    i,
                                    PSt::InCloud {
                                        acc: set_platforms(acc, close_items(items, cur)),
                                        level: Some(level),
                                        skipping: false,
                                    },
                                )
                            }
                        },
                    }
                }
            },
        }
    }
}

/// The parsed cloud block of a document.
pub open spec fn spec_parse_cloud(s: Seq<char>) -> Result<CloudView, DocError> {
    p_step(spec_scan(s), 0, PSt::Top { cloud: None, skipping: false })
}

/// Compare a character vector with a string slice.
pub fn chars_eq_str(v: &Vec<char>, s: &str) -> (r: bool)
    ensures
        r == (v@ == s@),
{
    let n = s.unicode_len();
    if v.len() != n {
        return false;
    }
    let mut i: usize = 0;
    while i < n
        invariant
            n == s@.len(),
            n == v@.len(),
            i <= n,
            forall|j: int| 0 <= j < i ==> v@[j] == s@[j],
        decreases n - i,
    {
        if v[i] != s.get_char(i) {
            return false;
        }
        i = i + 1;
    }
    proof {
        assert(v@ =~= s@);
    }
    true
}

/// The view of an optional gathered item.
pub open spec fn cur_view(cur: Option<(Vec<char>, Option<Vec<char>>, Option<u32>)>) -> Option<
    (Seq<char>, Option<Seq<char>>, Option<u32>),
> {
    match cur {
        Some((n, m, c)) => Some(
            (
                n@,
                match m {
                    Some(mm) => Some(mm@),
                    None => None,
                },
                c,
            ),
        ),
        None => None,
    }
}

/// The view of an optional cloud block.
pub open spec fn opt_cloud_view(c: Option<Cloud>) -> Option<CloudView> {
    match c {
        Some(c) => Some(cloud_view(c)),
        None => None,
    }
}

/// The view of gathered platform entries.
pub open spec fn items_view(items: Seq<PlatformConfig<Vec<char>>>) -> Seq<PlatformConfig<Seq<char>>> {
    items.map_values(|p: PlatformConfig<Vec<char>>| platform_config_view(p))
}

/// The parser at the top level of the document.
fn p_top_exec(ls: &Vec<Line<Vec<char>>>, i: usize, cloud: Option<Cloud>, skipping: bool) -> (r:
    Result<Cloud, DocError>)
    requires
        i <= ls@.len(),
    ensures
        match r {
            Ok(c) => p_step(
                lines_view(ls@),
                i as int,
                PSt::Top { cloud: opt_cloud_view(cloud), skipping },
            ) == Ok::<CloudView, DocError>(cloud_view(c)),
            Err(e) => p_step(
                lines_view(ls@),
                i as int,
                PSt::Top { cloud: opt_cloud_view(cloud), skipping },
            ) == Err::<CloudView, DocError>(e),
        },
    decreases ls@.len() - i, 0int,
{
    if i >= ls.len() {
        return Ok(
            match cloud {
                Some(c) => c,
                None => Cloud { memory: None, cpus: None, platforms: None },
            },
        );
    }
    let l = &ls[i];
    proof {
        assert(lines_view(ls@)[i as int] == line_view(ls@[i as int]));
    }
    match &l.kind {
        LineKind::Blank => p_top_exec(ls, i + 1, cloud, skipping),
        LineKind::KeyOnly(k) => {
            if l.indent > 0 {
                if skipping {
                    p_top_exec(ls, i + 1, cloud, skipping)
                } else {
                    Err(DocError::Syntax)
                }
            } else if chars_eq_str(k, "cloud") {
                if cloud.is_some() {
                    Err(DocError::DuplicateKey)
                } else {
                    p_cloud_exec(
                        ls,
                        i + 1,
                        Cloud { memory: None, cpus: None, platforms: None },
                        None,
                        false,
                    )
                }
            } else {
                p_top_exec(ls, i + 1, cloud, true)
            }
        },
        LineKind::KeyVal(k, _v) => {
            if l.indent > 0 {
                if skipping {
                    p_top_exec(ls, i + 1, cloud, skipping)
                } else {
                    Err(DocError::Syntax)
                }
            } else if chars_eq_str(k, "cloud") {
                Err(DocError::Syntax)
            } else {
                p_top_exec(ls, i + 1, cloud, true)
            }
        },
        _ => {
            if l.indent > 0 && skipping {
                p_top_exec(ls, i + 1, cloud, skipping)
            } else {
                Err(DocError::Syntax)
            }
        },
    }
}

/// The parser inside the cloud block.
fn p_cloud_exec(
    ls: &Vec<Line<Vec<char>>>,
    i: usize,
    acc: Cloud,
    level: Option<usize>,
    skipping: bool,
) -> (r: Result<Cloud, DocError>)
    requires
        i <= ls@.len(),
    ensures
        match r {
            Ok(c) => p_step(
                lines_view(ls@),
                i as int,
                PSt::InCloud { acc: cloud_view(acc), level, skipping },
            ) == Ok::<CloudView, DocError>(cloud_view(c)),
            Err(e) => p_step(
                lines_view(ls@),
                i as int,
                PSt::InCloud { acc: cloud_view(acc), level, skipping },
            ) == Err::<CloudView, DocError>(e),
        },
    decreases ls@.len() - i, 1int,
{
    if i >= ls.len() {
        return Ok(acc);
    }
    let l = &ls[i];
    proof {
        assert(lines_view(ls@)[i as int] == line_view(ls@[i as int]));
    }
    let blank = match &l.kind {
        LineKind::Blank => true,
        _ => false,
    };
    if blank {
        return p_cloud_exec(ls, i + 1, acc, level, skipping);
    }
    if level.is_none() && l.indent == 0 {
        return p_top_exec(ls, i, Some(acc), false);
    }
    if let Some(lv) = level {
        if l.indent > lv {
            if skipping {
                return p_cloud_exec(ls, i + 1, acc, level, skipping);
            } else {
                return Err(DocError::Syntax);
            }
        }
        if l.indent < lv {
            if l.indent == 0 {
                return p_top_exec(ls, i, Some(acc), false);
            } else {
                return Err(DocError::Syntax);
            }
        }
    }
    let lv = match level {
        Some(lv) => lv,
        None => l.indent,
    };
    match &l.kind {
        LineKind::KeyVal(k, v) => {
            if chars_eq_str(k, "memory") {
                if acc.memory.is_some() {
                    Err(DocError::DuplicateKey)
                } else {
                    p_cloud_exec(
                        ls,
                        i + 1,
                        Cloud { memory: Some(copy_chars(v)), cpus: acc.cpus, platforms: acc.platforms },
                        Some(lv),
                        false,
                    )
                }
            } else if chars_eq_str(k, "cpus") {
                if acc.cpus.is_some() {
                    Err(DocError::DuplicateKey)
                } else {
                    match parse_u32_chars(v) {
                        Some(n) => p_cloud_exec(
                            ls,
                            i + 1,
                            Cloud { memory: acc.memory, cpus: Some(n), platforms: acc.platforms },
                            Some(lv),
                            false,
                        ),
                        None => Err(DocError::InvalidNumber),
                    }
                }
            } else if chars_eq_str(k, "platforms") {
                Err(DocError::Syntax)
            } else {
                p_cloud_exec(ls, i + 1, acc, Some(lv), true)
            }
        },
        LineKind::KeyOnly(k) => {
            if chars_eq_str(k, "platforms") {
                if acc.platforms.is_some() {
                    Err(DocError::DuplicateKey)
                } else {
                    let empty_items: Vec<PlatformConfig<Vec<char>>> = Vec::new();
                    proof {
                        assert(items_view(empty_items@) =~= Seq::<
                            PlatformConfig<Seq<char>>,
                        >::empty());
                    }
                    p_items_exec(ls, i + 1, acc, lv, None, empty_items, None)
                }
            } else if chars_eq_str(k, "memory") || chars_eq_str(k, "cpus") {
                Err(DocError::Syntax)
            } else {
                p_cloud_exec(ls, i + 1, acc, Some(lv), true)
            }
        },
        _ => Err(DocError::Syntax),
    }
}

/// The parser inside the platform list.
fn p_items_exec(
    ls: &Vec<Line<Vec<char>>>,
    i: usize,
    acc: Cloud,
    level: usize,
    item_level: Option<usize>,
    items: Vec<PlatformConfig<Vec<char>>>,
    cur: Option<(Vec<char>, Option<Vec<char>>, Option<u32>)>,
) -> (r: Result<Cloud, DocError>)
    requires
        i <= ls@.len(),
    ensures
        match r {
            Ok(c) => p_step(
                lines_view(ls@),
                i as int,
                PSt::InItems {
                    acc: cloud_view(acc),
                    level,
                    item_level,
                    items: items_view(items@),
                    cur: cur_view(cur),
                },
            ) == Ok::<CloudView, DocError>(cloud_view(c)),
            Err(e) => p_step(
                lines_view(ls@),
                i as int,
                PSt::InItems {
                    acc: cloud_view(acc),
                    level,
                    item_level,
                    items: items_view(items@),
                    cur: cur_view(cur),
                },
            ) == Err::<CloudView, DocError>(e),
        },
    decreases ls@.len() - i, 2int,
{
    if i >= ls.len() {
        return Ok(close_and_set_cloud(acc, items, cur));
    }
    let l = &ls[i];
    proof {
        assert(lines_view(ls@)[i as int] == line_view(ls@[i as int]));
    }
    let blank = match &l.kind {
        LineKind::Blank => true,
        _ => false,
    };
    if blank {
        return p_items_exec(ls, i + 1, acc, level, item_level, items, cur);
    }
    match item_level {
        None => {
            if l.indent <= level {
                p_cloud_exec(ls, i, acc, Some(level), false)
            } else {
                match &l.kind {
                    LineKind::ItemScalar(name) => {
                        let mut items = items;
                        let ghost items0 = items@;
                        items.push(PlatformConfig::Simple(copy_chars(name)));
                        proof {
                            assert(items_view(items@) =~= items_view(items0).push(
                                PlatformConfig::Simple(name@),
                            ));
                        }
                        p_items_exec(ls, i + 1, acc, level, Some(l.indent), items, None)
                    },
                    LineKind::ItemKeyVal(k, v) => {
                        if chars_eq_str(k, "name") {
                            p_items_exec(
                                ls,
                                i + 1,
                                acc,
                                level,
                                Some(l.indent),
                                items,
                                Some((copy_chars(v), None, None)),
                            )
                        } else {
                            Err(DocError::Syntax)
                        }
                    },
                    _ => Err(DocError::Syntax),
                }
            }
        },
        Some(ip) => {
            if l.indent > ip {
                match cur {
                    Some((nm, mem, cp)) => {
                        match &l.kind {
                            LineKind::KeyVal(k, v) => {
                                if chars_eq_str(k, "memory") {
                                    if mem.is_some() {
                                        Err(DocError::DuplicateKey)
                                    } else {
                                        p_items_exec(
                                            ls,
                                            i + 1,
                                            acc,
                                            level,
                                            Some(ip),
                                            items,
                                            Some((nm, Some(copy_chars(v)), cp)),
                                        )
                                    }
                                } else if chars_eq_str(k, "cpus") {
                                    if cp.is_some() {
                                        Err(DocError::DuplicateKey)
                                    } else {
                                        match parse_u32_chars(v) {
                                            Some(n) => p_items_exec(
                                                ls,
                                                i + 1,
                                                acc,
                                                level,
                                                Some(ip),
                                                items,
                                                Some((nm, mem, Some(n))),
                                            ),
                                            None => Err(DocError::InvalidNumber),
                                        }
                                    }
                                } else {
                                    p_items_exec(
                                        ls,
                                        i + 1,
                                        acc,
                                        level,
                                        Some(ip),
                                        items,
                                        Some((nm, mem, cp)),
                                    )
                                }
                            },
                            LineKind::KeyOnly(_) => p_items_exec(
                                ls,
                                i + 1,
                                acc,
                                level,
                                Some(ip),
                                items,
                                Some((nm, mem, cp)),
                            ),
                            _ => Err(DocError::Syntax),
                        }
                    },
                    None => Err(DocError::Syntax),
                }
            } else if l.indent == ip {
                let closed = close_items_exec(items, cur);
                match &l.kind {
                    LineKind::ItemScalar(name) => {
                        let mut closed = closed;
                        let ghost closed0 = closed@;
                        closed.push(PlatformConfig::Simple(copy_chars(name)));
                        proof {
                            assert(items_view(closed@) =~= items_view(closed0).push(
                                PlatformConfig::Simple(name@),
                            ));
                        }
                        p_items_exec(ls, i + 1, acc, level, Some(ip), closed, None)
                    },
                    LineKind::ItemKeyVal(k, v) => {
                        if chars_eq_str(k, "name") {
                            p_items_exec(
                                ls,
                                i + 1,
                                acc,
                                level,
                                Some(ip),
                                closed,
                                Some((copy_chars(v), None, None)),
                            )
                        } else {
                            Err(DocError::Syntax)
                        }
                    },
                    _ => Err(DocError::Syntax),
                }
            } else {
                let folded = close_and_set_cloud(acc, items, cur);
                p_cloud_exec(ls, i, folded, Some(level), false)
            }
        },
    }
}

/// Close a pending detailed item into the gathered items.
fn close_items_exec(
    items: Vec<PlatformConfig<Vec<char>>>,
    cur: Option<(Vec<char>, Option<Vec<char>>, Option<u32>)>,
) -> (r: Vec<PlatformConfig<Vec<char>>>)
    ensures
        r@.map_values(|p: PlatformConfig<Vec<char>>| platform_config_view(p)) == close_items(
            items@.map_values(|p: PlatformConfig<Vec<char>>| platform_config_view(p)),
            match cur {
                Some((n, m, c)) => Some(
                    (
                        n@,
                        match m {
                            Some(mm) => Some(mm@),
                            None => None,
                        },
                        c,
                    ),
                ),
                None => None,
            },
        ),
{
    let mut items = items;
    match cur {
        Some((n, m, c)) => {
            items.push(PlatformConfig::Detailed { name: n, memory: m, cpus: c });
            proof {
                assert(items@.map_values(|p: PlatformConfig<Vec<char>>| platform_config_view(p))
                    =~= close_items(
                    items@.drop_last().map_values(
                        |p: PlatformConfig<Vec<char>>| platform_config_view(p),
                    ),
                    Some(
                        (
                            n@,
                            match m {
                                Some(mm) => Some(mm@),
                                None => None,
                            },
                            c,
                        ),
                    ),
                ));
            }
            items
        },
        None => items,
    }
}

/// Close the pending item and write the platform list into the block.
fn close_and_set_cloud(
    acc: Cloud,
    items: Vec<PlatformConfig<Vec<char>>>,
    cur: Option<(Vec<char>, Option<Vec<char>>, Option<u32>)>,
) -> (r: Cloud)
    ensures
        cloud_view(r) == set_platforms(
            cloud_view(acc),
            close_items(
                items@.map_values(|p: PlatformConfig<Vec<char>>| platform_config_view(p)),
                match cur {
                    Some((n, m, c)) => Some(
                        (
                            n@,
                            match m {
                                Some(mm) => Some(mm@),
                                None => None,
                            },
                            c,
                        ),
                    ),
                    None => None,
                },
            ),
        ),
{
    let closed = close_items_exec(items, cur);
    if closed.len() > 0 {
        Cloud { memory: acc.memory, cpus: acc.cpus, platforms: Some(closed) }
    } else {
        Cloud { memory: acc.memory, cpus: acc.cpus, platforms: None }
    }
}


/// Parse a memory size such as `512mb` or `4gb`, case-insensitively,
/// into megabytes; one gigabyte is 1024 megabytes.
pub fn parse_memory(s: &str) -> (r: Result<u32, String>)
    ensures
        spec_parse_memory(s@) matches Ok(mb) ==> r == Ok::<u32, String>(mb),
        spec_parse_memory(s@) matches Err(m) ==> (r matches Err(e) && e@ == m),
{
    let chars = str_to_chars(s);
    let t = lower_chars(&trim_chars(&chars));
    proof {
        reveal_strlit("gb");
        reveal_strlit("mb");
        assert("gb"@ =~= seq!['g', 'b']);
        assert("mb"@ =~= seq!['m', 'b']);
    }
    if ends_with2(&t, 'g', 'b') {
        let num = trim_chars(&strip_suffix2(t.clone(), 'g', 'b'));
        match parse_u32_chars(&num) {
            Some(n) => {
                if n <= u32::MAX / 1024 {
                    Ok(n * 1024)
                } else {
                    Err(String::from_str("Invalid memory size: ").concat(chars_to_string(&t).as_str()))
                }
            },
            None => Err(String::from_str("Invalid memory size: ").concat(chars_to_string(&t).as_str())),
        }
    } else if ends_with2(&t, 'm', 'b') {
        let num = trim_chars(&strip_suffix2(t.clone(), 'm', 'b'));
        match parse_u32_chars(&num) {
            Some(n) => Ok(n),
            None => Err(String::from_str("Invalid memory size: ").concat(chars_to_string(&t).as_str())),
        }
    } else {
        Err(
            String::from_str("Memory size must end with 'mb' or 'gb': ").concat(
                chars_to_string(&t).as_str(),
            ),
        )
    }
}


/// The platform entries a document without a list gets: both known
/// platforms, Linux first.
pub open spec fn default_platforms() -> Seq<PlatformConfig<Seq<char>>> {
    seq![
        PlatformConfig::Simple(crate::protocol::platform_name(Platform::X86_64Linux)),
        PlatformConfig::Simple(crate::protocol::platform_name(Platform::AArch64Darwin)),
    ]
}

/// The message refusing an unknown platform name.
pub open spec fn platform_not_supported_msg(name: Seq<char>) -> Seq<char> {
    "Platform '"@ + name
        + "' is not supported. Only 'x86_64-linux' and 'aarch64-darwin' are allowed"@
}

/// One platform entry as a VM: the name must be a known platform, and
/// its overrides, where present, replace the cloud defaults.
pub open spec fn spec_build_vm(
    p: PlatformConfig<Seq<char>>,
    cloud_mb: u32,
    cloud_cpus: u32,
) -> Result<VM, Seq<char>> {
    let name = match p {
        PlatformConfig::Simple(n) => n,
        PlatformConfig::Detailed { name, .. } => name,
    };
    if name != crate::protocol::platform_name(Platform::X86_64Linux) && name
        != crate::protocol::platform_name(Platform::AArch64Darwin) {
        Err(platform_not_supported_msg(name))
    } else {
        let platform = if name == crate::protocol::platform_name(Platform::X86_64Linux) {
            Platform::X86_64Linux
        } else {
            Platform::AArch64Darwin
        };
        let mem = match p {
            PlatformConfig::Detailed { memory: Some(m), .. } => spec_parse_memory(m),
            _ => Ok(cloud_mb),
        };
        match mem {
            Err(e) => Err(e),
            Ok(mb) => {
                let cpus = match p {
                    PlatformConfig::Detailed { cpus: Some(c), .. } => c,
                    _ => cloud_cpus,
                };
                Ok(VM { cpu_count: cpus as usize, memory_size_mb: mb as u64, platform })
            },
        }
    }
}

/// The VM of every entry in order; the first failing entry decides the
/// error.
pub open spec fn spec_build_vms(
    ps: Seq<PlatformConfig<Seq<char>>>,
    cloud_mb: u32,
    cloud_cpus: u32,
) -> Result<Seq<VM>, Seq<char>>
    decreases ps.len(),
{
    if ps.len() == 0 {
        Ok(Seq::empty())
    } else {
        match spec_build_vm(ps[0], cloud_mb, cloud_cpus) {
            Err(e) => Err(e),
            Ok(vm) => match spec_build_vms(ps.drop_first(), cloud_mb, cloud_cpus) {
                Err(e) => Err(e),
                Ok(rest) => Ok(seq![vm] + rest),
            },
        }
    }
}

/// The VM set of a parsed cloud block: cloud memory defaults to 4gb,
/// cloud CPUs to 2, and the platform list to both known platforms.
pub open spec fn spec_build(c: CloudView) -> Result<Seq<VM>, Seq<char>> {
    let mem_src = match c.memory {
        Some(m) => m,
        None => "4gb"@,
    };
    match spec_parse_memory(mem_src) {
        Err(e) => Err(e),
        Ok(cloud_mb) => {
            let cloud_cpus = match c.cpus {
                Some(n) => n,
                None => 2u32,
            };
            let ps = match c.platforms {
                Some(ps) => ps,
                None => default_platforms(),
            };
            spec_build_vms(ps, cloud_mb, cloud_cpus)
        },
    }
}

/// The message of a refused document.
pub open spec fn doc_error_text(e: DocError) -> Seq<char> {
    match e {
        DocError::Syntax => "Failed to parse YAML: unsupported document structure"@,
        DocError::DuplicateKey => "Failed to parse YAML: duplicate key"@,
        DocError::InvalidNumber => "Failed to parse YAML: invalid number"@,
    }
}

/// End to end: the VM set a document describes, or the message
/// refusing it.
pub open spec fn spec_cloud_vms(s: Seq<char>) -> Result<Seq<VM>, Seq<char>> {
    match spec_parse_cloud(s) {
        Err(e) => Err(doc_error_text(e)),
        Ok(c) => spec_build(c),
    }
}

/// Build one VM from an entry.
fn build_vm_exec(p: &PlatformConfig<Vec<char>>, cloud_mb: u32, cloud_cpus: u32) -> (r: Result<
    VM,
    String,
>)
    ensures
        spec_build_vm(platform_config_view(*p), cloud_mb, cloud_cpus) matches Ok(vm) ==> r
            == Ok::<VM, String>(vm),
        spec_build_vm(platform_config_view(*p), cloud_mb, cloud_cpus) matches Err(m) ==> (r
            matches Err(e) && e@ == m),
{
    let name: &Vec<char> = match p {
        PlatformConfig::Simple(n) => n,
        PlatformConfig::Detailed { name, .. } => name,
    };
    let is_linux_name = chars_eq_str(name, "x86_64-linux");
    let is_darwin_name = chars_eq_str(name, "aarch64-darwin");
    if !is_linux_name && !is_darwin_name {
        return Err(
            String::from_str("Platform '").concat(chars_to_string(name).as_str()).concat(
                "' is not supported. Only 'x86_64-linux' and 'aarch64-darwin' are allowed",
            ),
        );
    }
    let platform = if is_linux_name {
        Platform::X86_64Linux
    } else {
        Platform::AArch64Darwin
    };
    let mb = match p {
        PlatformConfig::Detailed { memory: Some(m), .. } => {
            match parse_memory(chars_to_string(m).as_str()) {
                Ok(mb) => mb,
                Err(e) => {
                    return Err(e);
                },
            }
        },
        _ => cloud_mb,
    };
    let cpus = match p {
        PlatformConfig::Detailed { cpus: Some(c), .. } => *c,
        _ => cloud_cpus,
    };
    Ok(VM { cpu_count: cpus as usize, memory_size_mb: mb as u64, platform })
}

/// Build the VMs of all entries from `i` on.
fn build_vms_exec(ps: &Vec<PlatformConfig<Vec<char>>>, i: usize, cloud_mb: u32, cloud_cpus: u32) -> (r:
    Result<Vec<VM>, String>)
    requires
        i <= ps@.len(),
    ensures
        spec_build_vms(items_view(ps@).subrange(i as int, ps@.len() as int), cloud_mb, cloud_cpus)
            matches Ok(vms) ==> (r matches Ok(v) && v@ == vms),
        spec_build_vms(items_view(ps@).subrange(i as int, ps@.len() as int), cloud_mb, cloud_cpus)
            matches Err(m) ==> (r matches Err(e) && e@ == m),
    decreases ps@.len() - i,
{
    let ghost tail = items_view(ps@).subrange(i as int, ps@.len() as int);
    if i >= ps.len() {
        let empty: Vec<VM> = Vec::new();
        proof {
            assert(tail =~= Seq::<PlatformConfig<Seq<char>>>::empty());
            assert(empty@ =~= Seq::<VM>::empty());
        }
        return Ok(empty);
    }
    proof {
        assert(tail[0] == items_view(ps@)[i as int]);
        assert(tail.drop_first() =~= items_view(ps@).subrange(i + 1, ps@.len() as int));
    }
    match build_vm_exec(&ps[i], cloud_mb, cloud_cpus) {
        Err(e) => Err(e),
        Ok(vm) => {
            match build_vms_exec(ps, i + 1, cloud_mb, cloud_cpus) {
                Err(e) => Err(e),
                Ok(rest) => {
                    let mut rest = rest;
                    let ghost rest0 = rest@;
                    rest.insert(0, vm);
                    proof {
                        assert(rest@ =~= seq![vm] + rest0);
                    }
                    Ok(rest)
                },
            }
        },
    }
}

/// Build the VM set of a parsed cloud block.
fn build_cloud_exec(c: Cloud) -> (r: Result<Vec<VM>, String>)
    ensures
        spec_build(cloud_view(c)) matches Ok(vms) ==> (r matches Ok(v) && v@ == vms),
        spec_build(cloud_view(c)) matches Err(m) ==> (r matches Err(e) && e@ == m),
{
    let cloud_mb = match &c.memory {
        Some(m) => {
            match parse_memory(chars_to_string(m).as_str()) {
                Ok(mb) => mb,
                Err(e) => {
                    return Err(e);
                },
            }
        },
        None => {
            match parse_memory("4gb") {
                Ok(mb) => mb,
                Err(e) => {
                    return Err(e);
                },
            }
        },
    };
    let cloud_cpus = match c.cpus {
        Some(n) => n,
        None => 2,
    };
    match c.platforms {
        Some(ps) => {
            proof {
                assert(items_view(ps@).subrange(0, ps@.len() as int) =~= items_view(ps@));
            }
            build_vms_exec(&ps, 0, cloud_mb, cloud_cpus)
        },
        None => {
            let mut defaults: Vec<PlatformConfig<Vec<char>>> = Vec::new();
            defaults.push(PlatformConfig::Simple(str_to_chars("x86_64-linux")));
            defaults.push(PlatformConfig::Simple(str_to_chars("aarch64-darwin")));
            proof {
                assert(items_view(defaults@) =~= default_platforms());
                assert(items_view(defaults@).subrange(0, defaults@.len() as int) =~= items_view(
                    defaults@,
                ));
            }
            build_vms_exec(&defaults, 0, cloud_mb, cloud_cpus)
        },
    }
}

/// The collection of VM configurations a cloud-config document
/// describes.
#[derive(Debug)]
pub struct FinalCloud(Vec<VM>);

impl View for FinalCloud {
    type V = Seq<VM>;

    closed spec fn view(&self) -> Seq<VM> {
        self.0@
    }
}

impl FinalCloud {
    /// Read a cloud-config document. An empty or comment-only document
    /// yields the default pair of platforms with the default sizing;
    /// an unknown platform name is a hard error naming the platform.
    pub fn new(devenv_config_str: &str) -> (r: Result<FinalCloud, String>)
        ensures
            spec_cloud_vms(devenv_config_str@) matches Ok(vms) ==> (r matches Ok(fc) && fc@
                == vms),
            spec_cloud_vms(devenv_config_str@) matches Err(m) ==> (r matches Err(e) && e@ == m),
    {
        let chars = str_to_chars(devenv_config_str);
        let lines = scan_doc(&chars);
        match p_top_exec(&lines, 0, None, false) {
            Err(e) => {
                let msg = match e {
                    DocError::Syntax => String::from_str(
                        "Failed to parse YAML: unsupported document structure",
                    ),
                    DocError::DuplicateKey => String::from_str("Failed to parse YAML: duplicate key"),
                    DocError::InvalidNumber => String::from_str(
                        "Failed to parse YAML: invalid number",
                    ),
                };
                Err(msg)
            },
            Ok(c) => {
                match build_cloud_exec(c) {
                    Err(e) => Err(e),
                    Ok(vms) => Ok(FinalCloud(vms)),
                }
            },
        }
    }

    /// The VMs this document describes, in document order.
    pub fn vms(&self) -> (r: &Vec<VM>)
        ensures
            r@ == self@,
    {
        &self.0
    }

    /// The VMs, consuming the collection.
    pub fn into_vms(self) -> (r: Vec<VM>)
        ensures
            r@ == self@,
    {
        self.0
    }
}


/// The canonical entry of one VM: its platform spelled out with its
/// memory and CPU count.
pub open spec fn canonical_entry(vm: VM) -> PlatformConfig<Seq<char>> {
    PlatformConfig::Detailed {
        name: crate::protocol::platform_name(vm.platform),
        memory: Some(crate::text::dec_of(vm.memory_size_mb as nat) + "mb"@),
        cpus: Some(vm.cpu_count as u32),
    }
}

/// The canonical entries of a VM set, in order.
pub open spec fn canonical_entries(vms: Seq<VM>) -> Seq<PlatformConfig<Seq<char>>> {
    Seq::new(vms.len(), |i: int| canonical_entry(vms[i]))
}

/// The canonical block of a VM set: no cloud defaults, every platform
/// fully specified.
pub open spec fn canonical_cloud(vms: Seq<VM>) -> CloudView {
    CloudView { memory: None, cpus: None, platforms: Some(canonical_entries(vms)) }
}

/// A VM whose numbers the document's types can carry back.
pub open spec fn vm_renderable(vm: VM) -> bool {
    vm.cpu_count <= u32::MAX && vm.memory_size_mb <= u32::MAX
}

/// A decimal digit value reads back as itself.
proof fn lemma_dec_digit_roundtrip(d: nat)
    requires
        d < 10,
    ensures
        is_dec_digit(crate::text::dec_digit_char(d)),
        crate::text::dec_digit_val(crate::text::dec_digit_char(d)) == d,
        !is_space(crate::text::dec_digit_char(d)),
        lower_char(crate::text::dec_digit_char(d)) == crate::text::dec_digit_char(d),
        crate::text::dec_digit_char(d) != 'b',
        crate::text::dec_digit_char(d) != '+',
{
}

/// A rendered number is one or more decimal digits and reads back as
/// the number.
proof fn lemma_dec_of_digits(n: nat)
    ensures
        crate::text::dec_of(n).len() >= 1,
        forall|i: int|
            0 <= i < crate::text::dec_of(n).len() ==> is_dec_digit(
                #[trigger] crate::text::dec_of(n)[i],
            ),
        crate::text::dec_val(crate::text::dec_of(n)) == n,
    decreases n,
{
    if n < 10 {
        lemma_dec_digit_roundtrip(n);
        assert(crate::text::dec_of(n) =~= seq![crate::text::dec_digit_char(n)]);
        assert(crate::text::dec_of(n).drop_last() =~= Seq::<char>::empty());
        assert(crate::text::dec_val(Seq::<char>::empty()) == 0);
        assert(crate::text::dec_of(n).last() == crate::text::dec_digit_char(n));
    } else {
        lemma_dec_of_digits(n / 10);
        lemma_dec_digit_roundtrip(n % 10);
        let s = crate::text::dec_of(n);
        assert(s == crate::text::dec_of(n / 10) + seq![crate::text::dec_digit_char(n % 10)]);
        assert(s.drop_last() =~= crate::text::dec_of(n / 10));
        assert(s.last() == crate::text::dec_digit_char(n % 10));
        assert forall|i: int| 0 <= i < s.len() implies is_dec_digit(#[trigger] s[i]) by {
            if i < s.len() - 1 {
                assert(s[i] == crate::text::dec_of(n / 10)[i]);
            }
        }
    }
}

/// Digits carry no whitespace, no upper case, no suffix letter and no
/// sign.
proof fn lemma_digit_seq_plain(s: Seq<char>)
    requires
        forall|i: int| 0 <= i < s.len() ==> is_dec_digit(#[trigger] s[i]),
    ensures
        trim_left(s) == s,
        trim_right(s) == s,
        to_lower(s) == s,
        s.len() > 0 ==> s[0] != '+',
{
    if s.len() > 0 {
        assert(is_dec_digit(s[0]));
        assert(is_dec_digit(s.last()));
    }
    assert(to_lower(s) =~= s);
}

/// The canonical memory text reads back as its megabyte count.
proof fn lemma_parse_memory_canonical(m: u64)
    requires
        m <= u32::MAX,
    ensures
        spec_parse_memory(crate::text::dec_of(m as nat) + "mb"@) == Ok::<u32, Seq<char>>(m as u32),
{
    reveal_strlit("mb");
    reveal_strlit("gb");
    assert("mb"@ =~= seq!['m', 'b']);
    assert("gb"@ =~= seq!['g', 'b']);
    let digits = crate::text::dec_of(m as nat);
    lemma_dec_of_digits(m as nat);
    let s = digits + "mb"@;
    assert(s[0] == digits[0]);
    lemma_dec_digit_roundtrip(crate::text::dec_digit_val(digits[0]));
    // the whole text has no surrounding whitespace and no upper case
    assert(!is_space(s[0]));
    assert(s.last() == 'b');
    assert(trim_left(s) == s);
    assert(trim_right(s) == s);
    assert(to_lower(s) =~= s) by {
        assert forall|i: int| 0 <= i < s.len() implies lower_char(s[i]) == s[i] by {
            if i < digits.len() {
                assert(s[i] == digits[i]);
            } else {
                assert(s[i] == "mb"@[i - digits.len()]);
            }
        }
    }
    let t = to_lower(spec_trim(s));
    assert(t == s);
    assert(!ends_with(t, "gb"@)) by {
        assert(t.subrange(t.len() - 2, t.len() as int)[0] == t[t.len() - 2]);
        assert(t[t.len() - 2] == 'm');
    }
    assert(ends_with(t, "mb"@)) by {
        assert(t.subrange(t.len() - 2, t.len() as int) =~= "mb"@);
    }
    assert(strip_repeated_suffix(t, "mb"@) == digits) by {
        reveal_with_fuel(strip_repeated_suffix, 3);
        assert(t.subrange(0, t.len() - 2) =~= digits);
        if digits.len() >= 2 {
            assert(!ends_with(digits, "mb"@)) by {
                assert(digits.subrange(digits.len() - 2, digits.len() as int)[1]
                    == digits.last());
                assert(is_dec_digit(digits.last()));
            }
        }
    }
    lemma_digit_seq_plain(digits);
    let num = spec_trim(strip_repeated_suffix(t, "mb"@));
    assert(num == digits);
    assert(crate::text::dec_digits_of(num) == digits);
    assert forall|i: int| 0 <= i < crate::text::dec_digits_of(num).len() implies is_dec_digit(
        #[trigger] crate::text::dec_digits_of(num)[i],
    ) by {
        assert(crate::text::dec_digits_of(num)[i] == digits[i]);
    }
    assert(crate::text::u32_dec_parses(num));
    assert(crate::text::u32_dec_value(num) == m);
}

/// The canonical entry of a renderable VM builds back to the VM,
/// whatever the cloud defaults are.
proof fn lemma_build_vm_canonical(vm: VM, cloud_mb: u32, cloud_cpus: u32)
    requires
        vm_renderable(vm),
    ensures
        spec_build_vm(canonical_entry(vm), cloud_mb, cloud_cpus) == Ok::<VM, Seq<char>>(vm),
{
    reveal_strlit("x86_64-linux");
    reveal_strlit("aarch64-darwin");
    assert("x86_64-linux"@.len() == 12);
    assert("aarch64-darwin"@.len() == 14);
    lemma_parse_memory_canonical(vm.memory_size_mb);
}

/// The canonical entries of a renderable VM set build back to the set.
proof fn lemma_build_vms_canonical(vms: Seq<VM>, cloud_mb: u32, cloud_cpus: u32)
    requires
        forall|i: int| 0 <= i < vms.len() ==> vm_renderable(#[trigger] vms[i]),
    ensures
        spec_build_vms(canonical_entries(vms), cloud_mb, cloud_cpus) == Ok::<Seq<VM>, Seq<char>>(
            vms,
        ),
    decreases vms.len(),
{
    let entries = canonical_entries(vms);
    if vms.len() == 0 {
        assert(entries.len() == 0);
        assert(vms =~= Seq::<VM>::empty());
    } else {
        lemma_build_vm_canonical(vms[0], cloud_mb, cloud_cpus);
        lemma_build_vms_canonical(vms.drop_first(), cloud_mb, cloud_cpus);
        assert(entries[0] == canonical_entry(vms[0]));
        assert(entries.drop_first() =~= canonical_entries(vms.drop_first()));
        assert(seq![vms[0]] + vms.drop_first() =~= vms);
    }
}

/// Round trip of the document's content: building the canonical block
/// of any non-empty set of renderable VMs yields exactly that set —
/// parsing what the serializer writes gives the written set back. (An
/// empty set is left out: it renders as an absent list, which reads
/// back as the default platform pair.)
pub proof fn lemma_cloud_roundtrip(vms: Seq<VM>)
    requires
        vms.len() > 0,
        forall|i: int| 0 <= i < vms.len() ==> vm_renderable(#[trigger] vms[i]),
    ensures
        spec_build(canonical_cloud(vms)) == Ok::<Seq<VM>, Seq<char>>(vms),
{
    reveal_strlit("4gb");
    lemma_build_vms_canonical(vms, 4096, 2);
    assert(spec_parse_memory("4gb"@) == Ok::<u32, Seq<char>>(4096)) by {
        lemma_default_memory_parses();
    }
}

/// The default memory text parses to 4096 megabytes.
proof fn lemma_default_memory_parses()
    ensures
        spec_parse_memory("4gb"@) == Ok::<u32, Seq<char>>(4096),
{
    reveal_strlit("4gb");
    reveal_strlit("gb");
    reveal_strlit("mb");
    assert("gb"@ =~= seq!['g', 'b']);
    let s = "4gb"@;
    assert(s.len() == 3);
    assert(s[0] == '4' && s[1] == 'g' && s[2] == 'b');
    assert(trim_left(s) == s);
    assert(trim_right(s) == s);
    assert(to_lower(s) =~= s);
    let t = to_lower(spec_trim(s));
    assert(t == s);
    assert(ends_with(t, "gb"@)) by {
        assert(t.subrange(1, 3) =~= "gb"@);
    }
    let stripped = strip_repeated_suffix(t, "gb"@);
    assert(stripped == seq!['4']) by {
        reveal_with_fuel(strip_repeated_suffix, 3);
        assert(t.subrange(0, 1) =~= seq!['4']);
        assert(!ends_with(seq!['4'], "gb"@));
    }
    let num = spec_trim(stripped);
    assert(!is_space('4'));
    assert(num == seq!['4']);
    assert(crate::text::dec_digits_of(num) =~= num);
    assert(crate::text::dec_val(num) == 4) by {
        assert(num.drop_last() =~= Seq::<char>::empty());
        assert(crate::text::dec_val(Seq::<char>::empty()) == 0);
    }
    assert forall|i: int| 0 <= i < crate::text::dec_digits_of(num).len() implies is_dec_digit(
        #[trigger] crate::text::dec_digits_of(num)[i],
    ) by {
        assert(crate::text::dec_digits_of(num)[i] == '4');
    }
    assert(crate::text::u32_dec_parses(num));
}


/// Splitting from `i` is splitting the tail that starts at `i`.
proof fn lemma_split_shift(s: Seq<char>, i: int)
    requires
        0 <= i <= s.len(),
    ensures
        split_lines_from(s, i) == split_lines_from(s.subrange(i, s.len() as int), 0),
    decreases s.len() - i + 1,
{
    lemma_scan_nl(s, i);
    let tail = s.subrange(i, s.len() as int);
    let k = scan_nl(s, i);
    lemma_scan_nl_pin(tail, 0, k - i);
    assert(tail.subrange(0, k - i) =~= s.subrange(i, k));
    if k == s.len() {
    } else {
        lemma_split_shift(s, k + 1);
        assert(tail.subrange(k - i + 1, tail.len() as int) =~= s.subrange(k + 1, s.len() as int));
        lemma_split_shift(tail, k - i + 1);
    }
}

/// One newline-terminated line at the front splits off exactly.
proof fn lemma_split_one(line: Seq<char>, rest: Seq<char>)
    requires
        forall|k: int| 0 <= k < line.len() ==> line[k] != '\n',
    ensures
        spec_split_lines(line + seq!['\n'] + rest) == seq![line] + spec_split_lines(rest),
{
    let s = line + seq!['\n'] + rest;
    lemma_scan_nl_pin(s, 0, line.len() as int);
    assert(s.subrange(0, line.len() as int) =~= line);
    assert(scan_nl(s, 0) < s.len());
    lemma_split_shift(s, line.len() as int + 1);
    assert(s.subrange(line.len() as int + 1, s.len() as int) =~= rest);
}

/// The empty document is one empty line.
proof fn lemma_split_empty()
    ensures
        spec_split_lines(Seq::<char>::empty()) =~= seq![Seq::<char>::empty()],
{
    assert(Seq::<char>::empty().subrange(0, 0) =~= Seq::<char>::empty());
}

/// The classified line a rendered name entry makes.
pub open spec fn name_line(vm: VM) -> Line<Seq<char>> {
    Line {
        indent: 4,
        kind: LineKind::ItemKeyVal("name"@, crate::protocol::platform_name(vm.platform)),
    }
}

/// The classified line a rendered memory override makes.
pub open spec fn mem_line(vm: VM) -> Line<Seq<char>> {
    Line {
        indent: 6,
        kind: LineKind::KeyVal("memory"@, crate::text::dec_of(vm.memory_size_mb as nat) + "mb"@),
    }
}

/// The classified line a rendered CPU override makes.
pub open spec fn cpus_line(vm: VM) -> Line<Seq<char>> {
    Line { indent: 6, kind: LineKind::KeyVal("cpus"@, crate::text::dec_of(vm.cpu_count as nat)) }
}

/// The facts shared by both platform names: non-empty, and no
/// character that could disturb a scalar.
proof fn lemma_platform_name_plain(p: Platform)
    ensures
        crate::protocol::platform_name(p).len() > 0,
        forall|k: int|
            0 <= k < crate::protocol::platform_name(p).len() ==> {
                &&& #[trigger] crate::protocol::platform_name(p)[k] != '\n'
                &&& crate::protocol::platform_name(p)[k] != ':'
                &&& !is_space(crate::protocol::platform_name(p)[k])
            },
{
    reveal_strlit("x86_64-linux");
    reveal_strlit("aarch64-darwin");
    match p {
        Platform::X86_64Linux => {
            assert(crate::protocol::platform_name(p) == "x86_64-linux"@);
            assert forall|k: int| 0 <= k < "x86_64-linux"@.len() implies {
                &&& #[trigger] crate::protocol::platform_name(p)[k] != '\n'
                &&& crate::protocol::platform_name(p)[k] != ':'
                &&& !is_space(crate::protocol::platform_name(p)[k])
            } by {
                assert("x86_64-linux"@.len() == 12);
            }
        },
        Platform::AArch64Darwin => {
            assert(crate::protocol::platform_name(p) == "aarch64-darwin"@);
            assert forall|k: int| 0 <= k < "aarch64-darwin"@.len() implies {
                &&& #[trigger] crate::protocol::platform_name(p)[k] != '\n'
                &&& crate::protocol::platform_name(p)[k] != ':'
                &&& !is_space(crate::protocol::platform_name(p)[k])
            } by {
                assert("aarch64-darwin"@.len() == 14);
            }
        },
    }
}

/// Decimal digits disturb nothing either.
proof fn lemma_digits_plain(n: nat)
    ensures
        crate::text::dec_of(n).len() > 0,
        forall|k: int|
            0 <= k < crate::text::dec_of(n).len() ==> {
                &&& #[trigger] crate::text::dec_of(n)[k] != '\n'
                &&& crate::text::dec_of(n)[k] != ':'
                &&& !is_space(crate::text::dec_of(n)[k])
            },
{
    lemma_dec_of_digits(n);
    assert forall|k: int| 0 <= k < crate::text::dec_of(n).len() implies {
        &&& #[trigger] crate::text::dec_of(n)[k] != '\n'
        &&& crate::text::dec_of(n)[k] != ':'
        &&& !is_space(crate::text::dec_of(n)[k])
    } by {
        assert(is_dec_digit(crate::text::dec_of(n)[k]));
    }
}


/// The rendered `cloud:` header classifies as its key.
proof fn lemma_classify_cloud_header()
    ensures
        spec_classify("cloud:"@) == (Line { indent: 0, kind: LineKind::KeyOnly("cloud"@) }),
{
    reveal_strlit("cloud:");
    reveal_strlit("cloud");
    let l = "cloud:"@;
    assert(l.len() == 6);
    lemma_indent_at(l, 0);
    lemma_trim_right_at(l, 6);
    let c = trim_right(l.subrange(0, 6));
    assert(l.subrange(0, 6) =~= l);
    assert(c == l.subrange(0, 6));
    lemma_first_colon_at(c, 5);
    assert(c.subrange(0, 5) =~= "cloud"@);
    lemma_trim_right_at("cloud"@, 5);
    assert("cloud"@.subrange(0, 5) =~= "cloud"@);
    assert(split_kv(c) == Some(("cloud"@, Seq::<char>::empty())));
}

/// The rendered `  platforms:` header classifies as its key.
proof fn lemma_classify_platforms_header()
    ensures
        spec_classify("  platforms:"@) == (Line { indent: 2, kind: LineKind::KeyOnly("platforms"@) }),
{
    reveal_strlit("  platforms:");
    reveal_strlit("platforms");
    let l = "  platforms:"@;
    assert(l.len() == 12);
    lemma_indent_at(l, 2);
    let body = l.subrange(2, 12);
    assert(body.len() == 10);
    assert(body[9] == ':');
    lemma_trim_right_at(body, 10);
    let c = trim_right(body);
    assert(body.subrange(0, 10) =~= body);
    assert(c == body);
    lemma_first_colon_at(c, 9);
    assert(c.subrange(0, 9) =~= "platforms"@);
    lemma_trim_right_at("platforms"@, 9);
    assert("platforms"@.subrange(0, 9) =~= "platforms"@);
    assert(split_kv(c) == Some(("platforms"@, Seq::<char>::empty())));
}

/// An empty line classifies as blank.
proof fn lemma_classify_empty()
    ensures
        spec_classify(Seq::<char>::empty()) == (Line { indent: 0, kind: LineKind::<Seq<char>>::Blank }),
{
    let l = Seq::<char>::empty();
    lemma_indent_at(l, 0);
    assert(l.subrange(0, 0) =~= l);
    lemma_trim_right_at(l, 0);
}

/// A rendered platform entry's first line classifies as its name.
proof fn lemma_classify_name_line(vm: VM)
    ensures
        spec_classify("    - name: "@ + crate::protocol::platform_name(vm.platform)) == name_line(
            vm,
        ),
{
    reveal_strlit("    - name: ");
    reveal_strlit("name");
    let pre = "    - name: "@;
    assert(pre.len() == 12);
    let n = crate::protocol::platform_name(vm.platform);
    lemma_platform_name_plain(vm.platform);
    let l = pre + n;
    assert forall|k: int| 0 <= k < 12 implies l[k] == pre[k] by {}
    assert forall|k: int| 12 <= k < l.len() implies l[k] == n[k - 12] by {}
    lemma_indent_at(l, 4);
    let body = l.subrange(4, l.len() as int);
    assert(body.len() >= 9);
    assert(body.last() == n.last());
    assert(!is_space(body.last()));
    lemma_trim_right_at(body, body.len() as int);
    assert(body.subrange(0, body.len() as int) =~= body);
    let c = body;
    assert(c[0] == '-');
    assert(c[1] == ' ');
    let after_dash = c.subrange(2, c.len() as int);
    assert(after_dash[0] == l[6]);
    assert(!is_space(after_dash[0]));
    lemma_trim_left_at(after_dash, 0);
    assert(after_dash.subrange(0, after_dash.len() as int) =~= after_dash);
    let inner = after_dash;
    assert forall|k: int| 0 <= k < 4 implies inner[k] != ':' by {
        assert(inner[k] == l[k + 6]);
    }
    assert(inner[4] == l[10]);
    lemma_first_colon_at(inner, 4);
    assert(inner.subrange(0, 4) =~= "name"@);
    lemma_trim_right_at("name"@, 4);
    assert("name"@.subrange(0, 4) =~= "name"@);
    assert(inner[5] == l[11]);
    assert(inner[5] == ' ');
    let raw_value = inner.subrange(5, inner.len() as int);
    assert(raw_value[0] == ' ');
    assert(raw_value.len() == n.len() + 1);
    assert forall|k: int| 1 <= k < raw_value.len() implies raw_value[k] == n[k - 1] by {
        assert(raw_value[k] == l[k + 11]);
    }
    assert(!is_space(raw_value[1]));
    lemma_trim_left_at(raw_value, 1);
    assert(raw_value.subrange(1, raw_value.len() as int) =~= n);
    lemma_trim_right_at(n, n.len() as int);
    assert(n.subrange(0, n.len() as int) =~= n);
    assert(split_kv(inner) == Some(("name"@, n)));
}

/// A rendered memory override classifies as its key and value.
proof fn lemma_classify_mem_line(vm: VM)
    ensures
        spec_classify(
            "      memory: "@ + crate::text::dec_of(vm.memory_size_mb as nat) + "mb"@,
        ) == mem_line(vm),
{
    reveal_strlit("      memory: ");
    reveal_strlit("memory");
    reveal_strlit("mb");
    let pre = "      memory: "@;
    assert(pre.len() == 14);
    let d = crate::text::dec_of(vm.memory_size_mb as nat);
    lemma_digits_plain(vm.memory_size_mb as nat);
    let v = d + "mb"@;
    let l = pre + d + "mb"@;
    assert(l =~= pre + v);
    assert forall|k: int| 0 <= k < 14 implies l[k] == pre[k] by {}
    assert forall|k: int| 14 <= k < l.len() implies l[k] == v[k - 14] by {}
    assert("mb"@.len() == 2);
    assert(v.last() == 'b');
    lemma_indent_at(l, 6);
    let body = l.subrange(6, l.len() as int);
    assert(body.last() == 'b');
    lemma_trim_right_at(body, body.len() as int);
    assert(body.subrange(0, body.len() as int) =~= body);
    let c = body;
    assert(c[0] == 'm');
    assert forall|k: int| 0 <= k < 6 implies c[k] != ':' by {
        assert(c[k] == l[k + 6]);
    }
    assert(c[6] == l[12]);
    lemma_first_colon_at(c, 6);
    assert(c.subrange(0, 6) =~= "memory"@);
    lemma_trim_right_at("memory"@, 6);
    assert("memory"@.subrange(0, 6) =~= "memory"@);
    assert(c[7] == l[13]);
    assert(c[7] == ' ');
    let raw_value = c.subrange(7, c.len() as int);
    assert(raw_value[0] == ' ');
    assert(raw_value.len() == v.len() + 1);
    assert forall|k: int| 1 <= k < raw_value.len() implies raw_value[k] == v[k - 1] by {
        assert(raw_value[k] == l[k + 13]);
    }
    assert(v[0] == d[0]);
    assert(!is_space(raw_value[1]));
    lemma_trim_left_at(raw_value, 1);
    assert(raw_value.subrange(1, raw_value.len() as int) =~= v);
    assert(!is_space(v.last()));
    lemma_trim_right_at(v, v.len() as int);
    assert(v.subrange(0, v.len() as int) =~= v);
    assert(split_kv(c) == Some(("memory"@, v)));
}

/// A rendered CPU override classifies as its key and value.
proof fn lemma_classify_cpus_line(vm: VM)
    ensures
        spec_classify("      cpus: "@ + crate::text::dec_of(vm.cpu_count as nat)) == cpus_line(vm),
{
    reveal_strlit("      cpus: ");
    reveal_strlit("cpus");
    let pre = "      cpus: "@;
    assert(pre.len() == 12);
    let d = crate::text::dec_of(vm.cpu_count as nat);
    lemma_digits_plain(vm.cpu_count as nat);
    let l = pre + d;
    assert forall|k: int| 0 <= k < 12 implies l[k] == pre[k] by {}
    assert forall|k: int| 12 <= k < l.len() implies l[k] == d[k - 12] by {}
    lemma_indent_at(l, 6);
    let body = l.subrange(6, l.len() as int);
    assert(body.last() == d.last());
    assert(!is_space(body.last()));
    lemma_trim_right_at(body, body.len() as int);
    assert(body.subrange(0, body.len() as int) =~= body);
    let c = body;
    assert(c[0] == 'c');
    assert forall|k: int| 0 <= k < 4 implies c[k] != ':' by {
        assert(c[k] == l[k + 6]);
    }
    assert(c[4] == l[10]);
    lemma_first_colon_at(c, 4);
    assert(c.subrange(0, 4) =~= "cpus"@);
    lemma_trim_right_at("cpus"@, 4);
    assert("cpus"@.subrange(0, 4) =~= "cpus"@);
    assert(c[5] == l[11]);
    assert(c[5] == ' ');
    let raw_value = c.subrange(5, c.len() as int);
    assert(raw_value[0] == ' ');
    assert(raw_value.len() == d.len() + 1);
    assert forall|k: int| 1 <= k < raw_value.len() implies raw_value[k] == d[k - 1] by {
        assert(raw_value[k] == l[k + 11]);
    }
    assert(!is_space(raw_value[1]));
    lemma_trim_left_at(raw_value, 1);
    assert(raw_value.subrange(1, raw_value.len() as int) =~= d);
    lemma_trim_right_at(d, d.len() as int);
    assert(d.subrange(0, d.len() as int) =~= d);
    assert(split_kv(c) == Some(("cpus"@, d)));
}


/// The text of one rendered platform entry, line by line.
pub open spec fn item_chunk(vm: VM) -> Seq<char> {
    "    - name: "@ + crate::protocol::platform_name(vm.platform) + seq!['\n'] + "      memory: "@
        + crate::text::dec_of(vm.memory_size_mb as nat) + "mb"@ + seq!['\n'] + "      cpus: "@
        + crate::text::dec_of(vm.cpu_count as nat) + seq!['\n']
}

/// The text of all rendered entries, first first.
pub open spec fn items_chunks(vms: Seq<VM>) -> Seq<char>
    decreases vms.len(),
{
    if vms.len() == 0 {
        Seq::empty()
    } else {
        item_chunk(vms[0]) + items_chunks(vms.drop_first())
    }
}

/// The classified lines of one rendered entry.
pub open spec fn item_lines(vm: VM) -> Seq<Line<Seq<char>>> {
    seq![name_line(vm), mem_line(vm), cpus_line(vm)]
}

/// The classified lines of all rendered entries, first first.
pub open spec fn items_lines(vms: Seq<VM>) -> Seq<Line<Seq<char>>>
    decreases vms.len(),
{
    if vms.len() == 0 {
        Seq::empty()
    } else {
        item_lines(vms[0]) + items_lines(vms.drop_first())
    }
}

/// Appending one entry appends its chunk.
proof fn lemma_items_chunks_snoc(vms: Seq<VM>, vm: VM)
    ensures
        items_chunks(vms.push(vm)) == items_chunks(vms) + item_chunk(vm),
    decreases vms.len(),
{
    let all = vms.push(vm);
    if vms.len() == 0 {
        assert(all.drop_first() =~= Seq::<VM>::empty());
        assert(items_chunks(Seq::<VM>::empty()) == Seq::<char>::empty());
        assert(all[0] == vm);
        assert(items_chunks(all) =~= item_chunk(vm));
        assert(items_chunks(vms) + item_chunk(vm) =~= item_chunk(vm));
    } else {
        assert(all.drop_first() =~= vms.drop_first().push(vm));
        lemma_items_chunks_snoc(vms.drop_first(), vm);
        assert(items_chunks(all) =~= items_chunks(vms) + item_chunk(vm));
    }
}

/// The rendered document is the header and the entries' chunks.
proof fn lemma_render_decomposed(vms: Seq<VM>)
    ensures
        spec_render(vms) == "cloud:\n  platforms:\n"@ + items_chunks(vms),
    decreases vms.len(),
{
    if vms.len() == 0 {
        assert(spec_render(vms) =~= "cloud:\n  platforms:\n"@ + items_chunks(vms));
    } else {
        lemma_render_decomposed(vms.drop_last());
        lemma_items_chunks_snoc(vms.drop_last(), vms.last());
        reveal_strlit("\n      memory: ");
        reveal_strlit("      memory: ");
        reveal_strlit("mb\n      cpus: ");
        reveal_strlit("mb");
        reveal_strlit("      cpus: ");
        reveal_strlit("\n");
        assert("\n      memory: "@ =~= seq!['\n'] + "      memory: "@);
        assert("mb\n      cpus: "@ =~= "mb"@ + seq!['\n'] + "      cpus: "@);
        assert("\n"@ =~= seq!['\n']);
        assert(vms.drop_last().push(vms.last()) =~= vms);
        assert(items_chunks(vms) == items_chunks(vms.drop_last()) + item_chunk(vms.last()));
        assert(spec_render(vms) =~= "cloud:\n  platforms:\n"@ + items_chunks(vms));
    }
}

/// No rendered line of an entry carries a newline.
proof fn lemma_chunk_lines_plain(vm: VM)
    ensures
        forall|k: int|
            0 <= k < ("    - name: "@ + crate::protocol::platform_name(vm.platform)).len()
                ==> #[trigger] ("    - name: "@ + crate::protocol::platform_name(vm.platform))[k]
                != '\n',
        forall|k: int|
            0 <= k < ("      memory: "@ + crate::text::dec_of(vm.memory_size_mb as nat)
                + "mb"@).len() ==> #[trigger] ("      memory: "@ + crate::text::dec_of(
                vm.memory_size_mb as nat,
            ) + "mb"@)[k] != '\n',
        forall|k: int|
            0 <= k < ("      cpus: "@ + crate::text::dec_of(vm.cpu_count as nat)).len()
                ==> #[trigger] ("      cpus: "@ + crate::text::dec_of(vm.cpu_count as nat))[k]
                != '\n',
{
    reveal_strlit("    - name: ");
    reveal_strlit("      memory: ");
    reveal_strlit("      cpus: ");
    reveal_strlit("mb");
    lemma_platform_name_plain(vm.platform);
    lemma_digits_plain(vm.memory_size_mb as nat);
    lemma_digits_plain(vm.cpu_count as nat);
    let nl = "    - name: "@ + crate::protocol::platform_name(vm.platform);
    assert forall|k: int| 0 <= k < nl.len() implies #[trigger] nl[k] != '\n' by {
        if k < 12 {
            assert(nl[k] == "    - name: "@[k]);
        } else {
            assert(nl[k] == crate::protocol::platform_name(vm.platform)[k - 12]);
        }
    }
    let ml = "      memory: "@ + crate::text::dec_of(vm.memory_size_mb as nat) + "mb"@;
    let d = crate::text::dec_of(vm.memory_size_mb as nat);
    assert forall|k: int| 0 <= k < ml.len() implies #[trigger] ml[k] != '\n' by {
        if k < 14 {
            assert(ml[k] == "      memory: "@[k]);
        } else if k < 14 + d.len() {
            assert(ml[k] == d[k - 14]);
        } else {
            assert(ml[k] == "mb"@[k - 14 - d.len()]);
        }
    }
    let cl = "      cpus: "@ + crate::text::dec_of(vm.cpu_count as nat);
    let d2 = crate::text::dec_of(vm.cpu_count as nat);
    assert forall|k: int| 0 <= k < cl.len() implies #[trigger] cl[k] != '\n' by {
        if k < 12 {
            assert(cl[k] == "      cpus: "@[k]);
        } else {
            assert(cl[k] == d2[k - 12]);
        }
    }
}

/// The raw (unclassified) lines of the rendered entries, plus the
/// final empty line the trailing newline makes.
proof fn lemma_split_items(vms: Seq<VM>)
    ensures
        spec_split_lines(items_chunks(vms)).map_values(|l: Seq<char>| spec_classify(l))
            == items_lines(vms) + seq![Line { indent: 0, kind: LineKind::<Seq<char>>::Blank }],
    decreases vms.len(),
{
    if vms.len() == 0 {
        lemma_split_empty();
        lemma_classify_empty();
        assert(items_chunks(vms) == Seq::<char>::empty());
        assert(items_lines(vms) == Seq::<Line<Seq<char>>>::empty());
        assert(spec_split_lines(items_chunks(vms)) == seq![Seq::<char>::empty()]);
        assert(spec_split_lines(items_chunks(vms)).map_values(|l: Seq<char>| spec_classify(l))
            =~= items_lines(vms) + seq![Line { indent: 0, kind: LineKind::<Seq<char>>::Blank }]);
    } else {
        let vm = vms[0];
        let rest = vms.drop_first();
        lemma_split_items(rest);
        lemma_chunk_lines_plain(vm);
        let nl_text = "    - name: "@ + crate::protocol::platform_name(vm.platform);
        let ml_text = "      memory: "@ + crate::text::dec_of(vm.memory_size_mb as nat) + "mb"@;
        let cl_text = "      cpus: "@ + crate::text::dec_of(vm.cpu_count as nat);
        let tail0 = items_chunks(rest);
        let tail1 = cl_text + seq!['\n'] + tail0;
        let tail2 = ml_text + seq!['\n'] + tail1;
        assert(items_chunks(vms) =~= nl_text + seq!['\n'] + tail2);
        lemma_split_one(nl_text, tail2);
        lemma_split_one(ml_text, tail1);
        lemma_split_one(cl_text, tail0);
        lemma_classify_name_line(vm);
        lemma_classify_mem_line(vm);
        lemma_classify_cpus_line(vm);
        assert(spec_split_lines(items_chunks(vms)) =~= seq![nl_text, ml_text, cl_text]
            + spec_split_lines(tail0));
        let split_tail = spec_split_lines(tail0);
        let whole = seq![nl_text, ml_text, cl_text] + split_tail;
        let ghost blank = Line { indent: 0, kind: LineKind::<Seq<char>>::Blank };
        assert(items_lines(vms) == item_lines(vms[0]) + items_lines(rest));
        assert(item_lines(vms[0]).len() == 3);
        assert(items_lines(vms).len() == 3 + items_lines(rest).len());
        assert(split_tail.map_values(|l: Seq<char>| spec_classify(l)).len() == split_tail.len());
        assert(split_tail.len() == items_lines(rest).len() + 1);
        assert forall|k: int|
            #![trigger whole[k]]
            0 <= k < whole.len() implies whole.map_values(|l: Seq<char>| spec_classify(l))[k] == (
        items_lines(vms) + seq![blank])[k] by {
            if k >= 3 {
                assert(whole[k] == split_tail[k - 3]);
                assert(whole.map_values(|l: Seq<char>| spec_classify(l))[k] == spec_classify(
                    whole[k],
                ));
                assert(split_tail.map_values(|l: Seq<char>| spec_classify(l))[k - 3]
                    == spec_classify(split_tail[k - 3]));
                assert(split_tail.map_values(|l: Seq<char>| spec_classify(l))[k - 3] == (
                items_lines(rest) + seq![blank])[k - 3]);
                assert((items_lines(vms) + seq![blank])[k] == (items_lines(rest) + seq![blank])[k
                    - 3]);
            }
        }
        assert(whole.map_values(|l: Seq<char>| spec_classify(l)) =~= items_lines(vms) + seq![
            Line { indent: 0, kind: LineKind::<Seq<char>>::Blank },
        ]);
        assert(spec_split_lines(items_chunks(vms)).map_values(|l: Seq<char>| spec_classify(l))
            =~= items_lines(vms) + seq![Line { indent: 0, kind: LineKind::<Seq<char>>::Blank }]);
    }
}

/// The classified lines of the whole rendered document.
proof fn lemma_scan_render(vms: Seq<VM>)
    ensures
        spec_scan(spec_render(vms)) == seq![
            Line { indent: 0, kind: LineKind::KeyOnly("cloud"@) },
            Line { indent: 2, kind: LineKind::KeyOnly("platforms"@) },
        ] + items_lines(vms) + seq![Line { indent: 0, kind: LineKind::<Seq<char>>::Blank }],
{
    lemma_render_decomposed(vms);
    reveal_strlit("cloud:\n  platforms:\n");
    reveal_strlit("cloud:");
    reveal_strlit("  platforms:");
    assert("cloud:\n  platforms:\n"@ =~= "cloud:"@ + seq!['\n'] + ("  platforms:"@ + seq!['\n']
        + Seq::<char>::empty()));
    let tail = items_chunks(vms);
    assert(spec_render(vms) =~= "cloud:"@ + seq!['\n'] + ("  platforms:"@ + seq!['\n'] + tail));
    assert forall|k: int| 0 <= k < "cloud:"@.len() implies #[trigger] "cloud:"@[k] != '\n' by {}
    assert forall|k: int|
        0 <= k < "  platforms:"@.len() implies #[trigger] "  platforms:"@[k] != '\n' by {}
    lemma_split_one("cloud:"@, "  platforms:"@ + seq!['\n'] + tail);
    lemma_split_one("  platforms:"@, tail);
    lemma_classify_cloud_header();
    lemma_classify_platforms_header();
    lemma_split_items(vms);
    assert(spec_split_lines(spec_render(vms)) =~= seq!["cloud:"@, "  platforms:"@]
        + spec_split_lines(tail));
    let split_tail = spec_split_lines(tail);
    assert(split_tail.map_values(|l: Seq<char>| spec_classify(l)).len() == split_tail.len());
    assert(split_tail.len() == items_lines(vms).len() + 1);
    let whole = seq!["cloud:"@, "  platforms:"@] + split_tail;
    let expected = seq![
        Line { indent: 0, kind: LineKind::KeyOnly("cloud"@) },
        Line { indent: 2, kind: LineKind::KeyOnly("platforms"@) },
    ] + items_lines(vms) + seq![Line { indent: 0, kind: LineKind::<Seq<char>>::Blank }];
    assert forall|k: int|
        #![trigger whole[k]]
        0 <= k < whole.len() implies whole.map_values(|l: Seq<char>| spec_classify(l))[k]
        == expected[k] by {
        if k >= 2 {
            assert(whole[k] == split_tail[k - 2]);
            assert(split_tail.map_values(|l: Seq<char>| spec_classify(l))[k - 2]
                == spec_classify(split_tail[k - 2]));
            assert((items_lines(vms) + seq![
                Line { indent: 0, kind: LineKind::<Seq<char>>::Blank },
            ])[k - 2] == expected[k]);
        }
    }
    assert(whole.map_values(|l: Seq<char>| spec_classify(l)) =~= expected);
    assert(spec_scan(spec_render(vms)) =~= expected);
}


/// The rendered entry lines have three lines per entry.
proof fn lemma_items_lines_len(vms: Seq<VM>)
    ensures
        items_lines(vms).len() == 3 * vms.len(),
    decreases vms.len(),
{
    if vms.len() > 0 {
        lemma_items_lines_len(vms.drop_first());
    }
}

/// What stands at each position of the rendered entry lines.
proof fn lemma_items_lines_index(vms: Seq<VM>, m: int)
    requires
        0 <= m < 3 * vms.len(),
    ensures
        m % 3 == 0 ==> items_lines(vms)[m] == name_line(vms[m / 3]),
        m % 3 == 1 ==> items_lines(vms)[m] == mem_line(vms[m / 3]),
        m % 3 == 2 ==> items_lines(vms)[m] == cpus_line(vms[m / 3]),
    decreases vms.len(),
{
    lemma_items_lines_len(vms.drop_first());
    assert(items_lines(vms) == item_lines(vms[0]) + items_lines(vms.drop_first()));
    if m < 3 {
    } else {
        lemma_items_lines_index(vms.drop_first(), m - 3);
        assert(items_lines(vms)[m] == items_lines(vms.drop_first())[m - 3]);
        assert((m - 3) / 3 == m / 3 - 1);
        assert((m - 3) % 3 == m % 3);
        assert(vms.drop_first()[m / 3 - 1] == vms[m / 3]);
    }
}

/// A rendered number passes the count parser and reads back as
/// itself.
proof fn lemma_dec_of_parses(n: nat)
    requires
        n <= u32::MAX,
    ensures
        crate::text::u32_dec_parses(crate::text::dec_of(n)),
        crate::text::u32_dec_value(crate::text::dec_of(n)) == n,
{
    let d = crate::text::dec_of(n);
    lemma_dec_of_digits(n);
    assert(is_dec_digit(d[0]));
    assert(d[0] != '+');
    assert(crate::text::dec_digits_of(d) == d);
    assert forall|i: int| 0 <= i < crate::text::dec_digits_of(d).len() implies is_dec_digit(
        #[trigger] crate::text::dec_digits_of(d)[i],
    ) by {
        assert(crate::text::dec_digits_of(d)[i] == d[i]);
    }
}

/// Running the platform list over the rendered entry lines, with one
/// entry still being gathered, collects exactly the canonical entries.
proof fn lemma_run_items(
    ls: Seq<Line<Seq<char>>>,
    i: int,
    vms: Seq<VM>,
    acc: CloudView,
    items: Seq<PlatformConfig<Seq<char>>>,
    cur: (Seq<char>, Option<Seq<char>>, Option<u32>),
)
    requires
        0 <= i,
        i + 3 * vms.len() + 1 == ls.len(),
        forall|k: int| 0 <= k < vms.len() ==> ls[i + 3 * k] == name_line(#[trigger] vms[k]),
        forall|k: int| 0 <= k < vms.len() ==> ls[i + 3 * k + 1] == mem_line(#[trigger] vms[k]),
        forall|k: int| 0 <= k < vms.len() ==> ls[i + 3 * k + 2] == cpus_line(#[trigger] vms[k]),
        ls[ls.len() - 1].kind is Blank,
        forall|k: int| 0 <= k < vms.len() ==> vm_renderable(#[trigger] vms[k]),
    ensures
        p_step(ls, i, PSt::InItems { acc, level: 2, item_level: Some(4), items, cur: Some(cur) })
            == Ok::<CloudView, DocError>(
            set_platforms(acc, close_items(items, Some(cur)) + canonical_entries(vms)),
        ),
    decreases vms.len(),
{
    reveal_strlit("name");
    reveal_strlit("memory");
    reveal_strlit("cpus");
    let st0 = PSt::InItems { acc, level: 2, item_level: Some(4), items, cur: Some(cur) };
    if vms.len() == 0 {
        assert(ls[i].kind is Blank);
        assert(p_step(ls, i, st0) == p_step(ls, i + 1, st0));
        assert(canonical_entries(vms) =~= Seq::<PlatformConfig<Seq<char>>>::empty());
        assert(close_items(items, Some(cur)) + canonical_entries(vms) =~= close_items(
            items,
            Some(cur),
        ));
    } else {
        let vm = vms[0];
        assert(ls[i + 3 * 0] == name_line(vm));
        assert(ls[i + 3 * 0 + 1] == mem_line(vm));
        assert(ls[i + 3 * 0 + 2] == cpus_line(vm));
        assert(ls[i] == name_line(vm));
        assert(ls[i + 1] == mem_line(vm));
        assert(ls[i + 2] == cpus_line(vm));
        let closed = close_items(items, Some(cur));
        let st1 = PSt::InItems {
            acc,
            level: 2,
            item_level: Some(4),
            items: closed,
            cur: Some((crate::protocol::platform_name(vm.platform), None, None)),
        };
        assert(p_step(ls, i, st0) == p_step(ls, i + 1, st1));
        let st2 = PSt::InItems {
            acc,
            level: 2,
            item_level: Some(4),
            items: closed,
            cur: Some(
                (
                    crate::protocol::platform_name(vm.platform),
                    Some(crate::text::dec_of(vm.memory_size_mb as nat) + "mb"@),
                    None,
                ),
            ),
        };
        assert(p_step(ls, i + 1, st1) == p_step(ls, i + 2, st2));
        lemma_dec_of_parses(vm.cpu_count as nat);
        assert("cpus"@.len() == 4);
        assert("memory"@.len() == 6);
        assert(crate::text::u32_dec_parses(crate::text::dec_of(vm.cpu_count as nat)));
        assert((crate::text::u32_dec_value(crate::text::dec_of(vm.cpu_count as nat)) as u32)
            == vm.cpu_count as u32);
        let full_cur = (
            crate::protocol::platform_name(vm.platform),
            Some(crate::text::dec_of(vm.memory_size_mb as nat) + "mb"@),
            Some(vm.cpu_count as u32),
        );
        let st3 = PSt::InItems {
            acc,
            level: 2,
            item_level: Some(4),
            items: closed,
            cur: Some(full_cur),
        };
        assert(p_step(ls, i + 2, st2) == p_step(ls, i + 3, st3));
        let rest = vms.drop_first();
        assert forall|k: int| 0 <= k < rest.len() implies ls[(i + 3) + 3 * k] == name_line(
            #[trigger] rest[k],
        ) && ls[(i + 3) + 3 * k + 1] == mem_line(rest[k]) && ls[(i + 3) + 3 * k + 2] == cpus_line(
            rest[k],
        ) && vm_renderable(rest[k]) by {
            assert(rest[k] == vms[k + 1]);
            assert(ls[i + 3 * (k + 1)] == name_line(vms[k + 1]));
            assert(ls[i + 3 * (k + 1) + 1] == mem_line(vms[k + 1]));
            assert(ls[i + 3 * (k + 1) + 2] == cpus_line(vms[k + 1]));
        }
        lemma_run_items(ls, i + 3, rest, acc, closed, full_cur);
        assert(finish_item(full_cur) == canonical_entry(vm));
        assert(close_items(closed, Some(full_cur)) == closed.push(canonical_entry(vm)));
        assert(canonical_entries(vms).drop_first() =~= canonical_entries(rest));
        assert(canonical_entries(vms)[0] == canonical_entry(vm));
        assert(closed.push(canonical_entry(vm)) + canonical_entries(rest) =~= closed
            + canonical_entries(vms));
    }
}

/// Round trip of the document itself: parsing the text the serializer
/// writes for any non-empty set of renderable VMs yields exactly that
/// set. (An empty set renders as an absent list, which reads back as
/// the default platform pair, so it is left out.)
#[verifier::rlimit(100)]
pub proof fn lemma_render_parse_roundtrip(vms: Seq<VM>)
    requires
        vms.len() > 0,
        forall|i: int| 0 <= i < vms.len() ==> vm_renderable(#[trigger] vms[i]),
    ensures
        spec_cloud_vms(spec_render(vms)) == Ok::<Seq<VM>, Seq<char>>(vms),
{
    reveal_strlit("cloud");
    reveal_strlit("platforms");
    reveal_strlit("memory");
    reveal_strlit("cpus");
    reveal_strlit("name");
    lemma_scan_render(vms);
    let ls = spec_scan(spec_render(vms));
    lemma_items_lines_len(vms);
    let blank = Line { indent: 0, kind: LineKind::<Seq<char>>::Blank };
    let header = seq![
        Line { indent: 0, kind: LineKind::KeyOnly("cloud"@) },
        Line { indent: 2, kind: LineKind::KeyOnly("platforms"@) },
    ];
    assert(ls == header + items_lines(vms) + seq![blank]);
    assert(ls.len() == 3 + 3 * vms.len());
    assert(ls[0] == header[0]);
    assert(ls[1] == header[1]);
    assert forall|k: int| 0 <= k < vms.len() implies ls[2 + 3 * k] == name_line(#[trigger] vms[k])
        && ls[2 + 3 * k + 1] == mem_line(vms[k]) && ls[2 + 3 * k + 2] == cpus_line(vms[k]) by {
        lemma_items_lines_index(vms, 3 * k);
        lemma_items_lines_index(vms, 3 * k + 1);
        lemma_items_lines_index(vms, 3 * k + 2);
        assert((3 * k) % 3 == 0 && (3 * k) / 3 == k) by (nonlinear_arith);
        assert((3 * k + 1) % 3 == 1 && (3 * k + 1) / 3 == k) by (nonlinear_arith);
        assert((3 * k + 2) % 3 == 2 && (3 * k + 2) / 3 == k) by (nonlinear_arith);
        assert(ls[2 + 3 * k] == items_lines(vms)[3 * k]);
        assert(ls[2 + 3 * k + 1] == items_lines(vms)[3 * k + 1]);
        assert(ls[2 + 3 * k + 2] == items_lines(vms)[3 * k + 2]);
    }
    assert(ls[ls.len() - 1] == blank);
    // the three header steps of the parse
    let top0 = PSt::Top { cloud: None, skipping: false };
    let in_cloud = PSt::InCloud { acc: empty_cloud(), level: None, skipping: false };
    assert(p_step(ls, 0, top0) == p_step(ls, 1, in_cloud));
    let in_items = PSt::InItems {
        acc: empty_cloud(),
        level: 2,
        item_level: None,
        items: Seq::empty(),
        cur: None,
    };
    assert(p_step(ls, 1, in_cloud) == p_step(ls, 2, in_items));
    let vm0 = vms[0];
    assert(ls[2] == name_line(vm0));
    let st_first = PSt::InItems {
        acc: empty_cloud(),
        level: 2,
        item_level: Some(4),
        items: Seq::empty(),
        cur: Some((crate::protocol::platform_name(vm0.platform), None, None)),
    };
    assert(p_step(ls, 2, in_items) == p_step(ls, 3, st_first));
    assert(ls[3] == mem_line(vm0));
    let st_mem = PSt::InItems {
        acc: empty_cloud(),
        level: 2,
        item_level: Some(4),
        items: Seq::empty(),
        cur: Some(
            (
                crate::protocol::platform_name(vm0.platform),
                Some(crate::text::dec_of(vm0.memory_size_mb as nat) + "mb"@),
                None,
            ),
        ),
    };
    assert(p_step(ls, 3, st_first) == p_step(ls, 4, st_mem));
    assert(ls[4] == cpus_line(vm0));
    lemma_dec_of_parses(vm0.cpu_count as nat);
    let full_cur = (
        crate::protocol::platform_name(vm0.platform),
        Some(crate::text::dec_of(vm0.memory_size_mb as nat) + "mb"@),
        Some(vm0.cpu_count as u32),
    );
    let st_cpus = PSt::InItems {
        acc: empty_cloud(),
        level: 2,
        item_level: Some(4),
        items: Seq::empty(),
        cur: Some(full_cur),
    };
    assert(p_step(ls, 4, st_mem) == p_step(ls, 5, st_cpus));
    let rest = vms.drop_first();
    assert forall|k: int| 0 <= k < rest.len() implies ls[5 + 3 * k] == name_line(#[trigger] rest[k])
        && ls[5 + 3 * k + 1] == mem_line(rest[k]) && ls[5 + 3 * k + 2] == cpus_line(rest[k])
        && vm_renderable(rest[k]) by {
        assert(rest[k] == vms[k + 1]);
        assert(ls[2 + 3 * (k + 1)] == name_line(vms[k + 1]));
        assert(ls[2 + 3 * (k + 1) + 1] == mem_line(vms[k + 1]));
        assert(ls[2 + 3 * (k + 1) + 2] == cpus_line(vms[k + 1]));
    }
    lemma_run_items(ls, 5, rest, empty_cloud(), Seq::empty(), full_cur);
    assert(finish_item(full_cur) == canonical_entry(vm0));
    assert(close_items(Seq::empty(), Some(full_cur)) =~= seq![canonical_entry(vm0)]);
    assert(canonical_entries(vms).drop_first() =~= canonical_entries(rest));
    assert(seq![canonical_entry(vm0)] + canonical_entries(rest) =~= canonical_entries(vms));
    assert(spec_parse_cloud(spec_render(vms)) == Ok::<CloudView, DocError>(
        set_platforms(empty_cloud(), canonical_entries(vms)),
    ));
    assert(canonical_entries(vms).len() > 0);
    assert(set_platforms(empty_cloud(), canonical_entries(vms)) == canonical_cloud(vms));
    lemma_cloud_roundtrip(vms);
}

/// The canonical document text of a VM set.
pub open spec fn spec_render(vms: Seq<VM>) -> Seq<char>
    decreases vms.len(),
{
    if vms.len() == 0 {
        "cloud:\n  platforms:\n"@
    } else {
        spec_render(vms.drop_last()) + "    - name: "@ + crate::protocol::platform_name(
            vms.last().platform,
        ) + "\n      memory: "@ + crate::text::dec_of(vms.last().memory_size_mb as nat) + "mb\n      cpus: "@
            + crate::text::dec_of(vms.last().cpu_count as nat) + "\n"@
    }
}

impl FinalCloud {
    /// Write this VM set as its canonical cloud-config document: the
    /// cloud block with every platform spelled out. Reading the
    /// document back yields this set again.
    pub fn to_yaml(&self) -> (r: String)
        ensures
            r@ == spec_render(self@),
    {
        let mut out = String::from_str("cloud:\n  platforms:\n");
        let n = self.0.len();
        let mut i: usize = 0;
        proof {
            assert(spec_render(self@.subrange(0, 0)) =~= "cloud:\n  platforms:\n"@);
        }
        while i < n
            invariant
                i <= n,
                n == self@.len(),
                self@ == self.0@,
                out@ == spec_render(self@.subrange(0, i as int)),
            decreases n - i,
        {
            let vm = self.0[i];
            out.append("    - name: ");
            out.append(vm.platform.as_str());
            out.append("\n      memory: ");
            crate::text::append_dec_u64(&mut out, vm.memory_size_mb);
            out.append("mb\n      cpus: ");
            crate::text::append_dec_u64(&mut out, vm.cpu_count as u64);
            out.append("\n");
            proof {
                assert(self@.subrange(0, i + 1).drop_last() =~= self@.subrange(0, i as int));
                assert(self@.subrange(0, i + 1).last() == self@[i as int]);
            }
            i = i + 1;
        }
        proof {
            assert(self@.subrange(0, n as int) =~= self@);
        }
        out
    }
}

} // verus!


