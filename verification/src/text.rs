//! Text as sequences of characters: the handful of string operations the
//! rest of the crate is specified and built with.

pub mod laws;

use vstd::prelude::*;

verus! {

/// What `String::push` does: the character goes to the end.
pub assume_specification[ String::push ](s: &mut String, c: char)
    ensures
        final(s)@ == old(s)@.push(c),
;

// ---------------------------------------------------------------------------
// What the operations mean.

/// Unicode `White_Space`.
pub open spec fn is_space(c: char) -> bool {
    ||| '\u{9}' <= c <= '\u{d}'
    ||| c == '\u{20}'
    ||| c == '\u{85}'
    ||| c == '\u{a0}'
    ||| c == '\u{1680}'
    ||| '\u{2000}' <= c <= '\u{200a}'
    ||| c == '\u{2028}'
    ||| c == '\u{2029}'
    ||| c == '\u{202f}'
    ||| c == '\u{205f}'
    ||| c == '\u{3000}'
}

/// Nothing but whitespace.
pub open spec fn blank(s: Seq<char>) -> bool {
    forall|i: int| 0 <= i < s.len() ==> is_space(#[trigger] s[i])
}

/// `s` without its leading whitespace.
pub open spec fn trim_start(s: Seq<char>) -> Seq<char>
    decreases s.len(),
{
    if s.len() > 0 && is_space(s[0]) {
        trim_start(s.drop_first())
    } else {
        s
    }
}

/// `s` without its trailing whitespace.
pub open spec fn trim_end(s: Seq<char>) -> Seq<char>
    decreases s.len(),
{
    if s.len() > 0 && is_space(s.last()) {
        trim_end(s.drop_last())
    } else {
        s
    }
}

/// `s` without the whitespace on either end.
pub open spec fn trim(s: Seq<char>) -> Seq<char> {
    trim_end(trim_start(s))
}

/// The pieces of `s` between the occurrences of `sep`; one piece when there
/// is none.
pub open spec fn split(s: Seq<char>, sep: char) -> Seq<Seq<char>>
    decreases s.len(),
{
    if s.len() == 0 {
        seq![Seq::<char>::empty()]
    } else {
        let before = split(s.drop_last(), sep);
        if s.last() == sep {
            before.push(Seq::<char>::empty())
        } else {
            before.drop_last().push(before.last().push(s.last()))
        }
    }
}

/// A line without the carriage return of its line ending.
pub open spec fn strip_cr(s: Seq<char>) -> Seq<char> {
    if s.len() > 0 && s.last() == '\r' {
        s.drop_last()
    } else {
        s
    }
}

/// The lines of `s`. Each ends in a line feed, optionally after a carriage
/// return; the last line needs no ending.
pub open spec fn lines(s: Seq<char>) -> Seq<Seq<char>> {
    let pieces = split(s, '\n');
    let ended = pieces.drop_last().map_values(|l: Seq<char>| strip_cr(l));
    if pieces.last().len() == 0 {
        ended
    } else {
        ended.push(pieces.last())
    }
}

/// What follows `prefix` in `s`, if `s` starts with it.
pub open spec fn strip_prefix(s: Seq<char>, prefix: Seq<char>) -> Option<Seq<char>> {
    if prefix.is_prefix_of(s) {
        Some(s.skip(prefix.len() as int))
    } else {
        None
    }
}

/// `part` stands in `s` at position `i`.
pub open spec fn occurs_at(s: Seq<char>, part: Seq<char>, i: int) -> bool {
    0 <= i && i + part.len() <= s.len() && s.subrange(i, i + part.len()) == part
}

/// `part` stands somewhere in `s`.
pub open spec fn occurs(s: Seq<char>, part: Seq<char>) -> bool {
    exists|i: int| occurs_at(s, part, i)
}

/// The two sides of the first `sep`, if there is one.
pub open spec fn split_once(s: Seq<char>, sep: char) -> Option<(Seq<char>, Seq<char>)>
    decreases s.len(),
{
    if s.len() == 0 {
        None
    } else if s[0] == sep {
        Some((Seq::<char>::empty(), s.drop_first()))
    } else {
        match split_once(s.drop_first(), sep) {
            Some((a, b)) => Some((seq![s[0]] + a, b)),
            None => None,
        }
    }
}

/// The leading run of characters that are no whitespace.
pub open spec fn word_at_start(s: Seq<char>) -> Seq<char>
    decreases s.len(),
{
    if s.len() > 0 && !is_space(s[0]) {
        seq![s[0]] + word_at_start(s.drop_first())
    } else {
        Seq::empty()
    }
}

/// The first whitespace-separated word, if there is any.
pub open spec fn first_word(s: Seq<char>) -> Option<Seq<char>> {
    let t = trim_start(s);
    if t.len() == 0 {
        None
    } else {
        Some(word_at_start(t))
    }
}

/// An ASCII capital as its small letter; anything else as it is.
pub open spec fn lower_char(c: char) -> char {
    if 'A' <= c <= 'Z' {
        ((c as u32 + 32) as u32) as char
    } else {
        c
    }
}

/// `s` with its ASCII capitals made small.
pub open spec fn lower(s: Seq<char>) -> Seq<char> {
    s.map_values(|c: char| lower_char(c))
}

/// The digit that stands for `d`.
pub open spec fn digit(d: int) -> char {
    ((48 + d) as u32) as char
}

/// `n` in decimal.
pub open spec fn decimal(n: nat) -> Seq<char>
    decreases n,
{
    if n < 10 {
        seq![digit(n as int)]
    } else {
        decimal(n / 10).push(digit((n % 10) as int))
    }
}

/// An ASCII decimal digit.
pub open spec fn is_digit(c: char) -> bool {
    '0' <= c <= '9'
}

/// One or more digits and nothing else.
pub open spec fn all_digits(s: Seq<char>) -> bool {
    s.len() > 0 && forall|i: int| 0 <= i < s.len() ==> is_digit(#[trigger] s[i])
}

/// The number that a run of digits spells.
pub open spec fn number(s: Seq<char>) -> nat
    decreases s.len(),
{
    if s.len() == 0 {
        0
    } else {
        number(s.drop_last()) * 10 + (s.last() as u32 - 48) as nat
    }
}

/// A whole number with an optional sign, as far as it fits a signed 64-bit
/// value.
pub open spec fn parse_i64(s: Seq<char>) -> Option<i64> {
    let signed = s.len() > 0 && (s[0] == '-' || s[0] == '+');
    let body = if signed { s.drop_first() } else { s };
    let value = if signed && s[0] == '-' { -(number(body) as int) } else { number(body) as int };
    if all_digits(body) && i64::MIN <= value <= i64::MAX {
        Some(value as i64)
    } else {
        None
    }
}

/// A whole number with an optional plus, as far as it fits a `usize`.
pub open spec fn parse_usize(s: Seq<char>) -> Option<usize> {
    let body = if s.len() > 0 && s[0] == '+' { s.drop_first() } else { s };
    if all_digits(body) && number(body) <= usize::MAX {
        Some(number(body) as usize)
    } else {
        None
    }
}

/// `n` spaces.
pub open spec fn spaces(n: nat) -> Seq<char> {
    Seq::new(n, |i: int| ' ')
}

/// `s` followed by spaces up to `width` characters.
pub open spec fn pad_end(s: Seq<char>, width: nat) -> Seq<char> {
    if s.len() < width {
        s + spaces((width - s.len()) as nat)
    } else {
        s
    }
}

/// `s` after spaces up to `width` characters.
pub open spec fn pad_start(s: Seq<char>, width: nat) -> Seq<char> {
    if s.len() < width {
        spaces((width - s.len()) as nat) + s
    } else {
        s
    }
}

/// How many bytes `s` takes up in UTF-8.
pub open spec fn byte_len(s: Seq<char>) -> usize {
    vstd::utf8::encode_utf8(s).len() as usize
}

/// How many bytes a character takes up in UTF-8.
pub open spec fn width(c: char) -> int {
    if c <= '\u{7f}' {
        1
    } else if c <= '\u{7ff}' {
        2
    } else if c <= '\u{ffff}' {
        3
    } else {
        4
    }
}

/// The start of `s` that takes up exactly `n` bytes, if there is one.
pub open spec fn byte_prefix(s: Seq<char>, n: int) -> Option<Seq<char>>
    decreases s.len(),
{
    if n == 0 {
        Some(Seq::empty())
    } else if n < 0 || s.len() == 0 {
        None
    } else {
        match byte_prefix(s.drop_first(), n - width(s[0])) {
            Some(rest) => Some(seq![s[0]] + rest),
            None => None,
        }
    }
}

/// `a` before `b` in dictionary order of the characters.
pub open spec fn before(a: Seq<char>, b: Seq<char>) -> bool
    decreases a.len(),
{
    if b.len() == 0 {
        false
    } else if a.len() == 0 {
        true
    } else if a[0] != b[0] {
        a[0] < b[0]
    } else {
        before(a.drop_first(), b.drop_first())
    }
}

// ---------------------------------------------------------------------------
// The operations themselves.

/// The characters of `s`.
pub fn chars_of(s: &str) -> (v: Vec<char>)
    ensures
        v@ == s@,
{
    let mut v: Vec<char> = Vec::new();
    for c in it: s.chars()
        invariant
            it.seq() == s@,
            v@ == s@.take(it.index()),
    {
        v.push(c);
    }
    v
}

/// The string of the characters `v[from..to]`.
pub fn string_of(v: &Vec<char>, from: usize, to: usize) -> (s: String)
    requires
        from <= to <= v@.len(),
    ensures
        s@ == v@.subrange(from as int, to as int),
{
    let mut s = String::new();
    let mut i: usize = from;
    while i < to
        invariant
            from <= i <= to <= v@.len(),
            s@ == v@.subrange(from as int, i as int),
        decreases to - i,
    {
        s.push(v[i]);
        i += 1;
    }
    s
}

/// Whether two strings hold the same characters.
pub fn same(a: &str, b: &str) -> (r: bool)
    ensures
        r == (a@ == b@),
{
    let x: &[u8] = a.as_bytes();
    let y: &[u8] = b.as_bytes();
    proof {
        vstd::utf8::encode_utf8_decode_utf8(a@);
        vstd::utf8::encode_utf8_decode_utf8(b@);
    }
    if x.len() != y.len() {
        return false;
    }
    let mut i: usize = 0;
    while i < x.len()
        invariant
            i <= x@.len(),
            x@.len() == y@.len(),
            x@ == vstd::utf8::encode_utf8(a@),
            y@ == vstd::utf8::encode_utf8(b@),
            forall|k: int| 0 <= k < i ==> x@[k] == y@[k],
        decreases x@.len() - i,
    {
        if x[i] != y[i] {
            return false;
        }
        i += 1;
    }
    assert(x@ =~= y@);
    true
}

/// Whether an optional string holds exactly `b`.
pub fn same_as_some(a: &Option<String>, b: &str) -> (r: bool)
    ensures
        r == (a.deep_view() == Some(b@)),
{
    match a {
        Some(x) => same(x.as_str(), b),
        None => false,
    }
}

/// Whether `c` is whitespace.
fn is_whitespace(c: char) -> (r: bool)
    ensures
        r == is_space(c),
{
    ('\u{9}' <= c && c <= '\u{d}') || c == '\u{20}' || c == '\u{85}' || c == '\u{a0}' || c
        == '\u{1680}' || ('\u{2000}' <= c && c <= '\u{200a}') || c == '\u{2028}' || c == '\u{2029}'
        || c == '\u{202f}' || c == '\u{205f}' || c == '\u{3000}'
}

/// Whether `s` is nothing but whitespace.
pub fn is_blank(s: &str) -> (r: bool)
    ensures
        r == blank(s@),
{
    for c in it: s.chars()
        invariant
            it.seq() == s@,
            forall|i: int| 0 <= i < it.index() ==> is_space(#[trigger] s@[i]),
    {
        if !is_whitespace(c) {
            return false;
        }
    }
    true
}

/// Where the text proper starts and ends in `v`.
fn trim_bounds(v: &Vec<char>) -> (r: (usize, usize))
    ensures
        r.0 <= r.1 <= v@.len(),
        trim(v@) == v@.subrange(r.0 as int, r.1 as int),
        trim_start(v@) == v@.skip(r.0 as int),
{
    let mut from: usize = 0;
    assert(v@.skip(0) =~= v@);
    while from < v.len() && is_whitespace(v[from])
        invariant
            from <= v@.len(),
            trim_start(v@) == trim_start(v@.skip(from as int)),
        decreases v@.len() - from,
    {
        assert(v@.skip(from as int).drop_first() =~= v@.skip(from + 1));
        from += 1;
    }
    assert(trim_start(v@.skip(from as int)) == v@.skip(from as int));
    let mut to: usize = v.len();
    assert(v@.subrange(from as int, to as int) =~= v@.skip(from as int));
    while from < to && is_whitespace(v[to - 1])
        invariant
            from <= to <= v@.len(),
            trim(v@) == trim_end(v@.subrange(from as int, to as int)),
        decreases to,
    {
        assert(v@.subrange(from as int, to as int).drop_last() =~= v@.subrange(
            from as int,
            to - 1,
        ));
        to -= 1;
    }
    (from, to)
}

/// `s` without the whitespace on either end.
pub fn trimmed(s: &str) -> (r: String)
    ensures
        r@ == trim(s@),
{
    let v = chars_of(s);
    let (from, to) = trim_bounds(&v);
    string_of(&v, from, to)
}

/// `s` without its trailing whitespace.
pub fn trimmed_end(s: &str) -> (r: String)
    ensures
        r@ == trim_end(s@),
{
    let v = chars_of(s);
    let mut to: usize = v.len();
    assert(v@.take(to as int) =~= v@);
    while 0 < to && is_whitespace(v[to - 1])
        invariant
            to <= v@.len(),
            v@ == s@,
            trim_end(s@) == trim_end(v@.take(to as int)),
        decreases to,
    {
        assert(v@.take(to as int).drop_last() =~= v@.take(to - 1));
        to -= 1;
    }
    assert(v@.take(to as int) =~= v@.subrange(0, to as int));
    string_of(&v, 0, to)
}

/// The pieces of `s` between the occurrences of `sep`.
pub fn split_on(s: &str, sep: char) -> (r: Vec<String>)
    ensures
        r.deep_view() == split(s@, sep),
        r@.len() > 0,
{
    let v = chars_of(s);
    let mut pieces: Vec<String> = Vec::new();
    let mut piece = String::new();
    let mut i: usize = 0;
    assert(v@.take(0) =~= Seq::<char>::empty());
    assert(pieces.deep_view().push(piece@) =~= split(v@.take(0), sep));
    while i < v.len()
        invariant
            i <= v@.len(),
            pieces.deep_view().push(piece@) == split(v@.take(i as int), sep),
        decreases v@.len() - i,
    {
        let c = v[i];
        let ghost earlier = pieces.deep_view().push(piece@);
        assert(v@.take(i + 1).drop_last() =~= v@.take(i as int));
        assert(v@.take(i + 1).last() == c);
        if c == sep {
            pieces.push(piece);
            piece = String::new();
            assert(pieces.deep_view() =~= earlier);
            assert(pieces.deep_view().push(piece@) =~= earlier.push(Seq::<char>::empty()));
        } else {
            piece.push(c);
            assert(pieces.deep_view() =~= earlier.drop_last());
        }
        i += 1;
    }
    assert(v@.take(v@.len() as int) =~= v@);
    let ghost earlier = pieces.deep_view().push(piece@);
    pieces.push(piece);
    assert(pieces.deep_view() =~= earlier);
    pieces
}

/// The lines of `s`.
pub fn lines_of(s: &str) -> (r: Vec<String>)
    ensures
        r.deep_view() == lines(s@),
{
    let pieces = split_on(s, '\n');
    let ghost all = split(s@, '\n');
    let ghost ended = all.drop_last().map_values(|l: Seq<char>| strip_cr(l));
    let mut r: Vec<String> = Vec::new();
    let mut i: usize = 0;
    while i < pieces.len() - 1
        invariant
            i < pieces@.len(),
            pieces.deep_view() == all,
            ended == all.drop_last().map_values(|l: Seq<char>| strip_cr(l)),
            r.deep_view() == ended.take(i as int),
        decreases pieces@.len() - i,
    {
        let line = chars_of(pieces[i].as_str());
        let n = line.len();
        assert(line@ == all[i as int]);
        let kept = if n > 0 && line[n - 1] == '\r' {
            string_of(&line, 0, n - 1)
        } else {
            string_of(&line, 0, n)
        };
        assert(kept@ =~= strip_cr(all[i as int]));
        let ghost earlier = r.deep_view();
        r.push(kept);
        assert(r.deep_view() =~= earlier.push(kept@));
        assert(ended.take(i + 1) =~= ended.take(i as int).push(ended[i as int]));
        i += 1;
    }
    assert(ended.take(i as int) =~= ended);
    let last = &pieces[i];
    assert(last@ == all.last());
    let ghost earlier = r.deep_view();
    if !last.as_str().is_empty() {
        r.push(last.clone());
        assert(r.deep_view() =~= earlier.push(all.last()));
    }
    r
}

/// Whether `part` stands in `v` at `i`.
fn stands_at(v: &Vec<char>, part: &Vec<char>, i: usize) -> (r: bool)
    requires
        i + part@.len() <= v@.len(),
    ensures
        r == occurs_at(v@, part@, i as int),
{
    let n = v.len();
    let mut k: usize = 0;
    while k < part.len()
        invariant
            k <= part@.len(),
            i + part@.len() <= v@.len() == n,
            forall|j: int| 0 <= j < k ==> v@[i + j] == #[trigger] part@[j],
        decreases part@.len() - k,
    {
        if v[i + k] != part[k] {
            assert(v@.subrange(i as int, i + part@.len())[k as int] == v@[i + k]);
            return false;
        }
        k += 1;
    }
    assert(v@.subrange(i as int, i + part@.len()) =~= part@);
    true
}

/// Whether `s` starts with `prefix`.
pub fn starts(s: &str, prefix: &str) -> (r: bool)
    ensures
        r == prefix@.is_prefix_of(s@),
{
    after_prefix(s, prefix).is_some()
}

/// What follows `prefix` in `s`, if `s` starts with it.
pub fn after_prefix(s: &str, prefix: &str) -> (r: Option<String>)
    ensures
        r.deep_view() == strip_prefix(s@, prefix@),
{
    let v = chars_of(s);
    let p = chars_of(prefix);
    if p.len() <= v.len() && stands_at(&v, &p, 0) {
        assert(prefix@ =~= s@.subrange(0, prefix@.len() as int));
        assert(s@.skip(p@.len() as int) =~= v@.subrange(p@.len() as int, v@.len() as int));
        Some(string_of(&v, p.len(), v.len()))
    } else {
        assert(prefix@.is_prefix_of(s@) ==> occurs_at(v@, p@, 0));
        None
    }
}

/// The first position at or after `from` where `part` stands in `v`.
pub fn find_from(v: &Vec<char>, part: &Vec<char>, from: usize) -> (r: Option<usize>)
    requires
        from <= v@.len(),
    ensures
        match r {
            Some(i) => {
                &&& from <= i
                &&& occurs_at(v@, part@, i as int)
                &&& forall|k: int| from <= k < i ==> !occurs_at(v@, part@, k)
            },
            None => forall|k: int| from <= k ==> !occurs_at(v@, part@, k),
        },
{
    let mut i: usize = from;
    while part.len() <= v.len() - i
        invariant
            from <= i <= v@.len(),
            forall|k: int| from <= k < i ==> !occurs_at(v@, part@, k),
        decreases v@.len() - i,
    {
        if stands_at(v, part, i) {
            return Some(i);
        }
        if i == v.len() {
            return None;
        }
        i += 1;
    }
    None
}

/// Whether `part` stands somewhere in `s`.
pub fn has_part(s: &str, part: &str) -> (r: bool)
    ensures
        r == occurs(s@, part@),
{
    let v = chars_of(s);
    let p = chars_of(part);
    match find_from(&v, &p, 0) {
        Some(i) => {
            assert(occurs_at(s@, part@, i as int));
            true
        },
        None => false,
    }
}

/// The two sides of the first `sep`, if there is one.
pub fn cut_once(s: &str, sep: char) -> (r: Option<(String, String)>)
    ensures
        r.deep_view() == split_once(s@, sep),
{
    let v = chars_of(s);
    let mut i: usize = 0;
    assert(v@.skip(0) =~= v@);
    while i < v.len()
        invariant
            i <= v@.len(),
            v@ == s@,
            split_once(s@, sep) == match split_once(v@.skip(i as int), sep) {
                Some((a, b)) => Some((v@.take(i as int) + a, b)),
                None => None,
            },
        decreases v@.len() - i,
    {
        assert(v@.skip(i as int).drop_first() =~= v@.skip(i + 1));
        if v[i] == sep {
            assert(v@.take(i as int) + Seq::<char>::empty() =~= v@.subrange(0, i as int));
            assert(v@.skip(i + 1) =~= v@.subrange(i + 1, v@.len() as int));
            return Some((string_of(&v, 0, i), string_of(&v, i + 1, v.len())));
        }
        proof {
            if let Some((a, b)) = split_once(v@.skip(i + 1), sep) {
                assert(v@.take(i as int) + (seq![v@[i as int]] + a) =~= v@.take(i + 1) + a);
            }
        }
        i += 1;
    }
    None
}

/// The first whitespace-separated word, if there is any.
pub fn word_of(s: &str) -> (r: Option<String>)
    ensures
        r.deep_view() == first_word(s@),
{
    let v = chars_of(s);
    let (from, _) = trim_bounds(&v);
    if from == v.len() {
        return None;
    }
    let mut to: usize = from;
    let ghost t = v@.skip(from as int);
    while to < v.len() && !is_whitespace(v[to])
        invariant
            from <= to <= v@.len(),
            t == v@.skip(from as int),
            word_at_start(t) == v@.subrange(from as int, to as int) + word_at_start(
                v@.skip(to as int),
            ),
        decreases v@.len() - to,
    {
        assert(v@.skip(to as int).drop_first() =~= v@.skip(to + 1));
        assert(v@.subrange(from as int, to as int) + (seq![v@[to as int]] + word_at_start(
            v@.skip(to + 1),
        )) =~= v@.subrange(from as int, to + 1) + word_at_start(v@.skip(to + 1)));
        to += 1;
    }
    assert(v@.subrange(from as int, to as int) + word_at_start(v@.skip(to as int))
        =~= v@.subrange(from as int, to as int));
    Some(string_of(&v, from, to))
}

/// An ASCII capital as its small letter; anything else as it is.
fn lowered_char(c: char) -> (r: char)
    ensures
        r == lower_char(c),
{
    if 'A' <= c && c <= 'Z' {
        let b: u8 = c as u8;
        (b + 32) as char
    } else {
        c
    }
}

/// `s` with its ASCII capitals made small.
pub fn lowered(s: &str) -> (r: String)
    ensures
        r@ == lower(s@),
{
    let v = chars_of(s);
    let mut r = String::new();
    let mut i: usize = 0;
    while i < v.len()
        invariant
            i <= v@.len(),
            r@ == lower(v@.take(i as int)),
        decreases v@.len() - i,
    {
        r.push(lowered_char(v[i]));
        assert(r@ =~= lower(v@.take(i + 1)));
        i += 1;
    }
    assert(v@.take(i as int) =~= v@);
    r
}

/// The digit that stands for `d`.
fn digit_char(d: u8) -> (c: char)
    requires
        d < 10,
    ensures
        c == digit(d as int),
{
    (48 + d) as char
}

/// `n` in decimal.
pub fn to_decimal(n: u128) -> (r: String)
    ensures
        r@ == decimal(n as nat),
    decreases n,
{
    let mut r = if n < 10 {
        String::new()
    } else {
        to_decimal(n / 10)
    };
    r.push(digit_char((n % 10) as u8));
    assert(n < 10 ==> r@ =~= seq![digit(n as int)]);
    r
}

/// The number that the digits `v[from..]` spell, if they are digits and the
/// number is at most `limit`.
fn read_digits(v: &Vec<char>, from: usize, limit: u64) -> (r: Option<u64>)
    requires
        from <= v@.len(),
    ensures
        r == if all_digits(v@.skip(from as int)) && number(v@.skip(from as int)) <= limit {
            Some(number(v@.skip(from as int)) as u64)
        } else {
            None::<u64>
        },
{
    let ghost body = v@.skip(from as int);
    if from == v.len() {
        return None;
    }
    let mut value: u64 = 0;
    let mut i: usize = from;
    while i < v.len()
        invariant
            from <= i <= v@.len(),
            from < v@.len(),
            body == v@.skip(from as int),
            value == number(body.take(i - from)),
            value <= limit,
            forall|k: int| 0 <= k < i - from ==> is_digit(#[trigger] body[k]),
        decreases v@.len() - i,
    {
        let c = v[i];
        assert(body[i - from] == c);
        if !('0' <= c && c <= '9') {
            return None;
        }
        let d: u64 = (c as u32 - 48) as u64;
        proof {
            assert(body.take(i + 1 - from).drop_last() =~= body.take(i - from));
            lemma_number_grows(body, i + 1 - from);
        }
        if value > limit / 10 || d > limit - value * 10 {
            assert(number(body.take(i + 1 - from)) > limit) by (nonlinear_arith)
                requires
                    value > limit / 10 || d > limit - value * 10,
                    number(body.take(i + 1 - from)) == value * 10 + d,
            ;
            return None;
        }
        value = value * 10 + d;
        i += 1;
    }
    assert(body.take(i - from) =~= body);
    Some(value)
}

/// A longer run of digits spells no smaller number.
proof fn lemma_number_grows(s: Seq<char>, n: int)
    requires
        0 <= n <= s.len(),
    ensures
        number(s.take(n)) <= number(s),
    decreases s.len() - n,
{
    if n == s.len() {
        assert(s.take(n) =~= s);
    } else {
        assert(s.take(n + 1).drop_last() =~= s.take(n));
        assert(number(s.take(n)) <= number(s.take(n + 1)));
        lemma_number_grows(s, n + 1);
    }
}

/// A whole number with an optional sign.
pub fn read_i64(s: &str) -> (r: Option<i64>)
    ensures
        r == parse_i64(s@),
{
    let v = chars_of(s);
    assert(v@.skip(0) =~= s@);
    assert(s@.len() > 0 ==> v@.skip(1) =~= s@.drop_first());
    if v.len() > 0 && v[0] == '-' {
        match read_digits(&v, 1, 0x8000_0000_0000_0000) {
            Some(n) => Some((-(n as i128)) as i64),
            None => None,
        }
    } else if v.len() > 0 && v[0] == '+' {
        match read_digits(&v, 1, 0x7fff_ffff_ffff_ffff) {
            Some(n) => Some(n as i64),
            None => None,
        }
    } else {
        match read_digits(&v, 0, 0x7fff_ffff_ffff_ffff) {
            Some(n) => Some(n as i64),
            None => None,
        }
    }
}

/// A whole number with an optional plus.
pub fn read_usize(s: &str) -> (r: Option<usize>)
    ensures
        r == parse_usize(s@),
{
    let v = chars_of(s);
    assert(v@.skip(0) =~= s@);
    assert(s@.len() > 0 ==> v@.skip(1) =~= s@.drop_first());
    let from: usize = if v.len() > 0 && v[0] == '+' { 1 } else { 0 };
    match read_digits(&v, from, usize::MAX as u64) {
        Some(n) => Some(n as usize),
        None => None,
    }
}

/// How many characters `s` has.
pub fn char_count(s: &str) -> (n: usize)
    ensures
        n == s@.len(),
{
    chars_of(s).len()
}

/// How many bytes `s` takes up in UTF-8.
pub fn bytes(s: &str) -> (n: usize)
    ensures
        n == byte_len(s@),
{
    s.len()
}

/// Puts `n` spaces at the end of `s`.
fn push_spaces(s: &mut String, n: usize)
    ensures
        final(s)@ == old(s)@ + spaces(n as nat),
{
    let ghost start = s@;
    let mut i: usize = 0;
    assert(start + spaces(0) =~= start);
    while i < n
        invariant
            i <= n,
            s@ == start + spaces(i as nat),
        decreases n - i,
    {
        s.push(' ');
        i += 1;
        assert(s@ =~= start + spaces(i as nat));
    }
}

/// `s` followed by spaces up to `width` characters.
pub fn padded_end(s: &str, width: usize) -> (r: String)
    ensures
        r@ == pad_end(s@, width as nat),
{
    let n = char_count(s);
    let mut r = s.to_owned();
    if n < width {
        push_spaces(&mut r, width - n);
    }
    r
}

/// `s` after spaces up to `width` characters.
pub fn padded_start(s: &str, width: usize) -> (r: String)
    ensures
        r@ == pad_start(s@, width as nat),
{
    let n = char_count(s);
    if n < width {
        let mut r = String::new();
        push_spaces(&mut r, width - n);
        r.append(s);
        assert(r@ =~= spaces((width - n) as nat) + s@);
        r
    } else {
        s.to_owned()
    }
}

/// Whether `a` comes before `b` in dictionary order.
pub fn comes_before(a: &str, b: &str) -> (r: bool)
    ensures
        r == before(a@, b@),
{
    let x = chars_of(a);
    let y = chars_of(b);
    let mut i: usize = 0;
    assert(x@.skip(0) =~= x@ && y@.skip(0) =~= y@);
    while i < x.len() && i < y.len()
        invariant
            i <= x@.len(),
            i <= y@.len(),
            x@ == a@,
            y@ == b@,
            before(x@, y@) == before(x@.skip(i as int), y@.skip(i as int)),
        decreases x@.len() - i,
    {
        let c = x[i];
        let d = y[i];
        assert(x@.skip(i as int)[0] == c && y@.skip(i as int)[0] == d);
        if c != d {
            return c < d;
        }
        assert(x@.skip(i as int).drop_first() =~= x@.skip(i + 1));
        assert(y@.skip(i as int).drop_first() =~= y@.skip(i + 1));
        i += 1;
    }
    i < y.len()
}

/// How many bytes a character takes up in UTF-8.
fn width_of(c: char) -> (n: usize)
    ensures
        n == width(c),
{
    if c <= '\u{7f}' {
        1
    } else if c <= '\u{7ff}' {
        2
    } else if c <= '\u{ffff}' {
        3
    } else {
        4
    }
}

/// The start of `s` that takes up exactly `n` bytes, if there is one.
pub fn first_bytes(s: &str, n: usize) -> (r: Option<String>)
    ensures
        r.deep_view() == byte_prefix(s@, n as int),
{
    let v = chars_of(s);
    let mut i: usize = 0;
    let mut left: usize = n;
    assert(v@.skip(0) =~= s@);
    while left > 0
        invariant
            i <= v@.len(),
            v@ == s@,
            match byte_prefix(s@.skip(i as int), left as int) {
                Some(rest) => byte_prefix(s@, n as int) matches Some(all) && all =~= s@.take(
                    i as int,
                ) + rest,
                None => byte_prefix(s@, n as int) is None,
            },
        decreases left,
    {
        if i == v.len() {
            return None;
        }
        let w = width_of(v[i]);
        assert(s@.skip(i as int)[0] == v@[i as int]);
        assert(s@.skip(i as int).drop_first() =~= s@.skip(i + 1));
        assert(s@.take(i as int) + seq![v@[i as int]] =~= s@.take(i + 1));
        if w > left {
            return None;
        }
        left -= w;
        i += 1;
    }
    assert(byte_prefix(s@, n as int) == Some(s@.take(i as int)));
    assert(v@.subrange(0, i as int) =~= s@.take(i as int));
    Some(string_of(&v, 0, i))
}

/// Copies of the strings of a slice.
pub fn copies(list: &[String]) -> (v: Vec<String>)
    ensures
        v.deep_view() == list.deep_view(),
{
    let mut v: Vec<String> = Vec::new();
    let mut i: usize = 0;
    while i < list.len()
        invariant
            i <= list@.len(),
            v@.len() == i,
            forall|k: int| 0 <= k < i ==> (#[trigger] v@[k])@ == list@[k]@,
        decreases list@.len() - i,
    {
        v.push(list[i].clone());
        i += 1;
    }
    assert(v.deep_view() =~= list.deep_view());
    v
}

// ---------------------------------------------------------------------------
// Dictionary order is an order.

/// Nothing comes before itself.
pub proof fn lemma_before_irreflexive(a: Seq<char>)
    ensures
        !before(a, a),
    decreases a.len(),
{
    if a.len() > 0 {
        lemma_before_irreflexive(a.drop_first());
    }
}

/// Of two different texts one comes before the other.
pub proof fn lemma_before_total(a: Seq<char>, b: Seq<char>)
    ensures
        a == b || before(a, b) || before(b, a),
    decreases a.len(),
{
    if a.len() > 0 && b.len() > 0 {
        if a[0] == b[0] {
            lemma_before_total(a.drop_first(), b.drop_first());
            if a.drop_first() == b.drop_first() {
                assert(a =~= seq![a[0]] + a.drop_first());
                assert(b =~= seq![b[0]] + b.drop_first());
            }
        }
    } else if a.len() == 0 && b.len() == 0 {
        assert(a =~= b);
    }
}

/// What comes before an earlier text comes before a later one.
pub proof fn lemma_before_transitive(a: Seq<char>, b: Seq<char>, c: Seq<char>)
    requires
        before(a, b),
        before(b, c),
    ensures
        before(a, c),
    decreases a.len(),
{
    if a.len() > 0 && b.len() > 0 && c.len() > 0 {
        if a[0] == b[0] && b[0] == c[0] {
            lemma_before_transitive(a.drop_first(), b.drop_first(), c.drop_first());
        }
    }
}

} // verus!
