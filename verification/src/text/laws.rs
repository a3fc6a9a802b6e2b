//! What holds of texts, said without the functions that compute it.

use vstd::prelude::*;

use crate::text;

verus! {

// ---------------------------------------------------------------------------
// Whitespace.

/// The whitespace characters, by their code points: those of Unicode's
/// `White_Space`, and no other.
pub proof fn law_whitespace_by_code_point(c: char)
    ensures
        text::is_space(c) <==> {
            let n = c as u32;
            ||| 0x9 <= n <= 0xd
            ||| n == 0x20 || n == 0x85 || n == 0xa0 || n == 0x1680
            ||| 0x2000 <= n <= 0x200a
            ||| n == 0x2028 || n == 0x2029 || n == 0x202f || n == 0x205f || n == 0x3000
        },
{
}

/// What is cut off the front is whitespace, and nothing more of it is left
/// there.
proof fn lemma_trim_start(s: Seq<char>) -> (k: int)
    ensures
        0 <= k <= s.len(),
        text::trim_start(s) == s.skip(k),
        text::blank(s.take(k)),
        k < s.len() ==> !text::is_space(s[k]),
    decreases s.len(),
{
    if s.len() > 0 && text::is_space(s[0]) {
        let k = lemma_trim_start(s.drop_first());
        assert(s.drop_first().skip(k) =~= s.skip(k + 1));
        assert forall|i: int| 0 <= i < k + 1 implies text::is_space(
            #[trigger] s.take(k + 1)[i],
        ) by {
            if i > 0 {
                assert(s.drop_first().take(k)[i - 1] == s[i]);
            }
        }
        k + 1
    } else {
        assert(s.skip(0) =~= s);
        0
    }
}

/// What is cut off the end is whitespace, and nothing more of it is left
/// there.
proof fn lemma_trim_end(s: Seq<char>) -> (n: int)
    ensures
        0 <= n <= s.len(),
        text::trim_end(s) == s.take(n),
        text::blank(s.skip(n)),
        n > 0 ==> !text::is_space(s[n - 1]),
    decreases s.len(),
{
    if s.len() > 0 && text::is_space(s.last()) {
        let n = lemma_trim_end(s.drop_last());
        assert(s.drop_last().take(n) =~= s.take(n));
        assert forall|i: int| 0 <= i < s.skip(n).len() implies text::is_space(
            #[trigger] s.skip(n)[i],
        ) by {
            if n + i < s.len() - 1 {
                assert(s.drop_last().skip(n)[i] == s[n + i]);
            }
        }
        n
    } else {
        assert(s.take(s.len() as int) =~= s);
        s.len() as int
    }
}

/// Trimming takes whitespace off both ends, all of it, and nothing else: the
/// text is whitespace, what is left, and whitespace, and what is left neither
/// begins nor ends with any.
pub proof fn law_trim_takes_whitespace_off(s: Seq<char>) -> (r: (Seq<char>, Seq<char>))
    ensures
        s == r.0 + text::trim(s) + r.1,
        text::blank(r.0),
        text::blank(r.1),
        text::trim(s).len() > 0 ==> !text::is_space(text::trim(s)[0]) && !text::is_space(
            text::trim(s).last(),
        ),
{
    let k = lemma_trim_start(s);
    let t = s.skip(k);
    let n = lemma_trim_end(t);
    assert(s =~= s.take(k) + t.take(n) + t.skip(n));
    if n > 0 {
        assert(t.take(n)[0] == s[k]);
        assert(t.take(n).last() == t[n - 1]);
    }
    (s.take(k), t.skip(n))
}

/// The same of the end alone.
pub proof fn law_trim_end_takes_whitespace_off(s: Seq<char>) -> (tail: Seq<char>)
    ensures
        s == text::trim_end(s) + tail,
        text::blank(tail),
        text::trim_end(s).len() > 0 ==> !text::is_space(text::trim_end(s).last()),
{
    let n = lemma_trim_end(s);
    assert(s =~= s.take(n) + s.skip(n));
    s.skip(n)
}

/// Blank is what holds nothing but whitespace, and only that trims to nothing.
pub proof fn law_blank_text_trims_to_nothing(s: Seq<char>)
    ensures
        text::blank(s) <==> forall|i: int| 0 <= i < s.len() ==> text::is_space(#[trigger] s[i]),
        text::blank(s) <==> text::trim(s).len() == 0,
{
    let (a, b) = law_trim_takes_whitespace_off(s);
    let t = text::trim(s);
    if t.len() > 0 {
        assert(s[a.len() as int] == t[0]);
    } else {
        assert forall|i: int| 0 <= i < s.len() implies text::is_space(#[trigger] s[i]) by {
            if i < a.len() {
                assert(s[i] == a[i]);
            } else {
                assert(s[i] == b[i - a.len()]);
            }
        }
    }
}

/// The first word of a text is a run of characters that are no whitespace,
/// with nothing but whitespace before it and whitespace or the end behind it;
/// only a blank text has none.
pub proof fn law_first_word_is_the_first_run(s: Seq<char>) -> (r: (Seq<char>, Seq<char>))
    ensures
        text::first_word(s) is None <==> text::blank(s),
        text::first_word(s) is Some ==> {
            let w = text::first_word(s)->Some_0;
            &&& s == r.0 + w + r.1
            &&& text::blank(r.0)
            &&& w.len() > 0
            &&& forall|i: int| 0 <= i < w.len() ==> !text::is_space(#[trigger] w[i])
            &&& r.1.len() > 0 ==> text::is_space(r.1[0])
        },
{
    let k = lemma_trim_start(s);
    let t = text::trim_start(s);
    let w = text::word_at_start(t);
    let n = lemma_word_at_start(t);
    if t.len() == 0 {
        assert(s.take(k) =~= s);
    } else {
        assert(s[k] == t[0]);
        assert(s =~= s.take(k) + t.take(n) + t.skip(n));
        assert(!text::is_space(t[0]));
    }
    (s.take(k), t.skip(n))
}

proof fn lemma_word_at_start(s: Seq<char>) -> (n: int)
    ensures
        0 <= n <= s.len(),
        text::word_at_start(s) == s.take(n),
        forall|i: int| 0 <= i < n ==> !text::is_space(#[trigger] s[i]),
        n < s.len() ==> text::is_space(s[n]),
    decreases s.len(),
{
    if s.len() > 0 && !text::is_space(s[0]) {
        let rest = s.drop_first();
        let n = lemma_word_at_start(rest);
        assert(seq![s[0]] + rest.take(n) =~= s.take(n + 1));
        assert forall|i: int| 0 <= i < n + 1 implies !text::is_space(#[trigger] s[i]) by {
            if i > 0 {
                assert(rest[i - 1] == s[i]);
            }
        }
        n + 1
    } else {
        assert(s.take(0) =~= Seq::<char>::empty());
        0
    }
}

// ---------------------------------------------------------------------------
// Pieces.

/// The pieces with the separator between them.
pub open spec fn joined_by(pieces: Seq<Seq<char>>, sep: char) -> Seq<char>
    decreases pieces.len(),
{
    if pieces.len() == 0 {
        Seq::empty()
    } else if pieces.len() == 1 {
        pieces[0]
    } else {
        joined_by(pieces.drop_last(), sep).push(sep) + pieces.last()
    }
}

/// Splitting is undone by joining, no piece holds the separator, and there is
/// always at least one: that fixes the pieces.
pub proof fn law_split_and_join(s: Seq<char>, sep: char)
    ensures
        text::split(s, sep).len() > 0,
        joined_by(text::split(s, sep), sep) == s,
        forall|i: int|
            0 <= i < text::split(s, sep).len() ==> !(#[trigger] text::split(s, sep)[i]).contains(
                sep,
            ),
    decreases s.len(),
{
    let pieces = text::split(s, sep);
    if s.len() == 0 {
        assert(s =~= Seq::<char>::empty());
    } else {
        let before = text::split(s.drop_last(), sep);
        law_split_and_join(s.drop_last(), sep);
        if s.last() == sep {
            assert(pieces.drop_last() =~= before);
            assert(joined_by(pieces, sep) =~= s);
        } else {
            let last = before.last().push(s.last());
            assert(pieces.drop_last() =~= before.drop_last());
            assert(s =~= s.drop_last().push(s.last()));
            assert(pieces.last() == last);
            if before.len() == 1 {
                assert(pieces[0] == last);
                assert(before[0] == before.last());
            } else {
                let head = joined_by(before.drop_last(), sep).push(sep);
                assert(joined_by(before, sep) == head + before.last());
                assert(joined_by(pieces, sep) == head + last);
                assert(head + last =~= (head + before.last()).push(s.last()));
            }
            assert(!before[before.len() - 1].contains(sep));
            assert(!last.contains(sep)) by {
                if last.contains(sep) {
                    let k = choose|k: int| 0 <= k < last.len() && last[k] == sep;
                    assert(before.last()[k] == sep);
                }
            }
        }
        assert forall|i: int| 0 <= i < pieces.len() implies !(#[trigger] pieces[i]).contains(
            sep,
        ) by {
            if i < before.len() - 1 {
                assert(pieces[i] == before[i]);
            } else if s.last() == sep && i == before.len() - 1 {
                assert(pieces[i] == before[i]);
            }
        }
    }
}

/// The lines of a text are its pieces between line feeds, each but the last
/// without the carriage return before its line feed; an empty last piece is no
/// line.
pub proof fn law_lines_end_in_line_feeds(s: Seq<char>)
    ensures
        ({
            let pieces = text::split(s, '\n');
            let lines = text::lines(s);
            let n = pieces.len() - 1;
            &&& lines.len() == if pieces[n].len() == 0 {
                n
            } else {
                n + 1
            }
            &&& pieces[n].len() > 0 ==> lines[n] == pieces[n]
            &&& forall|i: int|
                0 <= i < n ==> {
                    let line = #[trigger] lines[i];
                    pieces[i] == line && !(line.len() > 0 && line.last() == '\r') || pieces[i]
                        == line.push('\r')
                }
        }),
{
    law_split_and_join(s, '\n');
    let pieces = text::split(s, '\n');
    let lines = text::lines(s);
    let n = pieces.len() - 1;
    assert forall|i: int| 0 <= i < n implies {
        let line = #[trigger] lines[i];
        pieces[i] == line && !(line.len() > 0 && line.last() == '\r') || pieces[i] == line.push(
            '\r',
        )
    } by {
        assert(lines[i] == text::strip_cr(pieces[i]));
        if pieces[i].len() > 0 && pieces[i].last() == '\r' {
            assert(pieces[i] =~= pieces[i].drop_last().push('\r'));
        }
    }
}

/// A text is cut at the first separator: the sides with the separator between
/// them are the text again, and the left one does not hold it. Only a text
/// without the separator is not cut.
pub proof fn law_cut_at_the_first(s: Seq<char>, sep: char)
    ensures
        text::split_once(s, sep) is None <==> !s.contains(sep),
        text::split_once(s, sep) matches Some((a, b)) ==> s == a.push(sep) + b && !a.contains(sep),
    decreases s.len(),
{
    if s.len() > 0 {
        let rest = s.drop_first();
        law_cut_at_the_first(rest, sep);
        if s[0] == sep {
            assert(s.contains(sep));
            assert(s =~= Seq::<char>::empty().push(sep) + rest);
        } else {
            if rest.contains(sep) {
                let k = choose|k: int| 0 <= k < rest.len() && rest[k] == sep;
                assert(s[k + 1] == sep);
            }
            if s.contains(sep) {
                let k = choose|k: int| 0 <= k < s.len() && s[k] == sep;
                assert(rest[k - 1] == sep);
            }
            if let Some((a, b)) = text::split_once(rest, sep) {
                let left = seq![s[0]] + a;
                assert(s =~= seq![s[0]] + rest);
                assert(rest == a.push(sep) + b);
                assert(seq![s[0]] + (a.push(sep) + b) =~= left.push(sep) + b);
                assert(!left.contains(sep)) by {
                    if left.contains(sep) {
                        let k = choose|k: int| 0 <= k < left.len() && left[k] == sep;
                        assert(a[k - 1] == sep);
                    }
                }
            }
        }
    }
}

/// What follows a prefix, put behind it, is the text; only a text that does
/// not begin with the prefix has nothing to give.
pub proof fn law_prefix_and_rest(s: Seq<char>, prefix: Seq<char>)
    ensures
        text::strip_prefix(s, prefix) is Some <==> exists|rest: Seq<char>| s == prefix + rest,
        text::strip_prefix(s, prefix) matches Some(rest) ==> s == prefix + rest,
        forall|rest: Seq<char>| #[trigger]
            text::strip_prefix(prefix + rest, prefix) == Some(rest),
{
    assert forall|rest: Seq<char>| #[trigger]
        text::strip_prefix(prefix + rest, prefix) == Some(rest) by {
        let whole = prefix + rest;
        assert(prefix =~= whole.subrange(0, prefix.len() as int));
        assert(whole.skip(prefix.len() as int) =~= rest);
    }
    if prefix.is_prefix_of(s) {
        assert(s =~= prefix + s.skip(prefix.len() as int));
    }
    if exists|rest: Seq<char>| s == prefix + rest {
        let rest = choose|rest: Seq<char>| s == prefix + rest;
        assert(text::strip_prefix(prefix + rest, prefix) == Some(rest));
    }
}

/// A part occurs in a text exactly if the text is something, the part, and
/// something more.
pub proof fn law_parts_stand_between(s: Seq<char>, part: Seq<char>)
    ensures
        text::occurs(s, part) <==> exists|a: Seq<char>, b: Seq<char>| s == a + part + b,
{
    if text::occurs(s, part) {
        let i = choose|i: int| text::occurs_at(s, part, i);
        assert(s =~= s.take(i) + part + s.skip(i + part.len())) by {
            assert forall|k: int| 0 <= k < s.len() implies s[k] == (s.take(i) + part + s.skip(
                i + part.len(),
            ))[k] by {
                if i <= k < i + part.len() {
                    assert(s.subrange(i, i + part.len())[k - i] == part[k - i]);
                }
            }
        }
    }
    if exists|a: Seq<char>, b: Seq<char>| s == a + part + b {
        let (a, b) = choose|a: Seq<char>, b: Seq<char>| s == a + part + b;
        let i = a.len() as int;
        assert(s.subrange(i, i + part.len()) =~= part);
        assert(text::occurs_at(s, part, i));
    }
}

// ---------------------------------------------------------------------------
// Letters and numbers.

/// Capitals are made small and nothing else changes.
pub proof fn law_small_letters(s: Seq<char>, i: int)
    requires
        0 <= i < s.len(),
    ensures
        text::lower(s).len() == s.len(),
        s[i] == 'A' ==> text::lower(s)[i] == 'a',
        s[i] == 'Z' ==> text::lower(s)[i] == 'z',
        'A' <= s[i] && s[i] <= 'Z' ==> text::lower(s)[i] as int == s[i] as int + ('a' as int
            - 'A' as int),
        !('A' <= s[i] && s[i] <= 'Z') ==> text::lower(s)[i] == s[i],
{
}

/// A number in decimal is digits only, does not begin with a needless zero,
/// and spells the number it was made of.
pub proof fn law_decimal_spells_the_number(n: nat)
    ensures
        text::decimal(n).len() > 0,
        forall|i: int|
            0 <= i < text::decimal(n).len() ==> '0' <= #[trigger] text::decimal(n)[i]
                && text::decimal(n)[i] <= '9',
        text::number(text::decimal(n)) == n,
        n > 0 ==> text::decimal(n)[0] != '0',
        n == 0 ==> text::decimal(n) == seq!['0'],
    decreases n,
{
    let d = text::decimal(n);
    if n < 10 {
        assert(d.drop_last() =~= Seq::<char>::empty());
        assert(text::number(d.drop_last()) == 0);
    } else {
        law_decimal_spells_the_number(n / 10);
        assert(d.drop_last() =~= text::decimal(n / 10));
    }
}

/// Digits are read from the highest down: one more digit makes ten times the
/// number and the digit.
pub proof fn law_digits_count_in_tens(s: Seq<char>, c: char)
    requires
        '0' <= c && c <= '9',
    ensures
        text::number(s.push(c)) == text::number(s) * 10 + (c as int - '0' as int),
        text::number(Seq::empty()) == 0,
{
    assert(s.push(c).drop_last() =~= s);
}

/// A whole number is an optional sign and one digit or more; what it is worth
/// is what its digits spell, and what does not fit is no number.
pub proof fn law_numbers_are_digits(s: Seq<char>)
    requires
        s.len() > 0,
        forall|i: int| 0 <= i < s.len() ==> '0' <= #[trigger] s[i] && s[i] <= '9',
    ensures
        text::number(s) <= i64::MAX ==> text::parse_i64(s) == Some(text::number(s) as i64)
            && text::parse_i64(seq!['+'] + s) == Some(text::number(s) as i64) && text::parse_i64(
            seq!['-'] + s,
        ) == Some((-(text::number(s) as int)) as i64),
        text::number(s) > i64::MAX ==> text::parse_i64(s) is None,
        text::number(s) <= usize::MAX ==> text::parse_usize(s) == Some(text::number(s) as usize)
            && text::parse_usize(seq!['+'] + s) == Some(text::number(s) as usize),
        text::number(s) > usize::MAX ==> text::parse_usize(s) is None,
        text::parse_usize(seq!['-'] + s) is None,
{
    assert('0' <= s[0] && s[0] <= '9');
    assert((seq!['+'] + s).drop_first() =~= s);
    assert((seq!['-'] + s).drop_first() =~= s);
    assert((seq!['-'] + s)[0] == '-');
    assert((seq!['+'] + s)[0] == '+');
    assert(!text::is_digit((seq!['-'] + s)[0]));
}

/// Whatever holds a character that is neither a digit nor a leading sign is no
/// number, and neither is nothing.
pub proof fn law_other_texts_are_no_numbers(s: Seq<char>, i: int)
    requires
        0 <= i < s.len(),
        !('0' <= s[i] && s[i] <= '9'),
        i > 0 || (s[0] != '+' && s[0] != '-') || s.len() == 1,
    ensures
        text::parse_i64(s) is None,
        text::parse_usize(s) is None,
        text::parse_i64(Seq::empty()) is None,
        text::parse_usize(Seq::empty()) is None,
{
    let tail = s.drop_first();
    if i > 0 {
        assert(tail[i - 1] == s[i]);
        assert(!text::is_digit(tail[i - 1]));
    }
    assert(!text::is_digit(s[i]));
}

// ---------------------------------------------------------------------------
// Columns.

/// Padding adds spaces on one side, up to the width and no further.
pub proof fn law_padding_fills_up(s: Seq<char>, width: nat)
    ensures
        text::pad_end(s, width).len() == if s.len() < width {
            width
        } else {
            s.len()
        },
        text::pad_start(s, width).len() == text::pad_end(s, width).len(),
        s.is_prefix_of(text::pad_end(s, width)),
        text::pad_start(s, width).skip(text::pad_start(s, width).len() - s.len()) == s,
        forall|i: int|
            s.len() <= i < text::pad_end(s, width).len() ==> #[trigger] text::pad_end(s, width)[i]
                == ' ',
        forall|i: int|
            0 <= i < text::pad_start(s, width).len() - s.len() ==> #[trigger] text::pad_start(
                s,
                width,
            )[i] == ' ',
{
    let e = text::pad_end(s, width);
    let b = text::pad_start(s, width);
    assert(s =~= e.subrange(0, s.len() as int));
    assert(b.skip(b.len() - s.len()) =~= s);
}

// ---------------------------------------------------------------------------
// Order and bytes.

/// Texts are ordered like words in a dictionary: the first character that
/// differs decides, and a text comes before every longer one that begins with
/// it.
pub proof fn law_dictionary_order(
    head: Seq<char>,
    a: char,
    b: char,
    x: Seq<char>,
    y: Seq<char>,
)
    ensures
        a < b ==> text::before(head.push(a) + x, head.push(b) + y),
        a > b ==> !text::before(head.push(a) + x, head.push(b) + y),
        text::before(head, head.push(a) + x),
        !text::before(head.push(a) + x, head),
        !text::before(head, head),
    decreases head.len(),
{
    let left = head.push(a) + x;
    let right = head.push(b) + y;
    if head.len() > 0 {
        let rest = head.drop_first();
        law_dictionary_order(rest, a, b, x, y);
        assert(left.drop_first() =~= rest.push(a) + x);
        assert(right.drop_first() =~= rest.push(b) + y);
    }
}

/// In a text of seven-bit characters bytes and characters are the same: its
/// first `n` bytes are its first `n` characters, and there are none if it is
/// shorter.
pub proof fn law_ascii_bytes_are_characters(s: Seq<char>, n: int)
    requires
        0 <= n,
        forall|i: int| 0 <= i < s.len() ==> (#[trigger] s[i]) <= '\u{7f}',
    ensures
        n <= s.len() ==> text::byte_prefix(s, n) == Some(s.take(n)),
        n > s.len() ==> text::byte_prefix(s, n) is None,
    decreases s.len(),
{
    if n == 0 {
        assert(s.take(0) =~= Seq::<char>::empty());
    } else if s.len() > 0 {
        let rest = s.drop_first();
        assert forall|i: int| 0 <= i < rest.len() implies (#[trigger] rest[i]) <= '\u{7f}' by {
            assert(rest[i] == s[i + 1]);
        }
        law_ascii_bytes_are_characters(rest, n - 1);
        assert(s[0] <= '\u{7f}');
        if n <= s.len() {
            assert(seq![s[0]] + rest.take(n - 1) =~= s.take(n));
        }
    }
}

/// A start of so many bytes takes one byte off for a character below 0x80, two
/// below 0x800, three below 0x10000 and four from there on; a character is
/// never cut in two.
pub proof fn law_characters_are_not_cut(c: char, s: Seq<char>, n: int)
    requires
        n > 0,
    ensures
        ({
            let size = if (c as u32) < 0x80 {
                1int
            } else if (c as u32) < 0x800 {
                2
            } else if (c as u32) < 0x10000 {
                3
            } else {
                4
            };
            let whole = seq![c] + s;
            &&& n < size ==> text::byte_prefix(whole, n) is None
            &&& n >= size && text::byte_prefix(s, n - size) is None ==> text::byte_prefix(whole, n)
                is None
            &&& n >= size && text::byte_prefix(s, n - size) is Some ==> text::byte_prefix(whole, n)
                == Some(seq![c] + text::byte_prefix(s, n - size)->Some_0)
        }),
        text::byte_prefix(s, 0) == Some(Seq::<char>::empty()),
        text::byte_prefix(Seq::empty(), n) is None,
{
    let whole = seq![c] + s;
    assert(whole.drop_first() =~= s);
    assert(whole[0] == c);
}

} // verus!
