use git_barber::text::{
    after_prefix, comes_before, cut_once, first_bytes, has_part, is_blank, lines_of, lowered,
    padded_end, padded_start, read_i64, read_usize, same, split_on, to_decimal, trimmed,
    trimmed_end, word_of,
};

#[test]
fn whitespace_is_what_the_standard_library_takes_for_it() {
    for c in (0..0x11_0000).filter_map(char::from_u32) {
        let s = c.to_string();
        assert_eq!(is_blank(&s), c.is_whitespace(), "{c:?}");
    }
    for s in ["", " ", "a", " a ", "\t\u{3000}x y\u{85}\n", "\r\n", "x \u{b}"] {
        assert_eq!(trimmed(s), s.trim());
        assert_eq!(trimmed_end(s), s.trim_end());
        assert_eq!(word_of(s).as_deref(), s.split_whitespace().next());
    }
}

#[test]
fn lines_and_pieces_are_those_of_the_standard_library() {
    for s in ["", "\n", "a", "a\n", "a\nb", "a\r\nb\r", "\r\n\r\n", "a\n\nb\n", "ä\0ö\0"] {
        let lines: Vec<&str> = s.lines().collect();
        assert_eq!(lines_of(s), lines, "{s:?}");
        let pieces: Vec<&str> = s.split('\0').collect();
        assert_eq!(split_on(s, '\0'), pieces, "{s:?}");
        let cut = s.split_once('\n');
        let ours = cut_once(s, '\n');
        assert_eq!(ours.as_ref().map(|(a, b)| (a.as_str(), b.as_str())), cut);
    }
}

#[test]
fn numbers_are_read_as_the_standard_library_reads_them() {
    for s in [
        "", "0", "-0", "+7", "-", "+", "007", "12x", " 1", "9223372036854775807",
        "9223372036854775808", "-9223372036854775808", "-9223372036854775809",
        "18446744073709551615", "18446744073709551616", "99999999999999999999999", "--1", "+-1",
    ] {
        assert_eq!(read_i64(s), s.parse::<i64>().ok(), "{s:?}");
        assert_eq!(read_usize(s), s.parse::<usize>().ok(), "{s:?}");
    }
    for n in [0, 9, 10, 99, 1234567890, u64::MAX as u128] {
        assert_eq!(to_decimal(n), n.to_string());
    }
}

#[test]
fn texts_compare_as_the_standard_library_compares_them() {
    let texts = ["", "a", "ab", "b", "B", "ä", "z", "漢", "\u{10000}", "\u{ffff}", "a\0"];
    for a in texts {
        for b in texts {
            assert_eq!(comes_before(a, b), a < b, "{a:?} {b:?}");
            assert_eq!(same(a, b), a == b);
            assert_eq!(has_part(a, b), a.contains(b));
            assert_eq!(after_prefix(a, b).as_deref(), a.strip_prefix(b));
        }
    }
}

#[test]
fn padding_counts_characters() {
    assert_eq!(padded_end("ä", 3), format!("{:3}", "ä"));
    assert_eq!(padded_start("ä", 3), format!("{:>3}", "ä"));
    assert_eq!(padded_end("long", 3), "long");
    assert_eq!(padded_start("long", 0), "long");
}

#[test]
fn capitals_are_lowered_within_ascii_only() {
    assert_eq!(lowered("AbZ[É"), "AbZ[É".to_ascii_lowercase());
}

#[test]
fn a_text_is_cut_between_characters_only() {
    for s in ["", "abc", "aé漢\u{10000}z"] {
        for n in 0..12 {
            assert_eq!(first_bytes(s, n).as_deref(), s.get(..n), "{s:?} {n}");
        }
    }
}
