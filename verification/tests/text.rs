use changed_files::text::{
    chars_of, find, find_white_space, lines_of, part, split_bounds, stands_at,
    strip_quotes_bounds, trim_bounds, white_space,
};

fn chars(s: &str) -> Vec<char> {
    s.chars().collect()
}

#[test]
fn white_space_is_that_of_unicode() {
    for c in ['\t', '\n', '\u{b}', '\u{c}', '\r', ' ', '\u{85}', '\u{a0}', '\u{1680}',
        '\u{2000}', '\u{2005}', '\u{200a}', '\u{2028}', '\u{2029}', '\u{202f}', '\u{205f}',
        '\u{3000}']
    {
        assert!(white_space(c));
        assert!(c.is_whitespace());
    }
    for c in ['a', '"', '-', '>', '\0', '\u{8}', '\u{e}', '\u{1f}', '\u{180e}', '\u{200b}',
        '\u{2060}', '\u{feff}']
    {
        assert!(!white_space(c));
        assert!(!c.is_whitespace());
    }
}

#[test]
fn white_space_agrees_with_std_on_every_character() {
    let mut n: u32 = 0;
    while n <= 0x10ffff {
        if let Some(c) = char::from_u32(n) {
            assert_eq!(white_space(c), c.is_whitespace());
        }
        n += 1;
    }
}

#[test]
fn chars_of_gives_the_characters() {
    assert_eq!(chars_of("a\u{e9}b"), vec!['a', '\u{e9}', 'b']);
    assert_eq!(chars_of(""), Vec::<char>::new());
}

#[test]
fn trim_bounds_cut_white_space_off_both_ends() {
    assert_eq!(trim_bounds(&chars("  ab c \n")), (2, 6));
    assert_eq!(trim_bounds(&chars("abc")), (0, 3));
    assert_eq!(trim_bounds(&chars("")), (0, 0));
    let all = trim_bounds(&chars(" \t "));
    assert_eq!(all.0, all.1);
}

#[test]
fn trim_bounds_agree_with_std() {
    for s in ["", " ", "a", " a", "a ", " a b ", "\u{a0}x\u{3000}", "\r\n x y \t"] {
        let c = chars(s);
        let (from, to) = trim_bounds(&c);
        let kept: String = c[from..to].iter().collect();
        assert_eq!(kept, s.trim());
    }
}

#[test]
fn find_white_space_gives_the_first() {
    assert_eq!(find_white_space(&chars("ab cd ef")), Some(2));
    assert_eq!(find_white_space(&chars("\u{e9}\u{e9}\tx")), Some(2));
    assert_eq!(find_white_space(&chars("abc")), None);
    assert_eq!(find_white_space(&chars("")), None);
}

#[test]
fn find_gives_the_first_occurrence() {
    let arrow = chars(" -> ");
    assert_eq!(find(&chars("a -> b -> c"), &arrow), Some(1));
    assert_eq!(find(&chars(" -> "), &arrow), Some(0));
    assert_eq!(find(&chars("a->b"), &arrow), None);
    assert_eq!(find(&chars(" ->"), &arrow), None);
    assert_eq!(find(&chars("abc"), &chars("")), Some(0));
    assert_eq!(find(&chars(""), &chars("")), Some(0));
    assert_eq!(find(&chars("ab"), &chars("abc")), None);
    assert_eq!(find(&chars("aab"), &chars("ab")), Some(1));
}

#[test]
fn stands_at_compares_in_place() {
    let s = chars("a -> b");
    let arrow = chars(" -> ");
    assert!(stands_at(&s, &arrow, 1));
    assert!(!stands_at(&s, &arrow, 0));
    assert!(!stands_at(&s, &arrow, 3));
    assert!(!stands_at(&s, &arrow, 7));
    assert!(stands_at(&s, &chars(""), 6));
}

#[test]
fn split_bounds_agree_with_std() {
    for s in ["", "a", " -> ", "a -> b", "a -> b -> c", "a -> -> b", " ->  -> ", "x ->"] {
        let c = chars(s);
        let segments: Vec<String> = split_bounds(&c, &chars(" -> "))
            .into_iter()
            .map(|(from, to)| c[from..to].iter().collect())
            .collect();
        let expected: Vec<String> = s.split(" -> ").map(String::from).collect();
        assert_eq!(segments, expected);
    }
}

#[test]
fn strip_quotes_bounds_drop_one_quote_at_each_end() {
    assert_eq!(strip_quotes_bounds(&chars("\"ab\"")), (1, 3));
    assert_eq!(strip_quotes_bounds(&chars("ab")), (0, 2));
    assert_eq!(strip_quotes_bounds(&chars("\"ab")), (1, 3));
    assert_eq!(strip_quotes_bounds(&chars("ab\"")), (0, 2));
    assert_eq!(strip_quotes_bounds(&chars("\"\"ab\"\"")), (1, 5));
    assert_eq!(strip_quotes_bounds(&chars("\"")), (1, 1));
    assert_eq!(strip_quotes_bounds(&chars("")), (0, 0));
}

#[test]
fn part_cuts_a_range() {
    let c = chars("abcdef");
    assert_eq!(part(&c, 2, 4), &['c', 'd']);
    assert_eq!(part(&c, 3, 3), &[] as &[char]);
}

#[test]
fn lines_of_splits_at_line_feeds() {
    assert_eq!(lines_of("a\nb"), vec!["a", "b"]);
    assert_eq!(lines_of("a\nb\n"), vec!["a", "b"]);
    assert_eq!(lines_of("a\n\nb"), vec!["a", "", "b"]);
    assert_eq!(lines_of("a\n\n"), vec!["a", ""]);
    assert_eq!(lines_of("\n"), vec![""]);
    assert_eq!(lines_of(""), Vec::<&str>::new());
    assert_eq!(lines_of("one line"), vec!["one line"]);
    assert_eq!(lines_of("a\r\nb"), vec!["a\r", "b"]);
    assert_eq!(lines_of(" M d\u{e9}j\u{e0}\n M vu"), vec![" M d\u{e9}j\u{e0}", " M vu"]);
}
