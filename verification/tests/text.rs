use hed::text::{
    contains_text, copy_texts, has_dot_suffix, join_words, remove_text, same_text, same_texts,
    shortest_position, split_words, trim, whitespace,
};

fn strings(items: &[&str]) -> Vec<String> {
    items.iter().map(|t| t.to_string()).collect()
}

#[test]
fn white_space_is_what_unicode_says() {
    for c in [' ', '\t', '\n', '\r', '\u{b}', '\u{c}', '\u{85}', '\u{a0}', '\u{1680}', '\u{2000}',
        '\u{200a}', '\u{2028}', '\u{2029}', '\u{202f}', '\u{205f}', '\u{3000}']
    {
        assert!(whitespace(c), "{:?}", c);
    }
    for c in ['a', '#', '.', '0', '\u{8}', '\u{e}', '\u{200b}', '\u{180e}', '\u{feff}'] {
        assert!(!whitespace(c), "{:?}", c);
    }
}

#[test]
fn white_space_agrees_with_the_standard_library() {
    let mut n: u32 = 0;
    while n < 0x3100 {
        if let Some(c) = char::from_u32(n) {
            assert_eq!(whitespace(c), c.is_whitespace(), "{:?}", c);
        }
        n += 1;
    }
}

#[test]
fn texts_are_compared_by_their_characters() {
    assert!(same_text("", ""));
    assert!(same_text("wiersma.nl", "wiersma.nl"));
    assert!(!same_text("wiersma.nl", "wiersma.n"));
    assert!(!same_text("wiersma.nl", "Wiersma.nl"));
    assert!(!same_text("a", ""));
}

#[test]
fn suffixes_need_the_dot() {
    assert!(has_dot_suffix("arjen.wiersma.nl", "wiersma.nl"));
    assert!(has_dot_suffix("a.b", "b"));
    assert!(has_dot_suffix(".b", "b"));
    assert!(has_dot_suffix("a.", ""));
    assert!(!has_dot_suffix("bwiersma.nl", "wiersma.nl"));
    assert!(!has_dot_suffix("wiersma.nl", "wiersma.nl"));
    assert!(!has_dot_suffix("nl", "wiersma.nl"));
    assert!(!has_dot_suffix("", ""));
    assert!(!has_dot_suffix("arjen.wiersma.nl", "wiersma.NL"));
}

#[test]
fn trimming_takes_the_white_space_at_both_ends() {
    assert_eq!(trim("  a comment \t"), "a comment");
    assert_eq!(trim("name"), "name");
    assert_eq!(trim(" \t "), "");
    assert_eq!(trim(""), "");
    assert_eq!(trim("\u{a0}a b\u{3000}"), "a b");
    for text in ["", " ", "a", " a", "a ", " a b ", "\t\ta\n", "\u{2003}x y\u{2003}", "  "] {
        assert_eq!(trim(text), text.trim(), "{:?}", text);
    }
}

#[test]
fn words_are_the_runs_without_white_space() {
    assert_eq!(split_words("alias1 alias2"), strings(&["alias1", "alias2"]));
    assert_eq!(split_words("  a \t b\u{a0}c  "), strings(&["a", "b", "c"]));
    assert_eq!(split_words(""), Vec::<String>::new());
    assert_eq!(split_words(" \t "), Vec::<String>::new());
    assert_eq!(split_words("one"), strings(&["one"]));
    for text in ["", " ", "a", " a", "a ", " a  b ", "\ta\nb c", "x\u{2003}y", "é ü"] {
        let theirs: Vec<String> = text.split_whitespace().map(String::from).collect();
        assert_eq!(split_words(text), theirs, "{:?}", text);
    }
}

#[test]
fn joining_puts_one_space_between() {
    assert_eq!(join_words(&strings(&[])), "");
    assert_eq!(join_words(&strings(&["host1"])), "host1");
    assert_eq!(join_words(&strings(&["host1", "host2"])), "host1 host2");
    assert_eq!(join_words(&strings(&["a", "", "b"])), "a  b");
}

#[test]
fn lists_of_texts_are_searched_copied_and_compared() {
    let list = strings(&["a.nl", "b.nl", "a.nl"]);
    assert!(contains_text(&list, "b.nl"));
    assert!(!contains_text(&list, "c.nl"));
    assert!(!contains_text(&strings(&[]), "a.nl"));
    assert_eq!(copy_texts(&list), list);
    assert!(same_texts(&list, &strings(&["a.nl", "b.nl", "a.nl"])));
    assert!(!same_texts(&list, &strings(&["a.nl", "b.nl"])));
    assert!(!same_texts(&list, &strings(&["a.nl", "a.nl", "b.nl"])));
}

#[test]
fn removing_a_text_takes_each_occurrence() {
    let list = strings(&["a.nl", "b.nl", "a.nl", "c.nl"]);
    assert_eq!(remove_text(&list, "a.nl"), strings(&["b.nl", "c.nl"]));
    assert_eq!(remove_text(&list, "x.nl"), list);
    assert_eq!(remove_text(&strings(&["a.nl"]), "a.nl"), Vec::<String>::new());
}

#[test]
fn the_first_shortest_text_is_found() {
    assert_eq!(shortest_position(&strings(&["demo.a.nl", "d.a.nl"])), 1);
    assert_eq!(shortest_position(&strings(&["bb", "aa", "c"])), 2);
    assert_eq!(shortest_position(&strings(&["ab", "cd", "ef"])), 0);
    assert_eq!(shortest_position(&strings(&["one"])), 0);
    // length is counted in bytes: two letters are no longer than one accented letter
    assert_eq!(shortest_position(&strings(&["\u{e9}", "ab"])), 0);
    assert_eq!(shortest_position(&strings(&["abc", "\u{e9}"])), 1);
    assert_eq!(shortest_position(&strings(&["\u{20ac}", "ab"])), 1);
}
