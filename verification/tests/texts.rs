use tui_book_search::number;
use tui_book_search::order;
use tui_book_search::text;
use tui_book_search::words;

#[test]
fn white_space_is_what_the_standard_library_says() {
    for code in 0u32..0x11_0000 {
        if let Some(c) = char::from_u32(code) {
            assert_eq!(text::space(c), c.is_whitespace(), "{code:x}");
        }
    }
}

#[test]
fn searching_and_cutting() {
    assert!(text::starts_with("abc", "ab"));
    assert!(!text::starts_with("abc", "bc"));
    assert!(text::ends_with("abc", "bc"));
    assert!(text::contains("abc", ""));
    assert!(text::contains("aab", "ab"));
    assert!(!text::contains("ab", "abc"));
    assert_eq!(text::strip_prefix("~/x", "~/").as_deref(), Some("x"));
    assert_eq!(text::strip_suffix("x.epub", ".epub").as_deref(), Some("x"));
    assert_eq!(text::tail_after("a=b=c", "=").as_deref(), Some("b=c"));
    assert_eq!(text::tail_after("abc", "="), None);
    assert_eq!(text::head_before("a=b", "="), "a");
    assert_eq!(text::head_before("ab", "="), "ab");
    assert_eq!(text::exchange("aXbXc", "X", "--"), "a--b--c");
    assert_eq!(text::exchange("aaa", "aa", "b"), "ba");
    assert_eq!(text::exchange("abc", "x", "y"), "abc");
}

#[test]
fn trimming_and_padding() {
    assert_eq!(text::trim(" \u{a0}\t a b \n"), "a b");
    assert_eq!(text::trim("  "), "");
    assert_eq!(text::trim_end_char("a//", '/'), "a");
    assert_eq!(text::pad_left("čx", 4), "  čx");
    assert_eq!(text::pad_left("long", 2), "long");
    assert_eq!(text::pad_right("ab", 4), "ab  ");
    assert_eq!(text::take_chars("čšž", 2), "čš");
    assert_eq!(text::take_chars("a", 2), "a");
    assert_eq!(text::lower("AbČ"), "abČ");
    assert_eq!(text::upper("abč"), "ABč");
    assert_eq!(text::repeat('-', 3), "---");
    assert_eq!(text::replace("a-b_c", &['-', '_'], ' '), "a b c");
}

#[test]
fn words_and_pieces() {
    assert_eq!(words::split("a?b#c", &['?', '#']), vec!["a", "b", "c"]);
    assert_eq!(words::split("", &['?']), vec![""]);
    assert_eq!(words::first_piece("a;b", &[';']), "a");
    assert_eq!(words::last_piece("a/b/", &['/']), "");
    assert_eq!(words::stem("a.b.c", '.').as_deref(), Some("a.b"));
    assert_eq!(words::stem("abc", '.'), None);
    assert_eq!(words::split_words("  a \n b  "), vec!["a", "b"]);
    assert_eq!(words::squeeze("  a \n b  "), "a b");
    assert_eq!(words::squeeze_some(" \n "), None);
    assert_eq!(
        words::join(&vec!["a".to_string(), "b".to_string()], ", "),
        "a, b"
    );
    assert_eq!(words::join(&Vec::new(), ", "), "");
    assert_eq!(words::concat(&vec!["a".to_string(), "b".to_string()]), "ab");
}

#[test]
fn squeezing_leaves_single_spaces() {
    for s in ["", "  ", " a  b\t\nc ", "one", "\u{a0}x\u{2003}y "] {
        let once = words::squeeze(s);
        assert_eq!(once, s.split_whitespace().collect::<Vec<_>>().join(" "));
        assert_eq!(words::squeeze(&once), once);
        assert!(!once.contains("  "));
        assert_eq!(words::split_words(&once), words::split_words(s));
        assert!(words::split_words(s).iter().all(|word| !word.is_empty()));
    }
}

#[test]
fn numbers_are_read_back() {
    for n in [0, 1, 9, 10, 100, 4096, usize::MAX] {
        assert_eq!(number::parse_size(&number::to_decimal(n as u64)), Some(n));
    }
}

#[test]
fn numbers_in_decimal() {
    for n in [0, 7, 10, 99, 12345, u64::MAX] {
        assert_eq!(number::to_decimal(n), n.to_string());
    }
    assert_eq!(number::to_two_digits(5), "05");
    assert_eq!(number::to_two_digits(59), "59");
    for s in ["0", "+7", "42", "18446744073709551615", "18446744073709551616", "", "+", "-1", "4x"] {
        assert_eq!(number::parse_size(s), s.parse::<usize>().ok(), "{s}");
    }
}

#[test]
fn sorting_keeps_equals_in_order() {
    let keys: Vec<String> = ["b", "a", "b", "", "ab"]
        .iter()
        .map(|key| key.to_string())
        .collect();
    assert_eq!(order::sorted_places(&keys), vec![3, 1, 4, 0, 2]);
    assert_eq!(order::sort(&keys), vec!["", "a", "ab", "b", "b"]);
    let mut backwards = keys.clone();
    backwards.reverse();
    assert_eq!(order::sort(&backwards), order::sort(&keys));
    assert!(order::not_after("a", "a"));
    assert!(order::not_after("Z", "a"));
    assert!(!order::not_after("b", "ab"));
}
