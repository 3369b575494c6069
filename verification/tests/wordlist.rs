use spellck::dictionary::Dictionary;
use spellck::wordlist::{line_classes, next_line, parse_word_list, split_words, token_classes, LineClass};
use spellck::words::CharClass;

#[test]
fn a_word_list_gives_one_word_for_each_line() {
    assert_eq!(parse_word_list("alpha\nBeta\ngamma"), vec!["alpha", "Beta", "gamma"]);
    assert_eq!(parse_word_list("alpha\nBeta\n"), vec!["alpha", "Beta"]);
    assert_eq!(parse_word_list(""), Vec::<&str>::new());
}

#[test]
fn lines_are_trimmed_at_both_ends_only() {
    assert_eq!(parse_word_list("  alpha \r\n\tnew york\t\n"), vec!["alpha", "new york"]);
}

#[test]
fn empty_and_blank_lines_give_empty_words() {
    assert_eq!(parse_word_list("a\n\n  \nb"), vec!["a", "", "", "b"]);
    assert_eq!(parse_word_list("\n"), vec![""]);
    assert_eq!(parse_word_list("\n\n"), vec!["", ""]);
    assert_eq!(parse_word_list("   "), vec![""]);
}

#[test]
fn a_word_list_reads_as_std_lines_trimmed() {
    for text in ["alpha\nBeta\n", "a\r\n b \n\nc", "\n x", "äö\n\u{a0}ü\u{2003}\n"] {
        let expected: Vec<&str> = text.lines().map(|l| l.trim()).collect();
        assert_eq!(parse_word_list(text), expected);
    }
}

#[test]
fn whitespace_sets_words_apart() {
    assert_eq!(split_words("  foo bar\tbaz\nqux  "), vec!["foo", "bar", "baz", "qux"]);
    assert_eq!(split_words("one"), vec!["one"]);
    assert_eq!(split_words(""), Vec::<&str>::new());
    assert_eq!(split_words(" \t\n"), Vec::<&str>::new());
    assert_eq!(split_words("a_b,c d"), vec!["a_b,c", "d"]);
}

#[test]
fn splitting_reads_as_std_split_whitespace() {
    for text in ["  foo bar\tbaz\nqux  ", "ä\u{a0}ö\u{2003}ü", "x"] {
        let expected: Vec<&str> = text.split_whitespace().collect();
        assert_eq!(split_words(text), expected);
    }
}

#[test]
fn a_dictionary_takes_word_lists_and_loose_words() {
    let mut d = Dictionary::new(false);
    d.add_word_list("alpha\n Beta \n");
    d.add_words("gamma  delta");
    d.insert_all(&vec!["epsilon"]);
    for w in ["alpha", "Beta", "gamma", "delta", "epsilon"] {
        assert!(d.contains(w));
    }
    assert!(!d.contains(" Beta "));
    assert!(!d.contains("beta"));
    assert!(!d.contains("gamma  delta"));
    assert!(!d.is_empty());
}

#[test]
#[allow(non_snake_case)]
fn a_line_is_read_without_the_blanks_at_its_ends() {
    let (B, F, O) = (LineClass::Blank, LineClass::Feed, LineClass::Other);
    let k = vec![B, O, B, O, B, F, F, B, B, F, O];
    assert_eq!(next_line(&k, 0), Some((1, 4, 6)));
    assert_eq!(next_line(&k, 6), Some((6, 6, 7)));
    assert_eq!(next_line(&k, 7), Some((9, 9, 10)));
    assert_eq!(next_line(&k, 10), Some((10, 11, 11)));
    assert_eq!(next_line(&k, 11), None);
    assert_eq!(next_line(&k, 12), None);
    assert_eq!(next_line(&vec![], 0), None);
}

#[test]
fn characters_are_classed_for_lines_and_for_loose_words() {
    assert_eq!(
        line_classes("a \n\tb\r"),
        vec![
            LineClass::Other,
            LineClass::Blank,
            LineClass::Feed,
            LineClass::Blank,
            LineClass::Other,
            LineClass::Blank
        ]
    );
    assert_eq!(
        token_classes("aB \n_"),
        vec![
            CharClass::Small,
            CharClass::Small,
            CharClass::Separator,
            CharClass::Separator,
            CharClass::Small
        ]
    );
}
