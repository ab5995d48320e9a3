use typespeed::layout::{
    bottom_row, join_words, layout_words, line_texts, middle_row, widest_word, wrap_words,
    LayoutError, MAX_WORDS_PER_LINE, MIN_LINE_WIDTH,
};
use typespeed::text::HasLength;

fn words(list: &[&str]) -> Vec<String> {
    list.iter().map(|w| w.to_string()).collect()
}

fn groups(list: &[&[&str]]) -> Vec<Vec<String>> {
    list.iter().map(|line| words(line)).collect()
}

#[test]
fn a_line_is_closed_when_the_next_word_would_pass_the_width() {
    // "aa " and "bb " make 6; "cc " would make 9
    assert_eq!(wrap_words(&words(&["aa", "bb", "cc"]), 6, 10), groups(&[&["aa", "bb"], &["cc"]]));
    // one less and "bb " does not fit either
    assert_eq!(
        wrap_words(&words(&["aa", "bb", "cc"]), 5, 10),
        groups(&[&["aa"], &["bb"], &["cc"]])
    );
}

#[test]
fn a_line_is_closed_when_it_has_the_most_words() {
    assert_eq!(
        wrap_words(&words(&["a", "b", "c", "d", "e"]), 100, 2),
        groups(&[&["a", "b"], &["c", "d"], &["e"]])
    );
}

#[test]
fn a_word_too_wide_for_any_line_stands_alone_after_an_empty_line() {
    assert_eq!(wrap_words(&words(&["aaaaaaaaaa"]), 5, 10), groups(&[&[], &["aaaaaaaaaa"]]));
    assert_eq!(
        wrap_words(&words(&["a", "bbbbbbbbbb", "c"]), 5, 10),
        groups(&[&["a"], &["bbbbbbbbbb"], &["c"]])
    );
}

#[test]
fn no_words_wrap_into_one_empty_line() {
    assert_eq!(wrap_words(&words(&[]), 10, 10), groups(&[&[]]));
}

#[test]
fn without_room_for_a_word_each_word_stands_alone() {
    assert_eq!(wrap_words(&words(&["a", "b"]), 10, 0), groups(&[&[], &["a"], &["b"]]));
    assert_eq!(wrap_words(&words(&["a", "b"]), 0, 10), groups(&[&[], &["a"], &["b"]]));
}

#[test]
fn wrapped_lines_keep_the_words_and_the_bounds() {
    let text = words(&[
        "the", "quick", "brown", "fox", "jumps", "over", "the", "lazy", "dog", "and", "runs",
        "far", "away", "from", "here", "to", "a", "place", "nobody", "knows",
    ]);
    for width in [7u16, 10, 16, 25, 40, 200] {
        for cap in [1usize, 2, 3, 10] {
            let lines = wrap_words(&text, width, cap);
            let flat: Vec<String> = lines.iter().flatten().cloned().collect();
            assert_eq!(flat, text);
            for line in &lines {
                assert!(!line.is_empty());
                assert!(line.len() <= cap);
                let taken: usize = line.iter().map(|w| w.chars().count() + 1).sum();
                assert!(taken <= width as usize);
            }
        }
    }
}

#[test]
fn words_are_joined_with_single_spaces() {
    assert_eq!(join_words(&words(&["aa", "bb", "cc"])), "aa bb cc");
    assert_eq!(join_words(&words(&["aa"])), "aa");
    assert_eq!(join_words(&words(&[])), "");
    assert_eq!(join_words(&words(&["", ""])), " ");
}

#[test]
fn every_line_but_the_last_ends_in_a_space() {
    let texts = line_texts(&groups(&[&["aa", "bb"], &["cc"], &["dd", "ee"]]));
    assert_eq!(texts.len(), 3);
    assert_eq!(texts[0].text(), "aa bb ");
    assert_eq!(texts[1].text(), "cc ");
    assert_eq!(texts[2].text(), "dd ee");
    assert_eq!(texts[0].raw_text(), "\u{1b}[2maa bb \u{1b}[22m");
    assert_eq!(texts[2].raw_text(), "\u{1b}[2mdd ee\u{1b}[22m");
    assert_eq!(texts[0].length(), 6);
    assert_eq!(texts[2].length(), 5);
}

#[test]
fn the_widest_word_counts_its_separator() {
    assert_eq!(widest_word(&words(&["a", "abcd", "ab"])), 5);
    assert_eq!(widest_word(&words(&[])), 0);
    assert_eq!(widest_word(&words(&[""])), 1);
}

#[test]
fn the_game_wraps_within_two_fifths_of_the_terminal() {
    // 50 columns: lines of at most 20 characters, so four words of "aaaa "
    let text = words(&["aaaa", "aaaa", "aaaa", "aaaa", "aaaa", "aaaa"]);
    let lines = layout_words(&text, 50, 24, 1).unwrap();
    assert_eq!(lines.len(), 2);
    assert_eq!(lines[0].text(), "aaaa aaaa aaaa aaaa ");
    assert_eq!(lines[1].text(), "aaaa aaaa");
    // 54 columns still give 21, which a fifth word does not fit
    assert_eq!(layout_words(&text, 54, 24, 1).unwrap().len(), 2);
    // 63 columns give 25
    let lines = layout_words(&text, 63, 24, 1).unwrap();
    assert_eq!(lines[0].text(), "aaaa aaaa aaaa aaaa aaaa ");
    assert_eq!(lines[1].text(), "aaaa");
}

#[test]
fn the_game_puts_at_most_ten_words_on_a_line() {
    assert_eq!(MAX_WORDS_PER_LINE, 10);
    let text = words(&["a", "b", "c", "d", "e", "f", "g", "h", "i", "j", "k"]);
    let lines = layout_words(&text, 200, 24, 0).unwrap();
    assert_eq!(lines.len(), 2);
    assert_eq!(lines[0].text(), "a b c d e f g h i j ");
    assert_eq!(lines[1].text(), "k");
    assert_eq!(lines[0].raw_text(), "\u{1b}[2ma b c d e f g h i j \u{1b}[22m");
}

#[test]
fn a_terminal_too_short_is_refused() {
    // one line of text, one reserved line and the margin of two
    let text = words(&["aa", "bb", "cc"]);
    assert_eq!(
        layout_words(&text, 100, 3, 1),
        Err(LayoutError::HeightTooShort { required: 4, available: 3 })
    );
    assert!(layout_words(&text, 100, 4, 1).is_ok());
    assert_eq!(
        layout_words(&text, 100, 0, 0),
        Err(LayoutError::HeightTooShort { required: 3, available: 0 })
    );
}

#[test]
fn the_height_is_judged_by_the_wrapped_lines() {
    let text = words(&["aaaa", "aaaa", "aaaa", "aaaa", "aaaa", "aaaa"]);
    // two lines at 50 columns, one at 100
    assert_eq!(
        layout_words(&text, 50, 3, 0),
        Err(LayoutError::HeightTooShort { required: 4, available: 3 })
    );
    assert!(layout_words(&text, 100, 3, 0).is_ok());
}

#[test]
fn a_terminal_too_narrow_is_refused() {
    assert_eq!(MIN_LINE_WIDTH, 50);
    let text = words(&["aa", "bb", "cc"]);
    assert_eq!(
        layout_words(&text, 49, 24, 1),
        Err(LayoutError::WidthTooLow { required: 50, available: 49 })
    );
    assert!(layout_words(&text, 50, 24, 1).is_ok());
    let long = "x".repeat(60);
    let text = words(&["aa", long.as_str()]);
    assert_eq!(
        layout_words(&text, 61, 24, 1),
        Err(LayoutError::WidthTooLow { required: 62, available: 61 })
    );
    assert!(layout_words(&text, 62, 24, 1).is_ok());
}

#[test]
fn the_height_is_looked_at_before_the_width() {
    let text = words(&["aa", "bb", "cc"]);
    assert_eq!(
        layout_words(&text, 10, 2, 1),
        Err(LayoutError::HeightTooShort { required: 6, available: 2 })
    );
}

#[test]
fn huge_reserves_do_not_overflow() {
    let text = words(&["aa"]);
    assert_eq!(
        layout_words(&text, 100, 24, usize::MAX),
        Err(LayoutError::HeightTooShort { required: usize::MAX as u128 + 3, available: 24 })
    );
}

#[test]
fn lines_stand_around_the_middle_row() {
    // three lines on 24 rows: rows 11, 12 and 13
    assert_eq!(middle_row(24, 0, 3), Some(11));
    assert_eq!(middle_row(24, 1, 3), Some(12));
    assert_eq!(middle_row(24, 2, 3), Some(13));
    assert_eq!(middle_row(25, 0, 1), Some(12));
    assert_eq!(middle_row(24, 0, 4), Some(10));
}

#[test]
fn there_is_no_middle_row_off_the_screen() {
    assert_eq!(middle_row(2, 0, 2), None);
    assert_eq!(middle_row(2, 1, 2), Some(1));
    assert_eq!(middle_row(4, 0, 100), None);
    assert_eq!(middle_row(65535, 32768, 0), Some(65535));
    assert_eq!(middle_row(65535, 32769, 0), None);
    assert_eq!(middle_row(24, usize::MAX, 0), None);
    assert_eq!(middle_row(24, 0, usize::MAX), None);
}

#[test]
fn bottom_lines_stand_above_the_last_row() {
    assert_eq!(bottom_row(24, 0, 1), Some(22));
    assert_eq!(bottom_row(24, 0, 2), Some(21));
    assert_eq!(bottom_row(24, 1, 2), Some(22));
    assert_eq!(bottom_row(3, 0, 1), Some(1));
    assert_eq!(bottom_row(2, 0, 1), None);
    assert_eq!(bottom_row(0, 0, 1), None);
    assert_eq!(bottom_row(24, 0, usize::MAX), None);
}

#[test]
fn messages_name_what_is_required_and_what_is_there() {
    assert_eq!(
        LayoutError::HeightTooShort { required: 4, available: 3 }.message(),
        "Terminal height is too short! Game requires at least 4 lines, got 3 lines"
    );
    assert_eq!(
        LayoutError::WidthTooLow { required: 50, available: 49 }.message(),
        "Terminal width is too low! Game requires at least 50 columns, got 49 columns"
    );
    assert_eq!(
        LayoutError::HeightTooShort { required: 1200, available: 0 }.message(),
        "Terminal height is too short! Game requires at least 1200 lines, got 0 lines"
    );
}
