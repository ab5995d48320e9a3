use typespeed::results::{tally, GameResults};

fn chars(s: &str) -> Vec<char> {
    s.chars().collect()
}

fn results(words: usize, in_text: usize, right: usize, wrong: usize, millis: u64) -> GameResults {
    GameResults {
        total_words: words,
        total_chars_typed: in_text,
        total_chars_in_text: in_text,
        total_char_errors: wrong,
        final_chars_typed_correctly: right,
        final_uncorrected_errors: wrong,
        started_at: 1_000,
        ended_at: 1_000 + millis,
    }
}

#[test]
fn tally_compares_place_by_place() {
    assert_eq!(tally(&chars("abc"), &chars("abc")), (3, 0));
    assert_eq!(tally(&chars("abx"), &chars("abc")), (2, 1));
    assert_eq!(tally(&chars("xyz"), &chars("abc")), (0, 3));
    assert_eq!(tally(&chars("bca"), &chars("abc")), (0, 3));
}

#[test]
fn tally_stops_where_the_shorter_text_ends() {
    assert_eq!(tally(&chars("ab"), &chars("abc")), (2, 0));
    assert_eq!(tally(&chars("abcd"), &chars("abc")), (3, 0));
    assert_eq!(tally(&chars(""), &chars("abc")), (0, 0));
    assert_eq!(tally(&chars("q"), &chars("")), (0, 0));
}

#[test]
fn accuracy_is_the_share_of_right_characters() {
    assert_eq!(results(1, 3, 3, 0, 1).accuracy_permille(), 1000);
    assert_eq!(results(1, 3, 2, 1, 1).accuracy_permille(), 666);
    assert_eq!(results(1, 3, 1, 2, 1).accuracy_permille(), 333);
    assert_eq!(results(1, 3, 0, 3, 1).accuracy_permille(), 0);
    assert_eq!(results(1, 8, 7, 1, 1).accuracy_permille(), 875);
}

#[test]
fn accuracy_of_an_empty_text_is_zero() {
    assert_eq!(results(0, 0, 0, 0, 1).accuracy_permille(), 0);
}

#[test]
fn accuracy_is_full_only_without_mistakes_left() {
    for total in 1..40usize {
        for wrong in 0..=total {
            let a = results(1, total, total - wrong, wrong, 1).accuracy_permille();
            assert!(a <= 1000);
            assert_eq!(a == 1000, wrong == 0);
        }
    }
    assert_eq!(results(1, 100_000, 99_999, 1, 1).accuracy_permille(), 999);
}

#[test]
fn speed_is_words_per_minute() {
    assert_eq!(results(30, 1, 1, 0, 60_000).wpm_tenths(), Some(300));
    assert_eq!(results(30, 1, 1, 0, 30_000).wpm_tenths(), Some(600));
    assert_eq!(results(25, 1, 1, 0, 90_000).wpm_tenths(), Some(166));
    assert_eq!(results(0, 1, 1, 0, 90_000).wpm_tenths(), Some(0));
    assert_eq!(results(1, 1, 1, 0, 1).wpm_tenths(), Some(600_000));
}

#[test]
fn speed_of_no_time_is_undefined() {
    assert_eq!(results(30, 1, 1, 0, 0).wpm_tenths(), None);
}

#[test]
fn speed_does_not_overflow() {
    let r = GameResults { total_words: usize::MAX, ..results(0, 1, 1, 0, 1) };
    assert_eq!(r.wpm_tenths(), Some(usize::MAX as u128 * 600_000));
}

#[test]
fn duration_is_the_time_between_the_two_samples() {
    let r = results(1, 1, 1, 0, 61_999);
    assert_eq!(r.duration_millis(), 61_999);
    assert_eq!(r.duration_secs(), 61);
    let backwards = GameResults { started_at: 10, ended_at: 4, ..r };
    assert_eq!(backwards.duration_millis(), 0);
    assert_eq!(backwards.duration_secs(), 0);
    assert_eq!(backwards.wpm_tenths(), None);
}
