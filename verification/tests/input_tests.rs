use typespeed::input::{paint_char, InputProcessor, Key, Paint, Render, RunState};
use typespeed::text::{Text, TextColor};

fn lines(texts: &[&str]) -> Vec<Text> {
    texts.iter().map(|t| Text::from_str(t).with_faint()).collect()
}

/// A run over the given lines, line `i` drawn from column 10 of row `5 + i`;
/// origins and positions are written row first.
fn run_over(texts: &[&str]) -> InputProcessor {
    let origins: Vec<(u16, u16)> = (0..texts.len()).map(|i| (5 + i as u16, 10)).collect();
    InputProcessor::new(&lines(texts), &origins).unwrap()
}

fn type_keys(run: &mut InputProcessor, keys: &[Key]) -> RunState {
    let mut state = run.state();
    for key in keys {
        state = run.handle_key(*key).0;
    }
    state
}

fn correct(c: char) -> Render {
    Render::Write(Text::from_char(c).with_color(TextColor::LightGreen))
}

fn incorrect(c: char) -> Render {
    Render::Write(Text::from_char(c).with_underline().with_color(TextColor::Red))
}

fn untyped(c: char) -> Render {
    Render::Write(Text::from_char(c).with_faint())
}

#[test]
fn a_new_run_is_running_with_nothing_typed() {
    let run = run_over(&["ab ", "cd"]);
    assert_eq!(run.state(), RunState::Running);
    assert_eq!(run.cur_pos(), (5, 10));
    assert_eq!(run.current_line(), 0);
    let r = run.results(2, 0, 0);
    assert_eq!(r.total_chars_typed, 0);
    assert_eq!(r.total_chars_in_text, 0);
    assert_eq!(r.total_char_errors, 0);
    assert_eq!(r.final_chars_typed_correctly, 0);
    assert_eq!(r.final_uncorrected_errors, 0);
}

#[test]
fn lines_that_cannot_hold_a_cursor_give_no_run() {
    assert!(InputProcessor::new(&lines(&[]), &vec![]).is_none());
    assert!(InputProcessor::new(&lines(&["ab"]), &vec![]).is_none());
    assert!(InputProcessor::new(&lines(&["ab"]), &vec![(1, 1), (2, 1)]).is_none());
    assert!(InputProcessor::new(&lines(&[""]), &vec![(1, 1)]).is_none());
    assert!(InputProcessor::new(&lines(&["ab ", ""]), &vec![(1, 1), (2, 1)]).is_none());
    assert!(InputProcessor::new(&lines(&["ab"]), &vec![(1, 65535)]).is_none());
    assert!(InputProcessor::new(&lines(&["ab"]), &vec![(1, 65534)]).is_some());
    assert!(InputProcessor::new(&lines(&["a"]), &vec![(1, 65535)]).is_some());
}

#[test]
fn the_third_key_finishes_a_text_of_three() {
    // a, b, x on "abc": the x brings the typed text to the length of the
    // target, so the run ends there and the x is not counted
    let mut run = run_over(&["abc"]);
    assert_eq!(run.handle_key(Key::Char('a')).0, RunState::Running);
    assert_eq!(run.handle_key(Key::Char('b')).0, RunState::Running);
    let (state, actions) = run.handle_key(Key::Char('x'));
    assert_eq!(state, RunState::Finished);
    assert!(actions.is_empty());
    let r = run.results(1, 0, 1000);
    assert_eq!(r.total_chars_typed, 2);
    assert_eq!(r.total_char_errors, 0);
    assert_eq!(r.total_chars_in_text, 3);
    assert_eq!(r.final_chars_typed_correctly, 2);
    assert_eq!(r.final_uncorrected_errors, 1);
    assert_eq!(r.accuracy_permille(), 666);
    // backspace and c come too late
    assert_eq!(run.handle_key(Key::Backspace).0, RunState::Finished);
    assert_eq!(run.handle_key(Key::Char('c')).0, RunState::Finished);
    assert_eq!(run.results(1, 0, 1000), r);
}

#[test]
fn a_corrected_mistake_is_counted_but_leaves_full_accuracy() {
    let mut run = run_over(&["abcd"]);
    let state = type_keys(
        &mut run,
        &[
            Key::Char('a'),
            Key::Char('b'),
            Key::Char('x'),
            Key::Backspace,
            Key::Char('c'),
            Key::Char('d'),
        ],
    );
    assert_eq!(state, RunState::Finished);
    let r = run.results(1, 0, 1000);
    assert_eq!(r.total_chars_typed, 4);
    assert_eq!(r.total_char_errors, 1);
    assert_eq!(r.total_chars_in_text, 4);
    assert_eq!(r.final_chars_typed_correctly, 4);
    assert_eq!(r.final_uncorrected_errors, 0);
    assert_eq!(r.accuracy_permille(), 1000);
}

#[test]
fn a_right_character_is_painted_green_and_the_cursor_moves_on() {
    let mut run = run_over(&["ab ", "cd"]);
    let (state, actions) = run.handle_key(Key::Char('a'));
    assert_eq!(state, RunState::Running);
    assert_eq!(actions, vec![correct('a'), Render::MoveTo(5, 11), Render::Flush]);
    assert_eq!(run.cur_pos(), (5, 11));
}

#[test]
fn a_wrong_character_shows_the_target_in_red() {
    let mut run = run_over(&["ab ", "cd"]);
    let (state, actions) = run.handle_key(Key::Char('z'));
    assert_eq!(state, RunState::Running);
    assert_eq!(actions, vec![incorrect('a'), Render::MoveTo(5, 11), Render::Flush]);
    let r = run.results(2, 0, 0);
    assert_eq!(r.total_chars_typed, 1);
    assert_eq!(r.total_char_errors, 1);
}

#[test]
fn the_cursor_moves_to_the_next_line_after_the_last_character_of_a_line() {
    let mut run = run_over(&["ab ", "cd"]);
    type_keys(&mut run, &[Key::Char('a'), Key::Char('b')]);
    let (_, actions) = run.handle_key(Key::Char(' '));
    assert_eq!(actions, vec![correct(' '), Render::MoveTo(6, 10), Render::Flush]);
    assert_eq!(run.current_line(), 1);
    assert_eq!(run.cur_pos(), (6, 10));
}

#[test]
fn backspace_repaints_the_character_and_steps_back() {
    let mut run = run_over(&["ab ", "cd"]);
    type_keys(&mut run, &[Key::Char('a'), Key::Char('x')]);
    let (state, actions) = run.handle_key(Key::Backspace);
    assert_eq!(state, RunState::Running);
    assert_eq!(
        actions,
        vec![Render::MoveTo(5, 11), untyped('b'), Render::MoveTo(5, 11), Render::Flush]
    );
    assert_eq!(run.cur_pos(), (5, 11));
    let r = run.results(2, 0, 0);
    assert_eq!(r.total_chars_in_text, 1);
    assert_eq!(r.total_chars_typed, 2);
    assert_eq!(r.total_char_errors, 1);
}

#[test]
fn backspace_crosses_back_over_a_line_boundary() {
    let mut run = run_over(&["ab ", "cd"]);
    type_keys(&mut run, &[Key::Char('a'), Key::Char('b'), Key::Char(' ')]);
    assert_eq!(run.current_line(), 1);
    let (_, actions) = run.handle_key(Key::Backspace);
    assert_eq!(
        actions,
        vec![Render::MoveTo(5, 12), untyped(' '), Render::MoveTo(5, 12), Render::Flush]
    );
    assert_eq!(run.current_line(), 0);
}

#[test]
fn backspace_on_nothing_only_flushes() {
    let mut run = run_over(&["ab"]);
    let (state, actions) = run.handle_key(Key::Backspace);
    assert_eq!(state, RunState::Running);
    assert_eq!(actions, vec![Render::Flush]);
    assert_eq!(run.cur_pos(), (5, 10));
}

#[test]
fn delete_word_takes_back_to_the_last_space() {
    let mut run = run_over(&["ab cd ef"]);
    type_keys(
        &mut run,
        &[Key::Char('a'), Key::Char('b'), Key::Char(' '), Key::Char('c'), Key::Char('x')],
    );
    let (state, actions) = run.handle_key(Key::Ctrl('w'));
    assert_eq!(state, RunState::Running);
    assert_eq!(
        actions,
        vec![
            Render::MoveTo(5, 14),
            untyped('d'),
            Render::MoveTo(5, 14),
            Render::MoveTo(5, 13),
            untyped('c'),
            Render::MoveTo(5, 13),
            Render::Flush,
        ]
    );
    let r = run.results(3, 0, 0);
    assert_eq!(r.total_chars_in_text, 3);
    assert_eq!(r.total_chars_typed, 5);
    assert_eq!(r.total_char_errors, 1);
    assert_eq!(run.cur_pos(), (5, 13));
}

#[test]
fn delete_word_after_a_space_deletes_nothing() {
    let mut run = run_over(&["ab cd"]);
    type_keys(&mut run, &[Key::Char('a'), Key::Char('b'), Key::Char(' ')]);
    let (_, actions) = run.handle_key(Key::Ctrl('w'));
    assert_eq!(actions, vec![Render::Flush]);
    assert_eq!(run.results(2, 0, 0).total_chars_in_text, 3);
}

#[test]
fn delete_word_runs_back_over_line_boundaries_to_the_start() {
    let mut run = run_over(&["ab", "cd"]);
    type_keys(&mut run, &[Key::Char('a'), Key::Char('b'), Key::Char('c')]);
    assert_eq!(run.cur_pos(), (6, 11));
    let (_, actions) = run.handle_key(Key::Ctrl('w'));
    assert_eq!(
        actions,
        vec![
            Render::MoveTo(6, 10),
            untyped('c'),
            Render::MoveTo(6, 10),
            Render::MoveTo(5, 11),
            untyped('b'),
            Render::MoveTo(5, 11),
            Render::MoveTo(5, 10),
            untyped('a'),
            Render::MoveTo(5, 10),
            Render::Flush,
        ]
    );
    assert_eq!(run.results(2, 0, 0).total_chars_in_text, 0);
    assert_eq!(run.cur_pos(), (5, 10));
}

#[test]
fn ctrl_c_aborts_and_no_key_is_taken_after_it() {
    let mut run = run_over(&["abc"]);
    run.handle_key(Key::Char('a'));
    let (state, actions) = run.handle_key(Key::Ctrl('c'));
    assert_eq!(state, RunState::Aborted);
    assert!(actions.is_empty());
    let before = run.results(1, 0, 0);
    let (state, actions) = run.handle_key(Key::Char('b'));
    assert_eq!(state, RunState::Aborted);
    assert!(actions.is_empty());
    assert_eq!(run.results(1, 0, 0), before);
    assert_eq!(run.state(), RunState::Aborted);
}

#[test]
fn ctrl_r_asks_for_a_restart() {
    let mut run = run_over(&["abc"]);
    let (state, actions) = run.handle_key(Key::Ctrl('r'));
    assert_eq!(state, RunState::RestartRequested);
    assert!(actions.is_empty());
    assert_eq!(run.handle_key(Key::Char('a')).0, RunState::RestartRequested);
    assert_eq!(run.results(1, 0, 0).total_chars_in_text, 0);
}

#[test]
fn other_keys_change_nothing() {
    let mut run = run_over(&["abc"]);
    run.handle_key(Key::Char('a'));
    let before = run.results(1, 0, 0);
    for key in [Key::Other, Key::Ctrl('x'), Key::Ctrl('a')] {
        let (state, actions) = run.handle_key(key);
        assert_eq!(state, RunState::Running);
        assert_eq!(actions, vec![Render::Flush]);
        assert_eq!(run.results(1, 0, 0), before);
        assert_eq!(run.cur_pos(), (5, 11));
    }
}

#[test]
fn the_finishing_key_is_not_counted_or_compared() {
    let mut run = run_over(&["ab"]);
    assert_eq!(run.handle_key(Key::Char('a')).0, RunState::Running);
    let (state, actions) = run.handle_key(Key::Char('z'));
    assert_eq!(state, RunState::Finished);
    assert!(actions.is_empty());
    let r = run.results(1, 0, 0);
    assert_eq!(r.total_chars_typed, 1);
    assert_eq!(r.total_char_errors, 0);
    assert_eq!(r.total_chars_in_text, 2);
    assert_eq!(r.final_chars_typed_correctly, 1);
    assert_eq!(r.final_uncorrected_errors, 1);
    assert_eq!(run.cur_pos(), (5, 11));
}

#[test]
fn a_text_of_one_character_is_finished_by_any_character() {
    let mut run = run_over(&["a"]);
    assert_eq!(run.handle_key(Key::Other).0, RunState::Running);
    assert_eq!(run.handle_key(Key::Char('q')).0, RunState::Finished);
    let r = run.results(1, 0, 0);
    assert_eq!(r.total_chars_typed, 0);
    assert_eq!(r.final_uncorrected_errors, 1);
}

#[test]
fn the_run_is_finished_exactly_when_the_text_is_typed_through() {
    let mut run = run_over(&["ab ", "cd"]);
    let keys = [
        Key::Char('a'),
        Key::Char('b'),
        Key::Char(' '),
        Key::Char('c'),
        Key::Backspace,
        Key::Backspace,
        Key::Char(' '),
        Key::Char('c'),
    ];
    for key in keys {
        assert_eq!(run.handle_key(key).0, RunState::Running);
    }
    assert_eq!(run.results(2, 0, 0).total_chars_in_text, 4);
    assert_eq!(run.handle_key(Key::Char('d')).0, RunState::Finished);
    assert_eq!(run.results(2, 0, 0).total_chars_in_text, 5);
}

#[test]
fn counters_never_go_down() {
    let mut run = run_over(&["ab cd ", "ef gh"]);
    let keys = [
        Key::Char('a'),
        Key::Char('x'),
        Key::Backspace,
        Key::Char('b'),
        Key::Char(' '),
        Key::Char('q'),
        Key::Char('q'),
        Key::Ctrl('w'),
        Key::Other,
        Key::Backspace,
        Key::Backspace,
        Key::Ctrl('w'),
        Key::Char('a'),
    ];
    let mut typed = 0;
    let mut errors = 0;
    for key in keys {
        run.handle_key(key);
        let r = run.results(4, 0, 0);
        assert!(r.total_chars_typed >= typed);
        assert!(r.total_char_errors >= errors);
        assert!(r.total_char_errors <= r.total_chars_typed);
        typed = r.total_chars_typed;
        errors = r.total_char_errors;
    }
    assert_eq!(typed, 7);
    assert_eq!(errors, 3);
}

#[test]
fn characters_are_painted_by_their_state() {
    assert_eq!(paint_char('a', Paint::Untyped), untyped('a'));
    assert_eq!(paint_char('a', Paint::Correct), correct('a'));
    assert_eq!(paint_char('a', Paint::Incorrect), incorrect('a'));
    match paint_char('a', Paint::Incorrect) {
        Render::Write(t) => {
            assert_eq!(t.raw_text(), "\u{1b}[38;5;1m\u{1b}[4ma\u{1b}[m\u{1b}[39m");
            assert_eq!(t.text(), "a");
        }
        other => panic!("not a write: {:?}", other),
    }
    match paint_char('b', Paint::Correct) {
        Render::Write(t) => assert_eq!(t.raw_text(), "\u{1b}[38;5;10mb\u{1b}[39m"),
        other => panic!("not a write: {:?}", other),
    }
    match paint_char('c', Paint::Untyped) {
        Render::Write(t) => assert_eq!(t.raw_text(), "\u{1b}[2mc\u{1b}[22m"),
        other => panic!("not a write: {:?}", other),
    }
}

#[test]
fn results_carry_the_word_count_and_the_times() {
    let run = run_over(&["abc"]);
    let r = run.results(17, 250, 61_250);
    assert_eq!(r.total_words, 17);
    assert_eq!(r.started_at, 250);
    assert_eq!(r.ended_at, 61_250);
    assert_eq!(r.duration_millis(), 61_000);
}
