use typing_session::generator::{assemble_task, GenerateError};
use typing_session::session::{App, AppState, Metrics};

fn chars(s: &str) -> Vec<char> {
    s.chars().collect()
}

fn lines(all: &[&str]) -> Vec<Vec<char>> {
    all.iter().map(|s| chars(s)).collect()
}

fn type_all(app: &mut App, s: &str) {
    for c in s.chars() {
        app.submit_char(c);
    }
}

#[test]
fn fresh_session_is_not_typing() {
    let app = App::with_sentences(lines(&["ab cd", "ef"]));
    assert_eq!(app.state(), AppState::NotTyping);
    assert_eq!(app.cursor_index(), 0);
    assert_eq!(app.sentence_cursor_index(), 0);
    assert_eq!(app.current_sentence_index(), 0);
    assert_eq!(app.sentence_count(), 2);
    assert_eq!(app.words_typed(), 0);
    assert_eq!(app.error_count(), 0);
    assert_eq!(app.timer(), 0);
    assert!(!app.should_exit());
    assert!(app.user_input().is_empty());
    assert_eq!(app.task_text(), &chars("ab cd ef "));
}

#[test]
fn first_character_starts_the_session() {
    let mut app = App::with_sentences(lines(&["ab cd"]));
    app.submit_char('a');
    assert_eq!(app.state(), AppState::Typing);
    assert_eq!(app.cursor_index(), 1);
    assert_eq!(app.sentence_cursor_index(), 1);
    assert_eq!(app.user_input(), &chars("a"));
    assert_eq!(app.error_count(), 0);
}

#[test]
fn two_words_of_ab_count_one_boundary() {
    let corpus = lines(&["ab"]);
    let mut app = App::new(&corpus).unwrap();
    type_all(&mut app, "ab ab");
    assert_eq!(app.words_typed(), 1);
    assert_eq!(app.error_count(), 0);
    assert_eq!(app.cursor_index(), 5);
    assert_eq!(app.user_input(), &chars("ab ab"));
}

#[test]
fn space_on_a_letter_skips_the_word_with_one_error() {
    let corpus = lines(&["cat"]);
    let mut app = App::new(&corpus).unwrap();
    assert_eq!(app.get_current_sentence_char(), Some('c'));
    app.submit_char(' ');
    assert_eq!(app.error_count(), 1);
    assert_eq!(app.words_typed(), 0);
    assert_eq!(app.sentence_cursor_index(), 4);
    assert_eq!(app.cursor_index(), 4);
    assert_eq!(app.user_input(), &chars("    "));
    assert_eq!(app.get_current_sentence_char(), Some('c'));
}

#[test]
fn skip_inside_a_word_lands_behind_the_next_space() {
    let mut app = App::with_sentences(lines(&["hello you there"]));
    type_all(&mut app, "he");
    app.submit_char(' ');
    assert_eq!(app.error_count(), 1);
    assert_eq!(app.sentence_cursor_index(), 6);
    assert_eq!(app.user_input(), &chars("he    "));
    assert_eq!(app.get_current_sentence_char(), Some('y'));
}

#[test]
fn skip_in_the_last_word_goes_to_the_end_of_the_sentence() {
    let mut app = App::with_sentences(lines(&["ab cd", "ef"]));
    type_all(&mut app, "ab ");
    assert_eq!(app.words_typed(), 1);
    app.submit_char(' ');
    assert_eq!(app.error_count(), 1);
    assert_eq!(app.current_sentence_index(), 1);
    assert_eq!(app.sentence_cursor_index(), 0);
    assert!(app.user_input().is_empty());
    assert_eq!(app.cursor_index(), 5);
    assert_eq!(app.get_current_sentence_char(), Some('e'));
}

#[test]
fn skip_in_the_last_word_of_the_text_completes_it() {
    let mut app = App::with_sentences(lines(&["ab cd"]));
    type_all(&mut app, "ab c");
    app.submit_char(' ');
    assert_eq!(app.error_count(), 1);
    assert_eq!(app.current_sentence_index(), 1);
    assert_eq!(app.sentence_count(), 1);
    assert_eq!(app.sentence_cursor_index(), 0);
    assert_eq!(app.cursor_index(), 5);
    assert!(app.user_input().is_empty());
    assert_eq!(app.state(), AppState::Typing);
    app.submit_char(' ');
    assert_eq!(app.state(), AppState::Ended);
    assert_eq!(app.error_count(), 1);
}

#[test]
fn matching_space_counts_a_word_and_a_wrong_space_does_not() {
    let mut app = App::with_sentences(lines(&["a b c"]));
    type_all(&mut app, "a");
    app.submit_char('x');
    assert_eq!(app.words_typed(), 0);
    assert_eq!(app.error_count(), 1);
    type_all(&mut app, "b ");
    assert_eq!(app.words_typed(), 1);
    assert_eq!(app.error_count(), 1);
    assert_eq!(app.user_input(), &chars("axb "));
}

#[test]
fn wrong_letter_counts_one_error_and_moves_on() {
    let mut app = App::with_sentences(lines(&["ab cd"]));
    app.submit_char('x');
    assert_eq!(app.error_count(), 1);
    assert_eq!(app.sentence_cursor_index(), 1);
    assert_eq!(app.user_input(), &chars("x"));
    app.submit_char('b');
    assert_eq!(app.error_count(), 1);
    app.submit_char('x');
    assert_eq!(app.error_count(), 2);
    assert_eq!(app.words_typed(), 0);
    assert_eq!(app.sentence_cursor_index(), 3);
}

#[test]
fn ten_words_typed_advance_to_the_next_sentence() {
    let corpus = lines(&["abc"]);
    let picks = vec![0usize; 25];
    let cutoffs = vec![10usize, 10, 10];
    let task = assemble_task(&corpus, &picks, &cutoffs);
    assert_eq!(task.sentence_count(), 3);
    assert_eq!(task.word_count(0), 10);
    let mut app = App::with_task(&task);
    let sentence = "abc abc abc abc abc abc abc abc abc abc";
    assert_eq!(sentence.len(), 39);
    type_all(&mut app, &sentence[..38]);
    assert_eq!(app.current_sentence_index(), 0);
    assert_eq!(app.sentence_cursor_index(), 38);
    app.submit_char('c');
    assert_eq!(app.current_sentence_index(), 1);
    assert!(app.user_input().is_empty());
    assert_eq!(app.sentence_cursor_index(), 0);
    assert_eq!(app.cursor_index(), 39);
    assert_eq!(app.words_typed(), 9);
    assert_eq!(app.error_count(), 0);
    assert_eq!(app.state(), AppState::Typing);
}

#[test]
fn tick_at_the_limit_ends_the_session() {
    let mut app = App::with_sentences(lines(&["ab cd"]));
    app.submit_char('a');
    app.tick(30);
    assert_eq!(app.state(), AppState::Ended);
    assert_eq!(app.timer(), 30);
}

#[test]
fn tick_beyond_the_limit_clamps_to_it() {
    let mut app = App::with_sentences(lines(&["ab cd"]));
    app.submit_char('a');
    app.tick(45);
    assert_eq!(app.state(), AppState::Ended);
    assert_eq!(app.timer(), 30);
    app.tick(7);
    assert_eq!(app.timer(), 30);
}

#[test]
fn tick_below_the_limit_sets_the_timer() {
    let mut app = App::with_sentences(lines(&["ab cd"]));
    app.submit_char('a');
    app.tick(12);
    assert_eq!(app.state(), AppState::Typing);
    assert_eq!(app.timer(), 12);
    app.tick(29);
    assert_eq!(app.timer(), 29);
    assert_eq!(app.state(), AppState::Typing);
}

#[test]
fn tick_before_typing_leaves_the_timer() {
    let mut app = App::with_sentences(lines(&["ab cd"]));
    app.tick(5);
    assert_eq!(app.timer(), 0);
    assert_eq!(app.state(), AppState::NotTyping);
    app.tick(99);
    assert_eq!(app.timer(), 0);
    assert_eq!(app.state(), AppState::NotTyping);
}

#[test]
fn metrics_at_the_start_are_100_and_0() {
    let app = App::with_sentences(lines(&["ab cd"]));
    assert_eq!(app.cursor_index(), 0);
    assert_eq!(app.metrics(), Metrics { wpm: 0, accuracy: 100 });
}

#[test]
fn accuracy_rounds_down() {
    let mut app = App::with_sentences(lines(&["abc def"]));
    type_all(&mut app, "axc");
    assert_eq!(app.metrics().accuracy, 66);
    app.submit_char(' ');
    assert_eq!(app.metrics().accuracy, 75);
}

#[test]
fn accuracy_is_zero_when_errors_outnumber_the_cursor() {
    let mut app = App::with_sentences(lines(&["abc def"]));
    app.submit_char('x');
    app.submit_backspace();
    app.submit_char('y');
    app.submit_backspace();
    app.submit_char('z');
    assert_eq!(app.error_count(), 3);
    assert_eq!(app.cursor_index(), 1);
    let m = app.metrics();
    assert_eq!(m.accuracy, 0);
    assert!(m.accuracy <= 100);
}

#[test]
fn wpm_is_words_per_elapsed_minute() {
    let mut app = App::with_sentences(lines(&["a b c d e f"]));
    type_all(&mut app, "a b c");
    assert_eq!(app.words_typed(), 2);
    assert_eq!(app.metrics().wpm, 0);
    app.tick(10);
    assert_eq!(app.metrics().wpm, 12);
    app.tick(7);
    assert_eq!(app.metrics().wpm, 17);
    app.tick(30);
    assert_eq!(app.metrics().wpm, 4);
}

#[test]
fn character_after_the_end_changes_nothing() {
    let mut app = App::with_sentences(lines(&["ab cd"]));
    type_all(&mut app, "ax ");
    app.tick(30);
    assert_eq!(app.state(), AppState::Ended);
    let errors = app.error_count();
    let words = app.words_typed();
    let cursor = app.cursor_index();
    let offset = app.sentence_cursor_index();
    let typed = app.user_input().clone();
    for c in ['c', ' ', 'x', 'd'] {
        app.submit_char(c);
        assert_eq!(app.state(), AppState::Ended);
        assert_eq!(app.error_count(), errors);
        assert_eq!(app.words_typed(), words);
        assert_eq!(app.cursor_index(), cursor);
        assert_eq!(app.sentence_cursor_index(), offset);
        assert_eq!(app.user_input(), &typed);
    }
}

#[test]
fn character_past_the_last_sentence_ends_the_session() {
    let mut app = App::with_sentences(lines(&["ab"]));
    type_all(&mut app, "ab");
    assert_eq!(app.current_sentence_index(), 1);
    assert_eq!(app.state(), AppState::Typing);
    assert_eq!(app.get_current_sentence_char(), None);
    assert!(app.get_visible_sentences().is_empty());
    app.submit_char('x');
    assert_eq!(app.state(), AppState::Ended);
    assert_eq!(app.error_count(), 0);
    assert_eq!(app.cursor_index(), 2);
    app.submit_char('y');
    assert_eq!(app.state(), AppState::Ended);
    assert_eq!(app.cursor_index(), 2);
}

#[test]
fn session_without_sentences_ends_on_the_first_character() {
    let mut app = App::with_sentences(Vec::new());
    assert!(app.get_visible_sentences().is_empty());
    app.submit_char('a');
    assert_eq!(app.state(), AppState::Ended);
    assert_eq!(app.cursor_index(), 0);
    assert_eq!(app.metrics(), Metrics { wpm: 0, accuracy: 100 });
}

#[test]
fn counters_never_fall_and_restart_clears_them() {
    let mut app = App::with_sentences(lines(&["ab cd ef", "gh"]));
    let mut errors = 0;
    let mut words = 0;
    for step in ["a", "x", " ", "<", "<", " ", "c", " ", "d", "<", "e", "f", "g"] {
        if step == "<" {
            app.submit_backspace();
        } else {
            app.submit_char(step.chars().next().unwrap());
        }
        assert!(app.error_count() >= errors);
        assert!(app.words_typed() >= words);
        errors = app.error_count();
        words = app.words_typed();
    }
    assert!(errors > 0);
    assert!(words > 0);
    app.restart_with(lines(&["xy"]));
    assert_eq!(app.error_count(), 0);
    assert_eq!(app.words_typed(), 0);
    assert_eq!(app.cursor_index(), 0);
    assert_eq!(app.timer(), 0);
    assert_eq!(app.state(), AppState::NotTyping);
    assert_eq!(app.sentence_count(), 1);
    assert_eq!(app.task_text(), &chars("xy "));
}

#[test]
fn restart_draws_a_new_text_from_the_corpus() {
    let corpus = lines(&["ab"]);
    let mut app = App::new(&corpus).unwrap();
    type_all(&mut app, "ax ab");
    app.tick(9);
    app.exit();
    assert_eq!(app.restart(&corpus), Ok(()));
    assert_eq!(app.state(), AppState::NotTyping);
    assert_eq!(app.error_count(), 0);
    assert_eq!(app.words_typed(), 0);
    assert_eq!(app.timer(), 0);
    assert_eq!(app.cursor_index(), 0);
    assert_eq!(app.current_sentence_index(), 0);
    assert!(app.user_input().is_empty());
    assert!(app.should_exit());
    assert_eq!(app.task_text().len(), 255 * 3);
}

#[test]
fn restart_on_an_empty_corpus_fails_and_keeps_the_session() {
    let mut app = App::with_sentences(lines(&["ab cd"]));
    type_all(&mut app, "ax");
    assert_eq!(app.restart(&Vec::new()), Err(GenerateError::EmptyCorpus));
    assert_eq!(app.state(), AppState::Typing);
    assert_eq!(app.error_count(), 1);
    assert_eq!(app.cursor_index(), 2);
    assert_eq!(app.user_input(), &chars("ax"));
}

#[test]
fn new_on_an_empty_corpus_fails() {
    assert!(matches!(App::new(&Vec::new()), Err(GenerateError::EmptyCorpus)));
}

#[test]
fn backspace_takes_one_character_back() {
    let mut app = App::with_sentences(lines(&["ab cd"]));
    type_all(&mut app, "ab");
    app.submit_backspace();
    assert_eq!(app.user_input(), &chars("a"));
    assert_eq!(app.sentence_cursor_index(), 1);
    assert_eq!(app.cursor_index(), 1);
    app.submit_backspace();
    assert_eq!(app.cursor_index(), 0);
    assert_eq!(app.sentence_cursor_index(), 0);
    app.submit_backspace();
    assert_eq!(app.cursor_index(), 0);
    assert_eq!(app.sentence_cursor_index(), 0);
    assert!(app.user_input().is_empty());
    assert_eq!(app.state(), AppState::Typing);
}

#[test]
fn backspace_does_nothing_unless_typing() {
    let mut app = App::with_sentences(lines(&["ab cd"]));
    app.submit_backspace();
    assert_eq!(app.state(), AppState::NotTyping);
    assert_eq!(app.cursor_index(), 0);
    type_all(&mut app, "ab");
    app.tick(30);
    app.submit_backspace();
    assert_eq!(app.cursor_index(), 2);
    assert_eq!(app.sentence_cursor_index(), 2);
    assert_eq!(app.user_input(), &chars("ab"));
}

#[test]
fn backspace_does_not_cross_into_the_sentence_before() {
    let mut app = App::with_sentences(lines(&["ab", "cd"]));
    type_all(&mut app, "ab");
    assert_eq!(app.current_sentence_index(), 1);
    app.submit_backspace();
    assert_eq!(app.current_sentence_index(), 1);
    assert_eq!(app.cursor_index(), 2);
    assert_eq!(app.sentence_cursor_index(), 0);
}

#[test]
fn window_shows_three_sentences_joined_by_spaces() {
    let mut app = App::with_sentences(lines(&["ab", "cd", "ef", "gh"]));
    assert_eq!(app.get_visible_sentences(), chars("ab cd ef"));
    assert_eq!(app.window_end(), 3);
    type_all(&mut app, "ab");
    assert_eq!(app.get_visible_sentences(), chars("cd ef gh"));
    assert_eq!(app.window_end(), 4);
    type_all(&mut app, "cd");
    assert_eq!(app.get_visible_sentences(), chars("ef gh"));
    type_all(&mut app, "ef");
    assert_eq!(app.get_visible_sentences(), chars("gh"));
    assert_eq!(app.window_end(), 4);
    type_all(&mut app, "gh");
    assert_eq!(app.get_visible_sentences(), chars(""));
    assert_eq!(app.window_end(), 4);
}

#[test]
fn exit_sets_the_flag_only() {
    let mut app = App::with_sentences(lines(&["ab"]));
    app.submit_char('a');
    app.exit();
    assert!(app.should_exit());
    assert_eq!(app.state(), AppState::Typing);
    assert_eq!(app.cursor_index(), 1);
}
