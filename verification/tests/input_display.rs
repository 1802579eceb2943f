use typing_session::display::{
    centered_area, classify, content_area, title_area, Area, CharClass,
};
use typing_session::generator::GenerateError;
use typing_session::input::{decode_key, InputEvent, Key, KeyPress};
use typing_session::session::{App, AppState};

fn text(s: &str) -> Vec<char> {
    s.chars().collect()
}

fn press(key: Key, shift: bool, control: bool, other: bool) -> KeyPress {
    KeyPress { key, shift, control, other }
}

#[test]
fn control_c_and_escape_quit() {
    assert_eq!(decode_key(press(Key::Char('c'), false, true, false)), Some(InputEvent::Quit));
    assert_eq!(decode_key(press(Key::Esc, false, false, false)), Some(InputEvent::Quit));
    assert_eq!(decode_key(press(Key::Esc, true, false, false)), None);
    assert_eq!(decode_key(press(Key::Esc, false, true, false)), None);
}

#[test]
fn control_r_restarts() {
    assert_eq!(decode_key(press(Key::Char('r'), false, true, false)), Some(InputEvent::Restart));
    assert_eq!(decode_key(press(Key::Char('r'), true, true, false)), None);
    assert_eq!(decode_key(press(Key::Char('x'), false, true, false)), None);
}

#[test]
fn plain_and_shifted_characters_are_typed() {
    assert_eq!(
        decode_key(press(Key::Char('c'), false, false, false)),
        Some(InputEvent::Character('c'))
    );
    assert_eq!(
        decode_key(press(Key::Char('R'), true, false, false)),
        Some(InputEvent::Character('R'))
    );
    assert_eq!(
        decode_key(press(Key::Char(' '), false, false, false)),
        Some(InputEvent::Character(' '))
    );
    assert_eq!(decode_key(press(Key::Char('a'), false, false, true)), None);
    assert_eq!(decode_key(press(Key::Char('a'), true, false, true)), None);
}

#[test]
fn plain_backspace_is_backspace() {
    assert_eq!(
        decode_key(press(Key::Backspace, false, false, false)),
        Some(InputEvent::Backspace)
    );
    assert_eq!(decode_key(press(Key::Backspace, false, true, false)), None);
    assert_eq!(decode_key(press(Key::Other, false, false, false)), None);
}

#[test]
fn first_character_event_starts_the_clock() {
    let corpus = vec![text("ab")];
    let mut app = App::with_sentences(vec![text("ab cd")]);
    assert_eq!(app.handle_event(InputEvent::Backspace, &corpus), Ok(false));
    assert_eq!(app.state(), AppState::NotTyping);
    assert_eq!(app.handle_event(InputEvent::Character('a'), &corpus), Ok(true));
    assert_eq!(app.state(), AppState::Typing);
    assert_eq!(app.handle_event(InputEvent::Character('b'), &corpus), Ok(false));
    assert_eq!(app.cursor_index(), 2);
    assert_eq!(app.handle_event(InputEvent::Backspace, &corpus), Ok(false));
    assert_eq!(app.cursor_index(), 1);
}

#[test]
fn quit_event_asks_to_exit() {
    let corpus = vec![text("ab")];
    let mut app = App::with_sentences(vec![text("ab cd")]);
    assert_eq!(app.handle_event(InputEvent::Quit, &corpus), Ok(false));
    assert!(app.should_exit());
    assert_eq!(app.state(), AppState::NotTyping);
}

#[test]
fn restart_event_draws_from_the_corpus() {
    let corpus = vec![text("ab")];
    let mut app = App::with_sentences(vec![text("xy")]);
    assert_eq!(app.handle_event(InputEvent::Character('q'), &corpus), Ok(true));
    assert_eq!(app.error_count(), 1);
    assert_eq!(app.handle_event(InputEvent::Restart, &corpus), Ok(false));
    assert_eq!(app.state(), AppState::NotTyping);
    assert_eq!(app.error_count(), 0);
    assert_eq!(app.get_current_sentence_char(), Some('a'));
    assert_eq!(
        app.handle_event(InputEvent::Restart, &Vec::new()),
        Err(GenerateError::EmptyCorpus)
    );
    assert_eq!(app.get_current_sentence_char(), Some('a'));
}

#[test]
fn characters_are_classified_against_the_input() {
    let classes = classify(&text("abcde"), &text("ax"));
    assert_eq!(
        classes,
        vec![
            CharClass::Matched,
            CharClass::Mismatched,
            CharClass::Cursor,
            CharClass::Pending,
            CharClass::Pending
        ]
    );
    assert_eq!(classify(&text("ab"), &text("")), vec![CharClass::Cursor, CharClass::Pending]);
    assert_eq!(classify(&text("ab"), &text("abc")), vec![CharClass::Matched, CharClass::Matched]);
    assert!(classify(&text(""), &text("a")).is_empty());
}

#[test]
fn window_classes_follow_the_session() {
    let mut app = App::with_sentences(vec![text("ab"), text("c")]);
    app.submit_char('x');
    assert_eq!(
        app.window_classes(),
        vec![CharClass::Mismatched, CharClass::Cursor, CharClass::Pending, CharClass::Pending]
    );
    app.submit_char('b');
    assert_eq!(app.window_classes(), vec![CharClass::Cursor]);
}

#[test]
fn wide_screen_is_centred_at_62_cells() {
    let area = Area { x: 0, y: 0, width: 100, height: 40 };
    assert_eq!(centered_area(area), Area { x: 19, y: 0, width: 62, height: 40 });
    let shifted = Area { x: 3, y: 5, width: 63, height: 10 };
    assert_eq!(centered_area(shifted), Area { x: 3, y: 5, width: 62, height: 10 });
}

#[test]
fn narrow_screen_is_used_whole() {
    let area = Area { x: 2, y: 1, width: 40, height: 12 };
    assert_eq!(centered_area(area), area);
}

#[test]
fn title_and_content_split_the_inner_area() {
    let inner = Area { x: 20, y: 1, width: 60, height: 38 };
    assert_eq!(title_area(inner), Area { x: 20, y: 1, width: 60, height: 6 });
    assert_eq!(content_area(inner), Area { x: 20, y: 8, width: 60, height: 31 });
    let low = Area { x: 0, y: 0, width: 10, height: 5 };
    assert_eq!(content_area(low), Area { x: 0, y: 7, width: 10, height: 0 });
}
