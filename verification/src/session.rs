//! The session engine: the state machine that owns the sentences, the
//! user's progress through them, the counters and the timer.

use vstd::prelude::*;
use crate::text::{SPACE, lines_of, chars_before, flat_text, flat_upto, joined, spaces,
    lemma_flat_len, lemma_chars_before_monotonic, join_lines, push_chars};
use crate::generator::{GenerateError, TaskText, generate_task, generated_from, texts_of,
    lengths_bounded, words_present};

verus! {

/// Seconds after which a session ends.
pub const TIME_LIMIT: u64 = 30;

/// How many sentences are shown at once.
pub const WINDOW_SENTENCES: usize = 3;

/// The largest value a counter takes; it stays there.
pub const COUNTER_MAX: u32 = 0xffff_ffff;

#[derive(Clone, Copy, Debug, PartialEq, Eq, Structural)]
pub enum AppState {
    NotTyping,
    Typing,
    Paused,
    Ended,
}

/// The mathematical state of a session.
pub struct Session {
    /// The sentences of the task text.
    pub sentences: Seq<Seq<char>>,
    /// What the user has produced for the current sentence.
    pub typed: Seq<char>,
    pub state: AppState,
    /// Characters passed since the session began, over all sentences.
    pub cursor: nat,
    pub words: nat,
    pub errors: nat,
    /// Elapsed whole seconds.
    pub timer: nat,
    /// Index of the current sentence.
    pub sentence: nat,
    /// Offset of the next expected character in the current sentence.
    pub offset: nat,
    pub exit: bool,
}

/// A counter after one more event; it stops at `COUNTER_MAX`.
pub open spec fn bumped(n: nat) -> nat {
    if n < COUNTER_MAX {
        n + 1
    } else {
        n
    }
}

/// Where a skipped word ends: just behind the first space of `line` at or
/// after `from`, or the end of `line` where no space follows.
pub open spec fn skip_target(line: Seq<char>, from: nat) -> nat
    decreases line.len() - from,
{
    if from >= line.len() {
        line.len()
    } else if line[from as int] == SPACE {
        from + 1
    } else {
        skip_target(line, from + 1)
    }
}

impl Session {
    /// The invariant of a session.
    pub open spec fn wf(self) -> bool {
        &&& forall|i: int| 0 <= i < self.sentences.len() ==> #[trigger] self.sentences[i].len() > 0
        &&& self.sentence <= self.sentences.len()
        &&& self.sentence < self.sentences.len() ==> self.offset < self.sentences[
            self.sentence as int].len()
        &&& self.sentence == self.sentences.len() ==> self.offset == 0
        &&& self.typed.len() == self.offset
        &&& self.cursor == chars_before(self.sentences, self.sentence) + self.offset
        &&& self.timer <= TIME_LIMIT
        &&& self.words <= COUNTER_MAX
        &&& self.errors <= COUNTER_MAX
        &&& self.state == AppState::NotTyping ==> self.cursor == 0 && self.words == 0
            && self.errors == 0 && self.timer == 0
    }

    /// A session that has not begun, over `sentences`.
    pub open spec fn fresh(sentences: Seq<Seq<char>>, exit: bool) -> Session {
        Session {
            sentences,
            typed: Seq::empty(),
            state: AppState::NotTyping,
            cursor: 0,
            words: 0,
            errors: 0,
            timer: 0,
            sentence: 0,
            offset: 0,
            exit,
        }
    }

    /// Whether this is a session that has not begun, over a task text
    /// generated from `words`.
    pub open spec fn fresh_from(self, words: Seq<Seq<char>>) -> bool {
        exists|task: Seq<Seq<Seq<char>>>|
            {
                &&& #[trigger] generated_from(task, words)
                &&& words_present(task)
                &&& lengths_bounded(task)
                &&& self == Session::fresh(texts_of(task), self.exit)
            }
    }

    /// Whether every sentence has been completed.
    pub open spec fn finished(self) -> bool {
        self.sentence >= self.sentences.len()
    }

    /// The character expected next; meaningful while not `finished`.
    pub open spec fn expected(self) -> char {
        self.sentences[self.sentence as int][self.offset as int]
    }

    /// The session after the user typed `c`.
    pub open spec fn after_char(self, c: char) -> Session {
        if self.finished() {
            Session { state: AppState::Ended, ..self }
        } else if self.state == AppState::NotTyping || self.state == AppState::Typing {
            let line = self.sentences[self.sentence as int];
            let expected = self.expected();
            let skip = expected != c && c == SPACE;
            let target = if skip {
                skip_target(line, self.offset)
            } else {
                self.offset + 1
            };
            let typed = if skip {
                self.typed + spaces((target - self.offset) as nat)
            } else {
                self.typed.push(c)
            };
            let done = target >= line.len();
            Session {
                state: AppState::Typing,
                errors: if expected != c {
                    bumped(self.errors)
                } else {
                    self.errors
                },
                words: if expected == c && c == SPACE {
                    bumped(self.words)
                } else {
                    self.words
                },
                cursor: (self.cursor + target - self.offset) as nat,
                typed: if done {
                    Seq::empty()
                } else {
                    typed
                },
                offset: if done {
                    0
                } else {
                    target
                },
                sentence: if done {
                    self.sentence + 1
                } else {
                    self.sentence
                },
                ..self
            }
        } else {
            self
        }
    }

    /// The session after a backspace.
    pub open spec fn after_backspace(self) -> Session {
        if self.state == AppState::Typing && self.typed.len() > 0 && self.cursor > 0 {
            Session {
                typed: self.typed.drop_last(),
                offset: (self.offset - 1) as nat,
                cursor: (self.cursor - 1) as nat,
                ..self
            }
        } else {
            self
        }
    }

    /// The session after the clock reported `elapsed` seconds since the
    /// first keystroke.
    pub open spec fn after_tick(self, elapsed: nat) -> Session {
        if self.state == AppState::Typing {
            if elapsed >= TIME_LIMIT {
                Session { timer: TIME_LIMIT as nat, state: AppState::Ended, ..self }
            } else {
                Session { timer: elapsed, ..self }
            }
        } else {
            self
        }
    }

    /// Completed words per minute, rounded down.
    pub open spec fn wpm(self) -> nat {
        if self.timer > 0 && self.state != AppState::NotTyping {
            (self.words * 60 / self.timer) as nat
        } else {
            0
        }
    }

    /// The share of passed characters that were not errors, in percent,
    /// rounded down.
    pub open spec fn accuracy(self) -> nat {
        if self.cursor > 0 {
            let wrong = if self.errors < self.cursor {
                self.errors
            } else {
                self.cursor
            };
            ((self.cursor - wrong) * 100 / (self.cursor as int)) as nat
        } else {
            100
        }
    }

    /// The current sentence and up to two that follow, joined by spaces.
    pub open spec fn window(self) -> Seq<char> {
        if self.finished() {
            Seq::empty()
        } else {
            joined(self.sentences.subrange(self.sentence as int, self.window_end() as int))
        }
    }

    /// The index behind the last sentence of the window.
    pub open spec fn window_end(self) -> nat {
        if self.sentence + WINDOW_SENTENCES <= self.sentences.len() {
            (self.sentence + WINDOW_SENTENCES) as nat
        } else {
            self.sentences.len()
        }
    }
}

/// Words per minute and accuracy, as shown to the user.
#[derive(Clone, Copy, Debug, PartialEq, Eq, Structural)]
pub struct Metrics {
    pub wpm: u64,
    pub accuracy: u64,
}

pub struct App {
    task_string: Vec<char>,
    user_string: Vec<char>,
    app_state: AppState,
    cursor_index: usize,
    words_typed: u32,
    error_count: u32,
    timer: u64,
    exit: bool,
    sentences: Vec<Vec<char>>,
    current_sentence_index: usize,
    sentence_cursor_index: usize,
}

impl View for App {
    type V = Session;

    closed spec fn view(&self) -> Session {
        Session {
            sentences: lines_of(self.sentences@),
            typed: self.user_string@,
            state: self.app_state,
            cursor: self.cursor_index as nat,
            words: self.words_typed as nat,
            errors: self.error_count as nat,
            timer: self.timer as nat,
            sentence: self.current_sentence_index as nat,
            offset: self.sentence_cursor_index as nat,
            exit: self.exit,
        }
    }
}

fn bump(n: u32) -> (r: u32)
    ensures
        r == bumped(n as nat),
{
    if n < COUNTER_MAX {
        n + 1
    } else {
        n
    }
}

impl App {
    /// The flat task text is the sentences, each followed by a space.
    pub closed spec fn text_agrees(&self) -> bool {
        self.task_string@ == flat_text(lines_of(self.sentences@))
    }

    /// The invariant of the engine: its session is well formed, and the
    /// flat task text agrees with the sentences.
    pub open spec fn wf(&self) -> bool {
        &&& self@.wf()
        &&& self.text_agrees()
    }

    /// A session that has not begun, over a task text generated from
    /// `words`. Fails on an empty corpus, and on no other.
    pub fn new(words: &Vec<Vec<char>>) -> (r: Result<App, GenerateError>)
        ensures
            words.len() == 0 <==> r == Err::<App, GenerateError>(GenerateError::EmptyCorpus),
            words.len() > 0 <==> r is Ok,
            r is Ok ==> {
                let app = r->Ok_0;
                &&& app.wf()
                &&& !app@.exit
                &&& app@.fresh_from(lines_of(words@))
            },
    {
        match generate_task(words) {
            Ok(task) => Ok(App::with_task(&task)),
            Err(_) => Err(GenerateError::EmptyCorpus),
        }
    }

    /// A session that has not begun, over `task`.
    pub fn with_task(task: &TaskText) -> (app: App)
        requires
            task.wf(),
        ensures
            app.wf(),
            app@ == Session::fresh(texts_of(task@), false),
    {
        App::with_sentences(task.sentence_texts())
    }

    /// Generates a new task text from `words` and starts over on it. On an
    /// empty corpus the session stays as it is.
    pub fn restart(&mut self, words: &Vec<Vec<char>>) -> (r: Result<(), GenerateError>)
        requires
            old(self).wf(),
        ensures
            final(self).wf(),
            words.len() == 0 <==> r == Err::<(), GenerateError>(GenerateError::EmptyCorpus),
            words.len() > 0 <==> r is Ok,
            r is Err ==> final(self)@ == old(self)@,
            r is Ok ==> final(self)@.exit == old(self)@.exit && final(self)@.fresh_from(
                lines_of(words@),
            ),
    {
        match generate_task(words) {
            Ok(task) => {
                self.restart_with(task.sentence_texts());
                Ok(())
            },
            Err(_) => Err(GenerateError::EmptyCorpus),
        }
    }

    /// A session that has not begun, over the given sentences. Every
    /// sentence holds at least one character.
    pub fn with_sentences(sentences: Vec<Vec<char>>) -> (app: App)
        requires
            forall|i: int| 0 <= i < sentences.len() ==> #[trigger] sentences[i].len() > 0,
        ensures
            app.wf(),
            app@ == Session::fresh(lines_of(sentences@), false),
    {
        let task_string = flatten(&sentences);
        proof {
            lemma_lines_nonempty(sentences@);
        }
        App {
            task_string,
            user_string: Vec::new(),
            app_state: AppState::NotTyping,
            cursor_index: 0,
            words_typed: 0,
            error_count: 0,
            timer: 0,
            exit: false,
            sentences,
            current_sentence_index: 0,
            sentence_cursor_index: 0,
        }
    }

    /// Replaces the task text and resets progress, counters and timer.
    pub fn restart_with(&mut self, sentences: Vec<Vec<char>>)
        requires
            forall|i: int| 0 <= i < sentences.len() ==> #[trigger] sentences[i].len() > 0,
        ensures
            final(self).wf(),
            final(self)@ == Session::fresh(lines_of(sentences@), old(self)@.exit),
    {
        let task_string = flatten(&sentences);
        proof {
            lemma_lines_nonempty(sentences@);
        }
        self.app_state = AppState::NotTyping;
        self.cursor_index = 0;
        self.task_string = task_string;
        self.sentences = sentences;
        self.user_string = Vec::new();
        self.words_typed = 0;
        self.error_count = 0;
        self.timer = 0;
        self.current_sentence_index = 0;
        self.sentence_cursor_index = 0;
    }

    /// Asks the control loop to stop.
    pub fn exit(&mut self)
        ensures
            final(self)@ == (Session { exit: true, ..old(self)@ }),
            old(self).wf() ==> final(self).wf(),
    {
        self.exit = true;
    }

    /// The character expected next, or none once every sentence is done.
    pub fn get_current_sentence_char(&self) -> (r: Option<char>)
        requires
            self.wf(),
        ensures
            r == (if self@.finished() {
                None
            } else {
                Some(self@.expected())
            }),
    {
        if self.current_sentence_index >= self.sentences.len() {
            return None;
        }
        Some(self.sentences[self.current_sentence_index][self.sentence_cursor_index])
    }

    /// Whether the cursor stands at or behind the end of the current
    /// sentence, or no sentence is left.
    fn is_current_sentence_complete(&self) -> (r: bool)
        ensures
            r == (self@.finished() || self@.offset >= self@.sentences[self@.sentence as int].len()),
    {
        if self.current_sentence_index >= self.sentences.len() {
            return true;
        }
        self.sentence_cursor_index >= self.sentences[self.current_sentence_index].len()
    }

    /// Moves to the start of the next sentence and clears what was typed.
    /// The global cursor stays where it is.
    fn advance_to_next_sentence(&mut self)
        requires
            old(self).current_sentence_index < old(self).sentences.len(),
        ensures
            final(self)@ == (Session {
                sentence: old(self)@.sentence + 1,
                offset: 0,
                typed: Seq::empty(),
                ..old(self)@
            }),
            final(self).task_string == old(self).task_string,
    {
        self.current_sentence_index += 1;
        self.sentence_cursor_index = 0;
        self.user_string = Vec::new();
    }

    /// Where the cursor of the current sentence lands when the rest of the
    /// current word is skipped.
    fn skip_end(&self) -> (target: usize)
        requires
            self.wf(),
            !self@.finished(),
        ensures
            target == skip_target(self@.sentences[self@.sentence as int], self@.offset),
            self@.offset < target <= self@.sentences[self@.sentence as int].len(),
    {
        let line = &self.sentences[self.current_sentence_index];
        let mut at: usize = self.sentence_cursor_index;
        while at < line.len() && line[at] != SPACE
            invariant
                self.sentence_cursor_index <= at <= line.len(),
                skip_target(line@, at as nat) == skip_target(line@, self.sentence_cursor_index as nat),
            decreases line.len() - at,
        {
            at += 1;
        }
        if at < line.len() {
            at + 1
        } else {
            proof {
                assert(self.sentence_cursor_index < line.len());
            }
            at
        }
    }

    /// Scores one typed character.
    pub fn submit_char(&mut self, c: char)
        requires
            old(self).wf(),
        ensures
            final(self).wf(),
            final(self)@ == old(self)@.after_char(c),
    {
        if self.current_sentence_index >= self.sentences.len() {
            self.app_state = AppState::Ended;
            return ;
        }
        match self.app_state {
            AppState::Paused | AppState::Ended => {
                return ;
            },
            _ => {},
        }
        let ghost before = self@;
        let ghost line = before.sentences[before.sentence as int];
        proof {
            lemma_flat_len(before.sentences, before.sentences.len());
            lemma_chars_before_monotonic(
                before.sentences,
                before.sentence + 1,
                before.sentences.len(),
            );
            assert(before.sentences.len() == self.sentences.len());
            assert(self.task_string@.len() == self.task_string.len());
            assert(line == self.sentences[self.current_sentence_index as int]@);
            assert(line.len() == self.sentences[self.current_sentence_index as int].len());
            assert(chars_before(before.sentences, before.sentence + 1) == chars_before(
                before.sentences,
                before.sentence,
            ) + line.len());
        }
        self.app_state = AppState::Typing;
        let expected = self.sentences[self.current_sentence_index][self.sentence_cursor_index];
        let offset: usize = self.sentence_cursor_index;
        let skip = expected != c && c == SPACE;
        let target: usize = if skip {
            self.skip_end()
        } else {
            offset + 1
        };
        if expected != c {
            self.error_count = bump(self.error_count);
        } else if c == SPACE {
            self.words_typed = bump(self.words_typed);
        }
        if skip {
            push_spaces(&mut self.user_string, target - offset);
        } else {
            self.user_string.push(c);
        }
        self.cursor_index += target - offset;
        self.sentence_cursor_index = target;
        if self.is_current_sentence_complete() {
            self.advance_to_next_sentence();
        }
        proof {
            assert(self@.sentences == before.sentences);
            assert(self@.typed =~= before.after_char(c).typed);
        }
    }

    /// Takes back the last character typed in the current sentence.
    pub fn submit_backspace(&mut self)
        requires
            old(self).wf(),
        ensures
            final(self).wf(),
            final(self)@ == old(self)@.after_backspace(),
    {
        let typing = match self.app_state {
            AppState::Typing => true,
            _ => false,
        };
        if typing && self.user_string.len() > 0 && self.cursor_index != 0 {
            self.user_string.pop();
            self.cursor_index -= 1;
            self.sentence_cursor_index -= 1;
            proof {
                assert(self@.typed =~= old(self)@.typed.drop_last());
            }
        }
    }

    /// Feeds the seconds elapsed since the first keystroke.
    pub fn tick(&mut self, elapsed_seconds: u64)
        requires
            old(self).wf(),
        ensures
            final(self).wf(),
            final(self)@ == old(self)@.after_tick(elapsed_seconds as nat),
    {
        match self.app_state {
            AppState::Typing => {
                if elapsed_seconds >= TIME_LIMIT {
                    self.timer = TIME_LIMIT;
                    self.app_state = AppState::Ended;
                } else {
                    self.timer = elapsed_seconds;
                }
            },
            _ => {},
        }
    }

    /// Words per minute and accuracy of the session as it stands.
    pub fn metrics(&self) -> (m: Metrics)
        ensures
            m.wpm == self@.wpm(),
            m.accuracy == self@.accuracy(),
            m.accuracy <= 100,
    {
        let started = match self.app_state {
            AppState::NotTyping => false,
            _ => true,
        };
        let wpm: u64 = if self.timer > 0 && started {
            (self.words_typed as u64) * 60 / self.timer
        } else {
            0
        };
        let accuracy: u64 = if self.cursor_index > 0 {
            let wrong: usize = if (self.error_count as usize) < self.cursor_index {
                self.error_count as usize
            } else {
                self.cursor_index
            };
            let right: u128 = (self.cursor_index - wrong) as u128;
            let all: u128 = self.cursor_index as u128;
            assert(right * 100 <= all * 100 && (right as int) * 100 / (all as int) <= 100)
                by (nonlinear_arith)
                requires
                    right <= all,
                    all > 0,
            ;
            (right * 100 / all) as u64
        } else {
            100
        };
        Metrics { wpm, accuracy }
    }

    /// The text to display: the current sentence and up to two that
    /// follow, joined by spaces; empty once every sentence is done.
    pub fn get_visible_sentences(&self) -> (text: Vec<char>)
        ensures
            text@ == self@.window(),
    {
        let start: usize = self.current_sentence_index;
        let total: usize = self.sentences.len();
        if start >= total {
            return Vec::new();
        }
        let end: usize = if total - start >= WINDOW_SENTENCES {
            start + WINDOW_SENTENCES
        } else {
            total
        };
        join_lines(&self.sentences, start, end)
    }

    pub fn state(&self) -> (r: AppState)
        ensures
            r == self@.state,
    {
        self.app_state
    }

    pub fn error_count(&self) -> (r: u32)
        ensures
            r == self@.errors,
    {
        self.error_count
    }

    pub fn words_typed(&self) -> (r: u32)
        ensures
            r == self@.words,
    {
        self.words_typed
    }

    pub fn timer(&self) -> (r: u64)
        ensures
            r == self@.timer,
    {
        self.timer
    }

    pub fn cursor_index(&self) -> (r: usize)
        ensures
            r == self@.cursor,
    {
        self.cursor_index
    }

    pub fn current_sentence_index(&self) -> (r: usize)
        ensures
            r == self@.sentence,
    {
        self.current_sentence_index
    }

    pub fn sentence_cursor_index(&self) -> (r: usize)
        ensures
            r == self@.offset,
    {
        self.sentence_cursor_index
    }

    pub fn sentence_count(&self) -> (r: usize)
        ensures
            r == self@.sentences.len(),
    {
        self.sentences.len()
    }

    pub fn should_exit(&self) -> (r: bool)
        ensures
            r == self@.exit,
    {
        self.exit
    }

    pub fn user_input(&self) -> (r: &Vec<char>)
        ensures
            r@ == self@.typed,
    {
        &self.user_string
    }

    /// The whole task text: every sentence followed by a space.
    pub fn task_text(&self) -> (r: &Vec<char>)
        requires
            self.wf(),
        ensures
            r@ == flat_text(self@.sentences),
    {
        &self.task_string
    }
}

/// Appends `n` spaces to `text`.
fn push_spaces(text: &mut Vec<char>, n: usize)
    ensures
        final(text)@ == old(text)@ + spaces(n as nat),
{
    let mut filled: usize = 0;
    assert(text@ =~= old(text)@ + spaces(0));
    while filled < n
        invariant
            filled <= n,
            text@ == old(text)@ + spaces(filled as nat),
        decreases n - filled,
    {
        text.push(SPACE);
        filled += 1;
        assert(text@ =~= old(text)@ + spaces(filled as nat));
    }
}

proof fn lemma_lines_nonempty(v: Seq<Vec<char>>)
    requires
        forall|i: int| 0 <= i < v.len() ==> #[trigger] v[i].len() > 0,
    ensures
        forall|i: int| 0 <= i < lines_of(v).len() ==> #[trigger] lines_of(v)[i].len() > 0,
{
    assert forall|i: int| 0 <= i < lines_of(v).len() implies #[trigger] lines_of(v)[i].len()
        > 0 by {
        assert(v[i].len() > 0);
    }
}

/// Every line of `lines` followed by a space, in one text.
fn flatten(lines: &Vec<Vec<char>>) -> (text: Vec<char>)
    ensures
        text@ == flat_text(lines_of(lines@)),
{
    let mut text: Vec<char> = Vec::new();
    let ghost all = lines_of(lines@);
    let mut i: usize = 0;
    while i < lines.len()
        invariant
            i <= lines.len(),
            all == lines_of(lines@),
            text@ == flat_upto(all, i as nat),
        decreases lines.len() - i,
    {
        let ghost head = text@;
        push_chars(&mut text, &lines[i]);
        text.push(SPACE);
        proof {
            assert(text@ =~= head + lines[i as int]@ + seq![SPACE]);
        }
        i += 1;
    }
    text
}

} // verus!
