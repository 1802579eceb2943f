//! What holds of every generated task text and of every session, proved
//! over their mathematical models.

use vstd::prelude::*;
use crate::text::{SPACE, chars_before, flat_text, lemma_flat_upto_agrees, lemma_flat_text_concat,
    lemma_joined_then_space};
use crate::session::{AppState, Session, skip_target};
use crate::generator::{DRAWS, LENGTH_DRAWS, MIN_WORDS, cutoffs_in_range, generated_from,
    lengths_bounded, picks_in_range, selected, solid_end, solid_start, task_of, texts_of,
    trimmed_by, words_present, lemma_grouped_lengths, lemma_grouped_words_present,
    lemma_selected_tokens};

verus! {

/// From `from` on, everything before the solid start is blank, and the
/// solid start itself is not, unless it is the end.
pub proof fn lemma_solid_start(blank: Seq<bool>, from: nat)
    requires
        from <= blank.len(),
    ensures
        from <= solid_start(blank, from) <= blank.len(),
        forall|k: int| from <= k < solid_start(blank, from) ==> blank[k],
        solid_start(blank, from) < blank.len() ==> !blank[solid_start(blank, from) as int],
    decreases blank.len() - from,
{
    if from < blank.len() && blank[from as int] {
        lemma_solid_start(blank, from + 1);
    }
}

/// Up to `upto`, everything from the solid end on is blank, and what
/// stands just before the solid end is not, unless it is the start.
pub proof fn lemma_solid_end(blank: Seq<bool>, upto: nat)
    requires
        upto <= blank.len(),
    ensures
        solid_end(blank, upto) <= upto,
        forall|k: int| solid_end(blank, upto) <= k < upto ==> blank[k],
        solid_end(blank, upto) > 0 ==> !blank[solid_end(blank, upto) - 1],
    decreases upto,
{
    if upto > 0 && blank[upto - 1] {
        lemma_solid_end(blank, (upto - 1) as nat);
    }
}

/// Trimming leaves a word empty exactly when all of it is blank; what is
/// left otherwise begins and ends with a character that is not blank, and
/// is the word without a blank run at either end.
pub proof fn lemma_trimmed_by(word: Seq<char>, blank: Seq<bool>)
    requires
        blank.len() == word.len(),
    ensures
        trimmed_by(word, blank).len() == 0 <==> forall|k: int| 0 <= k < blank.len() ==> blank[k],
        trimmed_by(word, blank).len() > 0 ==> {
            let start = solid_start(blank, 0) as int;
            let end = solid_end(blank, blank.len()) as int;
            &&& 0 <= start < end <= word.len()
            &&& trimmed_by(word, blank) == word.subrange(start, end)
            &&& !blank[start]
            &&& !blank[end - 1]
            &&& forall|k: int| 0 <= k < start ==> blank[k]
            &&& forall|k: int| end <= k < blank.len() ==> blank[k]
        },
{
    lemma_solid_start(blank, 0);
    lemma_solid_end(blank, blank.len());
    let start = solid_start(blank, 0) as int;
    let end = solid_end(blank, blank.len()) as int;
    if start >= end {
        assert forall|k: int| 0 <= k < blank.len() implies blank[k] by {
            if k < start {
            } else {
                assert(end <= k);
            }
        }
    }
}

/// Every sentence of a generated task text has between ten and fifteen
/// words, but for the last, which may have fewer and has at least one; and
/// every word holds a character.
pub proof fn lemma_generated_sentence_lengths(task: Seq<Seq<Seq<char>>>, words: Seq<Seq<char>>)
    requires
        generated_from(task, words),
    ensures
        lengths_bounded(task),
        words_present(task),
        task.len() <= LENGTH_DRAWS,
{
    let (picks, cutoffs) = choose|picks: Seq<usize>, cutoffs: Seq<usize>|
        {
            &&& picks.len() == DRAWS
            &&& picks_in_range(words.len(), picks)
            &&& cutoffs.len() == LENGTH_DRAWS
            &&& cutoffs_in_range(cutoffs)
            &&& task == #[trigger] task_of(words, picks, cutoffs)
        };
    lemma_selected_tokens(words, picks);
    lemma_grouped_lengths(selected(words, picks), cutoffs);
    lemma_grouped_words_present(selected(words, picks), cutoffs);
}

/// The flat text of the sentences of a task is the flat text of its
/// words: every word followed by a space, in the order of the sentences.
pub proof fn lemma_flat_text_of_task(task: Seq<Seq<Seq<char>>>)
    requires
        forall|i: int| 0 <= i < task.len() ==> (#[trigger] task[i]).len() > 0,
    ensures
        flat_text(texts_of(task)) == flat_text(task.flatten()),
    decreases task.len(),
{
    if task.len() == 0 {
        assert(task.flatten() =~= Seq::<Seq<char>>::empty());
        assert(texts_of(task) =~= Seq::<Seq<char>>::empty());
    } else {
        let head = task.drop_last();
        lemma_flat_text_of_task(head);
        task.lemma_flatten_and_flatten_alt_are_equivalent();
        head.lemma_flatten_and_flatten_alt_are_equivalent();
        assert(task.flatten() == head.flatten() + task.last());
        lemma_flat_text_concat(head.flatten(), task.last());
        lemma_joined_then_space(task.last());
        lemma_flat_upto_agrees(texts_of(task), texts_of(head), head.len());
        assert(flat_text(texts_of(task)) =~= flat_text(texts_of(head)) + (texts_of(task)[task.len()
            - 1] + seq![SPACE]));
    }
}

/// The flat text of a generated task is the drawn words, trimmed, each
/// followed by a space, without those that are empty once trimmed.
pub proof fn lemma_generated_flat_text(
    words: Seq<Seq<char>>,
    picks: Seq<usize>,
    cutoffs: Seq<usize>,
)
    requires
        cutoffs_in_range(cutoffs),
        picks.len() <= MIN_WORDS * cutoffs.len(),
    ensures
        flat_text(texts_of(task_of(words, picks, cutoffs))) == flat_text(selected(words, picks)),
{
    let tokens = selected(words, picks);
    lemma_selected_tokens(words, picks);
    lemma_grouped_lengths(tokens, cutoffs);
    lemma_grouped_words_present(tokens, cutoffs);
    lemma_flat_text_of_task(task_of(words, picks, cutoffs));
}

/// No event leads into the paused state.
pub proof fn lemma_paused_is_never_entered(s: Session, c: char, elapsed: nat)
    requires
        s.state != AppState::Paused,
    ensures
        s.after_char(c).state != AppState::Paused,
        s.after_backspace().state != AppState::Paused,
        s.after_tick(elapsed).state != AppState::Paused,
{
}

/// Skipping from `from` lands behind `from`, within the line, on the first
/// position that follows a space or ends the line: no space lies between
/// `from` and the character before the landing place.
pub proof fn lemma_skip_target(line: Seq<char>, from: nat)
    requires
        from < line.len(),
    ensures
        from < skip_target(line, from) <= line.len(),
        forall|k: int| from <= k < skip_target(line, from) - 1 ==> line[k] != SPACE,
        skip_target(line, from) == line.len() || line[skip_target(line, from) - 1] == SPACE,
    decreases line.len() - from,
{
    if line[from as int] != SPACE {
        if from + 1 < line.len() {
            lemma_skip_target(line, from + 1);
        } else {
            assert(skip_target(line, from + 1) == line.len());
        }
    }
}

/// A typed character keeps a session well formed.
pub proof fn lemma_char_keeps_wf(s: Session, c: char)
    requires
        s.wf(),
    ensures
        s.after_char(c).wf(),
{
    if !s.finished() {
        lemma_skip_target(s.sentences[s.sentence as int], s.offset);
        assert(chars_before(s.sentences, s.sentence + 1) == chars_before(s.sentences, s.sentence)
            + s.sentences[s.sentence as int].len());
    }
}

/// A backspace and a tick of the clock keep a session well formed.
pub proof fn lemma_backspace_and_tick_keep_wf(s: Session, elapsed: nat)
    requires
        s.wf(),
    ensures
        s.after_backspace().wf(),
        s.after_tick(elapsed).wf(),
{
}

/// Once a session has ended, a typed character changes nothing: not the
/// counters, not what was typed, not the cursor.
pub proof fn lemma_char_after_end_changes_nothing(s: Session, c: char)
    requires
        s.state == AppState::Ended,
    ensures
        s.after_char(c) == s,
{
}

/// No event lowers the error count or the count of typed words.
pub proof fn lemma_counters_never_fall(s: Session, c: char, elapsed: nat)
    ensures
        s.after_char(c).errors >= s.errors,
        s.after_char(c).words >= s.words,
        s.after_backspace().errors == s.errors,
        s.after_backspace().words == s.words,
        s.after_tick(elapsed).errors == s.errors,
        s.after_tick(elapsed).words == s.words,
{
}

/// A restarted session counts no error and no word.
pub proof fn lemma_restart_clears_counters(sentences: Seq<Seq<char>>, exit: bool)
    ensures
        Session::fresh(sentences, exit).errors == 0,
        Session::fresh(sentences, exit).words == 0,
        Session::fresh(sentences, exit).wf() <==> forall|i: int|
            0 <= i < sentences.len() ==> #[trigger] sentences[i].len() > 0,
{
}

/// A backspace changes nothing unless the session is being typed; where
/// it takes effect, both cursors were at least one and fall by exactly one.
pub proof fn lemma_backspace_stays_in_bounds(s: Session)
    requires
        s.wf(),
    ensures
        s.state != AppState::Typing ==> s.after_backspace() == s,
        s.typed.len() == 0 ==> s.after_backspace() == s,
        s.after_backspace() != s ==> s.offset >= 1 && s.cursor >= 1 && s.after_backspace().offset
            == s.offset - 1 && s.after_backspace().cursor == s.cursor - 1,
{
}

/// Accuracy lies between 0 and 100, and words per minute is not negative.
pub proof fn lemma_metrics_in_range(s: Session)
    ensures
        0 <= s.accuracy() <= 100,
        0 <= s.wpm(),
{
    if s.cursor > 0 {
        let wrong = if s.errors < s.cursor {
            s.errors
        } else {
            s.cursor
        };
        let right = s.cursor - wrong;
        let all = s.cursor as int;
        assert(0 <= right * 100 / all <= 100) by (nonlinear_arith)
            requires
                0 <= right <= all,
                all > 0,
        ;
    }
}

} // verus!
