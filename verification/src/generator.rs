//! The text generator: draws words from a corpus and groups them into
//! sentences of bounded length.

use vstd::prelude::*;
use crate::text::{lines_of, joined, copy_chars, join_lines, lemma_joined_len};

verus! {

/// How many words are drawn from the corpus for one task text.
pub const DRAWS: usize = 255;

/// The fewest words a sentence closes with.
pub const MIN_WORDS: usize = 10;

/// The most words a sentence holds.
pub const MAX_WORDS: usize = 15;

/// How many sentence lengths are drawn: enough for `DRAWS` words at
/// `MIN_WORDS` a sentence.
pub const LENGTH_DRAWS: usize = 26;

#[derive(Clone, Copy, Debug, PartialEq, Eq, Structural)]
pub enum GenerateError {
    /// The corpus holds no word at all.
    EmptyCorpus,
}

/// Whether `c` is white space in the sense of `char::is_whitespace`: whether
/// it has the Unicode property White_Space.
pub uninterp spec fn white_space(c: char) -> bool;

/// Trusted: calls std's `char::is_whitespace`, whose answer depends on the
/// character alone, and gives that answer the name `white_space`.
#[verifier::external_body]
fn is_white_space(c: char) -> (r: bool)
    ensures
        r == white_space(c),
{
    c.is_whitespace()
}

/// Trusted: calls `rand::random_range` on the half-open range from 0 to
/// `bound`, which draws from the thread's generator and panics on an empty
/// range. Whatever is drawn lies in the range; nothing more is claimed.
#[verifier::external_body]
fn random_below(bound: usize) -> (r: usize)
    requires
        bound > 0,
    ensures
        r < bound,
{
    rand::random_range(0..bound)
}

/// For each character of `word`, whether it is white space.
pub open spec fn blanks(word: Seq<char>) -> Seq<bool> {
    Seq::new(word.len(), |i: int| white_space(word[i]))
}

/// The first index at or after `from` that is not blank, or the length.
pub open spec fn solid_start(blank: Seq<bool>, from: nat) -> nat
    decreases blank.len() - from,
{
    if from >= blank.len() {
        blank.len()
    } else if !blank[from as int] {
        from
    } else {
        solid_start(blank, (from + 1) as nat)
    }
}

/// The index behind the last index before `upto` that is not blank, or 0.
pub open spec fn solid_end(blank: Seq<bool>, upto: nat) -> nat
    decreases upto,
{
    if upto == 0 {
        0
    } else if !blank[upto - 1] {
        upto
    } else {
        solid_end(blank, (upto - 1) as nat)
    }
}

/// `word` without its leading and trailing blank characters, where `blank`
/// says of each character whether it is blank.
pub open spec fn trimmed_by(word: Seq<char>, blank: Seq<bool>) -> Seq<char> {
    let start = solid_start(blank, 0);
    let end = solid_end(blank, blank.len());
    if start < end {
        word.subrange(start as int, end as int)
    } else {
        Seq::empty()
    }
}

/// `word` without leading and trailing white space.
pub open spec fn trimmed(word: Seq<char>) -> Seq<char> {
    trimmed_by(word, blanks(word))
}

/// The tokens that the draws `picks` select from `words`: each drawn word
/// trimmed, in the order drawn, without those that are empty once trimmed.
pub open spec fn selected(words: Seq<Seq<char>>, picks: Seq<usize>) -> Seq<Seq<char>>
    decreases picks.len(),
{
    if picks.len() == 0 {
        Seq::empty()
    } else {
        let rest = selected(words, picks.drop_last());
        let token = trimmed(words[picks.last() as int]);
        if token.len() == 0 {
            rest
        } else {
            rest.push(token)
        }
    }
}

/// `tokens` cut into sentences: the first takes as many tokens as the first
/// cutoff says, or all that are left where they are fewer, and so on.
pub open spec fn grouped(tokens: Seq<Seq<char>>, cutoffs: Seq<usize>) -> Seq<Seq<Seq<char>>>
    decreases tokens.len(),
{
    if tokens.len() == 0 || cutoffs.len() == 0 || cutoffs[0] == 0 {
        Seq::empty()
    } else {
        let n = if cutoffs[0] < tokens.len() {
            cutoffs[0] as int
        } else {
            tokens.len() as int
        };
        seq![tokens.take(n)] + grouped(tokens.skip(n), cutoffs.drop_first())
    }
}

/// The sentences of the task text that the draws determine.
pub open spec fn task_of(words: Seq<Seq<char>>, picks: Seq<usize>, cutoffs: Seq<usize>) -> Seq<
    Seq<Seq<char>>,
> {
    grouped(selected(words, picks), cutoffs)
}

/// Whether `picks` index a corpus of `corpus_len` words.
pub open spec fn picks_in_range(corpus_len: nat, picks: Seq<usize>) -> bool {
    forall|i: int| 0 <= i < picks.len() ==> #[trigger] picks[i] < corpus_len
}

/// Whether every cutoff is a sentence length that may be drawn.
pub open spec fn cutoffs_in_range(cutoffs: Seq<usize>) -> bool {
    forall|k: int| 0 <= k < cutoffs.len() ==> MIN_WORDS <= #[trigger] cutoffs[k] <= MAX_WORDS
}

/// The views of the sentences of `v`, each a sequence of words.
pub open spec fn groups_of(v: Seq<Vec<Vec<char>>>) -> Seq<Seq<Seq<char>>> {
    Seq::new(v.len(), |i: int| lines_of(v[i]@))
}

/// The text of each sentence: its words joined by single spaces.
pub open spec fn texts_of(task: Seq<Seq<Seq<char>>>) -> Seq<Seq<char>> {
    Seq::new(task.len(), |i: int| joined(task[i]))
}

/// Whether every sentence but the last has between `MIN_WORDS` and
/// `MAX_WORDS` words, and the last between one and `MAX_WORDS`.
pub open spec fn lengths_bounded(task: Seq<Seq<Seq<char>>>) -> bool {
    &&& forall|i: int| 0 <= i < task.len() - 1 ==> MIN_WORDS <= #[trigger] task[i].len() <= MAX_WORDS
    &&& task.len() > 0 ==> 1 <= task.last().len() <= MAX_WORDS
}

/// Whether no sentence is without words and no word without characters.
pub open spec fn words_present(task: Seq<Seq<Seq<char>>>) -> bool {
    forall|i: int|
        0 <= i < task.len() ==> (#[trigger] task[i]).len() > 0 && forall|j: int|
            0 <= j < task[i].len() ==> (#[trigger] task[i][j]).len() > 0
}

/// A task text as sentences of words.
#[derive(Debug)]
pub struct TaskText {
    pub sentences: Vec<Vec<Vec<char>>>,
}

impl View for TaskText {
    type V = Seq<Seq<Seq<char>>>;

    open spec fn view(&self) -> Seq<Seq<Seq<char>>> {
        groups_of(self.sentences@)
    }
}

impl TaskText {
    /// The invariant of a task text that a session can run on.
    pub open spec fn wf(&self) -> bool {
        words_present(self@)
    }

    pub fn sentence_count(&self) -> (n: usize)
        ensures
            n == self@.len(),
    {
        self.sentences.len()
    }

    /// The number of words of sentence `i`.
    pub fn word_count(&self, i: usize) -> (n: usize)
        requires
            i < self@.len(),
        ensures
            n == self@[i as int].len(),
    {
        self.sentences[i].len()
    }

    /// The text of each sentence, its words joined by single spaces.
    pub fn sentence_texts(&self) -> (texts: Vec<Vec<char>>)
        ensures
            lines_of(texts@) == texts_of(self@),
            self.wf() ==> forall|i: int| 0 <= i < texts.len() ==> #[trigger] texts[i].len() > 0,
    {
        let mut texts: Vec<Vec<char>> = Vec::new();
        let mut i: usize = 0;
        while i < self.sentences.len()
            invariant
                i <= self.sentences.len(),
                texts.len() == i,
                forall|k: int| 0 <= k < i ==> #[trigger] texts[k]@ == joined(self@[k]),
            decreases self.sentences.len() - i,
        {
            let sentence = &self.sentences[i];
            let text = join_lines(sentence, 0, sentence.len());
            proof {
                assert(lines_of(sentence@).subrange(0, sentence.len() as int) =~= lines_of(
                    sentence@,
                ));
            }
            texts.push(text);
            i += 1;
        }
        proof {
            assert(lines_of(texts@) =~= texts_of(self@));
            if self.wf() {
                assert forall|i: int| 0 <= i < texts.len() implies #[trigger] texts[i].len()
                    > 0 by {
                    assert(self@[i].len() > 0);
                    lemma_joined_len(self@[i]);
                }
            }
        }
        texts
    }
}

/// For each character of `word`, whether it is white space.
pub fn blank_flags(word: &Vec<char>) -> (flags: Vec<bool>)
    ensures
        flags@ == blanks(word@),
{
    let mut flags: Vec<bool> = Vec::new();
    let mut i: usize = 0;
    while i < word.len()
        invariant
            i <= word.len(),
            flags.len() == i,
            forall|k: int| 0 <= k < i ==> flags[k] == white_space(#[trigger] word[k]),
        decreases word.len() - i,
    {
        flags.push(is_white_space(word[i]));
        i += 1;
    }
    assert(flags@ =~= blanks(word@));
    flags
}

/// `word` without its leading and trailing blank characters; `blank` holds
/// one flag for each character.
pub fn trim_with(word: &Vec<char>, blank: &Vec<bool>) -> (token: Vec<char>)
    requires
        blank.len() == word.len(),
    ensures
        token@ == trimmed_by(word@, blank@),
{
    let mut start: usize = 0;
    while start < blank.len() && blank[start]
        invariant
            start <= blank.len(),
            solid_start(blank@, start as nat) == solid_start(blank@, 0),
        decreases blank.len() - start,
    {
        start += 1;
    }
    let mut end: usize = blank.len();
    while end > 0 && blank[end - 1]
        invariant
            end <= blank.len(),
            solid_end(blank@, end as nat) == solid_end(blank@, blank@.len()),
        decreases end,
    {
        end -= 1;
    }
    if start < end {
        copy_chars(word, start, end)
    } else {
        Vec::new()
    }
}

/// `word` without leading and trailing white space.
pub fn trim(word: &Vec<char>) -> (token: Vec<char>)
    ensures
        token@ == trimmed(word@),
{
    let flags = blank_flags(word);
    trim_with(word, &flags)
}

/// The tokens that the draws select: each drawn word trimmed, without those
/// that are empty once trimmed.
pub fn select_tokens(words: &Vec<Vec<char>>, picks: &Vec<usize>) -> (tokens: Vec<Vec<char>>)
    requires
        picks_in_range(words@.len(), picks@),
    ensures
        lines_of(tokens@) == selected(lines_of(words@), picks@),
        tokens.len() <= picks.len(),
        forall|i: int| 0 <= i < tokens.len() ==> #[trigger] tokens[i].len() > 0,
{
    let mut tokens: Vec<Vec<char>> = Vec::new();
    let ghost corpus = lines_of(words@);
    let mut i: usize = 0;
    assert(picks@.take(0) =~= Seq::<usize>::empty());
    assert(lines_of(tokens@) =~= Seq::<Seq<char>>::empty());
    while i < picks.len()
        invariant
            i <= picks.len(),
            corpus == lines_of(words@),
            picks_in_range(words@.len(), picks@),
            lines_of(tokens@) == selected(corpus, picks@.take(i as int)),
            tokens.len() <= i,
            forall|k: int| 0 <= k < tokens.len() ==> #[trigger] tokens[k].len() > 0,
        decreases picks.len() - i,
    {
        let pick = picks[i];
        let token = trim(&words[pick]);
        let ghost before = lines_of(tokens@);
        proof {
            let upto = picks@.take(i + 1);
            assert(upto.drop_last() =~= picks@.take(i as int));
            assert(upto.last() == pick);
            assert(corpus[pick as int] == words[pick as int]@);
        }
        if token.len() > 0 {
            tokens.push(token);
            assert(lines_of(tokens@) =~= before.push(token@));
        }
        i += 1;
    }
    assert(picks@.take(picks.len() as int) =~= picks@);
    tokens
}

/// A copy of the lines of `lines` from `from` up to `to`.
fn copy_lines(lines: &Vec<Vec<char>>, from: usize, to: usize) -> (copy: Vec<Vec<char>>)
    requires
        from <= to <= lines.len(),
    ensures
        lines_of(copy@) == lines_of(lines@).subrange(from as int, to as int),
{
    let mut copy: Vec<Vec<char>> = Vec::new();
    let mut i: usize = from;
    while i < to
        invariant
            from <= i <= to <= lines.len(),
            copy.len() == i - from,
            forall|k: int| 0 <= k < copy.len() ==> #[trigger] copy[k]@ == lines[from + k]@,
        decreases to - i,
    {
        let line = &lines[i];
        let one = copy_chars(line, 0, line.len());
        assert(one@ =~= line@);
        copy.push(one);
        i += 1;
    }
    assert(lines_of(copy@) =~= lines_of(lines@).subrange(from as int, to as int));
    copy
}

/// Cuts `tokens` into sentences: sentence `k` closes once it holds
/// `cutoffs[k]` tokens, and what is left at the end is a last, shorter one.
pub fn split_sentences(tokens: &Vec<Vec<char>>, cutoffs: &Vec<usize>) -> (task: TaskText)
    requires
        cutoffs_in_range(cutoffs@),
        tokens.len() <= MIN_WORDS * cutoffs.len(),
    ensures
        task@ == grouped(lines_of(tokens@), cutoffs@),
        lengths_bounded(task@),
        task@.len() <= cutoffs.len(),
{
    let mut sentences: Vec<Vec<Vec<char>>> = Vec::new();
    let ghost all = lines_of(tokens@);
    let mut pos: usize = 0;
    let mut k: usize = 0;
    proof {
        assert(all.skip(0) =~= all);
        assert(cutoffs@.skip(0) =~= cutoffs@);
        assert(groups_of(sentences@) + grouped(all, cutoffs@) =~= grouped(all, cutoffs@));
        lemma_grouped_lengths(all, cutoffs@);
    }
    while pos < tokens.len()
        invariant
            pos <= tokens.len(),
            k <= cutoffs.len(),
            all == lines_of(tokens@),
            cutoffs_in_range(cutoffs@),
            tokens.len() - pos <= MIN_WORDS * (cutoffs.len() - k),
            sentences.len() == k,
            groups_of(sentences@) + grouped(all.skip(pos as int), cutoffs@.skip(k as int))
                == grouped(all, cutoffs@),
        decreases tokens.len() - pos,
    {
        let cutoff: usize = cutoffs[k];
        let left: usize = tokens.len() - pos;
        let n: usize = if cutoff < left {
            cutoff
        } else {
            left
        };
        let sentence = copy_lines(tokens, pos, pos + n);
        proof {
            let rest = all.skip(pos as int);
            let cuts = cutoffs@.skip(k as int);
            assert(cuts[0] == cutoff);
            assert(rest.take(n as int) =~= all.subrange(pos as int, pos + n));
            assert(rest.skip(n as int) =~= all.skip(pos + n));
            assert(cuts.drop_first() =~= cutoffs@.skip(k + 1));
            assert(groups_of(sentences@.push(sentence)) =~= groups_of(sentences@) + seq![
                lines_of(sentence@),
            ]);
            assert(groups_of(sentences@.push(sentence)) + grouped(
                all.skip(pos + n),
                cutoffs@.skip(k + 1),
            ) =~= groups_of(sentences@) + grouped(rest, cuts));
        }
        sentences.push(sentence);
        pos += n;
        k += 1;
    }
    proof {
        assert(grouped(all.skip(pos as int), cutoffs@.skip(k as int)) =~= Seq::empty());
        assert(groups_of(sentences@) =~= grouped(all, cutoffs@));
    }
    TaskText { sentences }
}

/// The selected tokens are no more than the draws, and each holds a
/// character.
pub proof fn lemma_selected_tokens(words: Seq<Seq<char>>, picks: Seq<usize>)
    ensures
        selected(words, picks).len() <= picks.len(),
        forall|i: int|
            0 <= i < selected(words, picks).len() ==> (#[trigger] selected(words, picks)[i]).len()
                > 0,
    decreases picks.len(),
{
    if picks.len() > 0 {
        lemma_selected_tokens(words, picks.drop_last());
    }
}

/// Sentences cut by cutoffs between `MIN_WORDS` and `MAX_WORDS` have that
/// many words each, but for the last, which has at least one and at most
/// `MAX_WORDS`; and no token is lost, added or moved.
pub proof fn lemma_grouped_lengths(tokens: Seq<Seq<char>>, cutoffs: Seq<usize>)
    requires
        cutoffs_in_range(cutoffs),
        tokens.len() <= MIN_WORDS * cutoffs.len(),
    ensures
        lengths_bounded(grouped(tokens, cutoffs)),
        grouped(tokens, cutoffs).len() <= cutoffs.len(),
        forall|i: int|
            0 <= i < grouped(tokens, cutoffs).len() - 1 ==> (#[trigger] grouped(
                tokens,
                cutoffs,
            )[i]).len() == cutoffs[i],
        grouped(tokens, cutoffs).flatten() == tokens,
    decreases tokens.len(),
{
    let all = grouped(tokens, cutoffs);
    if tokens.len() == 0 {
        assert(all.flatten() =~= tokens);
    } else {
        let n = if cutoffs[0] < tokens.len() {
            cutoffs[0] as int
        } else {
            tokens.len() as int
        };
        let first = tokens.take(n);
        let rest = grouped(tokens.skip(n), cutoffs.drop_first());
        assert(cutoffs_in_range(cutoffs.drop_first())) by {
            assert forall|k: int| 0 <= k < cutoffs.drop_first().len() implies MIN_WORDS
                <= #[trigger] cutoffs.drop_first()[k] <= MAX_WORDS by {
                assert(cutoffs.drop_first()[k] == cutoffs[k + 1]);
            }
        }
        lemma_grouped_lengths(tokens.skip(n), cutoffs.drop_first());
        assert(all == seq![first] + rest);
        assert(all[0] == first);
        assert forall|i: int| 1 <= i < all.len() implies all[i] == rest[i - 1] by {}
        if rest.len() > 0 {
            assert(tokens.skip(n).len() > 0);
            assert(all.last() == rest.last());
            assert forall|i: int| 0 <= i < all.len() - 1 implies MIN_WORDS <= (#[trigger] all[i]).len()
                <= MAX_WORDS && all[i].len() == cutoffs[i] by {
                if i > 0 {
                    assert(all[i] == rest[i - 1]);
                    assert(cutoffs.drop_first()[i - 1] == cutoffs[i]);
                }
            }
        } else {
            assert(all.last() == first);
        }
        assert(all.drop_first() =~= rest);
        assert(all.flatten() =~= first + rest.flatten());
        assert(first + tokens.skip(n) =~= tokens);
    }
}

/// Sentences cut from tokens that all hold a character have words, and
/// every word holds a character.
pub proof fn lemma_grouped_words_present(tokens: Seq<Seq<char>>, cutoffs: Seq<usize>)
    requires
        forall|i: int| 0 <= i < tokens.len() ==> (#[trigger] tokens[i]).len() > 0,
    ensures
        words_present(grouped(tokens, cutoffs)),
    decreases tokens.len(),
{
    let all = grouped(tokens, cutoffs);
    if all.len() > 0 {
        let n = if cutoffs[0] < tokens.len() {
            cutoffs[0] as int
        } else {
            tokens.len() as int
        };
        let first = tokens.take(n);
        let rest = grouped(tokens.skip(n), cutoffs.drop_first());
        lemma_grouped_words_present(tokens.skip(n), cutoffs.drop_first());
        assert forall|i: int| 0 <= i < all.len() implies (#[trigger] all[i]).len() > 0
            && forall|j: int| 0 <= j < all[i].len() ==> (#[trigger] all[i][j]).len() > 0 by {
            if i == 0 {
                assert(all[0] == first);
                assert forall|j: int| 0 <= j < first.len() implies (#[trigger] first[j]).len()
                    > 0 by {
                    assert(first[j] == tokens[j]);
                }
            } else {
                assert(all[i] == rest[i - 1]);
            }
        }
    }
}

/// The task text that the draws determine: the drawn words trimmed, the
/// empty ones left out, the rest cut into sentences.
pub fn assemble_task(words: &Vec<Vec<char>>, picks: &Vec<usize>, cutoffs: &Vec<usize>) -> (task:
    TaskText)
    requires
        picks_in_range(words@.len(), picks@),
        cutoffs_in_range(cutoffs@),
        picks.len() <= MIN_WORDS * cutoffs.len(),
    ensures
        task@ == task_of(lines_of(words@), picks@, cutoffs@),
        task.wf(),
        lengths_bounded(task@),
        task@.len() <= cutoffs.len(),
{
    let tokens = select_tokens(words, picks);
    proof {
        let all = lines_of(tokens@);
        assert forall|i: int| 0 <= i < all.len() implies (#[trigger] all[i]).len() > 0 by {
            assert(tokens[i].len() > 0);
        }
        lemma_grouped_words_present(all, cutoffs@);
    }
    split_sentences(&tokens, cutoffs)
}

/// `count` draws below `bound`.
fn draw_below(count: usize, bound: usize, base: usize) -> (draws: Vec<usize>)
    requires
        bound > 0,
        base + bound <= usize::MAX,
    ensures
        draws.len() == count,
        forall|i: int| 0 <= i < count ==> base <= #[trigger] draws[i] < base + bound,
{
    let mut draws: Vec<usize> = Vec::new();
    let mut i: usize = 0;
    while i < count
        invariant
            i <= count,
            bound > 0,
            base + bound <= usize::MAX,
            draws.len() == i,
            forall|k: int| 0 <= k < i ==> base <= #[trigger] draws[k] < base + bound,
        decreases count - i,
    {
        let drawn = random_below(bound);
        draws.push(base + drawn);
        i += 1;
    }
    draws
}

/// Whether `task` is a task text that some draws make of `words`:
/// `DRAWS` draws of a word, and cutoffs between `MIN_WORDS` and
/// `MAX_WORDS`.
pub open spec fn generated_from(task: Seq<Seq<Seq<char>>>, words: Seq<Seq<char>>) -> bool {
    exists|picks: Seq<usize>, cutoffs: Seq<usize>|
        {
            &&& picks.len() == DRAWS
            &&& picks_in_range(words.len(), picks)
            &&& cutoffs.len() == LENGTH_DRAWS
            &&& cutoffs_in_range(cutoffs)
            &&& task == #[trigger] task_of(words, picks, cutoffs)
        }
}

/// Generates a task text from `words`: `DRAWS` words drawn at random, with
/// replacement, and cut into sentences whose lengths are drawn at random
/// between `MIN_WORDS` and `MAX_WORDS`. Fails on an empty corpus, and on
/// no other.
pub fn generate_task(words: &Vec<Vec<char>>) -> (r: Result<TaskText, GenerateError>)
    ensures
        words.len() == 0 <==> r == Err::<TaskText, GenerateError>(GenerateError::EmptyCorpus),
        words.len() > 0 <==> r is Ok,
        r is Ok ==> {
            let task = r->Ok_0;
            &&& generated_from(task@, lines_of(words@))
            &&& task.wf()
            &&& lengths_bounded(task@)
            &&& task@.len() <= LENGTH_DRAWS
        },
{
    if words.len() == 0 {
        return Err(GenerateError::EmptyCorpus);
    }
    let picks = draw_below(DRAWS, words.len(), 0);
    let cutoffs = draw_below(LENGTH_DRAWS, MAX_WORDS - MIN_WORDS + 1, MIN_WORDS);
    let task = assemble_task(words, &picks, &cutoffs);
    proof {
        assert(task@ == task_of(lines_of(words@), picks@, cutoffs@));
    }
    Ok(task)
}

} // verus!
