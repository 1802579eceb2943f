//! Mathematical vocabulary for texts: sequences of characters, and
//! sequences of such sequences.

use vstd::prelude::*;

verus! {

/// The character that separates words and that fills a skipped word.
pub const SPACE: char = ' ';

/// The views of the lines of `v`, in order.
pub open spec fn lines_of(v: Seq<Vec<char>>) -> Seq<Seq<char>> {
    Seq::new(v.len(), |i: int| v[i]@)
}

/// The number of characters in the first `n` lines of `lines`.
pub open spec fn chars_before(lines: Seq<Seq<char>>, n: nat) -> nat
    decreases n,
{
    if n == 0 {
        0
    } else {
        chars_before(lines, (n - 1) as nat) + lines[n - 1].len()
    }
}

/// The first `n` lines of `lines`, each followed by one space.
pub open spec fn flat_upto(lines: Seq<Seq<char>>, n: nat) -> Seq<char>
    decreases n,
{
    if n == 0 {
        Seq::empty()
    } else {
        flat_upto(lines, (n - 1) as nat) + lines[n - 1] + seq![SPACE]
    }
}

/// All of `lines`, each followed by one space.
pub open spec fn flat_text(lines: Seq<Seq<char>>) -> Seq<char> {
    flat_upto(lines, lines.len())
}

/// `parts` joined by single spaces.
pub open spec fn joined(parts: Seq<Seq<char>>) -> Seq<char>
    decreases parts.len(),
{
    if parts.len() == 0 {
        Seq::empty()
    } else if parts.len() == 1 {
        parts[0]
    } else {
        joined(parts.drop_last()) + seq![SPACE] + parts.last()
    }
}

/// `n` spaces.
pub open spec fn spaces(n: nat) -> Seq<char> {
    Seq::new(n, |i: int| SPACE)
}

pub proof fn lemma_flat_len(lines: Seq<Seq<char>>, n: nat)
    ensures
        flat_upto(lines, n).len() == chars_before(lines, n) + n,
    decreases n,
{
    if n > 0 {
        lemma_flat_len(lines, (n - 1) as nat);
    }
}

pub proof fn lemma_chars_before_monotonic(lines: Seq<Seq<char>>, i: nat, j: nat)
    requires
        i <= j,
    ensures
        chars_before(lines, i) <= chars_before(lines, j),
    decreases j,
{
    if i < j {
        lemma_chars_before_monotonic(lines, i, (j - 1) as nat);
    }
}

/// The flat text of the first `n` lines depends on those lines alone.
pub proof fn lemma_flat_upto_agrees(a: Seq<Seq<char>>, b: Seq<Seq<char>>, n: nat)
    requires
        n <= a.len(),
        n <= b.len(),
        forall|i: int| 0 <= i < n ==> a[i] == b[i],
    ensures
        flat_upto(a, n) == flat_upto(b, n),
    decreases n,
{
    if n > 0 {
        lemma_flat_upto_agrees(a, b, (n - 1) as nat);
    }
}

/// The flat text of two runs of lines, one after the other, is the flat
/// text of the first followed by that of the second.
pub proof fn lemma_flat_text_concat(a: Seq<Seq<char>>, b: Seq<Seq<char>>)
    ensures
        flat_text(a + b) == flat_text(a) + flat_text(b),
    decreases b.len(),
{
    if b.len() == 0 {
        assert(a + b =~= a);
        assert(flat_text(a + b) =~= flat_text(a) + flat_text(b));
    } else {
        let short = b.drop_last();
        lemma_flat_text_concat(a, short);
        lemma_flat_upto_agrees(a + b, a + short, (a.len() + b.len() - 1) as nat);
        lemma_flat_upto_agrees(b, short, (b.len() - 1) as nat);
        assert((a + b)[a.len() + b.len() - 1] == b.last());
        assert(flat_text(a + b) =~= flat_text(a) + flat_text(b));
    }
}

/// Parts joined by spaces, and one more space, are the parts each
/// followed by a space.
pub proof fn lemma_joined_then_space(parts: Seq<Seq<char>>)
    requires
        parts.len() > 0,
    ensures
        joined(parts) + seq![SPACE] == flat_text(parts),
    decreases parts.len(),
{
    if parts.len() == 1 {
        assert(flat_upto(parts, 0) =~= Seq::<char>::empty());
        assert(joined(parts) + seq![SPACE] =~= flat_text(parts));
    } else {
        let short = parts.drop_last();
        lemma_joined_then_space(short);
        lemma_flat_upto_agrees(parts, short, (parts.len() - 1) as nat);
        assert(joined(parts) + seq![SPACE] =~= (joined(short) + seq![SPACE]) + parts.last()
            + seq![SPACE]);
    }
}

/// Parts that each hold a character, at least one of them, join to a text
/// that holds a character.
pub proof fn lemma_joined_len(parts: Seq<Seq<char>>)
    requires
        forall|i: int| 0 <= i < parts.len() ==> #[trigger] parts[i].len() > 0,
    ensures
        parts.len() > 0 ==> joined(parts).len() > 0,
    decreases parts.len(),
{
    if parts.len() > 1 {
        lemma_joined_len(parts.drop_last());
    }
}

/// A copy of the characters of `line` from `from` up to `to`.
pub fn copy_chars(line: &Vec<char>, from: usize, to: usize) -> (copy: Vec<char>)
    requires
        from <= to <= line.len(),
    ensures
        copy@ == line@.subrange(from as int, to as int),
{
    let mut copy: Vec<char> = Vec::new();
    let mut i: usize = from;
    while i < to
        invariant
            from <= i <= to <= line.len(),
            copy@ == line@.subrange(from as int, i as int),
        decreases to - i,
    {
        copy.push(line[i]);
        i += 1;
        assert(copy@ =~= line@.subrange(from as int, i as int));
    }
    copy
}

/// Appends the characters of `line` to `text`.
pub fn push_chars(text: &mut Vec<char>, line: &Vec<char>)
    ensures
        final(text)@ == old(text)@ + line@,
{
    let mut j: usize = 0;
    assert(text@ =~= old(text)@ + line@.subrange(0, 0));
    while j < line.len()
        invariant
            j <= line.len(),
            text@ == old(text)@ + line@.subrange(0, j as int),
        decreases line.len() - j,
    {
        text.push(line[j]);
        j += 1;
        assert(text@ =~= old(text)@ + line@.subrange(0, j as int));
    }
    assert(line@.subrange(0, j as int) =~= line@);
}

/// The lines of `lines` from `from` up to `to`, joined by single spaces.
pub fn join_lines(lines: &Vec<Vec<char>>, from: usize, to: usize) -> (text: Vec<char>)
    requires
        from <= to <= lines.len(),
    ensures
        text@ == joined(lines_of(lines@).subrange(from as int, to as int)),
{
    let mut text: Vec<char> = Vec::new();
    let ghost all = lines_of(lines@);
    let mut i: usize = from;
    while i < to
        invariant
            from <= i <= to <= lines.len(),
            all == lines_of(lines@),
            text@ == joined(all.subrange(from as int, i as int)),
        decreases to - i,
    {
        let ghost head = text@;
        if i > from {
            text.push(SPACE);
        }
        push_chars(&mut text, &lines[i]);
        proof {
            let done = all.subrange(from as int, i as int);
            let more = all.subrange(from as int, i + 1);
            assert(more.drop_last() =~= done);
            assert(more.last() == lines[i as int]@);
            if i == from {
                assert(text@ =~= lines[i as int]@);
            } else {
                assert(text@ =~= head + seq![SPACE] + lines[i as int]@);
            }
        }
        i += 1;
    }
    text
}

} // verus!
