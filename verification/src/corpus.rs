//! The corpus: a text cut into candidate words at its spaces.

use vstd::prelude::*;
use crate::text::{SPACE, lines_of, joined};

verus! {

/// The pieces of `text` between its spaces: one more than it has spaces,
/// empty ones included.
pub open spec fn pieces(text: Seq<char>) -> Seq<Seq<char>>
    decreases text.len(),
{
    if text.len() == 0 {
        seq![Seq::empty()]
    } else {
        let head = pieces(text.drop_last());
        if text.last() == SPACE {
            head.push(Seq::empty())
        } else {
            head.update(head.len() - 1, head.last().push(text.last()))
        }
    }
}

/// The pieces of a text are at least one, hold no space, and joined by
/// spaces give the text back.
pub proof fn lemma_pieces(text: Seq<char>)
    ensures
        pieces(text).len() >= 1,
        forall|i: int, j: int|
            0 <= i < pieces(text).len() && 0 <= j < pieces(text)[i].len() ==> pieces(text)[i][j]
                != SPACE,
        joined(pieces(text)) == text,
    decreases text.len(),
{
    if text.len() == 0 {
        assert(joined(pieces(text)) =~= text);
    } else {
        let head = pieces(text.drop_last());
        let all = pieces(text);
        lemma_pieces(text.drop_last());
        if text.last() == SPACE {
            assert(all.drop_last() =~= head);
            assert(joined(all) =~= text.drop_last() + seq![SPACE] + Seq::<char>::empty());
            assert(joined(all) =~= text);
        } else {
            let grown = head.last().push(text.last());
            if head.len() == 1 {
                assert(joined(head) == head[0]);
                assert(joined(all) == grown);
                assert(grown =~= text);
            } else {
                assert(all.drop_last() =~= head.drop_last());
                assert(all.last() == grown);
                assert(joined(all) =~= joined(head.drop_last()) + seq![SPACE] + head.last()
                    + seq![text.last()]);
                assert(joined(all) =~= text.drop_last() + seq![text.last()]);
                assert(joined(all) =~= text);
            }
        }
    }
}

/// Cuts `text` into candidate words at every space.
pub fn split_words(text: &Vec<char>) -> (words: Vec<Vec<char>>)
    ensures
        lines_of(words@) == pieces(text@),
        words.len() >= 1,
{
    let mut words: Vec<Vec<char>> = Vec::new();
    let mut current: Vec<char> = Vec::new();
    let mut i: usize = 0;
    assert(text@.take(0) =~= Seq::<char>::empty());
    assert(lines_of(words@).push(current@) =~= pieces(text@.take(0)));
    while i < text.len()
        invariant
            i <= text.len(),
            lines_of(words@).push(current@) == pieces(text@.take(i as int)),
        decreases text.len() - i,
    {
        let c = text[i];
        let ghost before = lines_of(words@);
        let ghost word = current@;
        proof {
            let upto = text@.take(i + 1);
            assert(upto.drop_last() =~= text@.take(i as int));
            assert(upto.last() == c);
        }
        if c == SPACE {
            words.push(current);
            current = Vec::new();
            assert(lines_of(words@).push(current@) =~= before.push(word).push(Seq::empty()));
        } else {
            current.push(c);
            assert(lines_of(words@).push(current@) =~= before.push(word).update(
                before.len() as int,
                word.push(c),
            ));
        }
        i += 1;
    }
    let ghost before = lines_of(words@);
    words.push(current);
    proof {
        assert(text@.take(text.len() as int) =~= text@);
        assert(lines_of(words@) =~= before.push(current@));
    }
    words
}

} // verus!
