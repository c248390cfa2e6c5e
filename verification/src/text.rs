//! Cutting a text at a delimiter, and putting the pieces together again.

use vstd::prelude::*;

verus! {

/// The pieces of `text` between the occurrences of `delimiter`, read from
/// left to right: a delimiter opens a new, empty piece, and any other
/// character extends the last piece.
pub open spec fn split(text: Seq<char>, delimiter: char) -> Seq<Seq<char>>
    decreases text.len(),
{
    if text.len() == 0 {
        seq![Seq::<char>::empty()]
    } else {
        let before = split(text.drop_last(), delimiter);
        if text.last() == delimiter {
            before.push(Seq::<char>::empty())
        } else {
            before.drop_last().push(before.last().push(text.last()))
        }
    }
}

/// The pieces put together again, with `delimiter` between neighbours.
pub open spec fn join(pieces: Seq<Seq<char>>, delimiter: char) -> Seq<char>
    decreases pieces.len(),
{
    if pieces.len() == 0 {
        Seq::<char>::empty()
    } else if pieces.len() == 1 {
        pieces[0]
    } else {
        join(pieces.drop_last(), delimiter).push(delimiter) + pieces.last()
    }
}

/// The texts of `strings`, in order.
pub open spec fn texts(strings: Seq<String>) -> Seq<Seq<char>> {
    Seq::new(strings.len(), |i: int| strings[i]@)
}

/// Splitting gives at least one piece, no piece holds the delimiter, and the
/// pieces joined by the delimiter are the text again.
pub proof fn lemma_split_joins_back(text: Seq<char>, delimiter: char)
    ensures
        split(text, delimiter).len() >= 1,
        forall|i: int|
            0 <= i < split(text, delimiter).len() ==> !(#[trigger] split(text, delimiter)[i]).contains(
                delimiter,
            ),
        join(split(text, delimiter), delimiter) == text,
    decreases text.len(),
{
    if text.len() > 0 {
        lemma_split_joins_back(text.drop_last(), delimiter);
        let before = split(text.drop_last(), delimiter);
        let pieces = split(text, delimiter);
        if text.last() == delimiter {
            // One more piece, and it is empty.
            assert(pieces.drop_last() =~= before);
        } else {
            // The same pieces, the last of them one character longer.
            let grown = before.last().push(text.last());
            assert(!grown.contains(delimiter)) by {
                if grown.contains(delimiter) {
                    let at = choose|at: int| 0 <= at < grown.len() && grown[at] == delimiter;
                    assert(before.last()[at] == delimiter);
                }
            }
            if before.len() > 1 {
                assert(pieces.drop_last() =~= before.drop_last());
                assert(join(pieces, delimiter) =~= join(before, delimiter).push(text.last()));
            }
        }
    }
}

/// Joining pieces that hold no delimiter, and splitting what comes of it,
/// gives the pieces again: splitting undoes joining, as joining undoes
/// splitting.
pub proof fn lemma_join_splits_back(pieces: Seq<Seq<char>>, delimiter: char)
    requires
        pieces.len() >= 1,
        forall|i: int| 0 <= i < pieces.len() ==> !(#[trigger] pieces[i]).contains(delimiter),
    ensures
        split(join(pieces, delimiter), delimiter) == pieces,
    decreases join(pieces, delimiter).len(), pieces.len(),
{
    let text = join(pieces, delimiter);
    let last = pieces.last();
    if last.len() > 0 {
        // The text ends with the last character of the last piece: take that
        // character away from both.
        let shorter = pieces.drop_last().push(last.drop_last());
        assert(shorter.drop_last() =~= pieces.drop_last());
        assert(join(shorter, delimiter) =~= text.drop_last());
        assert(!last.drop_last().contains(delimiter)) by {
            if last.drop_last().contains(delimiter) {
                let at = choose|at: int|
                    0 <= at < last.drop_last().len() && last.drop_last()[at] == delimiter;
                assert(last[at] == delimiter);
            }
        }
        assert(last.last() != delimiter) by {
            assert(last[last.len() - 1] == last.last());
        }
        lemma_join_splits_back(shorter, delimiter);
        assert(shorter.last().push(text.last()) =~= last);
    } else {
        // The last piece is empty: the text is empty, or ends with the
        // delimiter that stands before that piece.
        assert(last =~= Seq::<char>::empty());
        if pieces.len() > 1 {
            assert(text.drop_last() =~= join(pieces.drop_last(), delimiter));
            lemma_join_splits_back(pieces.drop_last(), delimiter);
        }
    }
}

/// Cuts `text` at each occurrence of `delimiter`.
pub fn split_text(text: &str, delimiter: char) -> (pieces: Vec<String>)
    ensures
        texts(pieces@) == split(text@, delimiter),
{
    let total = text.unicode_len();
    let mut pieces: Vec<String> = Vec::new();
    let mut start: usize = 0;
    let mut at: usize = 0;
    assert(text@.take(0) =~= Seq::<char>::empty());
    for c in it: text.chars()
        invariant
            it.seq() == text@,
            total == text@.len(),
            at == it.index(),
            start <= at <= total,
            split(text@.take(at as int), delimiter) == texts(pieces@).push(
                text@.subrange(start as int, at as int),
            ),
    {
        assert(text@.take(at + 1).drop_last() =~= text@.take(at as int));
        if c == delimiter {
            pieces.push(text.substring_char(start, at).to_owned());
            start = at + 1;
            assert(text@.subrange(at + 1, at + 1) =~= Seq::<char>::empty());
        } else {
            assert(text@.subrange(start as int, at as int).push(c) =~= text@.subrange(
                start as int,
                at + 1,
            ));
        }
        at += 1;
    }
    assert(text@.take(total as int) =~= text@);
    pieces.push(text.substring_char(start, at).to_owned());
    pieces
}

} // verus!
