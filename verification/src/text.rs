//! Byte-level text handling: blanks and separators.

use vstd::prelude::*;

verus! {

/// `,`, which separates the fields of a chart.
pub const COMMA: u8 = 0x2c;

/// `:`, which separates the parts of a field.
pub const COLON: u8 = 0x3a;

/// `.`, the decimal point.
pub const DOT: u8 = 0x2e;

/// The bytes that count as white space: space, tab, line feed, form feed and
/// carriage return.
pub open spec fn is_blank(b: u8) -> bool {
    b == 0x20 || b == 0x09 || b == 0x0a || b == 0x0c || b == 0x0d
}

/// `s` with every blank byte left out, the others in their order.
pub open spec fn without_blanks(s: Seq<u8>) -> Seq<u8>
    decreases s.len(),
{
    if s.len() == 0 {
        Seq::empty()
    } else if is_blank(s.last()) {
        without_blanks(s.drop_last())
    } else {
        without_blanks(s.drop_last()).push(s.last())
    }
}

/// The pieces of `s` between occurrences of `sep`, in order. There is always
/// one piece more than there are separators, so the pieces of an empty text
/// are one empty piece, and a separator at either end gives an empty piece
/// there.
pub open spec fn split_on(s: Seq<u8>, sep: u8) -> Seq<Seq<u8>>
    decreases s.len(),
{
    if s.len() == 0 {
        seq![Seq::empty()]
    } else {
        let before = split_on(s.drop_last(), sep);
        if s.last() == sep {
            before.push(Seq::empty())
        } else {
            before.drop_last().push(before.last().push(s.last()))
        }
    }
}

/// The pieces joined again, with `sep` between neighbours.
pub open spec fn join_with(pieces: Seq<Seq<u8>>, sep: u8) -> Seq<u8>
    decreases pieces.len(),
{
    if pieces.len() == 0 {
        Seq::empty()
    } else if pieces.len() == 1 {
        pieces[0]
    } else {
        join_with(pieces.drop_last(), sep).push(sep) + pieces.last()
    }
}

/// The views of the vectors in `pieces`.
pub open spec fn views(pieces: Seq<Vec<u8>>) -> Seq<Seq<u8>> {
    Seq::new(pieces.len(), |i: int| pieces[i]@)
}

/// Splitting loses nothing and leaves no separator behind: no piece holds
/// `sep`, and the pieces joined with `sep` are `s` again.
pub proof fn lemma_split_join(s: Seq<u8>, sep: u8)
    ensures
        split_on(s, sep).len() >= 1,
        forall|i: int, j: int|
            0 <= i < split_on(s, sep).len() && 0 <= j < split_on(s, sep)[i].len()
                ==> split_on(s, sep)[i][j] != sep,
        join_with(split_on(s, sep), sep) == s,
    decreases s.len(),
{
    if s.len() > 0 {
        let front = s.drop_last();
        let before = split_on(front, sep);
        lemma_split_join(front, sep);
        if s.last() == sep {
            let now = before.push(Seq::empty());
            assert(now.drop_last() == before);
            assert(join_with(now, sep) == front.push(sep) + Seq::<u8>::empty());
            assert(front.push(sep) + Seq::<u8>::empty() == s);
        } else {
            let grown = before.last().push(s.last());
            let now = before.drop_last().push(grown);
            assert(now.drop_last() == before.drop_last());
            if before.len() == 1 {
                assert(before[0] == front);
                assert(grown == s);
            } else {
                let base = join_with(before.drop_last(), sep).push(sep);
                assert(base + before.last() == front);
                assert(base + grown == (base + before.last()).push(s.last()));
                assert(front.push(s.last()) == s);
            }
        }
    }
}

/// A text that holds no separator is one piece.
pub proof fn lemma_split_whole(s: Seq<u8>, sep: u8)
    requires
        forall|i: int| 0 <= i < s.len() ==> s[i] != sep,
    ensures
        split_on(s, sep) == seq![s],
    decreases s.len(),
{
    if s.len() > 0 {
        let front = s.drop_last();
        lemma_split_whole(front, sep);
        assert(split_on(front, sep).last().push(s.last()) == s);
    } else {
        assert(s == Seq::<u8>::empty());
    }
}

/// What is left holds no blank, and a text without blanks is left as it is.
pub proof fn lemma_without_blanks(s: Seq<u8>)
    ensures
        forall|i: int|
            0 <= i < without_blanks(s).len() ==> !is_blank(#[trigger] without_blanks(s)[i]),
        without_blanks(s).len() <= s.len(),
        (forall|i: int| 0 <= i < s.len() ==> !is_blank(#[trigger] s[i])) ==> without_blanks(s)
            == s,
    decreases s.len(),
{
    if s.len() > 0 {
        let front = s.drop_last();
        lemma_without_blanks(front);
        if forall|i: int| 0 <= i < s.len() ==> !is_blank(#[trigger] s[i]) {
            assert forall|i: int| 0 <= i < front.len() implies !is_blank(#[trigger] front[i]) by {
                assert(front[i] == s[i]);
            }
            assert(!is_blank(s[s.len() - 1]));
            assert(without_blanks(s) == s);
        }
    }
}

/// Tells whether `b` is white space.
pub fn blank(b: u8) -> (r: bool)
    ensures
        r == is_blank(b),
{
    b == 0x20 || b == 0x09 || b == 0x0a || b == 0x0c || b == 0x0d
}

/// Copies `s` without its blank bytes.
pub fn strip_blanks(s: &[u8]) -> (out: Vec<u8>)
    ensures
        out@ == without_blanks(s@),
{
    let mut out: Vec<u8> = Vec::new();
    let mut i: usize = 0;
    while i < s.len()
        invariant
            i <= s.len(),
            out@ == without_blanks(s@.take(i as int)),
        decreases s.len() - i,
    {
        assert(s@.take(i + 1).drop_last() == s@.take(i as int));
        if !blank(s[i]) {
            out.push(s[i]);
        }
        i += 1;
    }
    assert(s@.take(i as int) == s@);
    out
}

/// Cuts `s` at every `sep`.
pub fn split(s: &[u8], sep: u8) -> (pieces: Vec<Vec<u8>>)
    ensures
        views(pieces@) == split_on(s@, sep),
        pieces.len() >= 1,
{
    let mut pieces: Vec<Vec<u8>> = Vec::new();
    let mut current: Vec<u8> = Vec::new();
    let mut i: usize = 0;
    while i < s.len()
        invariant
            i <= s.len(),
            views(pieces@).push(current@) == split_on(s@.take(i as int), sep),
        decreases s.len() - i,
    {
        let ghost before = split_on(s@.take(i as int), sep);
        assert(s@.take(i + 1).drop_last() == s@.take(i as int));
        assert(before.drop_last() == views(pieces@));
        assert(before.last() == current@);
        if s[i] == sep {
            pieces.push(current);
            current = Vec::new();
            assert(views(pieces@) == before);
        } else {
            current.push(s[i]);
        }
        i += 1;
    }
    assert(s@.take(i as int) == s@);
    let ghost shown = views(pieces@);
    pieces.push(current);
    assert(views(pieces@) == shown.push(current@));
    pieces
}

} // verus!
