//! Splitting a sequence into the lines between its separators.
use vstd::prelude::*;

verus! {

/// The runs of `s` between separators, the last one possibly empty; always at least one.
pub open spec fn pieces<T>(s: Seq<T>, sep: T) -> Seq<Seq<T>>
    decreases s.len(),
{
    if s.len() == 0 {
        seq![Seq::empty()]
    } else {
        let p = pieces(s.drop_last(), sep);
        if s.last() == sep {
            p.push(Seq::empty())
        } else {
            p.update(p.len() - 1, p.last().push(s.last()))
        }
    }
}

/// The lines of `s`: its pieces, but for an empty last one, which a final separator
/// leaves behind.
pub open spec fn split_lines<T>(s: Seq<T>, sep: T) -> Seq<Seq<T>> {
    let p = pieces(s, sep);
    if p.last().len() == 0 {
        p.drop_last()
    } else {
        p
    }
}

pub proof fn lemma_pieces_len<T>(s: Seq<T>, sep: T)
    ensures
        pieces(s, sep).len() >= 1,
    decreases s.len(),
{
    if s.len() > 0 {
        lemma_pieces_len(s.drop_last(), sep);
    }
}

/// The pieces of a concatenation: the last piece of `x` runs on into the first of `y`.
pub proof fn lemma_pieces_concat<T>(x: Seq<T>, y: Seq<T>, sep: T)
    ensures
        pieces(x + y, sep) == pieces(x, sep).drop_last() + seq![
            pieces(x, sep).last() + pieces(y, sep)[0],
        ] + pieces(y, sep).skip(1),
    decreases y.len(),
{
    lemma_pieces_len(x, sep);
    lemma_pieces_len(y, sep);
    if y.len() == 0 {
        assert(x + y =~= x);
        assert(pieces(y, sep) =~= seq![Seq::<T>::empty()]);
        assert(pieces(x, sep).last() + Seq::<T>::empty() =~= pieces(x, sep).last());
        assert(pieces(x, sep).drop_last() + seq![pieces(x, sep).last()] =~= pieces(x, sep));
        assert(pieces(y, sep).skip(1) =~= Seq::<Seq<T>>::empty());
    } else {
        let y0 = y.drop_last();
        lemma_pieces_concat(x, y0, sep);
        lemma_pieces_len(y0, sep);
        assert((x + y).drop_last() =~= x + y0);
        assert((x + y).last() == y.last());
        let px = pieces(x, sep);
        let py0 = pieces(y0, sep);
        let py = pieces(y, sep);
        if y.last() == sep {
            assert(pieces(x + y, sep) =~= px.drop_last() + seq![px.last() + py[0]] + py.skip(1));
        } else {
            if py0.len() == 1 {
                assert(px.last() + py0[0].push(y.last()) =~= (px.last() + py0[0]).push(y.last()));
            }
            assert(pieces(x + y, sep) =~= px.drop_last() + seq![px.last() + py[0]] + py.skip(1));
        }
    }
}

/// A sequence with no separator is one piece.
pub proof fn lemma_pieces_no_sep<T>(s: Seq<T>, sep: T)
    requires
        !s.contains(sep),
    ensures
        pieces(s, sep) == seq![s],
    decreases s.len(),
{
    if s.len() > 0 {
        let s0 = s.drop_last();
        assert(!s0.contains(sep)) by {
            if s0.contains(sep) {
                let j = choose|j: int| 0 <= j < s0.len() && s0[j] == sep;
                assert(s[j] == sep);
            }
        }
        lemma_pieces_no_sep(s0, sep);
        assert(s.last() != sep) by {
            assert(s[s.len() - 1] == s.last());
        }
        assert(s0.push(s.last()) =~= s);
        assert(pieces(s, sep) =~= seq![s]);
    } else {
        assert(s =~= Seq::<T>::empty());
    }
}

/// A run without separators, ended by one, is the first piece.
pub proof fn lemma_pieces_first_line<T>(line: Seq<T>, more: Seq<T>, sep: T)
    requires
        !line.contains(sep),
    ensures
        pieces(line + seq![sep] + more, sep) == seq![line] + pieces(more, sep),
        pieces(line + seq![sep], sep) == seq![line, Seq::empty()],
{
    lemma_pieces_no_sep(line, sep);
    let y = line + seq![sep];
    assert(y.drop_last() =~= line);
    assert(pieces(y, sep) =~= seq![line, Seq::empty()]);
    lemma_pieces_concat(y, more, sep);
    lemma_pieces_len(more, sep);
    assert(Seq::<T>::empty() + pieces(more, sep)[0] =~= pieces(more, sep)[0]);
    assert(pieces(y + more, sep) =~= seq![line] + pieces(more, sep));
}

} // verus!
