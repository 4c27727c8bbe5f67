//! Splitting a sequence at a separator and joining it back.

use vstd::prelude::*;

verus! {

/// The pieces of `s` between occurrences of `sep`, in order: one more than
/// the separators.
pub open spec fn split_seq<A>(s: Seq<A>, sep: A) -> Seq<Seq<A>>
    decreases s.len(),
{
    if s.len() == 0 {
        seq![Seq::empty()]
    } else {
        let head = split_seq(s.drop_last(), sep);
        if s.last() == sep {
            head.push(Seq::empty())
        } else {
            head.update(head.len() - 1, head.last().push(s.last()))
        }
    }
}

/// The pieces `toks` with `sep` between each two.
pub open spec fn join_seq<A>(toks: Seq<Seq<A>>, sep: A) -> Seq<A>
    decreases toks.len(),
{
    if toks.len() <= 1 {
        if toks.len() == 0 {
            Seq::empty()
        } else {
            toks[0]
        }
    } else {
        join_seq(toks.drop_last(), sep).push(sep) + toks.last()
    }
}

/// The lines `lines`, each ended by `nl`.
pub open spec fn text_of_lines<A>(lines: Seq<Seq<A>>, nl: A) -> Seq<A> {
    join_seq(lines.push(Seq::empty()), nl)
}

pub open spec fn free_of<A>(s: Seq<A>, sep: A) -> bool {
    forall|i: int| 0 <= i < s.len() ==> s[i] != sep
}

pub proof fn lemma_split_nonempty<A>(s: Seq<A>, sep: A)
    ensures
        split_seq(s, sep).len() >= 1,
    decreases s.len(),
{
    if s.len() > 0 {
        lemma_split_nonempty(s.drop_last(), sep);
    }
}

/// Appending text free of the separator extends the last piece.
pub proof fn lemma_split_append_free<A>(x: Seq<A>, b: Seq<A>, sep: A)
    requires
        free_of(b, sep),
    ensures
        split_seq(x + b, sep) == split_seq(x, sep).update(
            split_seq(x, sep).len() - 1,
            split_seq(x, sep).last() + b,
        ),
    decreases b.len(),
{
    lemma_split_nonempty(x, sep);
    if b.len() == 0 {
        assert(x + b =~= x);
        assert(split_seq(x, sep).last() + b =~= split_seq(x, sep).last());
        assert(split_seq(x, sep).update(split_seq(x, sep).len() - 1, split_seq(x, sep).last())
            =~= split_seq(x, sep));
    } else {
        let b0 = b.drop_last();
        assert(free_of(b0, sep));
        lemma_split_append_free(x, b0, sep);
        assert((x + b).drop_last() =~= x + b0);
        assert((x + b).last() == b.last());
        lemma_split_nonempty(x + b0, sep);
        assert(split_seq(x, sep).last() + b =~= (split_seq(x, sep).last() + b0).push(b.last()));
        assert(split_seq(x + b, sep) =~= split_seq(x, sep).update(
            split_seq(x, sep).len() - 1,
            split_seq(x, sep).last() + b,
        ));
    }
}

/// Splitting pieces joined by a separator that none of them holds gives
/// the pieces back.
pub proof fn lemma_split_join<A>(toks: Seq<Seq<A>>, sep: A)
    requires
        toks.len() >= 1,
        forall|i: int| 0 <= i < toks.len() ==> free_of(#[trigger] toks[i], sep),
    ensures
        split_seq(join_seq(toks, sep), sep) == toks,
    decreases toks.len(),
{
    if toks.len() == 1 {
        assert(free_of(toks[0], sep));
        lemma_split_append_free(Seq::empty(), toks[0], sep);
        assert(Seq::<A>::empty() + toks[0] =~= toks[0]);
        assert(split_seq(Seq::<A>::empty(), sep) == seq![Seq::<A>::empty()]);
        assert(Seq::<A>::empty() + toks[0] =~= toks[0]);
        assert(split_seq(toks[0], sep) =~= toks);
    } else {
        let init = toks.drop_last();
        assert forall|i: int| 0 <= i < init.len() implies free_of(#[trigger] init[i], sep) by {
            assert(init[i] == toks[i]);
        }
        lemma_split_join(init, sep);
        let x = join_seq(init, sep).push(sep);
        assert(x.drop_last() =~= join_seq(init, sep));
        assert(split_seq(x, sep) == init.push(Seq::empty()));
        assert(free_of(toks.last(), sep));
        lemma_split_append_free(x, toks.last(), sep);
        assert(Seq::<A>::empty() + toks.last() =~= toks.last());
        assert(split_seq(join_seq(toks, sep), sep) =~= toks);
    }
}

/// Adding a line to a text of lines appends it with its terminator.
pub proof fn lemma_text_of_lines_push<A>(lines: Seq<Seq<A>>, line: Seq<A>, nl: A)
    ensures
        text_of_lines(lines.push(line), nl) == text_of_lines(lines, nl) + line.push(nl),
{
    let e = Seq::<A>::empty();
    assert(lines.push(line).push(e).drop_last() =~= lines.push(line));
    assert(lines.push(line).drop_last() =~= lines);
    assert(text_of_lines(lines.push(line), nl) == join_seq(lines.push(line), nl).push(nl) + e);
    assert(join_seq(lines.push(line), nl).push(nl) + e =~= join_seq(lines.push(line), nl).push(nl));
    if lines.len() == 0 {
        assert(lines.push(e) =~= seq![e]);
        assert(text_of_lines(lines, nl) =~= e);
        assert(join_seq(lines.push(line), nl) == line);
    } else {
        assert(lines.push(e).drop_last() =~= lines);
        assert(text_of_lines(lines, nl) =~= join_seq(lines, nl).push(nl));
        assert(join_seq(lines.push(line), nl) == join_seq(lines, nl).push(nl) + line);
    }
    assert(text_of_lines(lines.push(line), nl) =~= text_of_lines(lines, nl) + line.push(nl));
}

} // verus!
