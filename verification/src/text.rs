//! Splitting plain text runs into lines on the line-break character, and
//! the simplified flavor-text pipeline that keeps only non-empty lines.

use vstd::prelude::*;

verus! {

/// The character-sequence views of a sequence of strings, in order.
pub open spec fn strings_model(ss: Seq<String>) -> Seq<Seq<char>> {
    Seq::new(ss.len(), |i: int| ss[i]@)
}

/// The pieces of `s` split on the line-break character: one more piece
/// than there are breaks, and every piece free of breaks.
pub open spec fn split_lines_model(s: Seq<char>) -> Seq<Seq<char>>
    decreases s.len(),
{
    if s.len() == 0 {
        seq![Seq::<char>::empty()]
    } else if s[0] == '\n' {
        seq![Seq::<char>::empty()] + split_lines_model(s.drop_first())
    } else {
        let rest = split_lines_model(s.drop_first());
        seq![seq![s[0]] + rest[0]] + rest.drop_first()
    }
}

/// The lines among `ls` that are not empty, in order.
pub open spec fn nonempty_lines_model(ls: Seq<Seq<char>>) -> Seq<Seq<char>>
    decreases ls.len(),
{
    if ls.len() == 0 {
        Seq::empty()
    } else if ls.last().len() == 0 {
        nonempty_lines_model(ls.drop_last())
    } else {
        nonempty_lines_model(ls.drop_last()).push(ls.last())
    }
}

pub proof fn lemma_strings_model_push(ss: Seq<String>, x: String)
    ensures
        strings_model(ss.push(x)) == strings_model(ss).push(x@),
{
    assert(strings_model(ss.push(x)) =~= strings_model(ss).push(x@));
}

/// The text with every line-break character removed.
pub open spec fn sans_breaks(s: Seq<char>) -> Seq<char>
    decreases s.len(),
{
    if s.len() == 0 {
        Seq::empty()
    } else if s[0] == '\n' {
        sans_breaks(s.drop_first())
    } else {
        seq![s[0]] + sans_breaks(s.drop_first())
    }
}

/// The characters of a sequence of lines, in order.
pub open spec fn lines_text(ls: Seq<Seq<char>>) -> Seq<char>
    decreases ls.len(),
{
    if ls.len() == 0 {
        Seq::empty()
    } else {
        ls[0] + lines_text(ls.drop_first())
    }
}

/// Splitting loses exactly the break characters: the pieces joined back
/// together are the text with its breaks removed.
pub proof fn lemma_split_lines_text(s: Seq<char>)
    ensures
        lines_text(split_lines_model(s)) == sans_breaks(s),
    decreases s.len(),
{
    if s.len() == 0 {
        let whole = seq![Seq::<char>::empty()];
        assert(whole.len() == 1);
        assert(whole[0] =~= Seq::<char>::empty());
        assert(whole.drop_first() =~= Seq::<Seq<char>>::empty());
        assert(lines_text(whole.drop_first()) == Seq::<char>::empty());
        assert(lines_text(whole) =~= Seq::<char>::empty());
    } else if s[0] == '\n' {
        lemma_split_lines_text(s.drop_first());
        let tail = split_lines_model(s.drop_first());
        let whole = seq![Seq::<char>::empty()] + tail;
        assert(whole[0] =~= Seq::<char>::empty());
        assert(whole.drop_first() =~= tail);
        assert(lines_text(whole) =~= lines_text(tail));
    } else {
        lemma_split_lines_text(s.drop_first());
        lemma_split_lines_pieces(s.drop_first());
        let rest = split_lines_model(s.drop_first());
        let first = seq![s[0]] + rest[0];
        let whole = seq![first] + rest.drop_first();
        assert(whole[0] == first);
        assert(whole.drop_first() =~= rest.drop_first());
        assert(lines_text(rest) == rest[0] + lines_text(rest.drop_first()));
        assert(lines_text(whole) == first + lines_text(rest.drop_first()));
        assert(first + lines_text(rest.drop_first()) =~= seq![s[0]] + (rest[0] + lines_text(
            rest.drop_first(),
        )));
        assert(lines_text(split_lines_model(s)) =~= sans_breaks(s));
    }
}

/// Splitting always yields at least one piece, and no piece holds a break.
pub proof fn lemma_split_lines_pieces(s: Seq<char>)
    ensures
        split_lines_model(s).len() >= 1,
        forall|i: int| 0 <= i < split_lines_model(s).len() ==> !(#[trigger] split_lines_model(
            s,
        )[i]).contains('\n'),
    decreases s.len(),
{
    if s.len() == 0 {
        assert forall|i: int| 0 <= i < split_lines_model(s).len() implies !(
        #[trigger] split_lines_model(s)[i]).contains('\n') by {
            assert(split_lines_model(s)[i] =~= Seq::<char>::empty());
        }
    } else {
        lemma_split_lines_pieces(s.drop_first());
        let rest = split_lines_model(s.drop_first());
        if s[0] == '\n' {
            assert forall|i: int| 0 <= i < split_lines_model(s).len() implies !(
            #[trigger] split_lines_model(s)[i]).contains('\n') by {
                if i == 0 {
                    assert(split_lines_model(s)[0] =~= Seq::<char>::empty());
                } else {
                    assert(split_lines_model(s)[i] == rest[i - 1]);
                }
            }
        } else {
            assert forall|i: int| 0 <= i < split_lines_model(s).len() implies !(
            #[trigger] split_lines_model(s)[i]).contains('\n') by {
                if i == 0 {
                    let first = seq![s[0]] + rest[0];
                    assert(!rest[0].contains('\n'));
                    if first.contains('\n') {
                        let j = choose|j: int| 0 <= j < first.len() && first[j] == '\n';
                        assert(j > 0);
                        assert(rest[0][j - 1] == '\n');
                    }
                } else {
                    assert(split_lines_model(s)[i] == rest[i]);
                }
            }
        }
    }
}

/// A text without a break splits into exactly itself.
pub proof fn lemma_split_no_break(s: Seq<char>)
    requires
        !s.contains('\n'),
    ensures
        split_lines_model(s) == seq![s],
    decreases s.len(),
{
    if s.len() == 0 {
        assert(s =~= Seq::<char>::empty());
    } else {
        assert(s[0] != '\n');
        assert(!s.drop_first().contains('\n')) by {
            if s.drop_first().contains('\n') {
                let j = choose|j: int|
                    0 <= j < s.drop_first().len() && s.drop_first()[j] == '\n';
                assert(s[j + 1] == '\n');
            }
        }
        lemma_split_no_break(s.drop_first());
        let rest = split_lines_model(s.drop_first());
        assert(rest[0] == s.drop_first());
        assert(rest.drop_first() =~= Seq::<Seq<char>>::empty());
        assert(seq![s[0]] + s.drop_first() =~= s);
        assert(split_lines_model(s) =~= seq![s]);
    }
}

/// Splitting at the first break: the break-free prefix is the first piece,
/// and the rest of the pieces are the split of what follows the break.
pub proof fn lemma_split_at_first_break(s: Seq<char>, k: int)
    requires
        0 <= k < s.len(),
        s[k] == '\n',
        forall|j: int| 0 <= j < k ==> s[j] != '\n',
    ensures
        split_lines_model(s) == seq![s.take(k)] + split_lines_model(s.skip(k + 1)),
    decreases k,
{
    if k == 0 {
        assert(s.take(0) =~= Seq::<char>::empty());
        assert(s.skip(1) =~= s.drop_first());
        assert(split_lines_model(s) =~= seq![s.take(0)] + split_lines_model(s.skip(1)));
    } else {
        assert(s[0] != '\n');
        let d = s.drop_first();
        assert(d[k - 1] == '\n');
        assert(forall|j: int| 0 <= j < k - 1 ==> d[j] == s[j + 1] && s[j + 1] != '\n');
        lemma_split_at_first_break(d, k - 1);
        let rest = split_lines_model(d);
        assert(rest[0] == d.take(k - 1));
        assert(rest.drop_first() =~= split_lines_model(d.skip(k)));
        assert(d.skip(k) =~= s.skip(k + 1));
        assert(seq![s[0]] + d.take(k - 1) =~= s.take(k));
        assert(split_lines_model(s) =~= seq![s.take(k)] + split_lines_model(s.skip(k + 1)));
    }
}

/// Splits a text into its lines on the line-break character. The last
/// piece is kept even when it is empty, as the model demands.
pub fn split_lines(text: &str) -> (lines: Vec<String>)
    ensures
        strings_model(lines@) == split_lines_model(text@),
        lines@.len() >= 1,
{
    let n = text.unicode_len();
    let mut lines: Vec<String> = Vec::new();
    let mut start: usize = 0;
    let mut i: usize = 0;
    proof {
        assert(text@.skip(0) =~= text@);
        assert(strings_model(lines@) + split_lines_model(text@) =~= split_lines_model(text@));
    }
    while i < n
        invariant
            0 <= start as int <= i as int <= n as int,
            n == text@.len(),
            split_lines_model(text@) == strings_model(lines@) + split_lines_model(
                text@.skip(start as int),
            ),
            forall|j: int| start as int <= j < i as int ==> text@[j] != '\n',
        decreases n - i,
    {
        let c = text.get_char(i);
        if c == '\n' {
            let piece = text.substring_char(start, i);
            let owned = piece.to_owned();
            proof {
                let suffix = text@.skip(start as int);
                assert(suffix[i - start] == '\n');
                assert(forall|j: int| 0 <= j < i - start ==> suffix[j] == text@[j + start]
                    && suffix[j] != '\n');
                lemma_split_at_first_break(suffix, i - start);
                assert(suffix.take(i - start) =~= text@.subrange(start as int, i as int));
                assert(suffix.skip(i - start + 1) =~= text@.skip(i + 1));
                lemma_strings_model_push(lines@, owned);
                assert(strings_model(lines@.push(owned)) + split_lines_model(text@.skip(i + 1))
                    =~= strings_model(lines@) + split_lines_model(text@.skip(start as int)));
            }
            lines.push(owned);
            start = i + 1;
        }
        i = i + 1;
    }
    let piece = text.substring_char(start, n);
    let owned = piece.to_owned();
    proof {
        let suffix = text@.skip(start as int);
        assert(!suffix.contains('\n')) by {
            if suffix.contains('\n') {
                let j = choose|j: int| 0 <= j < suffix.len() && suffix[j] == '\n';
                assert(text@[j + start] == '\n');
            }
        }
        lemma_split_no_break(suffix);
        assert(suffix =~= text@.subrange(start as int, n as int));
        lemma_strings_model_push(lines@, owned);
        assert(strings_model(lines@.push(owned)) =~= strings_model(lines@) + seq![suffix]);
    }
    lines.push(owned);
    lines
}

/// The flavor-text pipeline: split on the line-break character and keep
/// each non-empty line as its own paragraph of plain text.
pub fn flavor_paragraphs(text: &str) -> (r: Vec<String>)
    ensures
        strings_model(r@) == nonempty_lines_model(split_lines_model(text@)),
{
    let mut lines = split_lines(text);
    let ghost all = strings_model(lines@);
    let mut r: Vec<String> = Vec::new();
    let ghost mut k: int = 0;
    while lines.len() > 0
        invariant
            0 <= k <= all.len(),
            strings_model(lines@) =~= all.skip(k),
            strings_model(r@) == nonempty_lines_model(all.take(k)),
        decreases lines.len(),
    {
        let ghost prev = lines@;
        let l = lines.remove(0);
        proof {
            assert(k < all.len()) by {
                assert(all.skip(k).len() == all.len() - k);
            }
            assert(all.take(k + 1).drop_last() =~= all.take(k));
            assert(all.take(k + 1).last() == all[k]);
            assert(strings_model(prev) == all.skip(k));
            assert(strings_model(prev)[0] == prev[0]@);
            assert(all.skip(k)[0] == all[k]);
            assert(l@ == all[k]);
            assert(lines@ =~= prev.drop_first());
            assert(strings_model(prev).len() == prev.len());
            assert(all.skip(k).len() == all.len() - k);
            assert(prev.len() == all.len() - k);
            assert(lines@.len() == all.len() - k - 1);
            assert forall|j: int| 0 <= j < lines@.len() implies #[trigger] strings_model(
                lines@,
            )[j] == all.skip(k + 1)[j] by {
                assert(strings_model(lines@)[j] == prev[j + 1]@);
                assert(strings_model(prev)[j + 1] == prev[j + 1]@);
                vstd::seq_lib::lemma_seq_skip_index(all, k, j + 1);
                vstd::seq_lib::lemma_seq_skip_index(all, k + 1, j);
                assert(all.skip(k)[j + 1] == all[k + 1 + j]);
                assert(all.skip(k + 1)[j] == all[k + 1 + j]);
            }
            assert(strings_model(lines@) =~= all.skip(k + 1));
        }
        if !l.as_str().is_empty() {
            proof {
                lemma_strings_model_push(r@, l);
            }
            r.push(l);
        }
        proof {
            k = k + 1;
        }
    }
    proof {
        assert(all.take(k) =~= all);
    }
    r
}

} // verus!
