//! Concatenation of a sequence of character sequences, and the facts about
//! prefixes, element ranges and boundary cuts that the container's proofs
//! rest on.

use vstd::prelude::*;

verus! {

/// The concatenation of an ordered sequence of character sequences, joined in
/// order with no separators.
pub open spec fn concat_all(ss: Seq<Seq<char>>) -> Seq<char>
    decreases ss.len(),
{
    if ss.len() == 0 {
        Seq::empty()
    } else {
        concat_all(ss.drop_last()) + ss.last()
    }
}

/// Extending a prefix by one element appends that element's characters.
pub proof fn lemma_concat_all_take_succ(ss: Seq<Seq<char>>, m: int)
    requires
        0 <= m < ss.len(),
    ensures
        concat_all(ss.take(m + 1)) == concat_all(ss.take(m)) + ss[m],
{
    let t = ss.take(m + 1);
    assert(t.drop_last() =~= ss.take(m));
    assert(t.last() == ss[m]);
}

/// The concatenation of a prefix of the elements is a prefix of the
/// concatenation of all of them.
pub proof fn lemma_concat_all_take_prefix(ss: Seq<Seq<char>>, m: int)
    requires
        0 <= m <= ss.len(),
    ensures
        concat_all(ss.take(m)).len() <= concat_all(ss).len(),
        concat_all(ss.take(m)) == concat_all(ss).take(concat_all(ss.take(m)).len() as int),
    decreases ss.len() - m,
{
    if m == ss.len() {
        assert(ss.take(m) =~= ss);
        assert(concat_all(ss) =~= concat_all(ss).take(concat_all(ss).len() as int));
    } else {
        lemma_concat_all_take_prefix(ss, m + 1);
        lemma_concat_all_take_succ(ss, m);
        let a = concat_all(ss.take(m));
        let b = concat_all(ss.take(m + 1));
        assert(b == a + ss[m]);
        assert(a =~= concat_all(ss).take(a.len() as int));
    }
}

/// Concatenating a longer prefix never yields fewer characters.
pub proof fn lemma_concat_all_take_len_monotone(ss: Seq<Seq<char>>, m1: int, m2: int)
    requires
        0 <= m1 <= m2 <= ss.len(),
    ensures
        concat_all(ss.take(m1)).len() <= concat_all(ss.take(m2)).len(),
{
    lemma_concat_all_take_prefix(ss.take(m2), m1);
    assert(ss.take(m2).take(m1) =~= ss.take(m1));
}

/// Within the full concatenation, element `i` occupies exactly the range
/// between the lengths of the concatenated prefixes before and after it.
pub proof fn lemma_concat_all_element_range(ss: Seq<Seq<char>>, i: int)
    requires
        0 <= i < ss.len(),
    ensures
        concat_all(ss.take(i)).len() + ss[i].len() == concat_all(ss.take(i + 1)).len(),
        concat_all(ss.take(i + 1)).len() <= concat_all(ss).len(),
        concat_all(ss).subrange(
            concat_all(ss.take(i)).len() as int,
            concat_all(ss.take(i + 1)).len() as int,
        ) == ss[i],
{
    lemma_concat_all_take_succ(ss, i);
    lemma_concat_all_take_prefix(ss, i + 1);
    let a = concat_all(ss.take(i));
    let b = concat_all(ss.take(i + 1));
    let whole = concat_all(ss);
    assert(b == a + ss[i]);
    assert(b == whole.take(b.len() as int));
    assert forall|k: int| 0 <= k < ss[i].len() implies whole[a.len() + k] == ss[i][k] by {
        assert(b[a.len() + k] == ss[i][k]);
        assert(whole.take(b.len() as int)[a.len() + k] == whole[a.len() + k]);
    }
    assert(whole.subrange(a.len() as int, b.len() as int) =~= ss[i]);
}

/// Cutting a character sequence at a non-decreasing sequence of in-bounds
/// positions and concatenating the pieces gives back the cut range whole.
pub proof fn lemma_concat_all_parts(s: Seq<char>, cuts: Seq<int>)
    requires
        cuts.len() >= 1,
        forall|i: int, j: int| 0 <= i <= j < cuts.len() ==> cuts[i] <= cuts[j],
        forall|i: int| 0 <= i < cuts.len() ==> 0 <= #[trigger] cuts[i] <= s.len(),
    ensures
        concat_all(Seq::new((cuts.len() - 1) as nat, |k: int| s.subrange(cuts[k], cuts[k + 1])))
            == s.subrange(cuts[0], cuts[cuts.len() - 1]),
    decreases cuts.len(),
{
    let parts = Seq::new((cuts.len() - 1) as nat, |k: int| s.subrange(cuts[k], cuts[k + 1]));
    if cuts.len() == 1 {
        assert(concat_all(parts) =~= s.subrange(cuts[0], cuts[0]));
    } else {
        let shorter = cuts.drop_last();
        lemma_concat_all_parts(s, shorter);
        let parts2 = Seq::new(
            (shorter.len() - 1) as nat,
            |k: int| s.subrange(shorter[k], shorter[k + 1]),
        );
        assert(parts.drop_last() =~= parts2);
        assert(parts.last() == s.subrange(cuts[cuts.len() - 2], cuts[cuts.len() - 1]));
        assert(s.subrange(shorter[0], shorter[shorter.len() - 1])
            + s.subrange(cuts[cuts.len() - 2], cuts[cuts.len() - 1])
            =~= s.subrange(cuts[0], cuts[cuts.len() - 1]));
    }
}

} // verus!
