//! The compact string array: one shared character buffer holding every
//! element in order, plus a boundary-offset array, with positional lookup,
//! iteration, equality and round-trip conversion to a plain vector of
//! strings.

use vstd::prelude::*;
use vstd::std_specs::cmp::PartialEqSpec;
use vstd::string::StrSliceExecFns;
use vstd::string::StringExecFns;

use crate::concat::concat_all;
use crate::concat::lemma_concat_all_element_range;
use crate::concat::lemma_concat_all_parts;
use crate::concat::lemma_concat_all_take_len_monotone;
use crate::concat::lemma_concat_all_take_succ;

verus! {

/// An ordered sequence of strings packed into one contiguous buffer.
///
/// `data` holds the characters of every element concatenated in order with
/// no separators; `indices` holds, for every element but the first, the
/// offset in `data` at which that element begins. The abstract value (the
/// view) is the sequence of the elements' character sequences; by the length
/// formula `indices.len() + 1` it always holds at least one, possibly empty,
/// element.
pub struct DenseStrings {
    data: String,
    indices: Vec<usize>,
}

impl View for DenseStrings {
    type V = Seq<Seq<char>>;

    /// The elements, each as the characters of its slice of the buffer.
    closed spec fn view(&self) -> Seq<Seq<char>> {
        Seq::new(self.spec_len(), |i: int| self.data@.subrange(self.cut(i), self.cut(i + 1)))
    }
}

impl DenseStrings {
    /// The number of elements: one more than the number of recorded
    /// boundaries.
    closed spec fn spec_len(&self) -> nat {
        self.indices@.len() + 1
    }

    /// The offset in `data` at which element `i` begins; one position past
    /// the last element it is the buffer's length, so that element `i` ends
    /// at `cut(i + 1)`.
    closed spec fn cut(&self, i: int) -> int {
        if i <= 0 {
            0
        } else if i <= self.indices@.len() {
            self.indices@[i - 1] as int
        } else {
            self.data@.len() as int
        }
    }

    /// The boundaries are non-decreasing and never point past the end of the
    /// buffer; their count stays below `usize::MAX` so that the element
    /// count itself fits in a `usize`.
    #[verifier::type_invariant]
    closed spec fn wf(&self) -> bool {
        &&& self.indices@.len() < usize::MAX
        &&& forall|i: int, j: int|
            0 <= i <= j < self.indices@.len() ==> self.indices@[i] <= self.indices@[j]
        &&& forall|i: int|
            0 <= i < self.indices@.len() ==> #[trigger] self.indices@[i] as int
                <= self.data@.len()
    }

    /// The cut positions inherit monotonicity and bounds from `wf`.
    proof fn lemma_cut_bounds(&self)
        requires
            self.wf(),
        ensures
            forall|i: int, j: int| i <= j ==> #[trigger] self.cut(i) <= #[trigger] self.cut(j),
            forall|i: int| 0 <= #[trigger] self.cut(i) <= self.data@.len(),
    {
    }

    /// The buffer holds exactly the concatenation of the elements.
    proof fn lemma_data_is_concat(&self)
        requires
            self.wf(),
        ensures
            concat_all(self@) == self.data@,
    {
        self.lemma_cut_bounds();
        let cuts = Seq::new(self.spec_len() + 1, |i: int| self.cut(i));
        lemma_concat_all_parts(self.data@, cuts);
        assert(Seq::new(
            (cuts.len() - 1) as nat,
            |k: int| self.data@.subrange(cuts[k], cuts[k + 1]),
        ) =~= self@);
        assert(self.data@.subrange(cuts[0], cuts[cuts.len() - 1]) =~= self.data@);
    }

    /// Builds the array from an ordered sequence of strings: the characters
    /// of every input, in order, go into one buffer, and for every input but
    /// the first the buffer length right before it is recorded as its
    /// boundary. An empty input sequence still yields one empty element,
    /// since the element count is always one more than the boundary count.
    pub fn new(strings: &Vec<String>) -> (r: Self)
        ensures
            strings@.len() > 0 ==> r@ == strings.deep_view(),
            strings@.len() == 0 ==> r@ == seq![Seq::<char>::empty()],
    {
        let ghost views: Seq<Seq<char>> = strings.deep_view();
        let mut data = String::new();
        let mut indices: Vec<usize> = Vec::new();
        let mut j: usize = 0;
        proof {
            assert(views.take(0) =~= Seq::<Seq<char>>::empty());
        }
        while j < strings.len()
            invariant
                j <= strings@.len(),
                views == strings.deep_view(),
                views.len() == strings@.len(),
                data@ == concat_all(views.take(j as int)),
                indices@.len() == (if j == 0 { 0int } else { j as int - 1 }),
                forall|k: int|
                    0 <= k < indices@.len() ==> #[trigger] indices@[k] as int == concat_all(
                        views.take(k + 1),
                    ).len(),
            decreases strings@.len() - j,
        {
            if j != 0 {
                let boundary: usize = data.unicode_len();
                indices.push(boundary);
            }
            data.append(strings[j].as_str());
            proof {
                assert(views[j as int] == strings@[j as int]@);
                lemma_concat_all_take_succ(views, j as int);
            }
            j = j + 1;
        }
        proof {
            assert(views.take(views.len() as int) =~= views);
            assert forall|a: int, b: int|
                0 <= a <= b < indices@.len() implies indices@[a] <= indices@[b] by {
                lemma_concat_all_take_len_monotone(views, a + 1, b + 1);
            }
            assert forall|a: int|
                0 <= a < indices@.len() implies #[trigger] indices@[a] as int
                <= data@.len() by {
                lemma_concat_all_take_len_monotone(views, a + 1, views.len() as int);
            }
        }
        let r = DenseStrings { data, indices };
        proof {
            if views.len() > 0 {
                assert forall|i: int| 0 <= i < views.len() implies r@[i] == views[i] by {
                    lemma_concat_all_element_range(views, i);
                    assert(views.take(0) =~= Seq::<Seq<char>>::empty());
                    assert(r.cut(i) == concat_all(views.take(i)).len());
                    assert(r.cut(i + 1) == concat_all(views.take(i + 1)).len());
                }
                assert(r@ =~= views);
            } else {
                assert(views.take(0) =~= Seq::<Seq<char>>::empty());
                assert(r.data@.len() == 0);
                assert(r@[0] =~= Seq::<char>::empty());
                assert(r@ =~= seq![Seq::<char>::empty()]);
            }
        }
        r
    }

    /// The number of elements; always at least one.
    pub fn len(&self) -> (n: usize)
        ensures
            n as int == self@.len(),
            n >= 1,
    {
        proof {
            use_type_invariant(self);
        }
        self.indices.len() + 1
    }

    /// The offsets in the buffer at which element `i` starts and ends, or
    /// nothing when the position is past the last element. Start and end
    /// are looked up independently, each special-casing its edge: the first
    /// element starts at zero, the last one ends at the buffer's length.
    fn get_char_range(&self, i: usize) -> (r: Option<(usize, usize)>)
        ensures
            (i as int) < self@.len() ==> {
                &&& r is Some
                &&& r->Some_0.0 as int == self.cut(i as int)
                &&& r->Some_0.1 as int == self.cut(i as int + 1)
            },
            (i as int) >= self@.len() ==> r is None,
    {
        proof {
            use_type_invariant(self);
            self.lemma_cut_bounds();
        }
        let n = self.indices.len();
        if i > n {
            return None;
        }
        let start: usize = if i == 0 {
            0
        } else {
            self.indices[i - 1]
        };
        let end: usize = if i == n {
            self.data.unicode_len()
        } else {
            self.indices[i]
        };
        Some((start, end))
    }

    /// Positional lookup: the element at position `i` as a borrowed view
    /// into the shared buffer, or nothing when `i` is past the last element.
    pub fn get<'a>(&'a self, i: usize) -> (r: Option<&'a str>)
        ensures
            (i as int) < self@.len() ==> r is Some && r->Some_0@ == self@[i as int],
            (i as int) >= self@.len() ==> r is None,
    {
        proof {
            use_type_invariant(self);
            self.lemma_cut_bounds();
        }
        match self.get_char_range(i) {
            None => None,
            Some((start, end)) => Some(self.data.as_str().substring_char(start, end)),
        }
    }

    /// Positional access for callers that already know the position is
    /// valid: an out-of-range position here is a caller error, ruled out by
    /// the precondition, not a recoverable outcome.
    pub fn index<'a>(&'a self, i: usize) -> (r: &'a str)
        requires
            (i as int) < self@.len(),
        ensures
            r@ == self@[i as int],
    {
        match self.get(i) {
            Some(s) => s,
            None => vstd::pervasive::unreached(),
        }
    }

    /// The whole buffer as one string view: every element in order with no
    /// separators.
    pub fn full_str<'a>(&'a self) -> (r: &'a str)
        ensures
            r@ == concat_all(self@),
    {
        proof {
            use_type_invariant(self);
            self.lemma_data_is_concat();
        }
        self.data.as_str()
    }

    /// A fresh iterator over the elements, starting at the first position.
    pub fn iter<'a>(&'a self) -> (it: DenseStringVecIter<'a>)
        ensures
            it.elements() == self@,
            it.pos() == 0,
    {
        DenseStringVecIter { vec: self, i: 0 }
    }

    /// Copies every element out into its own independently owned string:
    /// the interchange form for generic serialization collaborators.
    pub fn to_strings(&self) -> (r: Vec<String>)
        ensures
            r.deep_view() == self@,
    {
        let n = self.len();
        let mut out: Vec<String> = Vec::new();
        let mut i: usize = 0;
        while i < n
            invariant
                n as int == self@.len(),
                i <= n,
                out@.len() == i as int,
                forall|k: int| 0 <= k < i as int ==> #[trigger] out@[k]@ == self@[k],
            decreases n as int - i as int,
        {
            let s = self.index(i);
            out.push(s.to_owned());
            i = i + 1;
        }
        proof {
            assert(out.deep_view() =~= self@);
        }
        out
    }
}

impl Clone for DenseStrings {
    /// The clone holds the same elements as the original.
    fn clone(&self) -> (r: Self)
        ensures
            r@ == self@,
    {
        proof {
            use_type_invariant(self);
        }
        let data = self.data.clone();
        let indices = self.indices.clone();
        proof {
            assert(indices@ =~= self.indices@);
        }
        let r = DenseStrings { data, indices };
        proof {
            assert(r@ =~= self@);
        }
        r
    }
}

impl PartialEq for DenseStrings {
    /// Two arrays are equal when their full buffers agree and their element
    /// counts agree; the boundary placement itself is not compared.
    fn eq(&self, other: &Self) -> (r: bool) {
        proof {
            use_type_invariant(self);
            use_type_invariant(other);
            self.lemma_data_is_concat();
            other.lemma_data_is_concat();
        }
        self.data == other.data && self.indices.len() == other.indices.len()
    }
}

impl vstd::std_specs::cmp::PartialEqSpecImpl for DenseStrings {
    open spec fn obeys_eq_spec() -> bool {
        true
    }

    open spec fn eq_spec(&self, other: &Self) -> bool {
        concat_all(self@) == concat_all(other@) && self@.len() == other@.len()
    }
}

impl Eq for DenseStrings {
}

/// A lazy, finite walk over the elements of one array, in positional order.
/// Each array hands out a fresh one on request.
pub struct DenseStringVecIter<'a> {
    vec: &'a DenseStrings,
    i: usize,
}

impl<'a> DenseStringVecIter<'a> {
    /// The elements being walked.
    pub closed spec fn elements(&self) -> Seq<Seq<char>> {
        self.vec@
    }

    /// The next position to be yielded.
    pub closed spec fn pos(&self) -> int {
        self.i as int
    }

    /// The position never passes the element count.
    #[verifier::type_invariant]
    closed spec fn inv(&self) -> bool {
        (self.i as int) <= self.vec@.len()
    }

    /// Yields the element at the current position and advances past it, or
    /// reports exhaustion, exactly when the position first leaves the valid
    /// range.
    pub fn next(&mut self) -> (r: Option<&'a str>)
        ensures
            final(self).elements() == old(self).elements(),
            0 <= old(self).pos() <= old(self).elements().len(),
            final(self).pos() <= final(self).elements().len(),
            old(self).pos() < old(self).elements().len() ==> {
                &&& r is Some
                &&& r->Some_0@ == old(self).elements()[old(self).pos()]
                &&& final(self).pos() == old(self).pos() + 1
            },
            old(self).pos() >= old(self).elements().len() ==> {
                &&& r is None
                &&& final(self).pos() == old(self).pos()
            },
    {
        proof {
            use_type_invariant(&*self);
            use_type_invariant(self.vec);
        }
        let arr: &'a DenseStrings = self.vec;
        let item = arr.get(self.i);
        if item.is_some() {
            self.i = self.i + 1;
        }
        item
    }

    /// The exact count of elements not yet yielded, reported as both the
    /// lower and the upper bound of the hint.
    pub fn size_hint(&self) -> (r: (usize, Option<usize>))
        ensures
            r.0 as int == self.elements().len() - self.pos(),
            r.1 == Some(r.0),
            0 <= self.pos() <= self.elements().len(),
            r.0 == 0 <==> self.pos() >= self.elements().len(),
    {
        proof {
            use_type_invariant(self);
        }
        let l = self.vec.len() - self.i;
        (l, Some(l))
    }
}

/// Round trip: extracting the strings of an array built from a non-empty
/// input vector gives back strings equal to that input, element for
/// element, in order. The first premise is what `new` guarantees of the
/// array it builds, the second what `to_strings` guarantees of the copies
/// it returns.
pub proof fn lemma_round_trip(strings: Vec<String>, arr: DenseStrings, extracted: Vec<String>)
    requires
        strings@.len() > 0,
        arr@ == strings.deep_view(),
        extracted.deep_view() == arr@,
    ensures
        extracted.deep_view() == strings.deep_view(),
{
}

/// Length consistency: an array built from a non-empty input vector holds
/// exactly as many elements as that vector.
pub proof fn lemma_len_consistency(strings: Vec<String>, arr: DenseStrings)
    requires
        strings@.len() > 0,
        arr@ == strings.deep_view(),
    ensures
        arr@.len() == strings@.len(),
{
}

/// Equality is reflexive and symmetric; arrays holding the same elements
/// are equal, and arrays holding different element counts never are, even
/// when their buffers coincide.
pub proof fn lemma_eq_consistency(a: &DenseStrings, b: &DenseStrings)
    ensures
        a.eq_spec(a),
        a.eq_spec(b) == b.eq_spec(a),
        a@ == b@ ==> a.eq_spec(b),
        a@.len() != b@.len() ==> !a.eq_spec(b),
{
}

} // verus!
