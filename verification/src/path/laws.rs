//! What holds of every path and of every walk over its components.

use super::components::Components;
use super::model::{
    body, components_of, lemma_body_empty, prefix_len, prefix_segments, starts_with_root, Segment,
};
use super::owned::lemma_body_valid;
use super::{Path, PathStr};
use vstd::prelude::*;

verus! {

/// What repeated calls of `next` hand out of the components `r`.
pub open spec fn taken_from_front<T>(r: Seq<Segment<T>>) -> Seq<Segment<T>>
    decreases r.len(),
{
    if r.len() == 0 {
        Seq::empty()
    } else {
        seq![r.first()] + taken_from_front(r.drop_first())
    }
}

/// What repeated calls of `next_back` hand out of the components `r`.
pub open spec fn taken_from_back<T>(r: Seq<Segment<T>>) -> Seq<Segment<T>>
    decreases r.len(),
{
    if r.len() == 0 {
        Seq::empty()
    } else {
        seq![r.last()] + taken_from_back(r.drop_last())
    }
}

/// Walking from the front hands out the components in order.
pub proof fn lemma_taken_from_front<T>(r: Seq<Segment<T>>)
    ensures
        taken_from_front(r) == r,
    decreases r.len(),
{
    if r.len() > 0 {
        lemma_taken_from_front(r.drop_first());
        assert(seq![r.first()] + r.drop_first() =~= r);
    }
}

/// Walking from the back hands out the components in reverse order.
pub proof fn lemma_taken_from_back<T>(r: Seq<Segment<T>>)
    ensures
        taken_from_back(r) == r.reverse(),
    decreases r.len(),
{
    if r.len() > 0 {
        lemma_taken_from_back(r.drop_last());
        assert(seq![r.last()] + r.drop_last().reverse() =~= r.reverse());
    } else {
        assert(r.reverse() =~= Seq::<Segment<T>>::empty());
    }
}

/// In every state of an iterator, what a walk from the back hands out is,
/// read backwards, what a walk from the front hands out.
pub proof fn lemma_reverse_consistency<'a, P: Path<'a>>(c: Components<'a, P>)
    requires
        c.wf(),
    ensures
        taken_from_back(c.remaining()).reverse() == taken_from_front(c.remaining()),
        taken_from_front(c.remaining()) == c.remaining(),
{
    let r = c.remaining();
    lemma_taken_from_front(r);
    lemma_taken_from_back(r);
    assert(r.reverse().reverse() =~= r);
}

/// A path whose first unit is a separator has the root as its first
/// component, and no path has a root anywhere else.
pub proof fn lemma_root_detection<S: PathStr + ?Sized>(s: Seq<S::ComponentType>)
    ensures
        starts_with_root::<S>(s) ==> components_of::<S>(s).len() > 0 && components_of::<S>(
            s,
        ).first() is Root,
        forall|i: int|
            0 <= i < components_of::<S>(s).len() && (#[trigger] components_of::<S>(s)[i]) is Root
                ==> i == 0 && starts_with_root::<S>(s),
{
    let pre = prefix_len::<S>(s);
    let b = s.subrange(pre, s.len() as int);
    let p = prefix_segments::<S>(s);
    let cs = components_of::<S>(s);
    lemma_body_valid::<S>(b);
    assert forall|i: int| 0 <= i < cs.len() && (#[trigger] cs[i]) is Root implies i == 0
        && starts_with_root::<S>(s) by {
        if i >= p.len() {
            assert(cs[i] == body::<S>(b)[i - p.len()]);
        }
    }
}

/// The empty path has no components.
pub proof fn lemma_empty_path<S: PathStr + ?Sized>()
    ensures
        components_of::<S>(Seq::<S::ComponentType>::empty()) == Seq::<
            Segment<S::ComponentType>,
        >::empty(),
{
    let e = Seq::<S::ComponentType>::empty();
    lemma_body_empty::<S>();
    assert(e.subrange(0, 0) =~= e);
    assert(components_of::<S>(e) =~= Seq::<Segment<S::ComponentType>>::empty());
}

} // verus!
