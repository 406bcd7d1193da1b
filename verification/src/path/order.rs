//! The order of components: first by kind, root before `.` before `..`
//! before names, then names by their units.

use super::components::Component;
use super::model::Segment;
use super::{Path, PathStr};
use core::cmp::Ordering;
use vstd::prelude::*;
use vstd::std_specs::cmp::PartialOrdSpecImpl;

verus! {

/// The place of a component's kind in the order.
pub open spec fn kind_rank<T>(c: Segment<T>) -> int {
    match c {
        Segment::Root => 0,
        Segment::Current => 1,
        Segment::Parent => 2,
        Segment::Normal(_) => 3,
    }
}

/// How `a` stands to `b` unit by unit, a proper start standing before
/// what it starts: `-1` before, `0` the same, `1` after.
pub open spec fn units_order<S: PathStr + ?Sized>(
    a: Seq<S::ComponentType>,
    b: Seq<S::ComponentType>,
) -> int
    decreases a.len(),
{
    if a.len() == 0 && b.len() == 0 {
        0
    } else if a.len() == 0 {
        -1
    } else if b.len() == 0 {
        1
    } else if S::code(a[0]) < S::code(b[0]) {
        -1
    } else if S::code(a[0]) > S::code(b[0]) {
        1
    } else {
        units_order::<S>(a.drop_first(), b.drop_first())
    }
}

/// How the component `a` stands to `b`: `-1` before, `0` the same, `1`
/// after.
pub open spec fn segment_order<S: PathStr + ?Sized>(
    a: Segment<S::ComponentType>,
    b: Segment<S::ComponentType>,
) -> int {
    if kind_rank(a) < kind_rank(b) {
        -1
    } else if kind_rank(a) > kind_rank(b) {
        1
    } else {
        match (a, b) {
            (Segment::Normal(x), Segment::Normal(y)) => units_order::<S>(x, y),
            _ => 0,
        }
    }
}

/// Two strings stand the same in the order exactly when they are the
/// same.
pub proof fn lemma_units_order_zero<S: PathStr + ?Sized>(
    a: Seq<S::ComponentType>,
    b: Seq<S::ComponentType>,
)
    ensures
        units_order::<S>(a, b) == 0 <==> a == b,
    decreases a.len(),
{
    if a.len() > 0 && b.len() > 0 {
        S::code_is_injective(a[0], b[0]);
        lemma_units_order_zero::<S>(a.drop_first(), b.drop_first());
        if units_order::<S>(a, b) == 0 {
            assert(a =~= seq![a[0]] + a.drop_first());
            assert(b =~= seq![b[0]] + b.drop_first());
        }
    } else if a.len() == 0 && b.len() == 0 {
        assert(a =~= b);
    }
}

/// Swapping the sides turns the order round.
pub proof fn lemma_units_order_antisymmetric<S: PathStr + ?Sized>(
    a: Seq<S::ComponentType>,
    b: Seq<S::ComponentType>,
)
    ensures
        units_order::<S>(a, b) == -units_order::<S>(b, a),
    decreases a.len(),
{
    if a.len() > 0 && b.len() > 0 {
        lemma_units_order_antisymmetric::<S>(a.drop_first(), b.drop_first());
    }
}

/// Two components stand the same in the order exactly when they are the
/// same.
pub proof fn lemma_segment_order_zero<S: PathStr + ?Sized>(
    a: Segment<S::ComponentType>,
    b: Segment<S::ComponentType>,
)
    ensures
        segment_order::<S>(a, b) == 0 <==> a == b,
{
    match (a, b) {
        (Segment::Normal(x), Segment::Normal(y)) => {
            lemma_units_order_zero::<S>(x, y);
        },
        _ => {},
    }
}

/// How the string `a` stands to `b`, unit by unit.
pub fn order_units<S: PathStr + ?Sized>(a: &S, b: &S) -> (r: i8)
    ensures
        r == units_order::<S>(a.units(), b.units()),
{
    let x = a.as_slice();
    let y = b.as_slice();
    let mut i: usize = 0;
    assert(x@.subrange(0, x@.len() as int) =~= x@);
    assert(y@.subrange(0, y@.len() as int) =~= y@);
    while i < x.len() && i < y.len()
        invariant
            i <= x.len(),
            i <= y.len(),
            x@ == a.units(),
            y@ == b.units(),
            units_order::<S>(a.units(), b.units()) == units_order::<S>(
                x@.subrange(i as int, x@.len() as int),
                y@.subrange(i as int, y@.len() as int),
            ),
        decreases x.len() - i,
    {
        let p = S::unit_code(x[i]);
        let q = S::unit_code(y[i]);
        let ghost xs = x@.subrange(i as int, x@.len() as int);
        let ghost ys = y@.subrange(i as int, y@.len() as int);
        assert(xs[0] == x@[i as int] && ys[0] == y@[i as int]);
        if p < q {
            return -1;
        }
        if p > q {
            return 1;
        }
        assert(xs.drop_first() =~= x@.subrange(i + 1, x@.len() as int));
        assert(ys.drop_first() =~= y@.subrange(i + 1, y@.len() as int));
        i += 1;
    }
    if i < y.len() {
        -1
    } else if i < x.len() {
        1
    } else {
        0
    }
}

/// How the component `a` stands to `b`.
pub fn order_components<'a, P: Path<'a>>(a: &Component<'a, P>, b: &Component<'a, P>) -> (r: i8)
    ensures
        r == segment_order::<P::Str>(a@, b@),
{
    match (a, b) {
        (Component::Root, Component::Root) => 0,
        (Component::Root, _) => -1,
        (Component::Current, Component::Root) => 1,
        (Component::Current, Component::Current) => 0,
        (Component::Current, _) => -1,
        (Component::Parent, Component::Root) => 1,
        (Component::Parent, Component::Current) => 1,
        (Component::Parent, Component::Parent) => 0,
        (Component::Parent, Component::Normal(_)) => -1,
        (Component::Normal(x), Component::Normal(y)) => order_units::<P::Str>(*x, *y),
        (Component::Normal(_), _) => 1,
    }
}

/// The order of two components as a plain number.
pub open spec fn component_order<'a, P: Path<'a>>(
    a: &Component<'a, P>,
    b: &Component<'a, P>,
) -> int {
    segment_order::<P::Str>(a@, b@)
}

impl<'a, P: Path<'a>> PartialOrd for Component<'a, P> {
    fn partial_cmp(&self, other: &Self) -> (r: Option<Ordering>) {
        let o = order_components::<P>(self, other);
        if o < 0 {
            Some(Ordering::Less)
        } else if o > 0 {
            Some(Ordering::Greater)
        } else {
            Some(Ordering::Equal)
        }
    }
}

impl<'a, P: Path<'a>> PartialOrdSpecImpl for Component<'a, P> {
    open spec fn obeys_partial_cmp_spec() -> bool {
        true
    }

    open spec fn partial_cmp_spec(&self, other: &Self) -> Option<Ordering> {
        if component_order::<P>(self, other) < 0 {
            Some(Ordering::Less)
        } else if component_order::<P>(self, other) > 0 {
            Some(Ordering::Greater)
        } else {
            Some(Ordering::Equal)
        }
    }
}

} // verus!
