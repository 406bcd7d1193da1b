//! Growing and shrinking an owned path by one component.
//!
//! Pushing never resolves `..` against what is already there: the parent
//! marker is appended as it is, like any other component.

use super::components::{Component, Components};
use super::model::{
    body, classify, clean_back, components_of, cut_before, first_sep, is_sep, last_token,
    lemma_body_empty, lemma_components_last_token, lemma_first_sep_bounds,
    lemma_last_token_start_bounds, lemma_last_token_start_is, lemma_prefix_stable,
    lemma_trim_back_components, prefix_len, prefix_segments, sep_free, starts_with_cur_dir,
    starts_with_root, token_segments, trim_back, Segment,
};
use super::{Path, PathStr};
use vstd::prelude::*;

verus! {

/// A separator has to go between `s` and a component appended to it.
pub open spec fn needs_separator<S: PathStr + ?Sized>(s: Seq<S::ComponentType>) -> bool {
    s.len() > 0 && !is_sep::<S>(s.last())
}

/// The spelling of `s` after the component `c` is pushed onto it.
///
/// An empty component and `.` change nothing. Anything else is appended,
/// after a `/` unless `s` is empty or ends in a separator.
pub open spec fn pushed<S: PathStr + ?Sized>(
    s: Seq<S::ComponentType>,
    c: Seq<S::ComponentType>,
) -> Seq<S::ComponentType> {
    if classify::<S>(c) is None {
        s
    } else if needs_separator::<S>(s) {
        s.push(S::unit_of(47)) + c
    } else {
        s + c
    }
}

/// What is left of `s` when its last component is popped: the start of
/// `s` that ends with the component before the last one.
///
/// The empty path and a path that is only a root stay as they are; a path
/// that is only `.` becomes empty.
pub open spec fn popped<S: PathStr + ?Sized>(s: Seq<S::ComponentType>) -> Seq<
    S::ComponentType,
> {
    let pre = prefix_len::<S>(s);
    let t = trim_back::<S>(s, pre);
    if t.len() > pre {
        trim_back::<S>(t.subrange(0, cut_before::<S>(t, pre)), pre)
    } else if starts_with_cur_dir::<S>(s) {
        Seq::empty()
    } else {
        s
    }
}

/// The components that popping leaves: all but the last, or all where
/// there is none or only the root.
pub open spec fn popped_components<T>(cs: Seq<Segment<T>>) -> Seq<Segment<T>> {
    if cs.len() == 0 || cs.last() is Root {
        cs
    } else {
        cs.drop_last()
    }
}

/// Popping leaves a start of the path that holds all components but the
/// last and, where it changed anything, ends with the last of those.
pub proof fn lemma_popped<S: PathStr + ?Sized>(s: Seq<S::ComponentType>)
    ensures
        popped::<S>(s).len() <= s.len(),
        popped::<S>(s) == s.subrange(0, popped::<S>(s).len() as int),
        components_of::<S>(popped::<S>(s)) == popped_components(components_of::<S>(s)),
        popped::<S>(s) != s ==> clean_back::<S>(
            popped::<S>(s),
            prefix_len::<S>(popped::<S>(s)),
        ),
{
    let pre = prefix_len::<S>(s);
    let t = trim_back::<S>(s, pre);
    let cs = components_of::<S>(s);
    lemma_trim_back_components::<S>(s);
    lemma_body_empty::<S>();
    if t.len() > pre {
        let cut = cut_before::<S>(t, pre);
        let u = t.subrange(0, cut);
        lemma_last_token_start_bounds::<S>(t, pre);
        lemma_prefix_stable::<S>(t);
        lemma_components_last_token::<S>(t);
        lemma_trim_back_components::<S>(u);
        let q = popped::<S>(s);
        assert(q =~= s.subrange(0, q.len() as int));
        let x = classify::<S>(last_token::<S>(t, pre)).unwrap();
        assert(cs =~= components_of::<S>(u).push(x));
        assert(cs.drop_last() =~= components_of::<S>(u));
    } else {
        assert(t.subrange(pre, t.len() as int) =~= Seq::<S::ComponentType>::empty());
        assert(cs =~= prefix_segments::<S>(t));
        assert(s.subrange(0, s.len() as int) =~= s);
        if t.len() > 0 {
            assert(t[0] == s[0]);
        }
        if starts_with_cur_dir::<S>(s) {
            let e = Seq::<S::ComponentType>::empty();
            assert(e.subrange(0, 0) =~= e);
            assert(components_of::<S>(e) =~= cs.drop_last());
            assert(e =~= s.subrange(0, 0));
        }
    }
}

/// A path that ends in a separator beyond its root has the components of
/// the path without that separator.
pub proof fn lemma_trailing_separator<S: PathStr + ?Sized>(s: Seq<S::ComponentType>)
    requires
        s.len() > prefix_len::<S>(s),
        is_sep::<S>(s.last()),
    ensures
        components_of::<S>(s) == components_of::<S>(s.drop_last()),
{
    let pre = prefix_len::<S>(s);
    let len = s.len() as int;
    assert(s.subrange(len, len) =~= Seq::<S::ComponentType>::empty());
    lemma_last_token_start_is::<S>(s, pre, len);
    lemma_components_last_token::<S>(s);
    assert(s.subrange(0, len - 1) =~= s.drop_last());
    assert(components_of::<S>(s) =~= components_of::<S>(s.drop_last()));
}

/// Pushing one component that holds no separator adds exactly that
/// component at the end.
pub proof fn lemma_pushed_components<S: PathStr + ?Sized>(
    s: Seq<S::ComponentType>,
    c: Seq<S::ComponentType>,
)
    requires
        sep_free::<S>(c),
    ensures
        components_of::<S>(pushed::<S>(s, c)) == components_of::<S>(s) + token_segments::<S>(c),
{
    let t = pushed::<S>(s, c);
    if classify::<S>(c) is None {
        assert(components_of::<S>(s) + token_segments::<S>(c) =~= components_of::<S>(s));
    } else {
        S::unit_of_has_code(47);
        let pre = prefix_len::<S>(t);
        let k: int = if needs_separator::<S>(s) {
            s.len() as int + 1
        } else {
            s.len() as int
        };
        assert(t.subrange(k, t.len() as int) =~= c);
        assert(c.len() > 0);
        if s.len() > 0 {
            assert(t[0] == s[0]);
            assert(t[k - 1] == if needs_separator::<S>(s) {
                S::unit_of(47)
            } else {
                s.last()
            });
            if s.len() > 1 {
                assert(t[1] == s[1]);
            }
            assert(starts_with_root::<S>(t) == starts_with_root::<S>(s));
            assert(starts_with_cur_dir::<S>(t) == starts_with_cur_dir::<S>(s));
        } else {
            assert(t =~= c);
            assert(!starts_with_root::<S>(t));
            assert(!starts_with_cur_dir::<S>(t)) by {
                if starts_with_cur_dir::<S>(t) {
                    if t.len() > 1 {
                        assert(is_sep::<S>(c[1]));
                    }
                }
            }
        }
        assert(pre == prefix_len::<S>(s));
        lemma_last_token_start_is::<S>(t, pre, k);
        lemma_components_last_token::<S>(t);
        let cut = cut_before::<S>(t, pre);
        if needs_separator::<S>(s) {
            assert(t.subrange(0, cut) =~= s);
        } else if s.len() > pre {
            assert(t.subrange(0, cut) =~= s.drop_last());
            lemma_trailing_separator::<S>(s);
        } else {
            assert(t.subrange(0, cut) =~= s);
        }
    }
}

/// Popping after pushing one named component gives back a path with the
/// components that were there before.
pub proof fn lemma_pop_undoes_push<S: PathStr + ?Sized>(
    p: Seq<S::ComponentType>,
    c: Seq<S::ComponentType>,
)
    requires
        sep_free::<S>(c),
        classify::<S>(c) is Some,
    ensures
        components_of::<S>(popped::<S>(pushed::<S>(p, c))) == components_of::<S>(p),
{
    lemma_pushed_components::<S>(p, c);
    lemma_popped::<S>(pushed::<S>(p, c));
    let cs = components_of::<S>(pushed::<S>(p, c));
    assert(cs.last() == classify::<S>(c).unwrap());
    assert(cs.drop_last() =~= components_of::<S>(p));
}

/// Whether a unit separates components.
pub fn is_separator_unit<S: PathStr + ?Sized>(u: S::ComponentType) -> (r: bool)
    ensures
        r == is_sep::<S>(u),
{
    let c = S::unit_code(u);
    c == 47 || c == 92
}

/// Appends the component `component` to `buf` as `pushed` spells it.
pub fn push_units<S: PathStr + ?Sized>(buf: &mut Vec<S::ComponentType>, component: &S)
    ensures
        final(buf)@ == pushed::<S>(old(buf)@, component.units()),
{
    let c = component.as_slice();
    if c.len() == 0 || (c.len() == 1 && S::unit_code(c[0]) == 46) {
        return ;
    }
    if buf.len() > 0 && !is_separator_unit::<S>(buf[buf.len() - 1]) {
        buf.push(S::unit_from_ascii(47));
    }
    let ghost base = buf@;
    let mut i: usize = 0;
    while i < c.len()
        invariant
            i <= c.len(),
            c@ == component.units(),
            buf@ == base + c@.subrange(0, i as int),
        decreases c.len() - i,
    {
        buf.push(c[i]);
        i += 1;
        assert(buf@ =~= base + c@.subrange(0, i as int));
    }
    assert(c@.subrange(0, i as int) =~= c@);
}

/// How many leading units of `s` are left when its last component is
/// popped.
pub fn parent_len<'a, P: Path<'a>>(s: &'a P::Str) -> (n: usize)
    ensures
        n == popped::<P::Str>(s.units()).len(),
{
    let mut comps = Components::<P>::new(s);
    let ghost pre = prefix_len::<P::Str>(s.units());
    let ghost t = trim_back::<P::Str>(s.units(), pre);
    proof {
        lemma_trim_back_components::<P::Str>(s.units());
        lemma_body_empty::<P::Str>();
        if t.len() > pre {
            lemma_last_token_start_bounds::<P::Str>(t, pre);
            lemma_prefix_stable::<P::Str>(t);
            lemma_components_last_token::<P::Str>(t);
        } else {
            assert(t.subrange(pre, t.len() as int) =~= Seq::empty());
            assert(comps.remaining() =~= prefix_segments::<P::Str>(t));
            if t.len() > 0 {
                assert(t[0] == s.units()[0]);
            }
        }
    }
    let last = comps.next_back();
    match last {
        None => s.len(),
        Some(Component::Root) => s.len(),
        Some(_) => {
            let rest = comps.as_path();
            rest.as_str().len()
        },
    }
}

/// `x` can be the name in a `Normal` component: it is not empty, holds no
/// separator, and is neither `.` nor `..`.
pub open spec fn is_name<S: PathStr + ?Sized>(x: Seq<S::ComponentType>) -> bool {
    sep_free::<S>(x) && classify::<S>(x) == Some(Segment::Normal(x))
}

/// `c` can stand at place `i` of a component sequence: a root and a
/// leading `.` only in front, and names that are names.
pub open spec fn valid_at<S: PathStr + ?Sized>(c: Segment<S::ComponentType>, i: int) -> bool {
    match c {
        Segment::Root => i == 0,
        Segment::Current => i == 0,
        Segment::Parent => true,
        Segment::Normal(x) => is_name::<S>(x),
    }
}

/// `cs` is the component sequence of some path.
pub open spec fn valid_components<S: PathStr + ?Sized>(
    cs: Seq<Segment<S::ComponentType>>,
) -> bool {
    forall|i: int| 0 <= i < cs.len() ==> valid_at::<S>(#[trigger] cs[i], i)
}

/// The spelling of `..`.
pub open spec fn parent_units<S: PathStr + ?Sized>() -> Seq<S::ComponentType> {
    seq![S::unit_of(46), S::unit_of(46)]
}

/// The spelling `s` with the component `c` written after it.
pub open spec fn spell_step<S: PathStr + ?Sized>(
    s: Seq<S::ComponentType>,
    c: Segment<S::ComponentType>,
) -> Seq<S::ComponentType> {
    match c {
        Segment::Root => s.push(S::unit_of(47)),
        Segment::Current => s.push(S::unit_of(46)),
        Segment::Parent => pushed::<S>(s, parent_units::<S>()),
        Segment::Normal(x) => pushed::<S>(s, x),
    }
}

/// The canonical spelling of a component sequence: the components in
/// order, with one `/` between two of them and none after a root.
pub open spec fn spelled<S: PathStr + ?Sized>(cs: Seq<Segment<S::ComponentType>>) -> Seq<
    S::ComponentType,
>
    decreases cs.len(),
{
    if cs.len() == 0 {
        Seq::empty()
    } else {
        spell_step::<S>(spelled::<S>(cs.drop_last()), cs.last())
    }
}

/// The canonical spelling of a path: that of its components.
pub open spec fn canonical<S: PathStr + ?Sized>(s: Seq<S::ComponentType>) -> Seq<
    S::ComponentType,
> {
    spelled::<S>(components_of::<S>(s))
}

/// The components of a body are parents and names.
pub proof fn lemma_body_valid<S: PathStr + ?Sized>(s: Seq<S::ComponentType>)
    ensures
        forall|i: int|
            0 <= i < body::<S>(s).len() ==> match #[trigger] body::<S>(s)[i] {
                Segment::Parent => true,
                Segment::Normal(x) => is_name::<S>(x),
                _ => false,
            },
    decreases s.len(),
{
    let n = first_sep::<S>(s);
    lemma_first_sep_bounds::<S>(s);
    if 0 <= n < s.len() {
        lemma_body_valid::<S>(s.subrange(n + 1, s.len() as int));
    } else {
        assert(s.subrange(0, n) =~= s);
    }
}

/// The components of a path form a valid sequence.
pub proof fn lemma_components_valid<S: PathStr + ?Sized>(s: Seq<S::ComponentType>)
    ensures
        valid_components::<S>(components_of::<S>(s)),
{
    let pre = prefix_len::<S>(s);
    let b = s.subrange(pre, s.len() as int);
    lemma_body_valid::<S>(b);
    let cs = components_of::<S>(s);
    let p = prefix_segments::<S>(s);
    assert forall|i: int| 0 <= i < cs.len() implies valid_at::<S>(#[trigger] cs[i], i) by {
        if i >= p.len() {
            assert(cs[i] == body::<S>(b)[i - p.len()]);
        }
    }
}

/// A dot is no separator, so `..` is one token.
pub proof fn lemma_parent_units<S: PathStr + ?Sized>()
    ensures
        sep_free::<S>(parent_units::<S>()),
        classify::<S>(parent_units::<S>()) == Some(Segment::<S::ComponentType>::Parent),
{
    S::unit_of_has_code(46);
}

/// Reading a canonical spelling gives back the components it was spelled
/// from.
pub proof fn lemma_spelled_round_trip<S: PathStr + ?Sized>(cs: Seq<Segment<S::ComponentType>>)
    requires
        valid_components::<S>(cs),
    ensures
        components_of::<S>(spelled::<S>(cs)) == cs,
    decreases cs.len(),
{
    if cs.len() == 0 {
        lemma_body_empty::<S>();
        assert(Seq::<S::ComponentType>::empty().subrange(0, 0) =~= Seq::<
            S::ComponentType,
        >::empty());
        assert(components_of::<S>(Seq::empty()) =~= cs);
    } else {
        let init = cs.drop_last();
        let c = cs.last();
        assert(valid_at::<S>(cs[cs.len() - 1], cs.len() - 1));
        assert forall|i: int| 0 <= i < init.len() implies valid_at::<S>(#[trigger] init[i], i) by {
            assert(init[i] == cs[i]);
        }
        lemma_spelled_round_trip::<S>(init);
        let s = spelled::<S>(init);
        let t = spelled::<S>(cs);
        S::unit_of_has_code(46);
        S::unit_of_has_code(47);
        lemma_body_empty::<S>();
        match c {
            Segment::Root => {
                assert(init.len() == 0);
                assert(t =~= seq![S::unit_of(47)]);
                assert(t.subrange(1, 1) =~= Seq::<S::ComponentType>::empty());
                assert(components_of::<S>(t) =~= cs);
            },
            Segment::Current => {
                assert(init.len() == 0);
                assert(t =~= seq![S::unit_of(46)]);
                assert(t.subrange(1, 1) =~= Seq::<S::ComponentType>::empty());
                assert(components_of::<S>(t) =~= cs);
            },
            Segment::Parent => {
                lemma_parent_units::<S>();
                lemma_pushed_components::<S>(s, parent_units::<S>());
                assert(components_of::<S>(t) =~= cs);
            },
            Segment::Normal(x) => {
                lemma_pushed_components::<S>(s, x);
                assert(components_of::<S>(t) =~= cs);
            },
        }
    }
}

/// Normalising is idempotent: the canonical spelling of a path has the
/// components of the path, and is its own canonical spelling.
pub proof fn lemma_canonical_idempotent<S: PathStr + ?Sized>(s: Seq<S::ComponentType>)
    ensures
        components_of::<S>(canonical::<S>(s)) == components_of::<S>(s),
        canonical::<S>(canonical::<S>(s)) == canonical::<S>(s),
{
    lemma_components_valid::<S>(s);
    lemma_spelled_round_trip::<S>(components_of::<S>(s));
}

/// Valid component sequences with the same spelling are the same.
pub proof fn lemma_spelled_is_injective<S: PathStr + ?Sized>(
    a: Seq<Segment<S::ComponentType>>,
    b: Seq<Segment<S::ComponentType>>,
)
    requires
        valid_components::<S>(a),
        valid_components::<S>(b),
        spelled::<S>(a) == spelled::<S>(b),
    ensures
        a == b,
{
    lemma_spelled_round_trip::<S>(a);
    lemma_spelled_round_trip::<S>(b);
}

/// A spelling only grows when a component is written after it.
pub proof fn lemma_spell_step_extends<S: PathStr + ?Sized>(
    s: Seq<S::ComponentType>,
    c: Segment<S::ComponentType>,
)
    ensures
        s.len() <= spell_step::<S>(s, c).len(),
        spell_step::<S>(s, c).subrange(0, s.len() as int) == s,
{
    assert(spell_step::<S>(s, c).subrange(0, s.len() as int) =~= s);
}

/// `ends[k]` is where the spelling of the first `k` components of `cs`
/// ends in `units`, for every `k` up to all of them.
pub open spec fn marks_prefixes<S: PathStr + ?Sized>(
    cs: Seq<Segment<S::ComponentType>>,
    units: Seq<S::ComponentType>,
    ends: Seq<usize>,
) -> bool {
    &&& ends.len() == cs.len() + 1
    &&& forall|k: int|
        0 <= k <= cs.len() ==> (#[trigger] ends[k]) <= units.len() && units.subrange(
            0,
            ends[k] as int,
        ) == spelled::<S>(cs.subrange(0, k))
}

/// The canonical spelling of the path `s`, and where in it the spelling of
/// each leading run of its components ends.
pub fn canonical_units<'a, P: Path<'a>>(s: &'a P::Str) -> (r: (
    Vec<<P::Str as PathStr>::ComponentType>,
    Vec<usize>,
))
    ensures
        r.0@ == canonical::<P::Str>(s.units()),
        marks_prefixes::<P::Str>(components_of::<P::Str>(s.units()), r.0@, r.1@),
{
    let mut out: Vec<<P::Str as PathStr>::ComponentType> = Vec::new();
    let mut ends: Vec<usize> = Vec::new();
    let mut comps = Components::<P>::new(s);
    let ghost cs = components_of::<P::Str>(s.units());
    ends.push(0);
    assert(cs.subrange(0, cs.len() as int) =~= cs);
    assert(out@.subrange(0, 0) =~= out@);
    loop
        invariant
            comps.wf(),
            cs == components_of::<P::Str>(s.units()),
            1 <= ends@.len() <= cs.len() + 1,
            comps.remaining() == cs.subrange(ends@.len() - 1, cs.len() as int),
            out@ == spelled::<P::Str>(cs.subrange(0, ends@.len() - 1)),
            forall|k: int|
                0 <= k < ends@.len() ==> (#[trigger] ends@[k]) <= out@.len() && out@.subrange(
                    0,
                    ends@[k] as int,
                ) == spelled::<P::Str>(cs.subrange(0, k)),
        decreases comps.remaining().len(),
    {
        let ghost i = ends@.len() - 1;
        let ghost before = out@;
        match comps.next() {
            None => {
                assert(cs.subrange(0, i) =~= cs);
                return (out, ends);
            },
            Some(c) => {
                proof {
                    assert(c@ == cs[i]);
                    assert(cs.subrange(0, i + 1).drop_last() =~= cs.subrange(0, i));
                    assert(cs.subrange(i, cs.len() as int).drop_first() =~= cs.subrange(
                        i + 1,
                        cs.len() as int,
                    ));
                    lemma_spell_step_extends::<P::Str>(before, cs[i]);
                }
                match c {
                    Component::Root => {
                        out.push(<P::Str as PathStr>::unit_from_ascii(47));
                    },
                    Component::Current => {
                        out.push(<P::Str as PathStr>::unit_from_ascii(46));
                    },
                    Component::Parent => {
                        push_units::<P::Str>(&mut out, P::parent_dir());
                    },
                    Component::Normal(x) => {
                        push_units::<P::Str>(&mut out, x);
                    },
                }
                assert(out@ == spell_step::<P::Str>(before, cs[i]));
                ends.push(out.len());
                assert forall|k: int| 0 <= k < ends@.len() implies (#[trigger] ends@[k])
                    <= out@.len() && out@.subrange(0, ends@[k] as int) == spelled::<P::Str>(
                    cs.subrange(0, k),
                ) by {
                    if k <= i {
                        assert(out@.subrange(0, ends@[k] as int) =~= before.subrange(
                            0,
                            ends@[k] as int,
                        ));
                    } else {
                        assert(out@.subrange(0, out@.len() as int) =~= out@);
                    }
                }
            },
        }
    }
}

} // verus!
