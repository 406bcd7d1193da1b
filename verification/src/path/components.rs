//! The double-ended component parser.
//!
//! A path is a leading root or `.`, then a body of tokens between
//! separators. A cursor at each end records how much of that has been
//! handed out from its side.

use super::model::{
    body, classify, components_of, cut_before, drop_first_token, first_sep, first_token, is_dot,
    is_sep, last_token_start, lemma_body_last_token, lemma_clean_front_no_prefix,
    lemma_components_last_token, lemma_first_sep_bounds, lemma_first_sep_is,
    lemma_last_token_start_bounds, lemma_last_token_start_is, lemma_prefix_stable,
    lemma_trim_back_body, lemma_trim_back_components, lemma_trim_front, prefix_len, sep_free,
    starts_with_cur_dir, starts_with_root, trim_back, trim_front, Segment,
};
use super::{units_equal, Path, PathStr};
use vstd::prelude::*;
use vstd::slice::slice_subrange;
use vstd::std_specs::cmp::PartialEqSpecImpl;

verus! {

/// How far one end of the iterator has come.
#[derive(Copy, Clone, PartialEq, Eq, Structural, Debug)]
pub enum State {
    /// The root or the leading `.` is still to come.
    StartDir,
    /// Inside the tokens between separators.
    Body,
    /// Nothing more comes from this end.
    Done,
}

impl State {
    /// The place of the state in the order of the cursor's way: the start,
    /// the body, the end.
    pub open spec fn rank(self) -> int {
        match self {
            State::StartDir => 0,
            State::Body => 1,
            State::Done => 2,
        }
    }

    /// How many moves the back cursor has left: it goes from the body to
    /// the start and then stops.
    pub open spec fn moves_left_at_back(self) -> int {
        match self {
            State::Body => 2,
            State::StartDir => 1,
            State::Done => 0,
        }
    }
}

/// One component of a path.
#[derive(Debug)]
pub enum Component<'a, P: Path<'a>> {
    /// The root directory: a separator at the very start of the path.
    Root,
    /// The current directory, `.`, at the very start of a rootless path.
    Current,
    /// The parent directory, `..`.
    Parent,
    /// A named component, such as `a` and `b` in `a/b`.
    Normal(&'a P::Str),
}

impl<'a, P: Path<'a>> View for Component<'a, P> {
    type V = Segment<<P::Str as PathStr>::ComponentType>;

    open spec fn view(&self) -> Self::V {
        match *self {
            Component::Root => Segment::Root,
            Component::Current => Segment::Current,
            Component::Parent => Segment::Parent,
            Component::Normal(s) => Segment::Normal(s.units()),
        }
    }
}

impl<'a, P: Path<'a>> Clone for Component<'a, P> {
    fn clone(&self) -> (r: Self)
        ensures
            r == *self,
    {
        *self
    }
}

impl<'a, P: Path<'a>> Copy for Component<'a, P> {

}

impl<'a, P: Path<'a>> PartialEq for Component<'a, P> {
    fn eq(&self, other: &Self) -> (r: bool) {
        match (self, other) {
            (Component::Root, Component::Root) => true,
            (Component::Current, Component::Current) => true,
            (Component::Parent, Component::Parent) => true,
            (Component::Normal(a), Component::Normal(b)) => units_equal::<P::Str>(*a, *b),
            _ => false,
        }
    }
}

impl<'a, P: Path<'a>> Eq for Component<'a, P> {

}

impl<'a, P: Path<'a>> PartialEqSpecImpl for Component<'a, P> {
    open spec fn obeys_eq_spec() -> bool {
        true
    }

    open spec fn eq_spec(&self, other: &Self) -> bool {
        self@ == other@
    }
}

/// An iterator over the components of a path that can be advanced from
/// both ends.
pub struct Components<'a, P: Path<'a>> {
    // The part of the path that has not been parsed yet.
    path: &'a P::Str,
    // Whether the path started with a separator when the iterator was made.
    has_root: bool,
    // What has been handed out from either end.
    front: State,
    back: State,
}

/// The components that a step hands out, as a sequence of length zero or
/// one.
pub open spec fn segments_of<'a, P: Path<'a>>(c: Option<Component<'a, P>>) -> Seq<
    Segment<<P::Str as PathStr>::ComponentType>,
> {
    match c {
        Some(c) => seq![c@],
        None => Seq::empty(),
    }
}

/// What a parsed token stands for, as a mathematical value.
pub open spec fn view_of<'a, P: Path<'a>>(c: Option<Component<'a, P>>) -> Option<
    Segment<<P::Str as PathStr>::ComponentType>,
> {
    match c {
        Some(c) => Some(c@),
        None => None,
    }
}

impl<'a, P: Path<'a>> Components<'a, P> {
    /// The units that no call has consumed yet.
    pub closed spec fn path_units(&self) -> Seq<<P::Str as PathStr>::ComponentType> {
        self.path.units()
    }

    /// Whether the path started with a separator when the iterator was made.
    pub closed spec fn root_flag(&self) -> bool {
        self.has_root
    }

    /// How far the front has come.
    pub closed spec fn front_state(&self) -> State {
        self.front
    }

    /// How far the back has come.
    pub closed spec fn back_state(&self) -> State {
        self.back
    }

    /// Nothing has been taken from either end.
    pub open spec fn is_fresh(&self) -> bool {
        self.front_state() == State::StartDir && self.back_state() == State::Body
    }

    /// Both directions are exhausted: one cursor is done, or the front has
    /// passed the back.
    pub open spec fn is_finished(&self) -> bool {
        self.front_state() == State::Done || self.back_state() == State::Done
            || self.front_state().rank() > self.back_state().rank()
    }

    /// The state is one that an iterator reaches from a fresh one.
    pub open spec fn wf(&self) -> bool {
        let s = self.path_units();
        &&& self.front_state() == State::StartDir && self.back_state() != State::Done
            ==> self.root_flag() == starts_with_root::<P::Str>(s)
        &&& self.front_state() == State::StartDir && self.back_state() == State::StartDir
            ==> s.len() == prefix_len::<P::Str>(s)
        &&& self.is_finished() ==> s.len() == 0
    }

    /// The components that are still to come, front to back.
    pub open spec fn remaining(&self) -> Seq<Segment<<P::Str as PathStr>::ComponentType>> {
        if self.is_finished() {
            Seq::empty()
        } else if self.front_state() == State::StartDir {
            components_of::<P::Str>(self.path_units())
        } else {
            body::<P::Str>(self.path_units())
        }
    }

    /// How many leading units are kept for a root or `.` that the front has
    /// not handed out yet.
    pub open spec fn reserved(&self) -> int {
        if self.front_state() == State::StartDir {
            prefix_len::<P::Str>(self.path_units())
        } else {
            0
        }
    }

    /// The units that are left unconsumed once `next` has returned: the
    /// units after the root or leading `.` where that is handed out, and
    /// else the units after the first token that stands for a component
    /// and the separator behind it.
    pub open spec fn units_after_next(&self) -> Seq<<P::Str as PathStr>::ComponentType> {
        let s = self.path_units();
        if self.is_finished() {
            s
        } else if self.front_state() == State::StartDir && prefix_len::<P::Str>(s) == 1 {
            s.subrange(1, s.len() as int)
        } else {
            drop_first_token::<P::Str>(trim_front::<P::Str>(s))
        }
    }

    /// The units that are left unconsumed once `next_back` has returned:
    /// the units before the last token that stands for a component and
    /// the separator in front of it, and none where the body holds no
    /// such token.
    pub open spec fn units_after_next_back(&self) -> Seq<<P::Str as PathStr>::ComponentType> {
        let s = self.path_units();
        let t = trim_back::<P::Str>(s, self.reserved());
        if self.is_finished() {
            s
        } else if self.back_state() == State::Body && t.len() > self.reserved() {
            t.subrange(0, cut_before::<P::Str>(t, self.reserved()))
        } else {
            Seq::empty()
        }
    }

    /// The unconsumed units without the tokens at either end that stand for
    /// no component. An end is trimmed only while its cursor is in the body.
    pub open spec fn trimmed_units(&self) -> Seq<<P::Str as PathStr>::ComponentType> {
        let s = self.path_units();
        let left = if self.front_state() == State::Body {
            trim_front::<P::Str>(s)
        } else {
            s
        };
        if self.back_state() == State::Body {
            trim_back::<P::Str>(left, self.reserved())
        } else {
            left
        }
    }

    /// Starts an iterator over the whole of `path`.
    pub fn new(path: &'a P::Str) -> (r: Self)
        ensures
            r.wf(),
            r.is_fresh(),
            r.path_units() == path.units(),
            r.remaining() == components_of::<P::Str>(path.units()),
    {
        let s = path.as_slice();
        let has_root = s.len() > 0 && P::is_separator(s[0]);
        Components { path, has_root, front: State::StartDir, back: State::Body }
    }

    fn is_dot_unit(u: <P::Str as PathStr>::ComponentType) -> (r: bool)
        ensures
            r == is_dot::<P::Str>(u),
    {
        <P::Str as PathStr>::unit_code(u) == 46
    }

    // The component that one token between separators stands for.
    fn parse_single_component(comp: &'a P::Str) -> (r: Option<Component<'a, P>>)
        ensures
            view_of(r) == classify::<P::Str>(comp.units()),
    {
        let s = comp.as_slice();
        // `.` is normalised away, except at the start of a path, which
        // `include_cur_dir` looks after
        if s.len() == 1 && Self::is_dot_unit(s[0]) {
            return None;
        }
        if s.len() == 2 && Self::is_dot_unit(s[0]) && Self::is_dot_unit(s[1]) {
            return Some(Component::Parent);
        }
        if s.len() == 0 {
            return None;
        }
        Some(Component::Normal(comp))
    }

    fn finished(&self) -> (r: bool)
        ensures
            r == self.is_finished(),
    {
        match (self.front, self.back) {
            (State::Done, _) => true,
            (_, State::Done) => true,
            (State::Body, State::StartDir) => true,
            _ => false,
        }
    }

    // Should the normalised path start with `.`?
    fn include_cur_dir(&self) -> (r: bool)
        ensures
            r == (!self.has_root && starts_with_cur_dir::<P::Str>(self.path.units())),
    {
        if self.has_root {
            return false;
        }
        let s = self.path.as_slice();
        if s.len() == 0 || !Self::is_dot_unit(s[0]) {
            false
        } else if s.len() == 1 {
            true
        } else {
            P::is_separator(s[1])
        }
    }

    // How many leading units are kept for a root or `.` that the front has
    // not handed out yet.
    fn len_before_body(&self) -> (r: usize)
        ensures
            r <= 1,
            self.front != State::StartDir ==> r == 0,
            self.front == State::StartDir ==> r == (if self.has_root
                || starts_with_cur_dir::<P::Str>(self.path.units()) {
                1int
            } else {
                0int
            }),
    {
        let at_start = match self.front {
            State::StartDir => true,
            _ => false,
        };
        let root: usize = if at_start && self.has_root { 1 } else { 0 };
        let cur_dir: usize = if at_start && self.include_cur_dir() { 1 } else { 0 };
        root + cur_dir
    }

    // Parses the first token of the body and says how many units to drop
    // from the left to remove it.
    fn parse_next_component(&self) -> (r: (usize, Option<Component<'a, P>>))
        ensures
            r.0 == (if first_sep::<P::Str>(self.path.units()) < self.path.units().len() {
                first_sep::<P::Str>(self.path.units()) + 1
            } else {
                first_sep::<P::Str>(self.path.units())
            }),
            view_of(r.1) == classify::<P::Str>(
                self.path.units().subrange(0, first_sep::<P::Str>(self.path.units())),
            ),
    {
        let s = self.path.as_slice();
        let mut i: usize = 0;
        while i < s.len() && !P::is_separator(s[i])
            invariant
                i <= s.len(),
                sep_free::<P::Str>(s@.subrange(0, i as int)),
            decreases s.len() - i,
        {
            i += 1;
            assert forall|j: int| 0 <= j < i implies !is_sep::<P::Str>(
                #[trigger] s@.subrange(0, i as int)[j],
            ) by {
                if j < i - 1 {
                    assert(s@.subrange(0, i - 1)[j] == s@[j]);
                }
            }
        }
        proof {
            lemma_first_sep_is::<P::Str>(s@, i as int);
        }
        let comp = <P::Str as PathStr>::from_slice(slice_subrange(s, 0, i));
        let extra: usize = if i < s.len() { 1 } else { 0 };
        (i + extra, Self::parse_single_component(comp))
    }

    // One move of the front cursor: out of the start, over one token of
    // the body, or to the end. Hands out the component that it passed, if
    // it passed one.
    fn step_front(&mut self) -> (r: Option<Component<'a, P>>)
        requires
            old(self).wf(),
            !old(self).is_finished(),
        ensures
            final(self).wf(),
            old(self).remaining() == segments_of(r) + final(self).remaining(),
            final(self).back == old(self).back,
            final(self).has_root == old(self).has_root,
            final(self).path.units().len() <= old(self).path.units().len(),
            final(self).path.units() == old(self).path.units().subrange(
                old(self).path.units().len() - final(self).path.units().len(),
                old(self).path.units().len() as int,
            ),
            final(self).path.units().len() < old(self).path.units().len()
                || final(self).front.rank() > old(self).front.rank(),
            r is Some ==> final(self).front == State::Body,
            r is Some || final(self).is_finished() ==> final(self).path.units() == old(
                self,
            ).units_after_next(),
            r is None && !final(self).is_finished() ==> final(self).units_after_next() == old(
                self,
            ).units_after_next(),
    {
        let s = self.path.as_slice();
        let ghost len = s@.len() as int;
        assert(s@.subrange(0, len) =~= s@);
        match self.front {
            State::StartDir => {
                self.front = State::Body;
                if self.has_root {
                    self.path = <P::Str as PathStr>::from_slice(slice_subrange(s, 1, s.len()));
                    assert(old(self).remaining() =~= seq![Segment::Root] + self.remaining());
                    Some(Component::Root)
                } else if self.include_cur_dir() {
                    self.path = <P::Str as PathStr>::from_slice(slice_subrange(s, 1, s.len()));
                    assert(old(self).remaining() =~= seq![Segment::Current] + self.remaining());
                    Some(Component::Current)
                } else {
                    assert(old(self).remaining() =~= self.remaining());
                    assert(prefix_len::<P::Str>(s@) == 0);
                    None
                }
            },
            State::Body => {
                if s.len() > 0 {
                    let (size, comp) = self.parse_next_component();
                    proof {
                        lemma_first_sep_bounds::<P::Str>(s@);
                    }
                    self.path = <P::Str as PathStr>::from_slice(slice_subrange(s, size, s.len()));
                    proof {
                        let n = first_sep::<P::Str>(s@);
                        if n >= len {
                            assert(s@.subrange(0, n) =~= s@);
                            lemma_first_sep_is::<P::Str>(self.path.units(), 0);
                        }
                        assert(old(self).remaining() =~= segments_of(comp) + self.remaining());
                        assert(self.path.units() =~= drop_first_token::<P::Str>(s@));
                        assert(first_token::<P::Str>(s@) == s@.subrange(0, n));
                        if comp is None {
                            assert(trim_front::<P::Str>(s@) == trim_front::<P::Str>(
                                self.path.units(),
                            ));
                        } else {
                            assert(trim_front::<P::Str>(s@) == s@);
                        }
                    }
                    comp
                } else {
                    self.front = State::Done;
                    assert(old(self).remaining() =~= self.remaining());
                    None
                }
            },
            State::Done => None,
        }
    }

    /// The next component from the front, if any is left.
    pub fn next(&mut self) -> (r: Option<Component<'a, P>>)
        requires
            old(self).wf(),
        ensures
            final(self).wf(),
            old(self).remaining().len() == 0 ==> r is None && final(self).remaining().len() == 0,
            old(self).remaining().len() > 0 ==> r is Some && r.unwrap()@ == old(
                self,
            ).remaining().first() && final(self).remaining() == old(
                self,
            ).remaining().drop_first(),
            final(self).back_state() == old(self).back_state(),
            final(self).root_flag() == old(self).root_flag(),
            final(self).path_units().len() <= old(self).path_units().len(),
            final(self).path_units() == old(self).path_units().subrange(
                old(self).path_units().len() - final(self).path_units().len(),
                old(self).path_units().len() as int,
            ),
            final(self).path_units() == old(self).units_after_next(),
            r is Some ==> final(self).front_state() == State::Body,
            r is None ==> final(self).is_finished(),
    {
        assert(self.path.units() =~= self.path.units().subrange(
            0,
            self.path.units().len() as int,
        ));
        while !self.finished()
            invariant
                self.wf(),
                self.remaining() == old(self).remaining(),
                self.back == old(self).back,
                self.has_root == old(self).has_root,
                self.path.units().len() <= old(self).path.units().len(),
                self.path.units() == old(self).path.units().subrange(
                    old(self).path.units().len() - self.path.units().len(),
                    old(self).path.units().len() as int,
                ),
                !self.is_finished() ==> self.units_after_next() == old(self).units_after_next(),
                self.is_finished() ==> self.path.units() == old(self).units_after_next(),
            decreases self.path.units().len(), 2 - self.front.rank(),
        {
            let ghost before = self.path.units();
            let ghost rem = self.remaining();
            let r = self.step_front();
            assert(self.path.units() =~= old(self).path.units().subrange(
                old(self).path.units().len() - self.path.units().len(),
                old(self).path.units().len() as int,
            ));
            if r.is_some() {
                assert(self.remaining() =~= rem.drop_first());
                return r;
            }
            assert(self.remaining() =~= rem);
        }
        None
    }

    // Parses the last token of the body and says how many units to drop
    // from the right to remove it.
    fn parse_next_component_back(&self) -> (r: (usize, Option<Component<'a, P>>))
        requires
            self.wf(),
            !self.is_finished(),
        ensures
            r.0 == self.path.units().len() - cut_before::<P::Str>(
                self.path.units(),
                self.reserved(),
            ),
            view_of(r.1) == classify::<P::Str>(
                self.path.units().subrange(
                    last_token_start::<P::Str>(self.path.units(), self.reserved()),
                    self.path.units().len() as int,
                ),
            ),
    {
        let s = self.path.as_slice();
        let start = self.len_before_body();
        let mut k: usize = s.len();
        assert(s@.subrange(k as int, s@.len() as int) =~= Seq::empty());
        while k > start && !P::is_separator(s[k - 1])
            invariant
                start <= k <= s.len(),
                sep_free::<P::Str>(s@.subrange(k as int, s@.len() as int)),
            decreases k,
        {
            k -= 1;
            assert forall|j: int| 0 <= j < s@.len() - k implies !is_sep::<P::Str>(
                #[trigger] s@.subrange(k as int, s@.len() as int)[j],
            ) by {
                if j > 0 {
                    assert(s@.subrange(k + 1, s@.len() as int)[j - 1] == s@[k + j]);
                }
            }
        }
        proof {
            lemma_last_token_start_is::<P::Str>(s@, start as int, k as int);
        }
        let comp = <P::Str as PathStr>::from_slice(slice_subrange(s, k, s.len()));
        let extra: usize = if k > start { 1 } else { 0 };
        (s.len() - k + extra, Self::parse_single_component(comp))
    }

    // One move of the back cursor: over one token of the body, out of the
    // body, or over the start to the end. Hands out the component that it
    // passed, if it passed one.
    fn step_back(&mut self) -> (r: Option<Component<'a, P>>)
        requires
            old(self).wf(),
            !old(self).is_finished(),
        ensures
            final(self).wf(),
            old(self).remaining() == final(self).remaining() + segments_of(r),
            final(self).front == old(self).front,
            final(self).has_root == old(self).has_root,
            final(self).path.units().len() <= old(self).path.units().len(),
            final(self).path.units() == old(self).path.units().subrange(
                0,
                final(self).path.units().len() as int,
            ),
            final(self).path.units().len() < old(self).path.units().len()
                || final(self).back.moves_left_at_back() < old(self).back.moves_left_at_back(),
            r is Some ==> final(self).back == (if r.unwrap()@ is Root || r.unwrap()@ is Current {
                State::Done
            } else {
                State::Body
            }),
            r is Some || final(self).is_finished() ==> final(self).path.units() == old(
                self,
            ).units_after_next_back(),
            r is None && !final(self).is_finished() ==> final(self).units_after_next_back()
                == old(self).units_after_next_back(),
    {
        let s = self.path.as_slice();
        let ghost len = s@.len() as int;
        assert(s@.subrange(0, len) =~= s@);
        match self.back {
            State::Body => {
                let start = self.len_before_body();
                if s.len() > start {
                    let (size, comp) = self.parse_next_component_back();
                    proof {
                        lemma_last_token_start_bounds::<P::Str>(s@, self.reserved());
                        if self.front == State::StartDir {
                            lemma_prefix_stable::<P::Str>(s@);
                            lemma_components_last_token::<P::Str>(s@);
                        } else {
                            lemma_body_last_token::<P::Str>(s@);
                        }
                    }
                    self.path = <P::Str as PathStr>::from_slice(
                        slice_subrange(s, 0, s.len() - size),
                    );
                    assert(old(self).remaining() =~= self.remaining() + segments_of(comp));
                    comp
                } else {
                    self.back = State::StartDir;
                    assert(old(self).remaining() =~= self.remaining());
                    None
                }
            },
            State::StartDir => {
                self.back = State::Done;
                if self.has_root {
                    self.path = <P::Str as PathStr>::from_slice(slice_subrange(s, 0, s.len() - 1));
                    assert(self.path.units() =~= s@.subrange(0, 0));
                    assert(old(self).remaining() =~= seq![Segment::Root]);
                    Some(Component::Root)
                } else if self.include_cur_dir() {
                    self.path = <P::Str as PathStr>::from_slice(slice_subrange(s, 0, s.len() - 1));
                    assert(self.path.units() =~= s@.subrange(0, 0));
                    assert(old(self).remaining() =~= seq![Segment::Current]);
                    Some(Component::Current)
                } else {
                    assert(old(self).remaining() =~= self.remaining());
                    None
                }
            },
            State::Done => None,
        }
    }

    /// The next component from the back, if any is left.
    pub fn next_back(&mut self) -> (r: Option<Component<'a, P>>)
        requires
            old(self).wf(),
        ensures
            final(self).wf(),
            old(self).remaining().len() == 0 ==> r is None && final(self).remaining().len() == 0,
            old(self).remaining().len() > 0 ==> r is Some && r.unwrap()@ == old(
                self,
            ).remaining().last() && final(self).remaining() == old(self).remaining().drop_last(),
            final(self).front_state() == old(self).front_state(),
            final(self).root_flag() == old(self).root_flag(),
            final(self).path_units().len() <= old(self).path_units().len(),
            final(self).path_units() == old(self).path_units().subrange(
                0,
                final(self).path_units().len() as int,
            ),
            final(self).path_units() == old(self).units_after_next_back(),
            r is Some ==> final(self).back_state() == (if r.unwrap()@ is Root
                || r.unwrap()@ is Current {
                State::Done
            } else {
                State::Body
            }),
            r is None ==> final(self).is_finished(),
    {
        assert(self.path.units() =~= self.path.units().subrange(
            0,
            self.path.units().len() as int,
        ));
        while !self.finished()
            invariant
                self.wf(),
                self.remaining() == old(self).remaining(),
                self.front == old(self).front,
                self.has_root == old(self).has_root,
                self.path.units().len() <= old(self).path.units().len(),
                self.path.units() == old(self).path.units().subrange(
                    0,
                    self.path.units().len() as int,
                ),
                !self.is_finished() ==> self.units_after_next_back() == old(
                    self,
                ).units_after_next_back(),
                self.is_finished() ==> self.path.units() == old(self).units_after_next_back(),
            decreases self.path.units().len(), self.back.moves_left_at_back(),
        {
            let ghost rem = self.remaining();
            let r = self.step_back();
            assert(self.path.units() =~= old(self).path.units().subrange(
                0,
                self.path.units().len() as int,
            ));
            if r.is_some() {
                assert(self.remaining() =~= rem.drop_last());
                return r;
            }
            assert(self.remaining() =~= rem);
        }
        None
    }

    // Drops the leading tokens that stand for no component.
    fn trim_left(&mut self)
        requires
            old(self).wf(),
            old(self).front == State::Body,
        ensures
            final(self).wf(),
            final(self).path.units() == trim_front::<P::Str>(old(self).path.units()),
            final(self).has_root == old(self).has_root,
            final(self).front == old(self).front,
            final(self).back == old(self).back,
    {
        while !self.path.is_empty()
            invariant
                self.wf(),
                self.front == State::Body,
                self.has_root == old(self).has_root,
                self.front == old(self).front,
                self.back == old(self).back,
                trim_front::<P::Str>(self.path.units()) == trim_front::<P::Str>(
                    old(self).path.units(),
                ),
            decreases self.path.units().len(),
        {
            let s = self.path.as_slice();
            let (size, comp) = self.parse_next_component();
            proof {
                lemma_first_sep_bounds::<P::Str>(s@);
            }
            if comp.is_some() {
                return ;
            } else {
                self.path = <P::Str as PathStr>::from_slice(slice_subrange(s, size, s.len()));
                assert(trim_front::<P::Str>(self.path.units()) == trim_front::<P::Str>(s@)) by {
                    let n = first_sep::<P::Str>(s@);
                    if n >= s@.len() {
                        assert(self.path.units() =~= Seq::empty());
                    }
                }
            }
        }
    }

    // Drops the trailing tokens that stand for no component.
    fn trim_right(&mut self)
        requires
            old(self).wf(),
            old(self).back == State::Body,
        ensures
            final(self).wf(),
            final(self).path.units() == trim_back::<P::Str>(
                old(self).path.units(),
                old(self).reserved(),
            ),
            final(self).has_root == old(self).has_root,
            final(self).front == old(self).front,
            final(self).back == old(self).back,
    {
        while self.path.len() > self.len_before_body()
            invariant
                self.wf(),
                self.back == State::Body,
                self.has_root == old(self).has_root,
                self.front == old(self).front,
                self.back == old(self).back,
                self.reserved() == old(self).reserved(),
                trim_back::<P::Str>(self.path.units(), self.reserved()) == trim_back::<P::Str>(
                    old(self).path.units(),
                    old(self).reserved(),
                ),
            decreases self.path.units().len(),
        {
            let s = self.path.as_slice();
            let (size, comp) = self.parse_next_component_back();
            proof {
                lemma_last_token_start_bounds::<P::Str>(s@, self.reserved());
                lemma_prefix_stable::<P::Str>(s@);
            }
            if comp.is_some() {
                return ;
            } else {
                self.path = <P::Str as PathStr>::from_slice(
                    slice_subrange(s, 0, s.len() - size),
                );
            }
        }
    }

    /// The path that is left: the units that have not been consumed,
    /// without the tokens at either end that stand for no component.
    ///
    /// Read as a path of its own, the result has exactly the components
    /// that are still to come.
    pub fn as_path(&self) -> (r: P)
        requires
            self.wf(),
        ensures
            r.units() == self.trimmed_units(),
            components_of::<P::Str>(r.units()) == self.remaining(),
    {
        let mut comps = self.clone();
        proof {
            let s = self.path.units();
            lemma_trim_front::<P::Str>(s);
            lemma_trim_back_components::<P::Str>(s);
            lemma_trim_back_body::<P::Str>(trim_front::<P::Str>(s));
            lemma_trim_back_body::<P::Str>(s);
            if self.front == State::Body && self.back == State::Body {
                lemma_clean_front_no_prefix::<P::Str>(self.trimmed_units());
            }
        }
        match comps.front {
            State::Body => {
                comps.trim_left();
            },
            _ => {},
        }
        match comps.back {
            State::Body => {
                comps.trim_right();
            },
            _ => {},
        }
        P::from_str(comps.path)
    }

    /// Whether the components still to come are the same on both sides.
    pub fn eq(&self, other: &Components<'a, P>) -> (r: bool)
        requires
            self.wf(),
            other.wf(),
        ensures
            r == (self.remaining() == other.remaining()),
    {
        // Fast path for exact matches: the same units in the same state
        // parse to the same components.
        let same_front = match (self.front, other.front) {
            (State::StartDir, State::StartDir) => true,
            (State::Body, State::Body) => true,
            (State::Done, State::Done) => true,
            _ => false,
        };
        let both_in_body = match (self.back, other.back) {
            (State::Body, State::Body) => true,
            _ => false,
        };
        if self.path.len() == other.path.len() && same_front && both_in_body {
            if units_equal::<P::Str>(self.path, other.path) {
                return true;
            }
        }
        let mut a = self.clone();
        let mut b = other.clone();
        // compare back to front, since absolute paths often share long
        // prefixes
        loop
            invariant
                a.wf(),
                b.wf(),
                (a.remaining() == b.remaining()) == (self.remaining() == other.remaining()),
            decreases a.remaining().len(),
        {
            let ghost ra = a.remaining();
            let ghost rb = b.remaining();
            let x = a.next_back();
            let y = b.next_back();
            match (x, y) {
                (None, None) => {
                    assert(ra =~= rb);
                    return true;
                },
                (Some(c), Some(d)) => {
                    proof {
                        assert(ra =~= ra.drop_last().push(ra.last()));
                        assert(rb =~= rb.drop_last().push(rb.last()));
                    }
                    if !(c == d) {
                        return false;
                    }
                },
                _ => {
                    assert(ra.len() != rb.len());
                    return false;
                },
            }
        }
    }
}

impl<'a, P: Path<'a>> Clone for Components<'a, P> {
    fn clone(&self) -> (r: Self)
        ensures
            r == *self,
    {
        Components { path: self.path, has_root: self.has_root, front: self.front, back: self.back }
    }
}

} // verus!
