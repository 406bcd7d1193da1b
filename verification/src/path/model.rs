//! What a path spelling means: its sequence of components.

use super::PathStr;
use vstd::prelude::*;

verus! {

/// One component of a path, as a mathematical value.
pub enum Segment<T> {
    Root,
    Current,
    Parent,
    Normal(Seq<T>),
}

/// `/` and `\` both separate components.
pub open spec fn is_sep_code(c: int) -> bool {
    c == 47 || c == 92
}

pub open spec fn is_dot_code(c: int) -> bool {
    c == 46
}

pub open spec fn is_sep<S: PathStr + ?Sized>(u: S::ComponentType) -> bool {
    is_sep_code(S::code(u))
}

pub open spec fn is_dot<S: PathStr + ?Sized>(u: S::ComponentType) -> bool {
    is_dot_code(S::code(u))
}

/// No unit of `s` is a separator.
pub open spec fn sep_free<S: PathStr + ?Sized>(s: Seq<S::ComponentType>) -> bool {
    forall|i: int| 0 <= i < s.len() ==> !is_sep::<S>(#[trigger] s[i])
}

/// The index of the first separator of `s`, or its length where it has none.
pub open spec fn first_sep<S: PathStr + ?Sized>(s: Seq<S::ComponentType>) -> int
    decreases s.len(),
{
    if s.len() == 0 || is_sep::<S>(s[0]) {
        0
    } else {
        1 + first_sep::<S>(s.drop_first())
    }
}

pub open spec fn is_cur_token<S: PathStr + ?Sized>(tok: Seq<S::ComponentType>) -> bool {
    tok.len() == 1 && is_dot::<S>(tok[0])
}

pub open spec fn is_parent_token<S: PathStr + ?Sized>(tok: Seq<S::ComponentType>) -> bool {
    tok.len() == 2 && is_dot::<S>(tok[0]) && is_dot::<S>(tok[1])
}

/// The component that one token between separators stands for, if any:
/// an empty token and `.` stand for none.
pub open spec fn classify<S: PathStr + ?Sized>(tok: Seq<S::ComponentType>) -> Option<
    Segment<S::ComponentType>,
> {
    if tok.len() == 0 || is_cur_token::<S>(tok) {
        None
    } else if is_parent_token::<S>(tok) {
        Some(Segment::Parent)
    } else {
        Some(Segment::Normal(tok))
    }
}

/// The components of one token, as a sequence of length zero or one.
pub open spec fn token_segments<S: PathStr + ?Sized>(tok: Seq<S::ComponentType>) -> Seq<
    Segment<S::ComponentType>,
> {
    match classify::<S>(tok) {
        None => Seq::empty(),
        Some(c) => seq![c],
    }
}

/// The components of a path body: its tokens between separators, in order,
/// without the empty ones and without `.`.
pub open spec fn body<S: PathStr + ?Sized>(s: Seq<S::ComponentType>) -> Seq<
    Segment<S::ComponentType>,
>
    decreases s.len(),
{
    let n = first_sep::<S>(s);
    if 0 <= n < s.len() {
        token_segments::<S>(s.subrange(0, n)) + body::<S>(s.subrange(n + 1, s.len() as int))
    } else {
        token_segments::<S>(s)
    }
}

/// The path starts at the root: its first unit is a separator.
pub open spec fn starts_with_root<S: PathStr + ?Sized>(s: Seq<S::ComponentType>) -> bool {
    s.len() > 0 && is_sep::<S>(s[0])
}

/// The path starts with `.` as a whole token.
pub open spec fn starts_with_cur_dir<S: PathStr + ?Sized>(s: Seq<S::ComponentType>) -> bool {
    s.len() > 0 && is_dot::<S>(s[0]) && (s.len() == 1 || is_sep::<S>(s[1]))
}

/// How many leading units spell the root or the leading `.`: zero or one.
pub open spec fn prefix_len<S: PathStr + ?Sized>(s: Seq<S::ComponentType>) -> int {
    if starts_with_root::<S>(s) || starts_with_cur_dir::<S>(s) {
        1
    } else {
        0
    }
}

/// The component that the leading unit spells, if any.
pub open spec fn prefix_segments<S: PathStr + ?Sized>(s: Seq<S::ComponentType>) -> Seq<
    Segment<S::ComponentType>,
> {
    if starts_with_root::<S>(s) {
        seq![Segment::Root]
    } else if starts_with_cur_dir::<S>(s) {
        seq![Segment::Current]
    } else {
        Seq::empty()
    }
}

/// The normalised component sequence of a path spelling.
pub open spec fn components_of<S: PathStr + ?Sized>(s: Seq<S::ComponentType>) -> Seq<
    Segment<S::ComponentType>,
> {
    prefix_segments::<S>(s) + body::<S>(s.subrange(prefix_len::<S>(s), s.len() as int))
}

/// `first_sep` is in range, nothing before it separates, and where it is
/// inside the sequence a separator stands there.
pub proof fn lemma_first_sep_bounds<S: PathStr + ?Sized>(s: Seq<S::ComponentType>)
    ensures
        0 <= first_sep::<S>(s) <= s.len(),
        sep_free::<S>(s.subrange(0, first_sep::<S>(s))),
        first_sep::<S>(s) < s.len() ==> is_sep::<S>(s[first_sep::<S>(s)]),
    decreases s.len(),
{
    if s.len() == 0 || is_sep::<S>(s[0]) {
    } else {
        let t = s.drop_first();
        lemma_first_sep_bounds::<S>(t);
        let n = first_sep::<S>(s);
        assert forall|i: int| 0 <= i < n implies !is_sep::<S>(#[trigger] s.subrange(0, n)[i]) by {
            if i > 0 {
                assert(s[i] == t.subrange(0, n - 1)[i - 1]);
            }
        }
    }
}

/// The first separator is where nothing before separates and a separator,
/// or the end, stands.
pub proof fn lemma_first_sep_is<S: PathStr + ?Sized>(s: Seq<S::ComponentType>, i: int)
    requires
        0 <= i <= s.len(),
        sep_free::<S>(s.subrange(0, i)),
        i < s.len() ==> is_sep::<S>(s[i]),
    ensures
        first_sep::<S>(s) == i,
    decreases s.len(),
{
    if s.len() == 0 {
    } else if is_sep::<S>(s[0]) {
        if i > 0 {
            assert(s.subrange(0, i)[0] == s[0]);
        }
    } else {
        let t = s.drop_first();
        assert forall|j: int| 0 <= j < i - 1 implies !is_sep::<S>(
            #[trigger] t.subrange(0, i - 1)[j],
        ) by {
            assert(t.subrange(0, i - 1)[j] == s.subrange(0, i)[j + 1]);
        }
        lemma_first_sep_is::<S>(t, i - 1);
    }
}

/// A body without separators is one token.
pub proof fn lemma_body_sep_free<S: PathStr + ?Sized>(s: Seq<S::ComponentType>)
    requires
        sep_free::<S>(s),
    ensures
        body::<S>(s) == token_segments::<S>(s),
{
    assert(s.subrange(0, s.len() as int) =~= s);
    lemma_first_sep_is::<S>(s, s.len() as int);
}

/// A body splits at any of its separators into the bodies on either side.
pub proof fn lemma_body_split<S: PathStr + ?Sized>(s: Seq<S::ComponentType>, i: int)
    requires
        0 <= i < s.len(),
        is_sep::<S>(s[i]),
    ensures
        body::<S>(s) == body::<S>(s.subrange(0, i)) + body::<S>(
            s.subrange(i + 1, s.len() as int),
        ),
    decreases s.len(),
{
    let n = first_sep::<S>(s);
    let len = s.len() as int;
    lemma_first_sep_bounds::<S>(s);
    let left = s.subrange(0, i);
    if n > i {
        assert(s.subrange(0, n)[i] == s[i]);
    }
    if n == i {
        lemma_body_sep_free::<S>(left);
    } else {
        let t = s.subrange(n + 1, len);
        assert(t[i - n - 1] == s[i]);
        lemma_body_split::<S>(t, i - n - 1);
        assert(t.subrange(0, i - n - 1) =~= s.subrange(n + 1, i));
        assert(t.subrange(i - n, t.len() as int) =~= s.subrange(i + 1, len));
        assert forall|j: int| 0 <= j < n implies !is_sep::<S>(
            #[trigger] left.subrange(0, n)[j],
        ) by {
            assert(left.subrange(0, n)[j] == s.subrange(0, n)[j]);
        }
        assert(left[n] == s[n]);
        lemma_first_sep_is::<S>(left, n);
        assert(left.subrange(0, n) =~= s.subrange(0, n));
        assert(left.subrange(n + 1, left.len() as int) =~= s.subrange(n + 1, i));
        assert(body::<S>(left) == token_segments::<S>(s.subrange(0, n)) + body::<S>(
            s.subrange(n + 1, i),
        ));
        assert(body::<S>(s) =~= body::<S>(left) + body::<S>(s.subrange(i + 1, len)));
    }
}

/// Where the last token of `s` starts, looking no further left than `pre`.
pub open spec fn last_token_start<S: PathStr + ?Sized>(s: Seq<S::ComponentType>, pre: int) -> int
    decreases s.len(),
{
    if s.len() <= pre || s.len() == 0 || is_sep::<S>(s.last()) {
        s.len() as int
    } else {
        last_token_start::<S>(s.drop_last(), pre)
    }
}

/// The last token starts at or after `pre`, holds no separator, and where it
/// starts after `pre` a separator stands before it.
pub proof fn lemma_last_token_start_bounds<S: PathStr + ?Sized>(
    s: Seq<S::ComponentType>,
    pre: int,
)
    requires
        0 <= pre <= s.len(),
    ensures
        pre <= last_token_start::<S>(s, pre) <= s.len(),
        sep_free::<S>(s.subrange(last_token_start::<S>(s, pre), s.len() as int)),
        last_token_start::<S>(s, pre) > pre ==> is_sep::<S>(
            s[last_token_start::<S>(s, pre) - 1],
        ),
    decreases s.len(),
{
    if s.len() <= pre || s.len() == 0 || is_sep::<S>(s.last()) {
    } else {
        let t = s.drop_last();
        lemma_last_token_start_bounds::<S>(t, pre);
        let k = last_token_start::<S>(s, pre);
        assert forall|i: int| 0 <= i < s.len() - k implies !is_sep::<S>(
            #[trigger] s.subrange(k, s.len() as int)[i],
        ) by {
            if i < s.len() - k - 1 {
                assert(s.subrange(k, s.len() as int)[i] == t.subrange(k, t.len() as int)[i]);
            }
        }
    }
}

/// The last token starts where what follows holds no separator and a
/// separator, or the bound `pre`, stands before.
pub proof fn lemma_last_token_start_is<S: PathStr + ?Sized>(
    s: Seq<S::ComponentType>,
    pre: int,
    k: int,
)
    requires
        0 <= pre <= k <= s.len(),
        sep_free::<S>(s.subrange(k, s.len() as int)),
        k > pre ==> is_sep::<S>(s[k - 1]),
    ensures
        last_token_start::<S>(s, pre) == k,
    decreases s.len(),
{
    if s.len() <= pre || s.len() == 0 {
    } else if is_sep::<S>(s.last()) {
        if k < s.len() {
            assert(s.subrange(k, s.len() as int)[s.len() - 1 - k] == s.last());
        }
    } else {
        let t = s.drop_last();
        assert forall|i: int| 0 <= i < t.len() - k implies !is_sep::<S>(
            #[trigger] t.subrange(k, t.len() as int)[i],
        ) by {
            assert(t.subrange(k, t.len() as int)[i] == s.subrange(k, s.len() as int)[i]);
        }
        lemma_last_token_start_is::<S>(t, pre, k);
    }
}

/// Where the token that ends at the end of `s` is cut off: before the
/// separator in front of it, if there is one after `pre`.
pub open spec fn cut_before<S: PathStr + ?Sized>(s: Seq<S::ComponentType>, pre: int) -> int {
    let k = last_token_start::<S>(s, pre);
    if k > pre {
        k - 1
    } else {
        k
    }
}

/// The empty body has no components.
pub proof fn lemma_body_empty<S: PathStr + ?Sized>()
    ensures
        body::<S>(Seq::<S::ComponentType>::empty()) == Seq::<Segment<S::ComponentType>>::empty(),
{
}

/// A body is the body before its last token, then that token.
pub proof fn lemma_body_last_token<S: PathStr + ?Sized>(s: Seq<S::ComponentType>)
    ensures
        body::<S>(s) == body::<S>(s.subrange(0, cut_before::<S>(s, 0))) + token_segments::<S>(
            s.subrange(last_token_start::<S>(s, 0), s.len() as int),
        ),
{
    let k = last_token_start::<S>(s, 0);
    lemma_last_token_start_bounds::<S>(s, 0);
    let tail = s.subrange(k, s.len() as int);
    lemma_body_sep_free::<S>(tail);
    if k > 0 {
        lemma_body_split::<S>(s, k - 1);
    } else {
        assert(tail =~= s);
        assert(s.subrange(0, 0) =~= Seq::<S::ComponentType>::empty());
        assert(body::<S>(s) =~= body::<S>(s.subrange(0, 0)) + token_segments::<S>(tail));
    }
}

/// Cutting the last token off a path leaves its root or leading `.` alone.
pub proof fn lemma_prefix_stable<S: PathStr + ?Sized>(s: Seq<S::ComponentType>)
    ensures
        prefix_len::<S>(s.subrange(0, cut_before::<S>(s, prefix_len::<S>(s)))) == prefix_len::<S>(
            s,
        ),
        prefix_segments::<S>(s.subrange(0, cut_before::<S>(s, prefix_len::<S>(s))))
            == prefix_segments::<S>(s),
        starts_with_root::<S>(s.subrange(0, cut_before::<S>(s, prefix_len::<S>(s))))
            == starts_with_root::<S>(s),
        starts_with_cur_dir::<S>(s.subrange(0, cut_before::<S>(s, prefix_len::<S>(s))))
            == starts_with_cur_dir::<S>(s),
{
    let pre = prefix_len::<S>(s);
    lemma_last_token_start_bounds::<S>(s, pre);
    let cut = cut_before::<S>(s, pre);
    let t = s.subrange(0, cut);
    if cut > 0 {
        assert(t[0] == s[0]);
    }
    if cut > 1 {
        assert(t[1] == s[1]);
    }
}

/// The components of a path are those before its last token, then that
/// token.
pub proof fn lemma_components_last_token<S: PathStr + ?Sized>(s: Seq<S::ComponentType>)
    ensures
        components_of::<S>(s) == components_of::<S>(
            s.subrange(0, cut_before::<S>(s, prefix_len::<S>(s))),
        ) + token_segments::<S>(
            s.subrange(last_token_start::<S>(s, prefix_len::<S>(s)), s.len() as int),
        ),
{
    let pre = prefix_len::<S>(s);
    let len = s.len() as int;
    let k = last_token_start::<S>(s, pre);
    let cut = cut_before::<S>(s, pre);
    lemma_last_token_start_bounds::<S>(s, pre);
    lemma_prefix_stable::<S>(s);
    let b = s.subrange(pre, len);
    let t = s.subrange(0, cut);
    assert(b.subrange(k - pre, b.len() as int) =~= s.subrange(k, len));
    if k > pre {
        assert(b[k - 1 - pre] == s[k - 1]);
    }
    lemma_last_token_start_is::<S>(b, 0, k - pre);
    lemma_body_last_token::<S>(b);
    assert(b.subrange(0, cut - pre) =~= t.subrange(pre, t.len() as int));
    assert(components_of::<S>(s) =~= components_of::<S>(t) + token_segments::<S>(
        s.subrange(k, len),
    ));
}

/// The first token of `s`.
pub open spec fn first_token<S: PathStr + ?Sized>(s: Seq<S::ComponentType>) -> Seq<
    S::ComponentType,
> {
    s.subrange(0, first_sep::<S>(s))
}

/// The last token of `s`, looking no further left than `pre`.
pub open spec fn last_token<S: PathStr + ?Sized>(s: Seq<S::ComponentType>, pre: int) -> Seq<
    S::ComponentType,
> {
    s.subrange(last_token_start::<S>(s, pre), s.len() as int)
}

/// `s` without its first token and the separator behind it.
pub open spec fn drop_first_token<S: PathStr + ?Sized>(s: Seq<S::ComponentType>) -> Seq<
    S::ComponentType,
> {
    let n = first_sep::<S>(s);
    if 0 <= n < s.len() {
        s.subrange(n + 1, s.len() as int)
    } else {
        Seq::empty()
    }
}

/// `s` without the leading tokens that stand for no component.
pub open spec fn trim_front<S: PathStr + ?Sized>(s: Seq<S::ComponentType>) -> Seq<
    S::ComponentType,
>
    decreases s.len(),
{
    if s.len() == 0 || classify::<S>(first_token::<S>(s)) is Some {
        s
    } else if drop_first_token::<S>(s).len() < s.len() {
        trim_front::<S>(drop_first_token::<S>(s))
    } else {
        Seq::empty()
    }
}

/// `s` without the trailing tokens that stand for no component, keeping its
/// first `pre` units in any case.
pub open spec fn trim_back<S: PathStr + ?Sized>(s: Seq<S::ComponentType>, pre: int) -> Seq<
    S::ComponentType,
>
    decreases s.len(),
{
    let cut = cut_before::<S>(s, pre);
    if pre < 0 || s.len() <= pre || classify::<S>(last_token::<S>(s, pre)) is Some {
        s
    } else if 0 <= cut < s.len() {
        trim_back::<S>(s.subrange(0, cut), pre)
    } else {
        s
    }
}

/// `s` is empty or starts with a token that stands for a component.
pub open spec fn clean_front<S: PathStr + ?Sized>(s: Seq<S::ComponentType>) -> bool {
    s.len() == 0 || classify::<S>(first_token::<S>(s)) is Some
}

/// `s` is no longer than `pre` or ends with a token that stands for a
/// component.
pub open spec fn clean_back<S: PathStr + ?Sized>(s: Seq<S::ComponentType>, pre: int) -> bool {
    s.len() <= pre || classify::<S>(last_token::<S>(s, pre)) is Some
}

/// Trimming at the front keeps the body's components, leaves a suffix, and
/// leaves it clean.
pub proof fn lemma_trim_front<S: PathStr + ?Sized>(s: Seq<S::ComponentType>)
    ensures
        body::<S>(trim_front::<S>(s)) == body::<S>(s),
        trim_front::<S>(s).len() <= s.len(),
        trim_front::<S>(s) == s.subrange(s.len() - trim_front::<S>(s).len(), s.len() as int),
        clean_front::<S>(trim_front::<S>(s)),
    decreases s.len(),
{
    let n = first_sep::<S>(s);
    let len = s.len() as int;
    lemma_first_sep_bounds::<S>(s);
    if s.len() == 0 || classify::<S>(first_token::<S>(s)) is Some {
        assert(s.subrange(0, len) =~= s);
    } else {
        let t = drop_first_token::<S>(s);
        lemma_trim_front::<S>(t);
        let r = trim_front::<S>(t);
        assert(r =~= s.subrange(len - r.len(), len));
        if n >= len {
            assert(s.subrange(0, n) =~= s);
            lemma_body_empty::<S>();
        }
        assert(body::<S>(s) =~= body::<S>(t));
    }
}

/// Trimming at the back keeps the components of a path, leaves a prefix
/// that still holds the root or leading `.`, and leaves it clean.
pub proof fn lemma_trim_back_components<S: PathStr + ?Sized>(s: Seq<S::ComponentType>)
    ensures
        components_of::<S>(trim_back::<S>(s, prefix_len::<S>(s))) == components_of::<S>(s),
        prefix_len::<S>(s) <= trim_back::<S>(s, prefix_len::<S>(s)).len() <= s.len(),
        trim_back::<S>(s, prefix_len::<S>(s)) == s.subrange(
            0,
            trim_back::<S>(s, prefix_len::<S>(s)).len() as int,
        ),
        prefix_len::<S>(trim_back::<S>(s, prefix_len::<S>(s))) == prefix_len::<S>(s),
        clean_back::<S>(trim_back::<S>(s, prefix_len::<S>(s)), prefix_len::<S>(s)),
    decreases s.len(),
{
    let pre = prefix_len::<S>(s);
    let len = s.len() as int;
    let cut = cut_before::<S>(s, pre);
    lemma_last_token_start_bounds::<S>(s, pre);
    if s.len() <= pre || classify::<S>(last_token::<S>(s, pre)) is Some {
        assert(s.subrange(0, len) =~= s);
    } else {
        let t = s.subrange(0, cut);
        lemma_prefix_stable::<S>(s);
        lemma_components_last_token::<S>(s);
        lemma_trim_back_components::<S>(t);
        let r = trim_back::<S>(t, pre);
        assert(r =~= s.subrange(0, r.len() as int));
        assert(components_of::<S>(s) =~= components_of::<S>(t));
    }
}

/// A clean front is neither a root nor a leading `.`.
pub proof fn lemma_clean_front_no_prefix<S: PathStr + ?Sized>(s: Seq<S::ComponentType>)
    requires
        clean_front::<S>(s),
    ensures
        prefix_len::<S>(s) == 0,
        components_of::<S>(s) == body::<S>(s),
{
    if s.len() > 0 {
        lemma_first_sep_bounds::<S>(s);
        if starts_with_cur_dir::<S>(s) {
            assert(s.subrange(0, 1)[0] == s[0]);
            lemma_first_sep_is::<S>(s, 1);
        }
    }
    assert(s.subrange(0, s.len() as int) =~= s);
    assert(components_of::<S>(s) =~= body::<S>(s));
}

/// Trimming a body at the back keeps its components, leaves a prefix, and
/// leaves both ends clean where the front was clean.
pub proof fn lemma_trim_back_body<S: PathStr + ?Sized>(s: Seq<S::ComponentType>)
    ensures
        body::<S>(trim_back::<S>(s, 0)) == body::<S>(s),
        trim_back::<S>(s, 0).len() <= s.len(),
        trim_back::<S>(s, 0) == s.subrange(0, trim_back::<S>(s, 0).len() as int),
        clean_back::<S>(trim_back::<S>(s, 0), 0),
        clean_front::<S>(s) ==> clean_front::<S>(trim_back::<S>(s, 0)),
    decreases s.len(),
{
    let len = s.len() as int;
    let k = last_token_start::<S>(s, 0);
    let cut = cut_before::<S>(s, 0);
    lemma_last_token_start_bounds::<S>(s, 0);
    if s.len() <= 0 || classify::<S>(last_token::<S>(s, 0)) is Some {
        assert(s.subrange(0, len) =~= s);
    } else {
        let t = s.subrange(0, cut);
        lemma_body_last_token::<S>(s);
        lemma_trim_back_body::<S>(t);
        let r = trim_back::<S>(t, 0);
        assert(r =~= s.subrange(0, r.len() as int));
        assert(body::<S>(s) =~= body::<S>(t));
        if clean_front::<S>(s) {
            let n = first_sep::<S>(s);
            lemma_first_sep_bounds::<S>(s);
            if k == 0 {
                assert(s.subrange(0, len) =~= s);
                lemma_first_sep_is::<S>(s, len);
            } else {
                if n > k - 1 {
                    assert(s.subrange(0, n)[k - 1] == s[k - 1]);
                }
                assert forall|j: int| 0 <= j < n implies !is_sep::<S>(
                    #[trigger] t.subrange(0, n)[j],
                ) by {
                    assert(t.subrange(0, n)[j] == s.subrange(0, n)[j]);
                }
                if n < cut {
                    assert(t[n] == s[n]);
                }
                lemma_first_sep_is::<S>(t, n);
                assert(first_token::<S>(t) =~= first_token::<S>(s));
            }
        }
    }
}

} // verus!
