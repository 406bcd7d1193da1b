//! Paths spelled in 16-bit units.

use super::components::Components;
use super::model::{components_of, is_sep};
use super::owned::{canonical_units, lemma_popped, parent_len, push_units};
use super::{Path, PathBuf, PathOwned};
use vstd::prelude::*;
use vstd::slice::slice_to_vec;
use vstd::std_specs::cmp::PartialEqSpecImpl;
use vstd::std_specs::convert::FromSpecImpl;

verus! {

/// A borrowed path spelled in 16-bit units.
#[derive(Debug, Clone, Copy)]
pub struct U16Path<'a> {
    inner: &'a [u16],
}

/// An owned, growable path spelled in 16-bit units.
#[derive(Debug)]
pub struct U16PathBuf {
    buf: Vec<u16>,
}

impl<'a> View for U16Path<'a> {
    type V = Seq<u16>;

    closed spec fn view(&self) -> Seq<u16> {
        self.inner@
    }
}

impl View for U16PathBuf {
    type V = Seq<u16>;

    closed spec fn view(&self) -> Seq<u16> {
        self.buf@
    }
}

impl<'a> Path<'a> for U16Path<'a> {
    type Str = [u16];

    open spec fn units(&self) -> Seq<u16> {
        self@
    }

    fn current_dir() -> (r: &'static [u16]) {
        let r: &'static [u16] = &[46u16];
        r
    }

    fn parent_dir() -> (r: &'static [u16]) {
        let r: &'static [u16] = &[46u16, 46u16];
        r
    }

    fn separator() -> (r: &'static [u16]) {
        let r: &'static [u16] = &[47u16];
        r
    }

    fn is_separator(t: u16) -> (r: bool) {
        t == 47 || t == 92
    }

    fn root() -> (r: Self) {
        U16Path { inner: Self::separator() }
    }

    fn empty() -> (r: Self) {
        let r: &'static [u16] = &[];
        U16Path { inner: r }
    }

    fn has_root(&self) -> (r: bool) {
        self.inner.len() > 0 && Self::is_separator(self.inner[0])
    }

    fn from_str(s: &'a [u16]) -> (r: Self) {
        U16Path { inner: s }
    }

    fn as_str(&self) -> (r: &'a [u16]) {
        self.inner
    }
}

impl<'a> U16Path<'a> {
    /// An iterator over the components of the path, from either end.
    pub fn components(&self) -> (r: Components<'a, U16Path<'a>>)
        ensures
            r.wf(),
            r.is_fresh(),
            r.path_units() == self@,
            r.remaining() == components_of::<[u16]>(self@),
    {
        Components::new(self.inner)
    }
}

impl<'a> PartialEq for U16Path<'a> {
    fn eq(&self, other: &Self) -> (r: bool) {
        // fast path for exact match
        if super::units_equal::<[u16]>(self.inner, other.inner) {
            return true;
        }
        self.components().eq(&other.components())
    }
}

impl<'a> Eq for U16Path<'a> {

}

impl<'a> PartialEqSpecImpl for U16Path<'a> {
    open spec fn obeys_eq_spec() -> bool {
        true
    }

    open spec fn eq_spec(&self, other: &Self) -> bool {
        components_of::<[u16]>(self@) == components_of::<[u16]>(other@)
    }
}

/// The UTF-16 units of one character: itself below `0x10000`, a surrogate
/// pair above.
pub open spec fn utf16_of_char(c: char) -> Seq<u16> {
    let v = c as u32 as int;
    if v < 0x10000 {
        seq![v as u16]
    } else {
        seq![(0xD800 + (v - 0x10000) / 0x400) as u16, (0xDC00 + (v - 0x10000) % 0x400) as u16]
    }
}

/// The UTF-16 encoding of a text.
pub open spec fn utf16_units(s: Seq<char>) -> Seq<u16>
    decreases s.len(),
{
    if s.len() == 0 {
        Seq::empty()
    } else {
        utf16_units(s.drop_last()) + utf16_of_char(s.last())
    }
}

/// `widestring::U16String::from_str`, and `into_vec` on its result: the
/// text encoded as UTF-16, character by character.
#[verifier::external_body]
fn utf16_of_text(s: &str) -> (r: Vec<u16>)
    ensures
        r@ == utf16_units(s@),
{
    widestring::U16String::from_str(s).into_vec()
}

impl U16PathBuf {
    /// The path that the UTF-16 encoding of `s` spells.
    pub fn from_text(s: &str) -> (r: Self)
        ensures
            r@ == utf16_units(s@),
    {
        U16PathBuf { buf: utf16_of_text(s) }
    }
}

impl From<&str> for U16PathBuf {
    fn from(value: &str) -> (r: Self)
        ensures
            r@ == utf16_units(value@),
    {
        U16PathBuf::from_text(value)
    }
}

impl FromSpecImpl<&str> for U16PathBuf {
    open spec fn obeys_from_spec() -> bool {
        false
    }

    open spec fn from_spec(v: &str) -> Self {
        arbitrary()
    }
}

impl<'a> From<&U16Path<'a>> for U16PathBuf {
    fn from(value: &U16Path<'a>) -> (r: Self)
        ensures
            r@ == value@,
    {
        U16PathBuf { buf: slice_to_vec(value.inner) }
    }
}

impl<'a> FromSpecImpl<&U16Path<'a>> for U16PathBuf {
    open spec fn obeys_from_spec() -> bool {
        false
    }

    open spec fn from_spec(v: &U16Path<'a>) -> Self {
        arbitrary()
    }
}

impl Clone for U16PathBuf {
    fn clone(&self) -> (r: Self)
        ensures
            r@ == self@,
    {
        U16PathBuf { buf: slice_to_vec(self.buf.as_slice()) }
    }
}

impl U16PathBuf {
    /// The path borrowed as a view.
    pub fn as_path(&self) -> (r: U16Path<'_>)
        ensures
            r@ == self@,
    {
        U16Path { inner: self.buf.as_slice() }
    }

    /// An iterator over the components of the path, from either end.
    pub fn components(&self) -> (r: Components<'_, U16Path<'_>>)
        ensures
            r.wf(),
            r.is_fresh(),
            r.path_units() == self@,
            r.remaining() == components_of::<[u16]>(self@),
    {
        Components::new(self.buf.as_slice())
    }

    /// The units of the path.
    pub fn as_slice(&self) -> (r: &[u16])
        ensures
            r@ == self@,
    {
        self.buf.as_slice()
    }

    /// The view that stands for "no key" in a prefix index: the empty path.
    pub fn empty() -> (r: U16Path<'static>)
        ensures
            r@ == Seq::<u16>::empty(),
    {
        U16Path::empty()
    }

    /// Moves a split offset, counted in bytes of the key, back onto a
    /// component boundary: the result is the path before the last
    /// separator at or before the unit that holds byte `loc`.
    pub fn find_break(&self, loc: usize) -> (r: U16Path<'_>)
        requires
            loc / 2 < self@.len(),
            exists|i: int| 0 <= i <= loc / 2 && is_sep::<[u16]>(self@[i]),
        ensures
            r@.len() <= loc / 2,
            r@ == self@.subrange(0, r@.len() as int),
            is_sep::<[u16]>(self@[r@.len() as int]),
            forall|j: int| r@.len() < j <= loc / 2 ==> !is_sep::<[u16]>(self@[j]),
    {
        let half_loc: usize = loc / 2;
        let mut at: usize = half_loc;
        while !U16Path::is_separator(self.buf[at])
            invariant
                at <= half_loc < self.buf@.len(),
                exists|i: int| 0 <= i <= at && is_sep::<[u16]>(self.buf@[i]),
                forall|j: int| at < j <= half_loc ==> !is_sep::<[u16]>(self.buf@[j]),
            decreases at,
        {
            at -= 1;
        }
        U16Path { inner: vstd::slice::slice_subrange(self.buf.as_slice(), 0, at) }
    }
}

impl PartialEq for U16PathBuf {
    fn eq(&self, other: &Self) -> (r: bool) {
        self.as_path() == other.as_path()
    }
}

impl Eq for U16PathBuf {

}

impl PartialEqSpecImpl for U16PathBuf {
    open spec fn obeys_eq_spec() -> bool {
        true
    }

    open spec fn eq_spec(&self, other: &Self) -> bool {
        components_of::<[u16]>(self@) == components_of::<[u16]>(other@)
    }
}

impl PathBuf for U16PathBuf {
    type Str = [u16];

    open spec fn units(&self) -> Seq<u16> {
        self@
    }

    fn new() -> (r: Self) {
        U16PathBuf { buf: Vec::new() }
    }

    fn push(&mut self, entry: &[u16]) {
        push_units::<[u16]>(&mut self.buf, entry);
    }

    fn pop(&mut self) {
        let n = parent_len::<U16Path<'_>>(self.buf.as_slice());
        proof {
            lemma_popped::<[u16]>(self.buf@);
        }
        self.buf.truncate(n);
    }
}

impl PathOwned for U16PathBuf {
    fn from_units(s: &[u16]) -> (r: Self) {
        U16PathBuf { buf: slice_to_vec(s) }
    }

    fn as_str(&self) -> (r: &[u16]) {
        self.buf.as_slice()
    }

    fn canonical(&self) -> (r: (Vec<u16>, Vec<usize>)) {
        canonical_units::<U16Path<'_>>(self.buf.as_slice())
    }
}

} // verus!
