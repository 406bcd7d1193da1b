//! Paths spelled in bytes.

use super::components::Components;
use super::model::{components_of, is_sep};
use super::owned::{canonical_units, lemma_popped, parent_len, push_units};
use super::{Path, PathBuf, PathOwned};
use vstd::prelude::*;
use vstd::slice::slice_to_vec;
use vstd::std_specs::cmp::PartialEqSpecImpl;
use vstd::std_specs::convert::FromSpecImpl;
use vstd::string::StringSliceAdditionalSpecFns;

verus! {

/// A borrowed path spelled in bytes.
#[derive(Debug, Clone, Copy)]
pub struct U8Path<'a> {
    inner: &'a [u8],
}

/// An owned, growable path spelled in bytes.
#[derive(Debug)]
pub struct U8PathBuf {
    buf: Vec<u8>,
}

impl<'a> View for U8Path<'a> {
    type V = Seq<u8>;

    closed spec fn view(&self) -> Seq<u8> {
        self.inner@
    }
}

impl View for U8PathBuf {
    type V = Seq<u8>;

    closed spec fn view(&self) -> Seq<u8> {
        self.buf@
    }
}

impl<'a> Path<'a> for U8Path<'a> {
    type Str = [u8];

    open spec fn units(&self) -> Seq<u8> {
        self@
    }

    fn current_dir() -> (r: &'static [u8]) {
        let r: &'static [u8] = &[46u8];
        r
    }

    fn parent_dir() -> (r: &'static [u8]) {
        let r: &'static [u8] = &[46u8, 46u8];
        r
    }

    fn separator() -> (r: &'static [u8]) {
        let r: &'static [u8] = &[47u8];
        r
    }

    fn is_separator(t: u8) -> (r: bool) {
        t == 47 || t == 92
    }

    fn root() -> (r: Self) {
        U8Path { inner: Self::separator() }
    }

    fn empty() -> (r: Self) {
        let r: &'static [u8] = &[];
        U8Path { inner: r }
    }

    fn has_root(&self) -> (r: bool) {
        self.inner.len() > 0 && Self::is_separator(self.inner[0])
    }

    fn from_str(s: &'a [u8]) -> (r: Self) {
        U8Path { inner: s }
    }

    fn as_str(&self) -> (r: &'a [u8]) {
        self.inner
    }
}

impl<'a> U8Path<'a> {
    /// An iterator over the components of the path, from either end.
    pub fn components(&self) -> (r: Components<'a, U8Path<'a>>)
        ensures
            r.wf(),
            r.is_fresh(),
            r.path_units() == self@,
            r.remaining() == components_of::<[u8]>(self@),
    {
        Components::new(self.inner)
    }
}

impl<'a> PartialEq for U8Path<'a> {
    fn eq(&self, other: &Self) -> (r: bool) {
        self.components().eq(&other.components())
    }
}

impl<'a> Eq for U8Path<'a> {

}

impl<'a> PartialEqSpecImpl for U8Path<'a> {
    open spec fn obeys_eq_spec() -> bool {
        true
    }

    open spec fn eq_spec(&self, other: &Self) -> bool {
        components_of::<[u8]>(self@) == components_of::<[u8]>(other@)
    }
}

/// `bstr::BString::from` on a `&str`, and `Vec::from` on its result:
/// the bytes of the text, in order.
#[verifier::external_body]
fn bytes_of_text(s: &str) -> (r: Vec<u8>)
    ensures
        r@ == s.spec_bytes(),
{
    Vec::from(bstr::BString::from(s))
}

impl U8PathBuf {
    /// The path that the bytes of `s` spell.
    pub fn from_text(s: &str) -> (r: Self)
        ensures
            r@ == s.spec_bytes(),
    {
        U8PathBuf { buf: bytes_of_text(s) }
    }
}

impl From<&str> for U8PathBuf {
    fn from(value: &str) -> (r: Self)
        ensures
            r@ == value.spec_bytes(),
    {
        U8PathBuf::from_text(value)
    }
}

impl FromSpecImpl<&str> for U8PathBuf {
    open spec fn obeys_from_spec() -> bool {
        false
    }

    open spec fn from_spec(v: &str) -> Self {
        arbitrary()
    }
}

impl<'a> From<&U8Path<'a>> for U8PathBuf {
    fn from(value: &U8Path<'a>) -> (r: Self)
        ensures
            r@ == value@,
    {
        U8PathBuf { buf: slice_to_vec(value.inner) }
    }
}

impl<'a> FromSpecImpl<&U8Path<'a>> for U8PathBuf {
    open spec fn obeys_from_spec() -> bool {
        false
    }

    open spec fn from_spec(v: &U8Path<'a>) -> Self {
        arbitrary()
    }
}

impl Clone for U8PathBuf {
    fn clone(&self) -> (r: Self)
        ensures
            r@ == self@,
    {
        U8PathBuf { buf: slice_to_vec(self.buf.as_slice()) }
    }
}

impl U8PathBuf {
    /// The path borrowed as a view.
    pub fn as_path(&self) -> (r: U8Path<'_>)
        ensures
            r@ == self@,
    {
        U8Path { inner: self.buf.as_slice() }
    }

    /// An iterator over the components of the path, from either end.
    pub fn components(&self) -> (r: Components<'_, U8Path<'_>>)
        ensures
            r.wf(),
            r.is_fresh(),
            r.path_units() == self@,
            r.remaining() == components_of::<[u8]>(self@),
    {
        Components::new(self.buf.as_slice())
    }

    /// The bytes of the path.
    pub fn as_bytes(&self) -> (r: &[u8])
        ensures
            r@ == self@,
    {
        self.buf.as_slice()
    }

    /// The view that stands for "no key" in a prefix index: the empty path.
    pub fn empty() -> (r: U8Path<'static>)
        ensures
            r@ == Seq::<u8>::empty(),
    {
        U8Path::empty()
    }

    /// Moves a split offset back onto a component boundary: the result is
    /// the path before the last separator at or before `loc`.
    pub fn find_break(&self, loc: usize) -> (r: U8Path<'_>)
        requires
            loc < self@.len(),
            exists|i: int| 0 <= i <= loc && is_sep::<[u8]>(self@[i]),
        ensures
            r@.len() <= loc,
            r@ == self@.subrange(0, r@.len() as int),
            is_sep::<[u8]>(self@[r@.len() as int]),
            forall|j: int| r@.len() < j <= loc ==> !is_sep::<[u8]>(self@[j]),
    {
        let mut at: usize = loc;
        while !U8Path::is_separator(self.buf[at])
            invariant
                at <= loc < self.buf@.len(),
                exists|i: int| 0 <= i <= at && is_sep::<[u8]>(self.buf@[i]),
                forall|j: int| at < j <= loc ==> !is_sep::<[u8]>(self.buf@[j]),
            decreases at,
        {
            at -= 1;
        }
        U8Path { inner: vstd::slice::slice_subrange(self.buf.as_slice(), 0, at) }
    }
}

impl PartialEq for U8PathBuf {
    fn eq(&self, other: &Self) -> (r: bool) {
        // fast path for exact match
        if super::units_equal::<[u8]>(self.buf.as_slice(), other.buf.as_slice()) {
            return true;
        }
        self.as_path() == other.as_path()
    }
}

impl Eq for U8PathBuf {

}

impl PartialEqSpecImpl for U8PathBuf {
    open spec fn obeys_eq_spec() -> bool {
        true
    }

    open spec fn eq_spec(&self, other: &Self) -> bool {
        components_of::<[u8]>(self@) == components_of::<[u8]>(other@)
    }
}

impl PathBuf for U8PathBuf {
    type Str = [u8];

    open spec fn units(&self) -> Seq<u8> {
        self@
    }

    fn new() -> (r: Self) {
        U8PathBuf { buf: Vec::new() }
    }

    fn push(&mut self, entry: &[u8]) {
        push_units::<[u8]>(&mut self.buf, entry);
    }

    fn pop(&mut self) {
        let n = parent_len::<U8Path<'_>>(self.buf.as_slice());
        proof {
            lemma_popped::<[u8]>(self.buf@);
        }
        self.buf.truncate(n);
    }
}

impl PathOwned for U8PathBuf {
    fn from_units(s: &[u8]) -> (r: Self) {
        U8PathBuf { buf: slice_to_vec(s) }
    }

    fn as_str(&self) -> (r: &[u8]) {
        self.buf.as_slice()
    }

    fn canonical(&self) -> (r: (Vec<u8>, Vec<usize>)) {
        canonical_units::<U8Path<'_>>(self.buf.as_slice())
    }
}

} // verus!
