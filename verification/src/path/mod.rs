//! Paths as sequences of text units, for two unit widths.

use vstd::prelude::*;
use vstd::slice::slice_to_vec;

pub mod components;
pub mod laws;
pub mod model;
pub mod order;
pub mod owned;
pub mod u16path;
pub mod u8path;

pub use components::{Component, Components};
pub use u16path::{U16Path, U16PathBuf};
pub use u8path::{U8Path, U8PathBuf};

use model::{components_of, is_sep, starts_with_root};
use owned::{canonical, marks_prefixes, popped, pushed};

verus! {

/// A borrowed string of text units: the storage that a path view looks at.
///
/// Any sequence of units is a legal path spelling; nothing is validated.
pub trait PathStr {
    /// One text unit of the encoding.
    type ComponentType: Copy;

    /// The units of the string, in order.
    spec fn units(&self) -> Seq<Self::ComponentType>;

    /// The code point that a unit stands for when read on its own.
    spec fn code(t: Self::ComponentType) -> int;

    /// The unit that spells a seven-bit code point.
    spec fn unit_of(c: int) -> Self::ComponentType;

    /// Distinct units have distinct codes.
    proof fn code_is_injective(a: Self::ComponentType, b: Self::ComponentType)
        ensures
            Self::code(a) == Self::code(b) ==> a == b,
    ;

    /// Every seven-bit code point has a unit that spells it.
    proof fn unit_of_has_code(c: int)
        requires
            0 <= c < 128,
        ensures
            Self::code(Self::unit_of(c)) == c,
    ;

    fn unit_code(t: Self::ComponentType) -> (r: u32)
        ensures
            r == Self::code(t),
    ;

    fn unit_from_ascii(c: u8) -> (r: Self::ComponentType)
        requires
            c < 128,
        ensures
            r == Self::unit_of(c as int),
    ;

    fn as_slice(&self) -> (r: &[Self::ComponentType])
        ensures
            r@ == self.units(),
    ;

    fn len(&self) -> (r: usize)
        ensures
            r == self.units().len(),
    ;

    fn is_empty(&self) -> (r: bool)
        ensures
            r == (self.units().len() == 0),
    ;

    fn from_slice(slice: &[Self::ComponentType]) -> (r: &Self)
        ensures
            r.units() == slice@,
    ;

    /// The bytes that stand for a string of units in a byte-keyed index.
    spec fn key_bytes(units: Seq<Self::ComponentType>) -> Seq<u8>;

    /// Different strings have different bytes.
    proof fn key_bytes_is_injective(a: Seq<Self::ComponentType>, b: Seq<Self::ComponentType>)
        ensures
            Self::key_bytes(a) == Self::key_bytes(b) ==> a == b,
    ;

    fn to_key(&self) -> (r: Vec<u8>)
        ensures
            r@ == Self::key_bytes(self.units()),
    ;
}

impl PathStr for [u8] {
    type ComponentType = u8;

    open spec fn units(&self) -> Seq<u8> {
        self@
    }

    open spec fn code(t: u8) -> int {
        t as int
    }

    open spec fn unit_of(c: int) -> u8 {
        c as u8
    }

    proof fn code_is_injective(a: u8, b: u8) {
    }

    proof fn unit_of_has_code(c: int) {
    }

    fn unit_code(t: u8) -> (r: u32) {
        t as u32
    }

    fn unit_from_ascii(c: u8) -> (r: u8) {
        c
    }

    fn as_slice(&self) -> (r: &[u8]) {
        self
    }

    fn len(&self) -> (r: usize) {
        <[u8]>::len(self)
    }

    fn is_empty(&self) -> (r: bool) {
        <[u8]>::len(self) == 0
    }

    fn from_slice(slice: &[u8]) -> (r: &Self) {
        slice
    }

    open spec fn key_bytes(units: Seq<u8>) -> Seq<u8> {
        units
    }

    proof fn key_bytes_is_injective(a: Seq<u8>, b: Seq<u8>) {
    }

    fn to_key(&self) -> (r: Vec<u8>) {
        slice_to_vec(self)
    }
}

impl PathStr for [u16] {
    type ComponentType = u16;

    open spec fn units(&self) -> Seq<u16> {
        self@
    }

    open spec fn code(t: u16) -> int {
        t as int
    }

    open spec fn unit_of(c: int) -> u16 {
        c as u16
    }

    proof fn code_is_injective(a: u16, b: u16) {
    }

    proof fn unit_of_has_code(c: int) {
    }

    fn unit_code(t: u16) -> (r: u32) {
        t as u32
    }

    fn unit_from_ascii(c: u8) -> (r: u16) {
        c as u16
    }

    fn as_slice(&self) -> (r: &[u16]) {
        self
    }

    fn len(&self) -> (r: usize) {
        <[u16]>::len(self)
    }

    fn is_empty(&self) -> (r: bool) {
        <[u16]>::len(self) == 0
    }

    fn from_slice(slice: &[u16]) -> (r: &Self) {
        slice
    }

    /// Two bytes for each unit, the low one first.
    open spec fn key_bytes(units: Seq<u16>) -> Seq<u8> {
        Seq::new(
            2 * units.len(),
            |i: int|
                if i % 2 == 0 {
                    (units[i / 2] % 256) as u8
                } else {
                    (units[i / 2] / 256) as u8
                },
        )
    }

    proof fn key_bytes_is_injective(a: Seq<u16>, b: Seq<u16>) {
        if Self::key_bytes(a) == Self::key_bytes(b) {
            assert(2 * a.len() == Self::key_bytes(a).len());
            assert(2 * b.len() == Self::key_bytes(b).len());
            assert forall|i: int| 0 <= i < a.len() implies a[i] == b[i] by {
                assert(Self::key_bytes(a)[2 * i] == Self::key_bytes(b)[2 * i]);
                assert(Self::key_bytes(a)[2 * i + 1] == Self::key_bytes(b)[2 * i + 1]);
            }
            assert(a =~= b);
        }
    }

    fn to_key(&self) -> (r: Vec<u8>) {
        let mut out: Vec<u8> = Vec::new();
        let mut i: usize = 0;
        while i < <[u16]>::len(self)
            invariant
                i <= self@.len(),
                out@ == Self::key_bytes(self@.subrange(0, i as int)),
            decreases self@.len() - i,
        {
            let u = self[i];
            out.push((u % 256) as u8);
            out.push((u / 256) as u8);
            i += 1;
            assert(out@ =~= Self::key_bytes(self@.subrange(0, i as int)));
        }
        assert(self@.subrange(0, i as int) =~= self@);
        out
    }
}

/// A borrowed view of a path in one encoding.
///
/// A view is never changed in place: trimming and normalising hand out
/// other views over the same storage.
pub trait Path<'a>: Sized {
    /// The string type that the view looks at.
    type Str: PathStr + ?Sized + 'static;

    /// The units that the view spells, in order.
    spec fn units(&self) -> Seq<<Self::Str as PathStr>::ComponentType>;

    /// The spelling of the current directory, `.`.
    fn current_dir() -> (r: &'static Self::Str)
        ensures
            r.units() == seq![<Self::Str as PathStr>::unit_of(46)],
    ;

    /// The spelling of the parent directory, `..`.
    fn parent_dir() -> (r: &'static Self::Str)
        ensures
            r.units() == seq![
                <Self::Str as PathStr>::unit_of(46),
                <Self::Str as PathStr>::unit_of(46),
            ],
    ;

    /// The canonical separator, `/`.
    fn separator() -> (r: &'static Self::Str)
        ensures
            r.units() == seq![<Self::Str as PathStr>::unit_of(47)],
    ;

    /// Whether a unit separates components: `/` and `\\` do, in either width.
    fn is_separator(t: <Self::Str as PathStr>::ComponentType) -> (r: bool)
        ensures
            r == is_sep::<Self::Str>(t),
    ;

    /// The view of `/`.
    fn root() -> (r: Self)
        ensures
            r.units() == seq![<Self::Str as PathStr>::unit_of(47)],
    ;

    /// The view of the empty path.
    fn empty() -> (r: Self)
        ensures
            r.units() == Seq::<<Self::Str as PathStr>::ComponentType>::empty(),
    ;

    /// Whether the first unit is a separator.
    fn has_root(&self) -> (r: bool)
        ensures
            r == starts_with_root::<Self::Str>(self.units()),
    ;

    /// Reads a string as a path, without copying or checking it.
    fn from_str(s: &'a Self::Str) -> (r: Self)
        ensures
            r.units() == s.units(),
    ;

    /// The string that the view looks at.
    fn as_str(&self) -> (r: &'a Self::Str)
        ensures
            r.units() == self.units(),
    ;
}

/// Whether two strings hold the same units.
pub fn units_equal<S: PathStr + ?Sized>(a: &S, b: &S) -> (r: bool)
    ensures
        r == (a.units() == b.units()),
{
    let x = a.as_slice();
    let y = b.as_slice();
    if x.len() != y.len() {
        return false;
    }
    let mut i: usize = 0;
    while i < x.len()
        invariant
            i <= x.len(),
            x@ == a.units(),
            y@ == b.units(),
            x@.len() == y@.len(),
            x@.subrange(0, i as int) == y@.subrange(0, i as int),
        decreases x.len() - i,
    {
        if S::unit_code(x[i]) != S::unit_code(y[i]) {
            assert(x@[i as int] != y@[i as int]);
            return false;
        }
        proof {
            S::code_is_injective(x@[i as int], y@[i as int]);
            assert(x@.subrange(0, i + 1) =~= x@.subrange(0, i as int).push(x@[i as int]));
            assert(y@.subrange(0, i + 1) =~= y@.subrange(0, i as int).push(y@[i as int]));
        }
        i += 1;
    }
    assert(x@ =~= x@.subrange(0, i as int));
    assert(y@ =~= y@.subrange(0, i as int));
    true
}

/// A growable buffer that holds a path and changes by whole components.
pub trait PathBuf: Sized {
    /// The string type of the components that go in.
    type Str: PathStr + ?Sized + 'static;

    /// The units that the buffer holds, in order.
    spec fn units(&self) -> Seq<<Self::Str as PathStr>::ComponentType>;

    /// The empty path.
    fn new() -> (r: Self)
        ensures
            r.units() == Seq::<<Self::Str as PathStr>::ComponentType>::empty(),
    ;

    /// Appends one component. An empty component and `.` change nothing;
    /// `..` is appended as it is and removes nothing.
    fn push(&mut self, entry: &Self::Str)
        ensures
            final(self).units() == pushed::<Self::Str>(old(self).units(), entry.units()),
    ;

    /// Removes the last component, with what separates it from the one
    /// before. The empty path and a path that is only a root stay as they
    /// are.
    fn pop(&mut self)
        ensures
            final(self).units() == popped::<Self::Str>(old(self).units()),
    ;
}

/// An owned path that can be borrowed as a string and key a prefix index.
pub trait PathOwned: PathBuf + Clone {
    /// The path that holds the units of `s`.
    fn from_units(s: &Self::Str) -> (r: Self)
        ensures
            r.units() == s.units(),
    ;

    /// The string that the buffer holds.
    fn as_str(&self) -> (r: &Self::Str)
        ensures
            r.units() == self.units(),
    ;

    /// The canonical spelling of the path, and where in it the spelling of
    /// each leading run of its components ends.
    fn canonical(&self) -> (r: (Vec<<Self::Str as PathStr>::ComponentType>, Vec<usize>))
        ensures
            r.0@ == canonical::<Self::Str>(self.units()),
            marks_prefixes::<Self::Str>(
                components_of::<Self::Str>(self.units()),
                r.0@,
                r.1@,
            ),
    ;
}

} // verus!
