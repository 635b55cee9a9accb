//! Field descriptors: the identity of one serializable attribute.

use core::marker::PhantomData;
use vstd::prelude::*;
use vstd::utf8::*;

verus! {

/// Whether two strings hold the same characters.
pub fn same_name(a: &str, b: &str) -> (same: bool)
    ensures
        same == (a@ == b@),
{
    let x = a.as_bytes();
    let y = b.as_bytes();
    proof {
        encode_utf8_decode_utf8(a@);
        encode_utf8_decode_utf8(b@);
    }
    if x.len() != y.len() {
        return false;
    }
    let mut i: usize = 0;
    while i < x.len()
        invariant
            i <= x.len(),
            x.len() == y.len(),
            x@ == encode_utf8(a@),
            y@ == encode_utf8(b@),
            forall|j: int| 0 <= j < i ==> x@[j] == y@[j],
        decreases x.len() - i,
    {
        if x[i] != y[i] {
            return false;
        }
        i += 1;
    }
    assert(x@ =~= y@);
    true
}

/// The serialized name of one field, tagged with the container type `T`
/// that owns it.
///
/// The view of a descriptor is its name. The owner exists only as a type:
/// descriptors of two containers never meet in one expression.
#[derive(Debug, Hash)]
pub struct Field<'a, T: ?Sized> {
    name: &'a str,
    _ty: PhantomData<&'a T>,
}

impl<'a, T: ?Sized> View for Field<'a, T> {
    type V = Seq<char>;

    closed spec fn view(&self) -> Seq<char> {
        self.name@
    }
}

impl<'a, T: ?Sized> Field<'a, T> {
    /// Creates a new field.
    ///
    /// The name should be the serialized field name and not the Rust field name.
    pub fn new(name: &'a str) -> (field: Self)
        ensures
            field@ == name@,
    {
        Field { name, _ty: PhantomData }
    }

    /// Returns the field name.
    pub fn name(&self) -> (name: &'a str)
        ensures
            name@ == self@,
    {
        self.name
    }
}

impl<'a, T: ?Sized> Clone for Field<'a, T> {
    fn clone(&self) -> (copy: Self)
        ensures
            copy == *self,
    {
        Field { name: self.name, _ty: PhantomData }
    }
}

impl<'a, T: ?Sized> Copy for Field<'a, T> {

}

impl<'a, T: ?Sized> PartialEq for Field<'a, T> {
    fn eq(&self, other: &Self) -> (equal: bool) {
        same_name(self.name, other.name)
    }
}

impl<'a, T: ?Sized> Eq for Field<'a, T> {

}

/// Two descriptors of one container are equal where their names are.
impl<'a, T: ?Sized> vstd::std_specs::cmp::PartialEqSpecImpl for Field<'a, T> {
    open spec fn obeys_eq_spec() -> bool {
        true
    }

    open spec fn eq_spec(&self, other: &Self) -> bool {
        self@ == other@
    }
}

} // verus!
