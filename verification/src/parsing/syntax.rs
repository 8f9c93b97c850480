//! What the validation reads of Rust items: types, function signatures and
//! structs, as plain values.
use vstd::prelude::*;
use crate::text::str_eq;

verus! {

/// A type.
#[derive(Debug)]
pub enum TypeModel {
    /// A path such as `u8`, `Option<u8>`, `std::vec::Vec<String>`.
    Path { qself: bool, leading_colon: bool, segments: Vec<PathSegmentModel> },
    /// A reference `&T` or `&mut T`.
    Reference { elem: Box<TypeModel> },
    /// A tuple; `()` has no elements.
    Tuple { elems: Vec<TypeModel> },
    /// Any other kind of type.
    Other,
}

/// A segment of a path: its name and its generic arguments.
#[derive(Debug)]
pub struct PathSegmentModel {
    pub ident: String,
    pub arguments: PathArgumentsModel,
}

/// The arguments of a path segment.
#[derive(Debug)]
pub enum PathArgumentsModel {
    /// No arguments.
    Plain,
    AngleBracketed(Vec<GenericArgumentModel>),
    Parenthesized,
}

/// A generic argument: a type, or anything else (a lifetime, a constant,
/// a binding).
#[derive(Debug)]
pub enum GenericArgumentModel {
    Type(TypeModel),
    Other,
}

/// An argument of a function: `self` in any form, or a typed pattern.
#[derive(Debug)]
pub enum FnArgModel {
    Receiver,
    Typed { name: Option<String>, ty: TypeModel },
}

/// A function item.
#[derive(Debug)]
pub struct FnModel {
    pub name: String,
    pub is_pub: bool,
    pub is_async: bool,
    /// The paths of the attributes, one string each (segments joined by
    /// `::`).
    pub attrs: Vec<String>,
    pub inputs: Vec<FnArgModel>,
    /// The declared return type; `None` when there is none.
    pub output: Option<TypeModel>,
}

/// A named or unnamed field of a struct.
#[derive(Debug)]
pub struct FieldModel {
    pub ident: Option<String>,
    pub ty: TypeModel,
}

/// A struct item.
#[derive(Debug)]
pub struct StructModel {
    pub name: String,
    pub is_pub: bool,
    pub attrs: Vec<String>,
    pub fields: Vec<FieldModel>,
}

/// Whether one of the attribute paths is `name`.
pub open spec fn has_attr_spec(attrs: Seq<String>, name: Seq<char>) -> bool {
    exists|i: int| 0 <= i < attrs.len() && #[trigger] attrs[i]@ == name
}

/// Whether one of the attribute paths is `name`.
pub fn has_attr(attrs: &Vec<String>, name: &str) -> (r: bool)
    ensures
        r == has_attr_spec(attrs@, name@),
{
    let mut i: usize = 0;
    while i < attrs.len()
        invariant
            i <= attrs@.len(),
            forall|k: int| 0 <= k < i ==> #[trigger] attrs@[k]@ != name@,
        decreases attrs@.len() - i,
    {
        if str_eq(attrs[i].as_str(), name) {
            return true;
        }
        i = i + 1;
    }
    false
}

} // verus!
