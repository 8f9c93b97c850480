//! Names of the generated enum variants.
use vstd::prelude::*;

verus! {

/// The variant name of a command: the identifier as it is (snake_case; the
/// generated enums allow non-camel-case variant names).
pub fn to_variant_ident(ident: &String) -> (r: String)
    ensures
        r@ == ident@,
{
    ident.clone()
}

} // verus!
