//! The `Parameters` struct of a module: the arguments that a module adds to
//! its command, handed to the commands below it by reference.
use vstd::prelude::*;
use crate::text::str_eq;
use crate::parsing::syntax::{has_attr, has_attr_spec, FieldModel, StructModel, TypeModel};
use crate::parsing::tusk::ValidationError;

verus! {

/// A module's parameters struct.
#[derive(Debug)]
pub struct TusksParameters {
    pub pstruct: StructModel,
}

/// What is wrong with the first offending field from `i` on: a field named
/// `super_`, or a field whose type is no reference.
pub open spec fn spec_fields_error(fields: Seq<FieldModel>, i: int) -> Option<ValidationError>
    decreases fields.len() - i,
{
    if i < 0 || i >= fields.len() {
        None
    } else if fields[i].ident matches Some(n) && n@ == "super_"@ {
        Some(ValidationError::SuperFieldNotAllowed)
    } else if !(fields[i].ty is Reference) {
        Some(ValidationError::FieldNotReference)
    } else {
        spec_fields_error(fields, i + 1)
    }
}

/// What becomes of a struct: not the parameters struct (`Ok(false)`), the
/// parameters struct (`Ok(true)`), or refused.
pub open spec fn spec_from_struct(s: StructModel) -> Result<bool, ValidationError> {
    if s.name@ != "Parameters"@ || has_attr_spec(s.attrs@, "skip"@) {
        Ok(false)
    } else if !s.is_pub {
        Err(ValidationError::ParametersNotPublic)
    } else {
        match spec_fields_error(s.fields@, 0) {
            Some(e) => Err(e),
            None => Ok(true),
        }
    }
}

impl TusksParameters {
    /// A struct named `Parameters` without `#[skip]` as a module's
    /// parameters: it must be public, have no field `super_`, and only
    /// reference fields.
    pub fn from_struct(item_struct: StructModel) -> (r: Result<Option<TusksParameters>, ValidationError>)
        ensures
            match spec_from_struct(item_struct) {
                Ok(false) => r == Ok::<Option<TusksParameters>, ValidationError>(None),
                Ok(true) => r == Ok::<Option<TusksParameters>, ValidationError>(Some(TusksParameters { pstruct: item_struct })),
                Err(e) => r == Err::<Option<TusksParameters>, ValidationError>(e),
            },
    {
        if !str_eq(item_struct.name.as_str(), "Parameters") {
            return Ok(None);
        }
        if has_attr(&item_struct.attrs, "skip") {
            return Ok(None);
        }
        if !item_struct.is_pub {
            return Err(ValidationError::ParametersNotPublic);
        }
        let mut i: usize = 0;
        while i < item_struct.fields.len()
            invariant
                i <= item_struct.fields@.len(),
                spec_fields_error(item_struct.fields@, 0) == spec_fields_error(item_struct.fields@, i as int),
                item_struct.name@ == "Parameters"@,
                !has_attr_spec(item_struct.attrs@, "skip"@),
                item_struct.is_pub,
            decreases item_struct.fields@.len() - i,
        {
            let field = &item_struct.fields[i];
            match &field.ident {
                Some(field_name) => {
                    if str_eq(field_name.as_str(), "super_") {
                        return Err(ValidationError::SuperFieldNotAllowed);
                    }
                },
                None => {},
            }
            if !Self::is_reference_type(&field.ty) {
                return Err(ValidationError::FieldNotReference);
            }
            i = i + 1;
        }
        Ok(Some(TusksParameters { pstruct: item_struct }))
    }

    /// Whether a type is a reference.
    fn is_reference_type(ty: &TypeModel) -> (r: bool)
        ensures
            r == (*ty is Reference),
    {
        match ty {
            TypeModel::Reference { .. } => true,
            _ => false,
        }
    }
}

} // verus!
