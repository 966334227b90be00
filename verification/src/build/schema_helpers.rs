//! Reading a schema's `type`.

use vstd::prelude::*;
use crate::build::model::{Schema, SchemaType, TypeSet};

verus! {

/// The first type of a list that is not `null`.
pub open spec fn first_non_null(ts: Seq<SchemaType>) -> Option<SchemaType>
    decreases ts.len(),
{
    if ts.len() == 0 {
        None
    } else if ts[0] != SchemaType::Null {
        Some(ts[0])
    } else {
        first_non_null(ts.drop_first())
    }
}

/// The primary type of a schema: its type other than `null`.
pub open spec fn primary(s: Schema) -> Option<SchemaType> {
    match s.schema_type {
        Some(TypeSet::Single(t)) => if t == SchemaType::Null {
            None
        } else {
            Some(t)
        },
        Some(TypeSet::Multiple(ts)) => first_non_null(ts@),
        None => None,
    }
}

/// The primary (non-null) type of a schema.
pub fn primary_type(schema: &Schema) -> (r: Option<SchemaType>)
    ensures
        r == primary(*schema),
{
    match &schema.schema_type {
        Some(TypeSet::Single(t)) => if *t == SchemaType::Null {
            None
        } else {
            Some(*t)
        },
        Some(TypeSet::Multiple(ts)) => {
            let mut i: usize = 0;
            assert(ts@.skip(0) =~= ts@);
            while i < ts.len()
                invariant
                    i <= ts@.len(),
                    schema.schema_type matches Some(TypeSet::Multiple(x)) && x@ == ts@,
                    first_non_null(ts@) == first_non_null(ts@.skip(i as int)),
                decreases ts@.len() - i,
            {
                assert(ts@.skip(i as int)[0] == ts@[i as int]);
                assert(ts@.skip(i as int).drop_first() =~= ts@.skip(i + 1));
                if ts[i] != SchemaType::Null {
                    return Some(ts[i]);
                }
                i = i + 1;
            }
            None
        },
        None => None,
    }
}

/// Whether a schema allows `null`: its type is a list holding `null`.
pub fn is_nullable(schema: &Schema) -> (r: bool)
    ensures
        r == (schema.schema_type matches Some(TypeSet::Multiple(ts)) && ts@.contains(
            SchemaType::Null,
        )),
{
    match &schema.schema_type {
        Some(TypeSet::Multiple(ts)) => {
            let mut i: usize = 0;
            while i < ts.len()
                invariant
                    i <= ts@.len(),
                    schema.schema_type matches Some(TypeSet::Multiple(x)) && x@ == ts@,
                    forall|j: int| 0 <= j < i ==> ts@[j] != SchemaType::Null,
                decreases ts@.len() - i,
            {
                if ts[i] == SchemaType::Null {
                    assert(ts@[i as int] == SchemaType::Null);
                    assert(ts@.contains(SchemaType::Null));
                    return true;
                }
                i = i + 1;
            }
            false
        },
        _ => false,
    }
}

/// Whether a schema's primary type is `ty`.
pub fn is_type(schema: &Schema, ty: SchemaType) -> (r: bool)
    ensures
        r == (primary(*schema) == Some(ty)),
{
    match primary_type(schema) {
        Some(t) => t == ty,
        None => false,
    }
}

/// Whether a schema is composed (`allOf`, `anyOf` or `oneOf`).
pub fn is_composition(schema: &Schema) -> (r: bool)
    ensures
        r == (schema.all_of@.len() > 0 || schema.any_of@.len() > 0 || schema.one_of@.len() > 0),
{
    schema.all_of.len() > 0 || schema.any_of.len() > 0 || schema.one_of.len() > 0
}

} // verus!
