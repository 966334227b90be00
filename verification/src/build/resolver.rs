//! Following `$ref`s inside a document.

use vstd::prelude::*;
use crate::build::model::{find_key, key_index, PathItem, Schema, SchemaRef, Spec};
use crate::error::ApixError;
use crate::text::{
    chars_of, contains_string, extend_str, owned, replace_all, replace_str, starts_with_str,
    string_of, strip_prefixes, strip_prefixes_chars, strs,
};

verus! {

/// The message of a path reference seen twice.
pub open spec fn circular_path(reference: Seq<char>) -> Seq<char> {
    "Circular path reference detected: "@ + reference
}

/// The message of a path reference that names no path.
pub open spec fn unresolved_path(reference: Seq<char>) -> Seq<char> {
    "Could not resolve path item reference: "@ + reference
}

/// The message of a schema reference seen twice.
pub open spec fn circular_schema(reference: Seq<char>) -> Seq<char> {
    "Circular schema reference detected: "@ + reference
}

/// The message of a schema reference that names no component schema.
pub open spec fn unresolved_schema(reference: Seq<char>) -> Seq<char> {
    "Could not resolve schema reference: "@ + reference
}

/// The path a `#/paths/...` reference names, JSON-pointer escapes undone.
pub open spec fn path_key(reference: Seq<char>) -> Seq<char> {
    replace_all(replace_all(strip_prefixes(reference, "#/paths/"@), "~1"@, "/"@), "~0"@, "~"@)
}

/// The position of the path item a reference names, if any.
pub open spec fn path_target(reference: Seq<char>, spec: Spec) -> Option<int> {
    if "#/paths/"@.is_prefix_of(reference) {
        match spec.paths {
            Some(ps) => key_index(ps@, path_key(reference)),
            None => None,
        }
    } else {
        None
    }
}

/// Resolves a `#/paths/...` reference to its path item, recording it as
/// seen; a reference already seen is circular.
pub fn resolve_path_item<'a>(reference: &str, spec: &'a Spec, seen: &mut Vec<String>) -> (r: Result<
    &'a PathItem,
    ApixError,
>)
    ensures
        strs(old(seen)@).contains(reference@) ==> (r matches Err(ApixError::Parse(m)) && m@
            == circular_path(reference@)) && final(seen)@ == old(seen)@,
        !strs(old(seen)@).contains(reference@) ==> strs(final(seen)@) == strs(old(seen)@).push(
            reference@,
        ) && match path_target(reference@, *spec) {
            Some(i) => r matches Ok(p) && spec.paths matches Some(ps) && *p == ps@[i].1,
            None => r matches Err(ApixError::Parse(m)) && m@ == unresolved_path(reference@),
        },
{
    if contains_string(seen.as_slice(), reference) {
        let mut m: Vec<char> = Vec::new();
        extend_str(&mut m, "Circular path reference detected: ");
        extend_str(&mut m, reference);
        return Err(ApixError::Parse(string_of(m.as_slice())));
    }
    let ghost before = seen@;
    seen.push(owned(reference));
    assert(strs(seen@) =~= strs(before).push(reference@));
    let rc = chars_of(reference);
    if starts_with_str(rc.as_slice(), "#/paths/") {
        let mut p: Vec<char> = Vec::new();
        extend_str(&mut p, "#/paths/");
        let key0 = strip_prefixes_chars(rc.as_slice(), p.as_slice());
        proof {
            reveal_strlit("~1");
            reveal_strlit("~0");
        }
        let key1 = replace_str(key0.as_slice(), "~1", "/");
        let key2 = replace_str(key1.as_slice(), "~0", "~");
        let key = string_of(key2.as_slice());
        if let Some(ps) = &spec.paths {
            if let Some(i) = find_key(ps.as_slice(), key.as_str()) {
                return Ok(&ps[i].1);
            }
        }
    }
    let mut m: Vec<char> = Vec::new();
    extend_str(&mut m, "Could not resolve path item reference: ");
    extend_str(&mut m, reference);
    Err(ApixError::Parse(string_of(m.as_slice())))
}

/// The position of the component schema a `#/components/schemas/...`
/// reference names, if any.
pub open spec fn schema_target(reference: Seq<char>, spec: Spec) -> Option<int> {
    if "#/components/schemas/"@.is_prefix_of(reference) {
        match spec.components {
            Some(c) => key_index(c.schemas@, strip_prefixes(reference, "#/components/schemas/"@)),
            None => None,
        }
    } else {
        None
    }
}

/// Following a schema reference through component schemas that are
/// references themselves: the position of the schema reached, or the
/// error; and the references seen. `fuel` bounds the steps (a chain longer
/// than the number of component schemas repeats a reference).
pub open spec fn follow_schema(reference: Seq<char>, spec: Spec, seen: Seq<Seq<char>>, fuel: nat) -> (
    Result<int, Seq<char>>,
    Seq<Seq<char>>,
)
    decreases fuel,
{
    if seen.contains(reference) {
        (Err(circular_schema(reference)), seen)
    } else {
        let seen2 = seen.push(reference);
        match schema_target(reference, spec) {
            None => (Err(unresolved_schema(reference)), seen2),
            Some(i) => match spec.components {
                Some(c) => match c.schemas@[i].1 {
                    SchemaRef::Inline(_) => (Ok(i), seen2),
                    SchemaRef::Ref(next) => if fuel == 0 {
                        (Err(circular_schema(next@)), seen2)
                    } else {
                        follow_schema(next@, spec, seen2, (fuel - 1) as nat)
                    },
                },
                None => (Err(unresolved_schema(reference)), seen2),
            },
        }
    }
}

/// The fuel that following a schema reference is given: the number of
/// component schemas. A chain that visits more component schemas than
/// there are repeats one, so the reference that follows was seen: the
/// result with this fuel is that of following the chain without bound.
pub open spec fn schema_fuel(spec: Spec) -> nat {
    match spec.components {
        Some(c) => c.schemas@.len(),
        None => 0,
    }
}

fn follow_schema_exec<'a>(reference: &str, spec: &'a Spec, seen: &mut Vec<String>, fuel: usize) -> (r:
    Result<&'a Schema, ApixError>)
    ensures
        ({
            let (res, after) = follow_schema(reference@, *spec, strs(old(seen)@), fuel as nat);
            &&& strs(final(seen)@) == after
            &&& match res {
                Ok(i) => r matches Ok(s) && spec.components matches Some(c) && c.schemas@[i].1
                    == SchemaRef::Inline(Box::new(*s)),
                Err(m) => r matches Err(ApixError::Parse(x)) && x@ == m,
            }
        }),
    decreases fuel,
{
    if contains_string(seen.as_slice(), reference) {
        let mut m: Vec<char> = Vec::new();
        extend_str(&mut m, "Circular schema reference detected: ");
        extend_str(&mut m, reference);
        return Err(ApixError::Parse(string_of(m.as_slice())));
    }
    let ghost before = seen@;
    seen.push(owned(reference));
    assert(strs(seen@) =~= strs(before).push(reference@));
    let rc = chars_of(reference);
    if starts_with_str(rc.as_slice(), "#/components/schemas/") {
        let mut p: Vec<char> = Vec::new();
        extend_str(&mut p, "#/components/schemas/");
        let name = strip_prefixes_chars(rc.as_slice(), p.as_slice());
        let ns = string_of(name.as_slice());
        if let Some(c) = &spec.components {
            if let Some(i) = find_key(c.schemas.as_slice(), ns.as_str()) {
                match &c.schemas[i].1 {
                    SchemaRef::Inline(b) => {
                        return Ok(&**b);
                    },
                    SchemaRef::Ref(next) => {
                        if fuel == 0 {
                            let mut m: Vec<char> = Vec::new();
                            extend_str(&mut m, "Circular schema reference detected: ");
                            extend_str(&mut m, next.as_str());
                            return Err(ApixError::Parse(string_of(m.as_slice())));
                        }
                        return follow_schema_exec(next.as_str(), spec, seen, fuel - 1);
                    },
                }
            }
        }
    }
    let mut m: Vec<char> = Vec::new();
    extend_str(&mut m, "Could not resolve schema reference: ");
    extend_str(&mut m, reference);
    Err(ApixError::Parse(string_of(m.as_slice())))
}

/// Resolves a `#/components/schemas/...` reference to a schema, following
/// component schemas that are references themselves; a reference seen
/// twice is circular, one that names no component schema is unresolvable.
pub fn resolve_schema<'a>(reference: &str, spec: &'a Spec, seen: &mut Vec<String>) -> (r: Result<
    &'a Schema,
    ApixError,
>)
    ensures
        ({
            let (res, after) = follow_schema(reference@, *spec, strs(old(seen)@), schema_fuel(*spec));
            &&& strs(final(seen)@) == after
            &&& match res {
                Ok(i) => r matches Ok(s) && spec.components matches Some(c) && c.schemas@[i].1
                    == SchemaRef::Inline(Box::new(*s)),
                Err(m) => r matches Err(ApixError::Parse(x)) && x@ == m,
            }
        }),
{
    let fuel = match &spec.components {
        Some(c) => c.schemas.len(),
        None => 0,
    };
    follow_schema_exec(reference, spec, seen, fuel)
}

} // verus!
