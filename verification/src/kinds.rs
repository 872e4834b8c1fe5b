//! What a kind of value contains, and how primitives appear in Luau.

use vstd::prelude::*;

use crate::lad::{LadFieldOrVariableKind, ReflectionPrimitiveKind};

verus! {

/// A primitive that is a string in scripts and in Rust alike.
pub open spec fn string_primitive(kind: LadFieldOrVariableKind) -> bool {
    match kind {
        LadFieldOrVariableKind::Primitive(ReflectionPrimitiveKind::Str) => true,
        LadFieldOrVariableKind::Primitive(ReflectionPrimitiveKind::String) => true,
        _ => false,
    }
}

/// The reference primitive.
pub open spec fn reference_primitive(kind: LadFieldOrVariableKind) -> bool {
    match kind {
        LadFieldOrVariableKind::Primitive(ReflectionPrimitiveKind::ReflectReference) => true,
        _ => false,
    }
}

/// The call context that functions are handed without the script passing it.
pub open spec fn context_primitive(kind: LadFieldOrVariableKind) -> bool {
    match kind {
        LadFieldOrVariableKind::Primitive(ReflectionPrimitiveKind::FunctionCallContext) => true,
        _ => false,
    }
}

/// The kinds that a kind is directly made of.
pub open spec fn components(kind: LadFieldOrVariableKind) -> Seq<LadFieldOrVariableKind> {
    match kind {
        LadFieldOrVariableKind::Option(inner) => seq![*inner],
        LadFieldOrVariableKind::Vec(inner) => seq![*inner],
        LadFieldOrVariableKind::Array(inner, _) => seq![*inner],
        LadFieldOrVariableKind::HashSet(inner) => seq![*inner],
        LadFieldOrVariableKind::InteropResult(inner) => seq![*inner],
        LadFieldOrVariableKind::HashMap(key, value) => seq![*key, *value],
        LadFieldOrVariableKind::Tuple(items) => items@,
        LadFieldOrVariableKind::Union(items) => items@,
        _ => Seq::empty(),
    }
}

/// Whether a string primitive occurs anywhere inside a kind.
pub open spec fn holds_string(kind: LadFieldOrVariableKind) -> bool
    decreases kind,
{
    string_primitive(kind) || exists|i: int|
        0 <= i < components(kind).len() && holds_string(#[trigger] components(kind)[i])
}

/// Whether the reference primitive occurs anywhere inside a kind.
pub open spec fn holds_reference(kind: LadFieldOrVariableKind) -> bool
    decreases kind,
{
    reference_primitive(kind) || exists|i: int|
        0 <= i < components(kind).len() && holds_reference(#[trigger] components(kind)[i])
}

/// The Luau type of a primitive.
pub open spec fn primitive_text(p: ReflectionPrimitiveKind) -> Seq<char> {
    match p {
        ReflectionPrimitiveKind::Bool => "boolean"@,
        ReflectionPrimitiveKind::Isize
        | ReflectionPrimitiveKind::I8
        | ReflectionPrimitiveKind::I16
        | ReflectionPrimitiveKind::I32
        | ReflectionPrimitiveKind::I64
        | ReflectionPrimitiveKind::I128
        | ReflectionPrimitiveKind::Usize
        | ReflectionPrimitiveKind::U8
        | ReflectionPrimitiveKind::U16
        | ReflectionPrimitiveKind::U32
        | ReflectionPrimitiveKind::U64
        | ReflectionPrimitiveKind::U128
        | ReflectionPrimitiveKind::F32
        | ReflectionPrimitiveKind::F64 => "number"@,
        ReflectionPrimitiveKind::Char
        | ReflectionPrimitiveKind::Str
        | ReflectionPrimitiveKind::String
        | ReflectionPrimitiveKind::OsString
        | ReflectionPrimitiveKind::PathBuf => "string"@,
        _ => "any"@,
    }
}

/// Whether `kind` is the reference primitive.
pub fn is_reference(kind: &LadFieldOrVariableKind) -> (r: bool)
    ensures
        r == reference_primitive(*kind),
{
    match kind {
        LadFieldOrVariableKind::Primitive(ReflectionPrimitiveKind::ReflectReference) => true,
        _ => false,
    }
}

/// Whether `kind` is the call context.
pub fn is_context(kind: &LadFieldOrVariableKind) -> (r: bool)
    ensures
        r == context_primitive(*kind),
{
    match kind {
        LadFieldOrVariableKind::Primitive(ReflectionPrimitiveKind::FunctionCallContext) => true,
        _ => false,
    }
}

/// Whether a string-like primitive occurs anywhere inside a kind.
pub fn contains_string_primitive(kind: &LadFieldOrVariableKind) -> (r: bool)
    ensures
        r == holds_string(*kind),
    decreases kind,
{
    let ghost parts = components(*kind);
    match kind {
        LadFieldOrVariableKind::Primitive(p) => {
            match p {
                ReflectionPrimitiveKind::Str | ReflectionPrimitiveKind::String => true,
                _ => false,
            }
        },
        LadFieldOrVariableKind::Ref(_)
        | LadFieldOrVariableKind::Mut(_)
        | LadFieldOrVariableKind::Val(_)
        | LadFieldOrVariableKind::Unknown(_) => false,
        LadFieldOrVariableKind::Option(inner)
        | LadFieldOrVariableKind::Vec(inner)
        | LadFieldOrVariableKind::Array(inner, _)
        | LadFieldOrVariableKind::HashSet(inner)
        | LadFieldOrVariableKind::InteropResult(inner) => {
            assert(holds_string(parts[0]) == holds_string(**inner));
            contains_string_primitive(inner)
        },
        LadFieldOrVariableKind::HashMap(k, v) => {
            assert(holds_string(parts[0]) == holds_string(**k) && holds_string(parts[1]) == holds_string(**v));
            contains_string_primitive(k) || contains_string_primitive(v)
        },
        LadFieldOrVariableKind::Tuple(items) | LadFieldOrVariableKind::Union(items) => {
            assert(parts == items@);
            any_contains_string_primitive(items)
        },
    }
}

fn any_contains_string_primitive(items: &Vec<LadFieldOrVariableKind>) -> (r: bool)
    ensures
        r == exists|i: int| 0 <= i < items@.len() && holds_string(#[trigger] items@[i]),
    decreases items,
{
    let mut i: usize = 0;
    while i < items.len()
        invariant
            i <= items.len(),
            forall|k: int| 0 <= k < i ==> !holds_string(#[trigger] items@[k]),
        decreases items.len() - i,
    {
        if contains_string_primitive(&items[i]) {
            return true;
        }
        i += 1;
    }
    false
}

/// Whether a `ReflectReference` occurs anywhere inside a kind.
pub fn contains_reflect_reference(kind: &LadFieldOrVariableKind) -> (r: bool)
    ensures
        r == holds_reference(*kind),
    decreases kind,
{
    let ghost parts = components(*kind);
    match kind {
        LadFieldOrVariableKind::Primitive(p) => {
            match p {
                ReflectionPrimitiveKind::ReflectReference => true,
                _ => false,
            }
        },
        LadFieldOrVariableKind::Ref(_)
        | LadFieldOrVariableKind::Mut(_)
        | LadFieldOrVariableKind::Val(_)
        | LadFieldOrVariableKind::Unknown(_) => false,
        LadFieldOrVariableKind::Option(inner)
        | LadFieldOrVariableKind::Vec(inner)
        | LadFieldOrVariableKind::Array(inner, _)
        | LadFieldOrVariableKind::HashSet(inner)
        | LadFieldOrVariableKind::InteropResult(inner) => {
            assert(holds_reference(parts[0]) == holds_reference(**inner));
            contains_reflect_reference(inner)
        },
        LadFieldOrVariableKind::HashMap(k, v) => {
            assert(holds_reference(parts[0]) == holds_reference(**k) && holds_reference(parts[1]) == holds_reference(**v));
            contains_reflect_reference(k) || contains_reflect_reference(v)
        },
        LadFieldOrVariableKind::Tuple(items) | LadFieldOrVariableKind::Union(items) => {
            assert(parts == items@);
            any_contains_reflect_reference(items)
        },
    }
}

fn any_contains_reflect_reference(items: &Vec<LadFieldOrVariableKind>) -> (r: bool)
    ensures
        r == exists|i: int| 0 <= i < items@.len() && holds_reference(#[trigger] items@[i]),
    decreases items,
{
    let mut i: usize = 0;
    while i < items.len()
        invariant
            i <= items.len(),
            forall|k: int| 0 <= k < i ==> !holds_reference(#[trigger] items@[k]),
        decreases items.len() - i,
    {
        if contains_reflect_reference(&items[i]) {
            return true;
        }
        i += 1;
    }
    false
}

/// The Luau type of a primitive.
pub fn primitive(p: &ReflectionPrimitiveKind) -> (r: &'static str)
    ensures
        r@ == primitive_text(*p),
{
    match p {
        ReflectionPrimitiveKind::Bool => "boolean",
        ReflectionPrimitiveKind::Isize
        | ReflectionPrimitiveKind::I8
        | ReflectionPrimitiveKind::I16
        | ReflectionPrimitiveKind::I32
        | ReflectionPrimitiveKind::I64
        | ReflectionPrimitiveKind::I128
        | ReflectionPrimitiveKind::Usize
        | ReflectionPrimitiveKind::U8
        | ReflectionPrimitiveKind::U16
        | ReflectionPrimitiveKind::U32
        | ReflectionPrimitiveKind::U64
        | ReflectionPrimitiveKind::U128
        | ReflectionPrimitiveKind::F32
        | ReflectionPrimitiveKind::F64 => "number",
        ReflectionPrimitiveKind::Char
        | ReflectionPrimitiveKind::Str
        | ReflectionPrimitiveKind::String
        | ReflectionPrimitiveKind::OsString
        | ReflectionPrimitiveKind::PathBuf => "string",
        _ => "any",
    }
}

} // verus!
