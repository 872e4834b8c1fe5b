//! Rendering depends on a file only through how it writes the ids of types:
//! what two files write alike, they render alike.

use vstd::prelude::*;

use crate::fields::{
    alternatives_under_key, enum_members, field_alternatives, field_types, merged_type,
    payload_entries, struct_members, types_under_key,
};
use crate::lad::{LadArgument, LadFieldOrVariableKind, LadFile, LadFunction, LadNamedField};
use crate::members::{global_function_text, global_place, listed_params, member_text};
use crate::naming::TypeNames;
use crate::overloads::{
    called_on_receiver, listed_args, PlaceView, rendered_types, return_text, signature_text,
    treatment_in,
};
use crate::signature::{
    generic_treatment, labelled_params, param_types, registration_positions, script_visible,
};
use crate::types::{
    alternative_lists, alternatives_of, brand_lists, branded, brands_of, is_registration,
    kind_text, type_text,
};

verus! {

/// Whether two files write every type id alike, and have registration types of
/// the same ids.
pub open spec fn written_alike(a: LadFile, x: TypeNames, b: LadFile, y: TypeNames) -> bool {
    &&& forall|id: Seq<char>| #[trigger] type_text(b, y, id) == type_text(a, x, id)
    &&& forall|r: int, id: Seq<char>|
        0 <= r < 3 ==> #[trigger] is_registration(b, y, r, id) == is_registration(a, x, r, id)
}

/// Kinds are written alike, and stand for the same alternatives.
pub proof fn lemma_kind_alike(
    a: LadFile,
    x: TypeNames,
    b: LadFile,
    y: TypeNames,
    kind: LadFieldOrVariableKind,
    ref_as_t: bool,
)
    requires
        written_alike(a, x, b, y),
    ensures
        kind_text(a, x, kind, ref_as_t) == kind_text(b, y, kind, ref_as_t),
        alternatives_of(a, x, kind, ref_as_t) == alternatives_of(b, y, kind, ref_as_t),
    decreases kind,
{
    match kind {
        LadFieldOrVariableKind::Ref(id) => {
            assert(type_text(b, y, id@) == type_text(a, x, id@));
        },
        LadFieldOrVariableKind::Mut(id) => {
            assert(type_text(b, y, id@) == type_text(a, x, id@));
        },
        LadFieldOrVariableKind::Val(id) => {
            assert(type_text(b, y, id@) == type_text(a, x, id@));
        },
        LadFieldOrVariableKind::Unknown(id) => {
            assert(type_text(b, y, id@) == type_text(a, x, id@));
        },
        LadFieldOrVariableKind::Option(inner) => {
            lemma_kind_alike(a, x, b, y, *inner, ref_as_t);
        },
        LadFieldOrVariableKind::Vec(inner) => {
            lemma_kind_alike(a, x, b, y, *inner, ref_as_t);
        },
        LadFieldOrVariableKind::Array(inner, _) => {
            lemma_kind_alike(a, x, b, y, *inner, ref_as_t);
        },
        LadFieldOrVariableKind::HashSet(inner) => {
            lemma_kind_alike(a, x, b, y, *inner, ref_as_t);
        },
        LadFieldOrVariableKind::HashMap(key, value) => {
            lemma_kind_alike(a, x, b, y, *key, ref_as_t);
            lemma_kind_alike(a, x, b, y, *value, ref_as_t);
        },
        LadFieldOrVariableKind::InteropResult(inner) => {
            lemma_kind_alike(a, x, b, y, *inner, ref_as_t);
        },
        LadFieldOrVariableKind::Tuple(items) => {
            assert forall|i: int| 0 <= i < items@.len() implies alternatives_of(
                a,
                x,
                #[trigger] items@[i],
                ref_as_t,
            ) == alternatives_of(b, y, items@[i], ref_as_t) by {
                lemma_kind_alike(a, x, b, y, items@[i], ref_as_t);
            }
            assert(alternative_lists(a, x, items@, ref_as_t) =~= alternative_lists(
                b,
                y,
                items@,
                ref_as_t,
            ));
        },
        LadFieldOrVariableKind::Primitive(_) => {},
        LadFieldOrVariableKind::Union(items) => {
            assert forall|i: int| 0 <= i < items@.len() implies alternatives_of(
                a,
                x,
                #[trigger] items@[i],
                ref_as_t,
            ) == alternatives_of(b, y, items@[i], ref_as_t) by {
                lemma_kind_alike(a, x, b, y, items@[i], ref_as_t);
            }
            assert(alternative_lists(a, x, items@, ref_as_t) =~= alternative_lists(
                b,
                y,
                items@,
                ref_as_t,
            ));
        },
    }
}

/// Kinds have the same brands.
pub proof fn lemma_brands_alike(
    a: LadFile,
    x: TypeNames,
    b: LadFile,
    y: TypeNames,
    kind: LadFieldOrVariableKind,
)
    requires
        written_alike(a, x, b, y),
    ensures
        brands_of(a, x, kind) == brands_of(b, y, kind),
        branded(a, x, kind) == branded(b, y, kind),
    decreases kind,
{
    match kind {
        LadFieldOrVariableKind::Ref(id) => {
            assert(forall|r: int|
                0 <= r < 3 ==> #[trigger] is_registration(b, y, r, id@) == is_registration(
                    a,
                    x,
                    r,
                    id@,
                ));
        },
        LadFieldOrVariableKind::Union(items) => {
            assert forall|i: int| 0 <= i < items@.len() implies brands_of(
                a,
                x,
                #[trigger] items@[i],
            ) == brands_of(b, y, items@[i]) by {
                lemma_brands_alike(a, x, b, y, items@[i]);
            }
            assert(brand_lists(a, x, items@) =~= brand_lists(b, y, items@));
        },
        _ => {},
    }
}

/// Signatures get the same phantom-generic treatment.
proof fn lemma_treatment_alike(
    a: LadFile,
    x: TypeNames,
    b: LadFile,
    y: TypeNames,
    args: Seq<LadArgument>,
    ret: LadFieldOrVariableKind,
)
    requires
        written_alike(a, x, b, y),
    ensures
        generic_treatment(a, x, args, ret) == generic_treatment(b, y, args, ret),
{
    let in_a = |i: int| branded(a, x, args[i].kind) is Some;
    let in_b = |i: int| branded(b, y, args[i].kind) is Some;
    assert forall|i: int| #[trigger] in_a(i) == in_b(i) by {
        lemma_brands_alike(a, x, b, y, args[i].kind);
    }
    assert(in_a =~= in_b);
    assert(registration_positions(a, x, args) == registration_positions(b, y, args));
    let regs = registration_positions(a, x, args);
    lemma_brands_alike(a, x, b, y, args[regs[0]].kind);
}

/// Parameters are written alike.
proof fn lemma_params_alike(
    a: LadFile,
    x: TypeNames,
    b: LadFile,
    y: TypeNames,
    args: Seq<LadArgument>,
    generic: Option<(int, Seq<char>)>,
)
    requires
        written_alike(a, x, b, y),
    ensures
        param_types(a, x, args, generic) == param_types(b, y, args, generic),
        labelled_params(a, x, args, generic) == labelled_params(b, y, args, generic),
{
    assert forall|i: int| 0 <= i < args.len() implies #[trigger] param_types(
        a,
        x,
        args,
        generic,
    )[i] == param_types(b, y, args, generic)[i] by {
        lemma_kind_alike(a, x, b, y, args[i].kind, true);
        lemma_kind_alike(a, x, b, y, args[i].kind, false);
    }
    assert(param_types(a, x, args, generic) =~= param_types(b, y, args, generic));
    assert forall|i: int| 0 <= i < args.len() implies #[trigger] labelled_params(
        a,
        x,
        args,
        generic,
    )[i] == labelled_params(b, y, args, generic)[i] by {
        assert(param_types(a, x, args, generic)[i] == param_types(b, y, args, generic)[i]);
    }
    assert(labelled_params(a, x, args, generic) =~= labelled_params(b, y, args, generic));
}

/// A function is rendered alike, and has the same identity.
pub proof fn lemma_function_alike(
    a: LadFile,
    x: TypeNames,
    b: LadFile,
    y: TypeNames,
    place: PlaceView,
    func: LadFunction,
)
    requires
        written_alike(a, x, b, y),
    ensures
        signature_text(a, x, place, func) == signature_text(b, y, place, func),
        member_text(a, x, place, func) == member_text(b, y, place, func),
{
    lemma_place_alike(a, x, b, y, place, func);
}

/// A function has the same arguments and the same return type in its place.
proof fn lemma_place_alike(
    a: LadFile,
    x: TypeNames,
    b: LadFile,
    y: TypeNames,
    place: PlaceView,
    func: LadFunction,
)
    requires
        written_alike(a, x, b, y),
    ensures
        called_on_receiver(a, x, place, func) == called_on_receiver(b, y, place, func),
        listed_args(a, x, place, func) == listed_args(b, y, place, func),
        treatment_in(a, x, place, func) == treatment_in(b, y, place, func),
        return_text(a, x, place, func) == return_text(b, y, place, func),
        rendered_types(a, x, place, func) == rendered_types(b, y, place, func),
        listed_params(a, x, place, func) == listed_params(b, y, place, func),
{
    let visible = script_visible(func);
    if visible.len() > 0 {
        lemma_kind_alike(a, x, b, y, visible[0].kind, false);
    }
    assert(called_on_receiver(a, x, place, func) == called_on_receiver(b, y, place, func));
    let args = listed_args(a, x, place, func);
    lemma_treatment_alike(a, x, b, y, args, func.return_type.kind);
    let generic = treatment_in(a, x, place, func);
    lemma_params_alike(a, x, b, y, args, generic);
    lemma_kind_alike(a, x, b, y, func.return_type.kind, generic is Some);
}

/// A global function is rendered alike.
pub proof fn lemma_global_function_alike(
    a: LadFile,
    x: TypeNames,
    b: LadFile,
    y: TypeNames,
    func: LadFunction,
)
    requires
        written_alike(a, x, b, y),
    ensures
        global_function_text(a, x, func) == global_function_text(b, y, func),
{
    lemma_place_alike(a, x, b, y, global_place(), func);
}

/// Fields are rendered alike.
pub proof fn lemma_fields_alike(
    a: LadFile,
    x: TypeNames,
    b: LadFile,
    y: TypeNames,
    fields: Seq<LadNamedField>,
)
    requires
        written_alike(a, x, b, y),
    ensures
        struct_members(a, x, fields) == struct_members(b, y, fields),
        payload_entries(a, x, fields) == payload_entries(b, y, fields),
        enum_members(a, x, fields) == enum_members(b, y, fields),
{
    assert forall|i: int| 0 <= i < fields.len() implies #[trigger] field_types(a, x, fields)[i]
        == field_types(b, y, fields)[i] by {
        lemma_kind_alike(a, x, b, y, fields[i].type_, false);
    }
    assert forall|i: int| 0 <= i < fields.len() implies #[trigger] field_alternatives(
        a,
        x,
        fields,
    )[i] == field_alternatives(b, y, fields)[i] by {
        lemma_kind_alike(a, x, b, y, fields[i].type_, false);
    }
    assert(field_types(a, x, fields) =~= field_types(b, y, fields));
    assert(field_alternatives(a, x, fields) =~= field_alternatives(b, y, fields));
    assert(struct_members(a, x, fields) =~= struct_members(b, y, fields));
    assert(payload_entries(a, x, fields) =~= payload_entries(b, y, fields));
    assert forall|key: Seq<char>| #[trigger] merged_type(a, x, fields, key) == merged_type(
        b,
        y,
        fields,
        key,
    ) by {
        assert(types_under_key(a, x, fields, key) == types_under_key(b, y, fields, key));
        assert(alternatives_under_key(a, x, fields, key) == alternatives_under_key(
            b,
            y,
            fields,
            key,
        ));
    }
    assert(enum_members(a, x, fields) =~= enum_members(b, y, fields));
}

} // verus!
