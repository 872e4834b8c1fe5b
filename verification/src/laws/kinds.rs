//! What kinds of values are written as, from the primitives up.

use vstd::prelude::*;

use crate::kinds::{components, holds_reference, holds_string, primitive_text};
use crate::lad::{LadFieldOrVariableKind, LadFile, ReflectionPrimitiveKind};
use crate::laws::lemma_find_first;
use crate::naming::{BRANDS, TypeNames};
use crate::text::{chained, distinct, joined};
use crate::types::{
    alternative_lists, alternatives_of, brand_lists, branded, brands_of, kind_text, type_text,
    type_with_id, unwrapped,
};

verus! {

/// Primitives are written as the builtins of Luau that hold their values.
pub proof fn law_primitives(p: ReflectionPrimitiveKind)
    ensures
        p is Bool ==> primitive_text(p) == "boolean"@,
        p is Isize || p is I8 || p is I16 || p is I32 || p is I64 || p is I128 || p is Usize
            || p is U8 || p is U16 || p is U32 || p is U64 || p is U128 || p is F32 || p is F64
            ==> primitive_text(p) == "number"@,
        p is Char || p is Str || p is String || p is OsString || p is PathBuf ==> primitive_text(p)
            == "string"@,
        p is FunctionCallContext || p is DynamicFunction || p is ScriptValue
            || p is DynamicFunctionMut || p is ReflectReference || p is External
            ==> primitive_text(p) == "any"@,
{
}

/// The id of a recorded type that a primitive stands for is written as the
/// builtin of that primitive.
pub proof fn law_mapped_ids_are_builtins(lad: LadFile, n: TypeNames, i: int)
    requires
        lad.wf(),
        0 <= i < lad.types@.len(),
    ensures
        lad.types@[i].1.metadata.mapped_to_primitive_kind matches Some(p) ==> {
            let text = type_text(lad, n, lad.types@[i].0@);
            &&& p is Bool ==> text == "boolean"@
            &&& p is Isize || p is I8 || p is I16 || p is I32 || p is I64 || p is I128 || p is Usize
                || p is U8 || p is U16 || p is U32 || p is U64 || p is U128 || p is F32 || p is F64
                ==> text == "number"@
            &&& p is Char || p is Str || p is String || p is OsString || p is PathBuf ==> text
                == "string"@
            &&& p is FunctionCallContext || p is DynamicFunction || p is ScriptValue
                || p is DynamicFunctionMut || p is ReflectReference || p is External ==> text
                == "any"@
        },
{
    lemma_type_with_id(lad, i);
}

/// Looking up the id of a type finds the type.
pub proof fn lemma_type_with_id(lad: LadFile, i: int)
    requires
        lad.wf(),
        0 <= i < lad.types@.len(),
    ensures
        type_with_id(lad, lad.types@[i].0@) == Some(i),
{
    let id = lad.types@[i].0@;
    lemma_find_first(lad, id, lad.types@.len());
    assert(lad.types@[i].0@ == id);
    let found = type_with_id(lad, id)->0;
    if found < i {
        assert(lad.types@[found].0@ != lad.types@[i].0@);
    }
    if i < found {
        assert(lad.types@[i].0@ != lad.types@[found].0@);
    }
}

/// The id of a type without a primitive is written as its class name, and an
/// id that is not recorded as `any`.
pub proof fn law_other_ids(lad: LadFile, n: TypeNames, id: Seq<char>, i: int)
    requires
        lad.wf(),
    ensures
        0 <= i < lad.types@.len() && lad.types@[i].0@ == id
            && lad.types@[i].1.metadata.mapped_to_primitive_kind is None && n.names[i] is Some
            ==> type_text(lad, n, id) == n.names[i]->0,
        (forall|k: int| 0 <= k < lad.types@.len() ==> (#[trigger] lad.types@[k]).0@ != id)
            ==> type_text(lad, n, id) == "any"@,
{
    if 0 <= i < lad.types@.len() && lad.types@[i].0@ == id {
        lemma_type_with_id(lad, i);
    }
    lemma_find_first(lad, id, lad.types@.len());
}

/// The reference primitive is found wherever it sits inside a kind, and
/// nothing else is taken for it.
pub proof fn law_references_are_found(kind: LadFieldOrVariableKind)
    ensures
        match kind {
            LadFieldOrVariableKind::Primitive(p) => holds_reference(kind) <==> p
                is ReflectReference,
            LadFieldOrVariableKind::Ref(_) => !holds_reference(kind),
            LadFieldOrVariableKind::Mut(_) => !holds_reference(kind),
            LadFieldOrVariableKind::Val(_) => !holds_reference(kind),
            LadFieldOrVariableKind::Unknown(_) => !holds_reference(kind),
            LadFieldOrVariableKind::Option(k) => holds_reference(kind) <==> holds_reference(*k),
            LadFieldOrVariableKind::Vec(k) => holds_reference(kind) <==> holds_reference(*k),
            LadFieldOrVariableKind::HashSet(k) => holds_reference(kind) <==> holds_reference(*k),
            LadFieldOrVariableKind::Array(k, _) => holds_reference(kind) <==> holds_reference(*k),
            LadFieldOrVariableKind::InteropResult(k) => holds_reference(kind)
                <==> holds_reference(*k),
            LadFieldOrVariableKind::HashMap(k, v) => holds_reference(kind) <==> holds_reference(*k)
                || holds_reference(*v),
            LadFieldOrVariableKind::Tuple(items) => holds_reference(kind) <==> exists|i: int|
                0 <= i < items@.len() && holds_reference(#[trigger] items@[i]),
            LadFieldOrVariableKind::Union(items) => holds_reference(kind) <==> exists|i: int|
                0 <= i < items@.len() && holds_reference(#[trigger] items@[i]),
        },
{
    let parts = components(kind);
    match kind {
        LadFieldOrVariableKind::HashMap(k, v) => {
            assert(parts[0] == *k && parts[1] == *v);
            assert(holds_reference(parts[0]) == holds_reference(*k));
            assert(holds_reference(parts[1]) == holds_reference(*v));
        },
        LadFieldOrVariableKind::Option(k) => {
            assert(parts[0] == *k);
        },
        LadFieldOrVariableKind::Vec(k) => {
            assert(parts[0] == *k);
        },
        LadFieldOrVariableKind::HashSet(k) => {
            assert(parts[0] == *k);
        },
        LadFieldOrVariableKind::Array(k, _) => {
            assert(parts[0] == *k);
        },
        LadFieldOrVariableKind::InteropResult(k) => {
            assert(parts[0] == *k);
        },
        LadFieldOrVariableKind::Tuple(items) => {
            assert(parts == items@);
        },
        LadFieldOrVariableKind::Union(items) => {
            assert(parts == items@);
        },
        _ => {},
    }
}

/// A string primitive is found wherever it sits inside a kind, and nothing
/// else is taken for one.
pub proof fn law_strings_are_found(kind: LadFieldOrVariableKind)
    ensures
        match kind {
            LadFieldOrVariableKind::Primitive(p) => holds_string(kind) <==> p is Str || p
                is String,
            LadFieldOrVariableKind::Ref(_) => !holds_string(kind),
            LadFieldOrVariableKind::Mut(_) => !holds_string(kind),
            LadFieldOrVariableKind::Val(_) => !holds_string(kind),
            LadFieldOrVariableKind::Unknown(_) => !holds_string(kind),
            LadFieldOrVariableKind::Option(k) => holds_string(kind) <==> holds_string(*k),
            LadFieldOrVariableKind::Vec(k) => holds_string(kind) <==> holds_string(*k),
            LadFieldOrVariableKind::HashSet(k) => holds_string(kind) <==> holds_string(*k),
            LadFieldOrVariableKind::Array(k, _) => holds_string(kind) <==> holds_string(*k),
            LadFieldOrVariableKind::InteropResult(k) => holds_string(kind) <==> holds_string(*k),
            LadFieldOrVariableKind::HashMap(k, v) => holds_string(kind) <==> holds_string(*k)
                || holds_string(*v),
            LadFieldOrVariableKind::Tuple(items) => holds_string(kind) <==> exists|i: int|
                0 <= i < items@.len() && holds_string(#[trigger] items@[i]),
            LadFieldOrVariableKind::Union(items) => holds_string(kind) <==> exists|i: int|
                0 <= i < items@.len() && holds_string(#[trigger] items@[i]),
        },
{
    let parts = components(kind);
    match kind {
        LadFieldOrVariableKind::HashMap(k, v) => {
            assert(parts[0] == *k && parts[1] == *v);
            assert(holds_string(parts[0]) == holds_string(*k));
            assert(holds_string(parts[1]) == holds_string(*v));
        },
        LadFieldOrVariableKind::Option(k) => {
            assert(parts[0] == *k);
        },
        LadFieldOrVariableKind::Vec(k) => {
            assert(parts[0] == *k);
        },
        LadFieldOrVariableKind::HashSet(k) => {
            assert(parts[0] == *k);
        },
        LadFieldOrVariableKind::Array(k, _) => {
            assert(parts[0] == *k);
        },
        LadFieldOrVariableKind::InteropResult(k) => {
            assert(parts[0] == *k);
        },
        LadFieldOrVariableKind::Tuple(items) => {
            assert(parts == items@);
        },
        LadFieldOrVariableKind::Union(items) => {
            assert(parts == items@);
        },
        _ => {},
    }
}

/// How the text of a kind follows from the texts of what it is made of. A
/// reference to a type, a value of it and what is only known by its id are
/// written alike; lists, arrays and sets are tables of their items, maps
/// tables from keys to values; a result is written as what it holds; the
/// reference primitive is `T` where it is asked for; a tuple is a table of the
/// alternatives of its items, `nil` without any, and a union lists the
/// alternatives of its members, each once.
pub proof fn law_kinds(
    lad: LadFile,
    n: TypeNames,
    kind: LadFieldOrVariableKind,
    ref_as_t: bool,
)
    ensures
        kind_text(lad, n, kind, ref_as_t) == match kind {
            LadFieldOrVariableKind::Ref(id) => type_text(lad, n, id@),
            LadFieldOrVariableKind::Mut(id) => type_text(lad, n, id@),
            LadFieldOrVariableKind::Val(id) => type_text(lad, n, id@),
            LadFieldOrVariableKind::Unknown(id) => type_text(lad, n, id@),
            LadFieldOrVariableKind::Option(k) => kind_text(lad, n, *k, ref_as_t) + "?"@,
            LadFieldOrVariableKind::Vec(k) => "{ "@ + kind_text(lad, n, *k, ref_as_t) + " }"@,
            LadFieldOrVariableKind::Array(k, _) => "{ "@ + kind_text(lad, n, *k, ref_as_t)
                + " }"@,
            LadFieldOrVariableKind::HashSet(k) => "{ "@ + kind_text(lad, n, *k, ref_as_t)
                + " }"@,
            LadFieldOrVariableKind::HashMap(k, v) => "{ ["@ + kind_text(lad, n, *k, ref_as_t)
                + "]: "@ + kind_text(lad, n, *v, ref_as_t) + " }"@,
            LadFieldOrVariableKind::InteropResult(k) => kind_text(lad, n, *k, ref_as_t),
            LadFieldOrVariableKind::Primitive(p) => if ref_as_t && p is ReflectReference {
                "T"@
            } else {
                primitive_text(p)
            },
            LadFieldOrVariableKind::Tuple(items) => if items@.len() == 0 {
                "nil"@
            } else {
                "{ "@ + joined(
                    distinct(
                        chained(
                            Seq::new(
                                items@.len(),
                                |i: int| alternatives_of(lad, n, items@[i], ref_as_t),
                            ),
                        ),
                    ),
                    " | "@,
                ) + " }"@
            },
            LadFieldOrVariableKind::Union(items) => joined(
                distinct(
                    chained(
                        Seq::new(
                            items@.len(),
                            |i: int| alternatives_of(lad, n, items@[i], ref_as_t),
                        ),
                    ),
                ),
                " | "@,
            ),
        },
{
    match kind {
        LadFieldOrVariableKind::Tuple(items) => {
            assert(alternative_lists(lad, n, items@, ref_as_t) =~= Seq::new(
                items@.len(),
                |i: int| alternatives_of(lad, n, items@[i], ref_as_t),
            ));
        },
        LadFieldOrVariableKind::Union(items) => {
            assert(alternative_lists(lad, n, items@, ref_as_t) =~= Seq::new(
                items@.len(),
                |i: int| alternatives_of(lad, n, items@[i], ref_as_t),
            ));
        },
        _ => {},
    }
}

/// The alternatives of a union are those of its members one after the other;
/// a result has those of what it holds; everything else, and a union without
/// members, is its own only alternative.
pub proof fn law_alternatives(
    lad: LadFile,
    n: TypeNames,
    kind: LadFieldOrVariableKind,
    ref_as_t: bool,
)
    ensures
        alternatives_of(lad, n, kind, ref_as_t) == match kind {
            LadFieldOrVariableKind::Union(items) => if items@.len() > 0 {
                chained(
                    Seq::new(
                        items@.len(),
                        |i: int| alternatives_of(lad, n, items@[i], ref_as_t),
                    ),
                )
            } else {
                seq![Seq::<char>::empty()]
            },
            LadFieldOrVariableKind::InteropResult(k) => alternatives_of(lad, n, *k, ref_as_t),
            _ => seq![kind_text(lad, n, kind, ref_as_t)],
        },
{
    if let LadFieldOrVariableKind::Union(items) = kind {
        assert(alternative_lists(lad, n, items@, ref_as_t) =~= Seq::new(
            items@.len(),
            |i: int| alternatives_of(lad, n, items@[i], ref_as_t),
        ));
    }
}

/// A kind is branded if it refers to the registration type of a brand, with
/// that brand, and if it is a union of branded kinds only, with all their
/// brands. Nothing else is branded.
pub proof fn law_branded_kinds(lad: LadFile, n: TypeNames, kind: LadFieldOrVariableKind)
    ensures
        match kind {
            LadFieldOrVariableKind::Ref(id) => brands_of(lad, n, kind) == brands_of(
                lad,
                n,
                LadFieldOrVariableKind::Val(id),
            ),
            LadFieldOrVariableKind::Mut(id) => brands_of(lad, n, kind) == brands_of(
                lad,
                n,
                LadFieldOrVariableKind::Val(id),
            ),
            LadFieldOrVariableKind::Val(id) => {
                let component = n.regs[0] matches Some(i) && lad.types@[i].0@ == id@;
                let resource = n.regs[1] matches Some(i) && lad.types@[i].0@ == id@;
                let plain = n.regs[2] matches Some(i) && lad.types@[i].0@ == id@;
                brands_of(lad, n, kind) == if component {
                    Some(seq!["Reg<T>"@])
                } else if resource {
                    Some(seq!["ResReg<T>"@])
                } else if plain {
                    Some(seq!["TypeReg<T>"@])
                } else {
                    None
                }
            },
            LadFieldOrVariableKind::Union(items) => {
                &&& brands_of(lad, n, kind) is Some <==> items@.len() > 0 && forall|i: int|
                    0 <= i < items@.len() ==> brands_of(lad, n, #[trigger] items@[i]) is Some
                &&& brands_of(lad, n, kind) matches Some(brands) ==> brands == chained(
                    Seq::new(items@.len(), |i: int| brands_of(lad, n, items@[i])->0),
                )
            },
            _ => brands_of(lad, n, kind) is None,
        },
        branded(lad, n, kind) == match brands_of(lad, n, kind) {
            Some(brands) => Some(joined(distinct(brands), " | "@)),
            None => None,
        },
{
    lemma_brand_texts();
    if let LadFieldOrVariableKind::Union(items) = kind {
        let lists = brand_lists(lad, n, items@);
        if brands_of(lad, n, kind) is Some {
            assert forall|i: int| 0 <= i < items@.len() implies brands_of(
                lad,
                n,
                #[trigger] items@[i],
            ) is Some by {
                assert(lists[i] is Some);
            }
            assert(unwrapped(lists) =~= Seq::new(
                items@.len(),
                |i: int| brands_of(lad, n, items@[i])->0,
            ));
        } else if items@.len() > 0 {
            let i = choose|i: int| 0 <= i < items@.len() && (#[trigger] lists[i]) is None;
            assert(brands_of(lad, n, items@[i]) is None);
        }
    }
}

/// The brands and what belongs to them.
pub proof fn lemma_brand_texts()
    ensures
        BRANDS@.len() == 3,
        BRANDS@[0].0@ == "ScriptComponentRegistration"@,
        BRANDS@[1].0@ == "ScriptResourceRegistration"@,
        BRANDS@[2].0@ == "ScriptTypeRegistration"@,
        BRANDS@[0].1@ == "Reg"@,
        BRANDS@[1].1@ == "ResReg"@,
        BRANDS@[2].1@ == "TypeReg"@,
        BRANDS@[0].2@ == "__component"@,
        BRANDS@[1].2@ == "__resource"@,
        BRANDS@[2].2@ == "__type"@,
        BRANDS@[0].1@ + "<T>"@ == "Reg<T>"@,
        BRANDS@[1].1@ + "<T>"@ == "ResReg<T>"@,
        BRANDS@[2].1@ + "<T>"@ == "TypeReg<T>"@,
{
    reveal_strlit("Reg");
    reveal_strlit("ResReg");
    reveal_strlit("TypeReg");
    reveal_strlit("<T>");
    reveal_strlit("Reg<T>");
    reveal_strlit("ResReg<T>");
    reveal_strlit("TypeReg<T>");
    assert("Reg"@ + "<T>"@ =~= "Reg<T>"@);
    assert("ResReg"@ + "<T>"@ =~= "ResReg<T>"@);
    assert("TypeReg"@ + "<T>"@ =~= "TypeReg<T>"@);
}

} // verus!
