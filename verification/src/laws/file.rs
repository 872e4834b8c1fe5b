//! What the definition file consists of, and what it holds for each thing that
//! the registry records.

use vstd::prelude::*;

use crate::classes::{
    class_declaration, class_functions, class_head, class_order, class_place, class_text,
    class_texts, law_class_order, layout_members, payload_text, registration_table,
    variant_name_override, variant_union_text,
};
use crate::docs::{flattened, lines, optional_doc_comment, trimmed_end};
use crate::ident::{callable, field_key_text};
use crate::lad::{
    LadArgument, LadFieldOrVariableKind, LadFile, LadFunctionNamespace, LadNamedField,
    LadTypeLayout, LadVariant,
};
use crate::laws::calls::{law_global_function, law_member, law_self_is_the_receiver};
use crate::laws::classes::{law_struct_fields, law_types_table, lemma_extends};
use crate::laws::kinds::lemma_brand_texts;
use crate::laws::{
    law_aliases, law_class_names, law_every_global_is_declared, lemma_class_in_file,
    lemma_member_in_file, lemma_occurs_in_file,
};
use crate::members::{
    function_docs, functions_of, global_function_text, global_function_texts, global_functions,
    global_place, is_global, lemma_functions_of, listed_params, member_declaration, member_text,
    member_texts,
};
use crate::naming::{self, lemma_positions_where, reference_type, TypeNames};
use crate::options::{FFLAGS, flag_lines, Options};
use crate::order::{
    law_sorted_positions, lemma_sorted_contains, plain_keys, precedes, sorted_positions,
};
use crate::overloads::{
    called_on_receiver, documentation_score, law_best_documented_copy_is_kept,
    law_one_member_per_signature, listed_args, overload_key, overloads, PlaceView, signature_text,
};
use crate::render::{
    base_place, global_lines, globals_order, HEADER, HEADER_END, instance_name, instance_type,
    is_shown, luau_text, shown_globals,
};
use crate::signature::{argument_label, generic_treatment, labelled_params, script_visible};
use crate::text::{
    concat, joined, lemma_occurs_in_concat, lemma_occurs_in_left, lemma_occurs_in_right,
    lemma_occurs_in_self, lemma_text_le_reflexive, occurs_in, option_text, text_le,
};
use crate::types::{branded, kind_text, type_text};

verus! {

/// The analysis flags are these.
pub proof fn law_flags()
    ensures
        FFLAGS@.len() == 5,
        FFLAGS@[0].0@ == "LuauTypeInferIterationLimit"@,
        FFLAGS@[0].1@ == "10000000"@,
        FFLAGS@[1].0@ == "LuauTarjanChildLimit"@,
        FFLAGS@[1].1@ == "1000000"@,
        FFLAGS@[2].0@ == "LuauTypeCloneIterationLimit"@,
        FFLAGS@[2].1@ == "10000000"@,
        FFLAGS@[3].0@ == "LuauSolverConstraintLimit"@,
        FFLAGS@[3].1@ == "100000"@,
        FFLAGS@[4].0@ == "LuauTypeInferRecursionLimit"@,
        FFLAGS@[4].1@ == "2000"@,
{
}

/// The flags are listed one to a line, as arguments and behind a prefix.
pub proof fn law_flag_lines(prefix: Seq<char>)
    ensures
        flag_lines(prefix) == Seq::new(
            5,
            |f: int| prefix + ("--flag:"@ + FFLAGS@[f].0@ + "="@ + FFLAGS@[f].1@) + "\n"@,
        ),
{
    assert(flag_lines(prefix) =~= Seq::new(
        5,
        |f: int| prefix + ("--flag:"@ + FFLAGS@[f].0@ + "="@ + FFLAGS@[f].1@) + "\n"@,
    ));
}

/// A global instance is declared with the table that its kind becomes, else
/// with the text of its kind.
pub proof fn law_instances(lad: LadFile, n: TypeNames, k: int)
    requires
        0 <= k < lad.globals@.len(),
    ensures
        instance_type(lad, n, lad.globals@[k].1) == match registration_table(
            lad,
            n,
            lad.globals@[k].1.type_kind,
        ) {
            Some(table) => table,
            None => kind_text(lad, n, lad.globals@[k].1.type_kind, false),
        },
{
}

/// The file is its header, which lists the flags; the brands that have a
/// registration type; the base class, if there is one; the classes of all types
/// that no primitive stands for, in order of their names; the global functions;
/// and the global instances that have a name that can be bound and are more
/// than an untyped primitive, in order of their names and, for those that share
/// one, of the file.
#[verifier::rlimit(40)]
pub proof fn law_definition_file(lad: LadFile, options: Options) -> (r: (Seq<int>, Seq<int>))
    ensures
        ({
            let (classes, globals) = r;
            let naming = naming::naming(lad, options);
            let n = naming.types;
            &&& classes.no_duplicates()
            &&& forall|i: int| #[trigger]
                classes.contains(i) <==> 0 <= i < lad.types@.len()
                    && lad.types@[i].1.metadata.mapped_to_primitive_kind is None
            &&& forall|a: int, b: int|
                0 <= a < b < classes.len() ==> text_le(
                    n.names[#[trigger] classes[a]]->0,
                    n.names[#[trigger] classes[b]]->0,
                )
            &&& globals.no_duplicates()
            &&& forall|k: int| #[trigger]
                globals.contains(k) <==> 0 <= k < lad.globals@.len() && callable(
                    lad.globals@[k].0@,
                ) is Some && !(instance_type(lad, n, lad.globals@[k].1) == "any"@
                    && lad.globals@[k].1.type_kind is Primitive)
            &&& forall|a: int, b: int|
                0 <= a < b < globals.len() ==> {
                    let one = callable(lad.globals@[#[trigger] globals[a]].0@)->0;
                    let other = callable(lad.globals@[#[trigger] globals[b]].0@)->0;
                    text_le(one, other) && (one == other ==> globals[a] < globals[b])
                }
            &&& luau_text(lad, options) == (HEADER@ + concat(flag_lines("--     "@))
                + HEADER_END@) + ((match n.regs[0] {
                Some(r) => "export type "@ + "Reg"@ + "<T> = "@ + type_text(
                    lad,
                    n,
                    lad.types@[r].0@,
                ) + " & { "@ + "__component"@ + ": T }\n"@,
                None => Seq::empty(),
            }) + (match n.regs[1] {
                Some(r) => "export type "@ + "ResReg"@ + "<T> = "@ + type_text(
                    lad,
                    n,
                    lad.types@[r].0@,
                ) + " & { "@ + "__resource"@ + ": T }\n"@,
                None => Seq::empty(),
            }) + (match n.regs[2] {
                Some(r) => "export type "@ + "TypeReg"@ + "<T> = "@ + type_text(
                    lad,
                    n,
                    lad.types@[r].0@,
                ) + " & { "@ + "__type"@ + ": T }\n"@,
                None => Seq::empty(),
            }) + (if n.regs[0] is Some || n.regs[1] is Some || n.regs[2] is Some {
                "\n"@
            } else {
                ""@
            })) + (match reference_type(lad) {
                Some(r) => {
                    let place = PlaceView { owner: Some("ReflectReference"@), is_base: true };
                    "declare extern type "@ + "ReflectReference"@ + " with\n"@ + concat(
                        overloads(
                            lad,
                            n,
                            place,
                            functions_of(lad, lad.types@[r].0@),
                        ).map_values(|j: int| member_text(lad, n, place, lad.functions@[j])),
                    ) + "end\n\n"@
                },
                None => Seq::empty(),
            }) + concat(classes.map_values(|i: int| class_text(lad, naming, i))) + concat(
                overloads(
                    lad,
                    n,
                    PlaceView { owner: None, is_base: false },
                    global_functions(lad),
                ).map_values(|j: int| global_function_text(lad, n, lad.functions@[j])),
            ) + concat(
                globals.map_values(
                    |k: int|
                        "declare "@ + callable(lad.globals@[k].0@)->0 + ": "@ + instance_type(
                            lad,
                            n,
                            lad.globals@[k].1,
                        ) + "\n"@,
                ),
            )
        }),
{
    let naming = naming::naming(lad, options);
    let n = naming.types;
    let classes = class_order(n);
    let shown = shown_globals(lad, n);
    let keys = plain_keys(shown.map_values(|k: int| instance_name(lad, k)));
    let globals = globals_order(lad, n);
    lemma_brand_texts();
    law_class_order(n);
    assert forall|i: int| #[trigger] classes.contains(i) <==> 0 <= i < lad.types@.len()
        && lad.types@[i].1.metadata.mapped_to_primitive_kind is None by {
        if 0 <= i < lad.types@.len() {
            law_class_names(lad, options, i);
        }
    }
    lemma_positions_where(lad.globals@.len(), |k: int| is_shown(lad, n, k));
    lemma_sorted_contains(shown, keys);
    law_sorted_positions(keys);
    let positions = sorted_positions(keys);
    assert forall|a: int, b: int| 0 <= a < b < globals.len() implies {
        let one = callable(lad.globals@[#[trigger] globals[a]].0@)->0;
        let other = callable(lad.globals@[#[trigger] globals[b]].0@)->0;
        text_le(one, other) && (one == other ==> globals[a] < globals[b])
    } by {
        assert(positions.contains(positions[a]));
        assert(positions.contains(positions[b]));
        assert(precedes(keys, positions[a], positions[b]));
        lemma_text_le_reflexive(keys[positions[a]].0);
    }
    assert(global_lines(lad, n) =~= globals.map_values(
        |k: int|
            "declare "@ + callable(lad.globals@[k].0@)->0 + ": "@ + instance_type(
                lad,
                n,
                lad.globals@[k].1,
            ) + "\n"@,
    ));
    assert(class_texts(lad, naming) =~= classes.map_values(|i: int| class_text(lad, naming, i)));
    let place = PlaceView { owner: Some("ReflectReference"@), is_base: true };
    assert(base_place() == place);
    if let Some(r) = reference_type(lad) {
        let fns = overloads(lad, n, place, functions_of(lad, lad.types@[r].0@));
        assert(member_texts(lad, n, place, fns) =~= fns.map_values(
            |j: int| member_text(lad, n, place, lad.functions@[j]),
        ));
    }
    (classes, globals)
}

/// Every struct with a class exports what its payload may hold, if the options
/// ask for it: one line for each key of its fields, in their order, with the
/// type of the first field of the key, each of which may be left out.
#[verifier::rlimit(40)]
pub proof fn law_payload_in_file(
    lad: LadFile,
    options: Options,
    i: int,
    fields: Seq<LadNamedField>,
    firsts: Seq<int>,
)
    requires
        0 <= i < lad.types@.len(),
        lad.types@[i].1.metadata.mapped_to_primitive_kind is None,
        options.init_types,
        lad.types@[i].1.layout matches LadTypeLayout::MonoVariant(
            LadVariant::Struct { name: _, fields: own },
        ) && own@ == fields,
        fields.len() > 0,
        forall|a: int, b: int|
            0 <= a < b < firsts.len() ==> #[trigger] firsts[a] < #[trigger] firsts[b],
        forall|k: int| #[trigger]
            firsts.contains(k) <==> 0 <= k < fields.len() && forall|e: int|
                0 <= e < k ==> field_key_text((#[trigger] fields[e]).name@) != field_key_text(
                    fields[k].name@,
                ),
    ensures
        ({
            let n = naming::naming(lad, options);
            &&& n.init_aliases[i] is Some
            &&& occurs_in(
                "export type "@ + n.init_aliases[i]->0 + " = {\n"@ + concat(
                    firsts.map_values(
                        |k: int|
                            "\t"@ + field_key_text(fields[k].name@) + ": "@ + kind_text(
                                lad,
                                n.types,
                                fields[k].type_,
                                false,
                            ) + "?,\n"@,
                    ),
                ) + "}\n"@,
                luau_text(lad, options),
            )
        }),
{
    let n = naming::naming(lad, options);
    law_aliases(lad, options, i);
    law_class_names(lad, options, i);
    law_struct_fields(lad, n.types, fields, firsts);
    let part = payload_text(lad, n, i);
    lemma_occurs_in_self(part);
    let union_part = variant_union_text(lad, n, i);
    lemma_occurs_in_right(part, union_part, part);
    lemma_occurs_in_left(
        part,
        union_part + part,
        class_declaration(lad, n, i),
    );
    lemma_class_in_file(lad, options, i, part);
}

/// A part of the members that a class has from its fields is a part of the
/// file.
proof fn lemma_layout_in_file(lad: LadFile, options: Options, i: int, part: Seq<char>)
    requires
        0 <= i < lad.types@.len(),
        lad.types@[i].1.metadata.mapped_to_primitive_kind is None,
        occurs_in(
            part,
            class_head(naming::naming(lad, options), i)
                + layout_members(lad, naming::naming(lad, options), i),
        ),
    ensures
        occurs_in(part, luau_text(lad, options)),
{
    let n = naming::naming(lad, options);
    let doc = optional_doc_comment(
        option_text(lad.types@[i].1.documentation),
        ""@,
    );
    let head = class_head(n, i);
    let layout = layout_members(lad, n, i);
    let overriding = variant_name_override(lad, n, i);
    let members = concat(
        member_texts(lad, n.types, class_place(n.types, i), class_functions(lad, n.types, i)),
    );
    lemma_occurs_in_right(part, doc, head + layout);
    assert(doc + (head + layout) =~= doc + head + layout);
    lemma_occurs_in_left(part, doc + head + layout, overriding);
    lemma_occurs_in_left(part, doc + head + layout + overriding, members);
    lemma_occurs_in_left(part, doc + head + layout + overriding + members, "end\n\n"@);
    lemma_occurs_in_right(
        part,
        variant_union_text(lad, n, i) + payload_text(lad, n, i),
        class_declaration(lad, n, i),
    );
    lemma_class_in_file(lad, options, i, part);
}

/// Every struct with a class is declared with a member for each key of its
/// fields, in their order, with the type of the first field of the key, none of
/// which is optional.
#[verifier::rlimit(40)]
pub proof fn law_struct_in_file(
    lad: LadFile,
    options: Options,
    i: int,
    fields: Seq<LadNamedField>,
    firsts: Seq<int>,
)
    requires
        0 <= i < lad.types@.len(),
        lad.types@[i].1.metadata.mapped_to_primitive_kind is None,
        lad.types@[i].1.layout matches LadTypeLayout::MonoVariant(
            LadVariant::Struct { name: _, fields: own },
        ) && own@ == fields,
        forall|a: int, b: int|
            0 <= a < b < firsts.len() ==> #[trigger] firsts[a] < #[trigger] firsts[b],
        forall|k: int| #[trigger]
            firsts.contains(k) <==> 0 <= k < fields.len() && forall|e: int|
                0 <= e < k ==> field_key_text((#[trigger] fields[e]).name@) != field_key_text(
                    fields[k].name@,
                ),
    ensures
        ({
            let n = naming::naming(lad, options);
            &&& n.types.names[i] is Some
            &&& occurs_in(
                "declare extern type "@ + n.types.names[i]->0 + (if reference_type(lad) is Some {
                    " extends ReflectReference"@
                } else {
                    ""@
                }) + " with\n"@ + concat(
                    firsts.map_values(
                        |k: int|
                            "\t"@ + field_key_text(fields[k].name@) + ": "@ + kind_text(
                                lad,
                                n.types,
                                fields[k].type_,
                                false,
                            ) + "\n"@,
                    ),
                ),
                luau_text(lad, options),
            )
        }),
{
    let n = naming::naming(lad, options);
    law_class_names(lad, options, i);
    law_struct_fields(lad, n.types, fields, firsts);
    lemma_extends();
    let part = class_head(n, i) + layout_members(lad, n, i);
    lemma_occurs_in_self(part);
    lemma_layout_in_file(lad, options, i, part);
}

/// The table that a global instance is declared with is in the file: a line for
/// exactly the types with a class whose identifier is the name of the class,
/// that are no instances of a generic type, and whose brand has a registration
/// type, and the indexer for everything else.
#[verifier::rlimit(40)]
pub proof fn law_table_in_file(
    lad: LadFile,
    options: Options,
    g: int,
    name: Seq<char>,
    key: LadFieldOrVariableKind,
    value: LadFieldOrVariableKind,
) -> (listed: Seq<int>)
    requires
        0 <= g < lad.globals@.len(),
        callable(lad.globals@[g].0@) == Some(name),
        lad.globals@[g].1.type_kind matches LadFieldOrVariableKind::HashMap(k, v) && *k == key
            && *v == value,
        kind_text(lad, naming::naming(lad, options).types, key, false) == "string"@,
        branded(lad, naming::naming(lad, options).types, value) is Some,
    ensures
        listed.no_duplicates(),
        ({
            let n = naming::naming(lad, options).types;
            &&& forall|i: int| #[trigger]
                listed.contains(i) <==> {
                    let def = lad.types@[i].1;
                    &&& 0 <= i < lad.types@.len()
                    &&& def.generics@.len() == 0
                    &&& n.names[i] == Some(def.identifier@)
                    &&& def.metadata.is_component ==> n.regs[0] is Some
                    &&& !def.metadata.is_component && def.metadata.is_resource ==> n.regs[1]
                        is Some
                    &&& !def.metadata.is_component && !def.metadata.is_resource ==> n.regs[2]
                        is Some
                }
            &&& occurs_in(
                "declare "@ + name + ": "@ + ("{\n"@ + concat(
                    listed.map_values(
                        |i: int|
                            "\t"@ + lad.types@[i].1.identifier@ + ": "@ + (
                            if lad.types@[i].1.metadata.is_component {
                                "Reg"@
                            } else if lad.types@[i].1.metadata.is_resource {
                                "ResReg"@
                            } else {
                                "TypeReg"@
                            }) + "<"@ + lad.types@[i].1.identifier@ + ">,\n"@,
                    ),
                ) + "\t[string]: "@ + kind_text(lad, n, value, false) + ",\n}"@) + "\n"@,
                luau_text(lad, options),
            )
        }),
{
    let n = naming::naming(lad, options).types;
    let listed = law_types_table(lad, n, lad.globals@[g].1.type_kind);
    assert(is_shown(lad, n, g));
    law_every_global_is_declared(lad, options, g);
    listed
}

/// Whatever is rendered of a global function: the best documented of its
/// copies, the first of them on a tie, is in the file, with its documentation
/// line by line, what is said of its arguments and of what it returns, and its
/// declaration.
#[verifier::rlimit(40)]
pub proof fn law_global_function_in_file(
    lad: LadFile,
    options: Options,
    j: int,
    name: Seq<char>,
    args: Seq<LadArgument>,
    generic: Option<(int, Seq<char>)>,
)
    requires
        0 <= j < lad.functions@.len(),
        lad.functions@[j].namespace is Global,
        callable(lad.functions@[j].identifier@) == Some(name),
        args == script_visible(lad.functions@[j]),
        ({
            let n = naming::naming(lad, options).types;
            let place = PlaceView { owner: None, is_base: false };
            &&& generic == generic_treatment(lad, n, args, lad.functions@[j].return_type.kind)
            &&& forall|f: int|
                0 <= f < lad.functions@.len() && (#[trigger] lad.functions@[f]).namespace is Global
                    && signature_text(lad, n, place, lad.functions@[f]) == signature_text(
                    lad,
                    n,
                    place,
                    lad.functions@[j],
                ) ==> documentation_score(lad.functions@[f]) < documentation_score(
                    lad.functions@[j],
                ) || (documentation_score(lad.functions@[f]) == documentation_score(
                    lad.functions@[j],
                ) && j <= f)
        }),
    ensures
        ({
            let n = naming::naming(lad, options).types;
            let func = lad.functions@[j];
            occurs_in(
                (match func.documentation {
                    Some(doc) => concat(
                        Seq::new(
                            lines(doc@).len(),
                            |k: int| "-- "@ + trimmed_end(lines(doc@)[k]) + "\n"@,
                        ),
                    ),
                    None => Seq::empty(),
                }) + (concat(
                    Seq::new(
                        args.len(),
                        |k: int|
                            match flattened(option_text(args[k].documentation)) {
                                Some(doc) => "-- @param "@ + argument_label(args[k], k)
                                    + " - "@ + doc + "\n"@,
                                None => Seq::empty(),
                            },
                    ),
                ) + (match flattened(option_text(func.return_type.documentation)) {
                    Some(doc) => match func.return_type.name {
                        Some(own) => match callable(own@) {
                            Some(label) => "-- @return "@ + label + " - "@ + doc + "\n"@,
                            None => "-- @return "@ + doc + "\n"@,
                        },
                        None => "-- @return "@ + doc + "\n"@,
                    },
                    None => Seq::empty(),
                })) + ("declare function "@ + name + (if generic is Some {
                    "<T>"@
                } else {
                    ""@
                }) + "("@ + joined(
                    Seq::new(
                        args.len(),
                        |k: int|
                            argument_label(args[k], k) + ": "@ + match generic {
                                Some((at, brand)) => if at == k {
                                    brand
                                } else {
                                    kind_text(lad, n, args[k].kind, true)
                                },
                                None => kind_text(lad, n, args[k].kind, false),
                            },
                    ),
                    ", "@,
                ) + "): "@ + kind_text(lad, n, func.return_type.kind, generic is Some) + "\n\n"@),
                luau_text(lad, options),
            )
        }),
{
    let naming = naming::naming(lad, options);
    let n = naming.types;
    let place = global_place();
    let all = global_functions(lad);
    let kept = overloads(lad, n, place, all);
    lemma_positions_where(lad.functions@.len(), |j: int| is_global(lad.functions@[j]));
    assert(all.contains(j));
    lemma_best_is_kept(lad, n, place, all, j);
    let p = choose|p: int| 0 <= p < kept.len() && kept[p] == j;
    let texts = global_function_texts(lad, n);
    let part = global_function_text(lad, n, lad.functions@[j]);
    assert(texts[p] == part);
    lemma_occurs_in_self(part);
    lemma_occurs_in_concat(part, texts, p);
    lemma_occurs_in_file(lad, naming, part);
    law_global_function(lad, n, lad.functions@[j], args, generic);
}

/// The best documented copy of a function, the first on a tie, is rendered.
proof fn lemma_best_is_kept(lad: LadFile, n: TypeNames, place: PlaceView, fns: Seq<int>, j: int)
    requires
        fns.contains(j),
        forall|a: int, b: int| 0 <= a < b < fns.len() ==> #[trigger] fns[a] < #[trigger] fns[b],
        forall|f: int| #[trigger]
            fns.contains(f) && signature_text(lad, n, place, lad.functions@[f]) == signature_text(
                lad,
                n,
                place,
                lad.functions@[j],
            ) ==> documentation_score(lad.functions@[f]) < documentation_score(lad.functions@[j])
                || (documentation_score(lad.functions@[f]) == documentation_score(
                lad.functions@[j],
            ) && j <= f),
    ensures
        overloads(lad, n, place, fns).contains(j),
{
    let kept = overloads(lad, n, place, fns);
    law_one_member_per_signature(lad, n, place, fns);
    let p = choose|p: int|
        0 <= p < kept.len() && overload_key(lad, n, place, #[trigger] kept[p]) == overload_key(
            lad,
            n,
            place,
            j,
        );
    let g = kept[p];
    assert(kept.contains(g));
    assert(fns.contains(g));
    law_best_documented_copy_is_kept(lad, n, place, fns, g, j);
}

/// Whatever is rendered of a function of a class: the best documented of its
/// copies, the first of them on a tie, is in the file, with its documentation
/// line by line, what is said of its arguments and of what it returns, and its
/// declaration.
#[verifier::rlimit(40)]
pub proof fn law_member_in_file(
    lad: LadFile,
    options: Options,
    i: int,
    j: int,
    class: Seq<char>,
    name: Seq<char>,
    args: Seq<LadArgument>,
    generic: Option<(int, Seq<char>)>,
    params: Seq<char>,
    ret: Seq<char>,
)
    requires
        0 <= i < lad.types@.len(),
        lad.types@[i].1.metadata.mapped_to_primitive_kind is None,
        naming::naming(lad, options).types.names[i] == Some(class),
        0 <= j < lad.functions@.len(),
        lad.functions@[j].namespace matches LadFunctionNamespace::Type(t) && t@
            == lad.types@[i].0@,
        callable(lad.functions@[j].identifier@) == Some(name),
        ({
            let n = naming::naming(lad, options).types;
            let place = PlaceView { owner: Some(class), is_base: false };
            &&& args == listed_args(lad, n, place, lad.functions@[j])
            &&& generic == generic_treatment(lad, n, args, lad.functions@[j].return_type.kind)
            &&& params == joined(
                Seq::new(
                    args.len(),
                    |k: int|
                        argument_label(args[k], k) + ": "@ + match generic {
                            Some((at, brand)) => if at == k {
                                brand
                            } else {
                                kind_text(lad, n, args[k].kind, true)
                            },
                            None => kind_text(lad, n, args[k].kind, false),
                        },
                ),
                ", "@,
            )
            &&& ret == kind_text(lad, n, lad.functions@[j].return_type.kind, generic is Some)
            &&& forall|f: int|
                0 <= f < lad.functions@.len() && (
                (#[trigger] lad.functions@[f]).namespace matches LadFunctionNamespace::Type(t)
                    && t@ == lad.types@[i].0@) && signature_text(
                    lad,
                    n,
                    place,
                    lad.functions@[f],
                ) == signature_text(lad, n, place, lad.functions@[j]) ==> documentation_score(
                    lad.functions@[f],
                ) < documentation_score(lad.functions@[j]) || (documentation_score(
                    lad.functions@[f],
                ) == documentation_score(lad.functions@[j]) && j <= f)
        }),
    ensures
        ({
            let n = naming::naming(lad, options).types;
            let place = PlaceView { owner: Some(class), is_base: false };
            let func = lad.functions@[j];
            occurs_in(
                (match func.documentation {
                    Some(doc) => concat(
                        Seq::new(
                            lines(doc@).len(),
                            |k: int| "\t-- "@ + trimmed_end(lines(doc@)[k]) + "\n"@,
                        ),
                    ),
                    None => Seq::empty(),
                }) + (concat(
                    Seq::new(
                        args.len(),
                        |k: int|
                            match flattened(option_text(args[k].documentation)) {
                                Some(doc) => "\t-- @param "@ + argument_label(args[k], k)
                                    + " - "@ + doc + "\n"@,
                                None => Seq::empty(),
                            },
                    ),
                ) + (match flattened(option_text(func.return_type.documentation)) {
                    Some(doc) => match func.return_type.name {
                        Some(own) => match callable(own@) {
                            Some(label) => "\t-- @return "@ + label + " - "@ + doc + "\n"@,
                            None => "\t-- @return "@ + doc + "\n"@,
                        },
                        None => "\t-- @return "@ + doc + "\n"@,
                    },
                    None => Seq::empty(),
                })) + (if called_on_receiver(lad, n, place, func) && generic is None {
                    "\tfunction "@ + name + "(self"@ + (if params.len() > 0 {
                        ", "@
                    } else {
                        ""@
                    }) + params + "): "@ + ret + "\n"@
                } else if called_on_receiver(lad, n, place, func) {
                    "\t"@ + name + ": <T>(self: "@ + class + (if params.len() > 0 {
                        ", "@
                    } else {
                        ""@
                    }) + params + ") -> "@ + ret + "\n"@
                } else {
                    "\t"@ + name + ": "@ + (if generic is Some {
                        "<T>"@
                    } else {
                        ""@
                    }) + "("@ + params + ") -> "@ + ret + "\n"@
                }),
                luau_text(lad, options),
            )
        }),
{
    let n = naming::naming(lad, options).types;
    let place = PlaceView { owner: Some(class), is_base: false };
    assert(class_place(n, i) == place);
    let id = lad.types@[i].0@;
    let all = functions_of(lad, id);
    let kept = class_functions(lad, n, i);
    lemma_functions_of(lad, id);
    assert(all.contains(j));
    lemma_best_is_kept(lad, n, place, all, j);
    let p = choose|p: int| 0 <= p < kept.len() && kept[p] == j;
    let texts = member_texts(lad, n, place, kept);
    let part = member_text(lad, n, place, lad.functions@[j]);
    assert(texts[p] == part);
    lemma_occurs_in_self(part);
    lemma_occurs_in_concat(part, texts, p);
    lemma_member_in_file(lad, options, i, part);
    law_member(lad, n, place, lad.functions@[j], args, generic, params, ret);
}

/// A function of a class that takes the class itself first, by reference or by
/// value, and is not generic is declared as a method: `self`, and the arguments
/// behind it. What is declared is the best documented of its copies, the first
/// of them on a tie.
#[verifier::rlimit(40)]
pub proof fn law_method_in_file(
    lad: LadFile,
    options: Options,
    i: int,
    j: int,
    class: Seq<char>,
    name: Seq<char>,
    args: Seq<LadArgument>,
    params: Seq<char>,
)
    requires
        lad.wf(),
        0 <= i < lad.types@.len(),
        lad.types@[i].1.metadata.mapped_to_primitive_kind is None,
        naming::naming(lad, options).types.names[i] == Some(class),
        0 <= j < lad.functions@.len(),
        lad.functions@[j].namespace matches LadFunctionNamespace::Type(t) && t@
            == lad.types@[i].0@,
        callable(lad.functions@[j].identifier@) == Some(name),
        script_visible(lad.functions@[j]).len() > 0,
        match script_visible(lad.functions@[j])[0].kind {
            LadFieldOrVariableKind::Ref(id) => id@ == lad.types@[i].0@,
            LadFieldOrVariableKind::Mut(id) => id@ == lad.types@[i].0@,
            LadFieldOrVariableKind::Val(id) => id@ == lad.types@[i].0@,
            _ => false,
        },
        args == script_visible(lad.functions@[j]).skip(1),
        ({
            let n = naming::naming(lad, options).types;
            let place = PlaceView { owner: Some(class), is_base: false };
            &&& generic_treatment(lad, n, args, lad.functions@[j].return_type.kind) is None
            &&& params == joined(
                Seq::new(
                    args.len(),
                    |k: int|
                        argument_label(args[k], k) + ": "@ + kind_text(
                            lad,
                            n,
                            args[k].kind,
                            false,
                        ),
                ),
                ", "@,
            )
            &&& forall|f: int|
                0 <= f < lad.functions@.len() && (
                (#[trigger] lad.functions@[f]).namespace matches LadFunctionNamespace::Type(t)
                    && t@ == lad.types@[i].0@) && signature_text(
                    lad,
                    n,
                    place,
                    lad.functions@[f],
                ) == signature_text(lad, n, place, lad.functions@[j]) ==> documentation_score(
                    lad.functions@[f],
                ) < documentation_score(lad.functions@[j]) || (documentation_score(
                    lad.functions@[f],
                ) == documentation_score(lad.functions@[j]) && j <= f)
        }),
    ensures
        occurs_in(
            "\tfunction "@ + name + "(self"@ + (if args.len() > 0 {
                ", "@
            } else {
                ""@
            }) + params + "): "@ + kind_text(
                lad,
                naming::naming(lad, options).types,
                lad.functions@[j].return_type.kind,
                false,
            ) + "\n"@,
            luau_text(lad, options),
        ),
{
    let n = naming::naming(lad, options).types;
    let place = PlaceView { owner: Some(class), is_base: false };
    let func = lad.functions@[j];
    law_self_is_the_receiver(lad, options, i, func);
    let generic: Option<(int, Seq<char>)> = None;
    let listed = Seq::new(
        args.len(),
        |k: int|
            argument_label(args[k], k) + ": "@ + match generic {
                Some((at, brand)) => if at == k {
                    brand
                } else {
                    kind_text(lad, n, args[k].kind, true)
                },
                None => kind_text(lad, n, args[k].kind, false),
            },
    );
    assert(listed =~= Seq::new(
        args.len(),
        |k: int| argument_label(args[k], k) + ": "@ + kind_text(lad, n, args[k].kind, false),
    ));
    if args.len() > 0 {
        lemma_labelled_is_not_empty(listed);
    }
    let ret = kind_text(lad, n, func.return_type.kind, false);
    law_member(lad, n, place, func, args, generic, params, ret);
    let id = lad.types@[i].0@;
    let all = functions_of(lad, id);
    let kept = class_functions(lad, n, i);
    assert(class_place(n, i) == place);
    lemma_functions_of(lad, id);
    assert(all.contains(j));
    lemma_best_is_kept(lad, n, place, all, j);
    let p = choose|p: int| 0 <= p < kept.len() && kept[p] == j;
    let texts = member_texts(lad, n, place, kept);
    let whole = member_text(lad, n, place, func);
    assert(texts[p] == whole);
    let docs = function_docs(lad, n, place, func, "\t"@);
    let part = member_declaration(lad, n, place, func, name);
    lemma_occurs_in_self(part);
    lemma_occurs_in_right(part, docs, part);
    lemma_occurs_in_concat(part, texts, p);
    lemma_member_in_file(lad, options, i, part);
    assert(params == listed_params(lad, n, place, func)) by {
        assert(labelled_params(lad, n, args, generic) =~= listed);
    }
}

/// Joined parameters are not empty.
proof fn lemma_labelled_is_not_empty(listed: Seq<Seq<char>>)
    requires
        listed.len() > 0,
        forall|k: int| 0 <= k < listed.len() ==> (#[trigger] listed[k]).len() > 0,
    ensures
        joined(listed, ", "@).len() > 0,
{
    assert(listed[listed.len() - 1].len() > 0);
    assert(listed.last().len() > 0);
}

} // verus!
